use zen::calendar::{DayClass, calendar_grid, days_in_month};

#[test]
fn days_in_month_follows_the_gregorian_calendar() {
    assert_eq!(days_in_month(2024, 2), 29);
    assert_eq!(days_in_month(2023, 2), 28);
    assert_eq!(days_in_month(1900, 2), 28);
    assert_eq!(days_in_month(2000, 2), 29);
    assert_eq!(days_in_month(2024, 4), 30);
    assert_eq!(days_in_month(2024, 12), 31);
}

#[test]
fn calendar_grid_marks_each_day() {
    let (blank, cells) = calendar_grid(3, 30, 4, &vec![2, 4, 6]);
    assert_eq!(blank, 3);
    assert_eq!(cells.len(), 30);
    assert_eq!(cells[0], (1, DayClass::Missed));
    assert_eq!(cells[1], (2, DayClass::Reviewed));
    assert_eq!(cells[2], (3, DayClass::Missed));
    assert_eq!(cells[3], (4, DayClass::Today));
    assert_eq!(cells[4], (5, DayClass::Future));
    assert_eq!(cells[5], (6, DayClass::Reviewed));
    assert_eq!(cells[29], (30, DayClass::Future));
}
