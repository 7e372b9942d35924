# zen

A modal, keyboard-driven kanban board for the terminal, with its logic
verified by Verus.

Tasks live in a tree. The tree view (PLAN) edits structure; the board view
(ACTION) shows the leaf tasks in three columns, Todo, Doing and Done. A
parent's status follows its children's.

## Layout

- `src/` — the library, every function with a contract proved by Verus:
  - `task`, `tree`, `status` — tasks, the tree walk, status changes and
    their propagation to the parents;
  - `board`, `kanban`, `sorting`, `navigate`, `filter`, `projects`,
    `planning` — what each column shows and in what order, cursors, project
    slots and filters, and the moves between the two views;
  - `insert`, `bulk`, `edit`, `visual`, `flags`, `presses`, `archive`,
    `snapshots`, `rows`, `summary` — the editing operations, undo and redo,
    the tree rows, the archive and snapshot records, the project summary;
  - `input`, `keys` — what each key does in each mode;
  - `cards`, `finder_screen`, `review`, `screens`, `evaluation`, `config`,
    `keywords`, `topics`, `calendar` — the flash-card side: identifiers,
    fuzzy search, review sessions and their tallies, the review and card
    screens, reading a model's evaluation,
    the keywords of an answer, the topics a session takes up, and the month
    calendar of the statistics;
  - `display`, `text` — durations, scrolling, decimal numbers and the
    message texts;
  - `numbering`, `browser` — the snapshot viewer's rows (sibling numbers,
    project separators, scrolling) and the year/month/day tree of the
    snapshot browser;
  - `folds`, `search` — folding, focusing on the first unfinished leaf of a
    root (the `z` chords), and searching the titles of the tree;
  - `laws` — properties across operations (undo, flags, folding, the board,
    moving tasks and moving them back, status propagation, project
    inheritance, review tallies);
  - `outside` — the clock (`std::time`) and fresh identifiers (`uuid`).
  Other calls into outside code sit, each behind a small trusted item, next
  to the logic that uses them: `rand` and `nucleo-matcher` in `cards`, and
  `str`/`String`/`char` methods of `std` in `review`, `search` and
  `keywords`.
- `tests/` — tests on concrete values.
- `app/` — the program: terminal drawing, keys from `crossterm`, files
  (tasks, snapshots, archive) and the command line.

## Behaviour

The task board follows one design throughout:

- Ten named project slots filter what the views show; INBOX holds the tasks
  of no named project.
- Deleting a task removes it alone: its children stay, as top-level tasks.
- A task typed into the insert prompt gets the status the prompt carries
  (Todo), whatever its parent's status; the parents' statuses then follow
  their children.
- The board shows the leaf tasks: those with no Todo or Doing child.
- In the tree, Enter goes back to the board and Backspace and Tab leave the
  tree; `i` and `a` edit the title at its start and end.

An alternative design that cascades a deletion to the whole subtree and makes
a child typed under a Doing parent Doing is not followed.
