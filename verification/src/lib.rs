//! Task-tree kanban logic and spaced-repetition helpers, verified with Verus.

pub mod archive;
pub mod board;
pub mod browser;
pub mod calendar;
pub mod cards;
pub mod bulk;
pub mod config;
pub mod display;
pub mod done;
pub mod edit;
pub mod evaluation;
pub mod filter;
pub mod finder_screen;
pub mod flags;
pub mod folds;
pub mod input;
pub mod insert;
pub mod kanban;
pub mod keywords;
pub mod keys;
pub mod laws;
pub mod list_laws;
pub mod navigate;
pub mod numbering;
pub mod outside;
pub mod planning;
pub mod presses;
pub mod projects;
pub mod review;
pub mod screens;
pub mod snapshots;
pub mod rows;
pub mod search;
pub mod sorting;
pub mod status;
pub mod summary;
pub mod task;
pub mod text;
pub mod topics;
pub mod tree;
pub mod tree_laws;
pub mod visual;
