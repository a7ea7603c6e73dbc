//! A daily checklist: tasks with a three-step status, stored one per line
//! in a plain text file per day, browsed and edited from a terminal.
pub mod history;
pub mod session;
pub mod storage;
pub mod task;
pub mod text;
pub mod view;
