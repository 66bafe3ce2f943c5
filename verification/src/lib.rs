//! Core of a terminal Pomodoro timer with a three-section task list that can
//! mirror a plain-text checklist file.
//!
//! The checklist codec, the sync engine that reconciles the in-memory store
//! with an externally edited file, the task store, the focus controller, and
//! the countdown state machine live here, each with a verified contract.
//! Terminal rendering, key decoding, and file reads and writes stay with the
//! binary that embeds this crate.

pub mod checklist;
pub mod digits;
pub mod panel;
pub mod sync;
pub mod task;
pub mod task_input;
pub mod task_manager;
pub mod tasks_panel;
pub mod timer;
pub mod timer_panel;
pub mod wrap;
