//! A reminder engine over a checklist document: task lines are parsed into
//! tasks, each task is checked against the current moment, and a set of
//! identity keys makes sure that every task is reported at most once.

pub mod calendar;
pub mod parser;
pub mod reminder;
pub mod task;
pub mod text;

pub use calendar::{Date, Moment};
pub use parser::parse_tasks;
pub use reminder::{is_due, run_cycle, NotifiedSet};
pub use task::Task;
