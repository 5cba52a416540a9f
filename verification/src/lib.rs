//! A Pomodoro countdown timer library: a pure timer-state model with its
//! transition logic, the keyboard/tick decisions of the render loop, and the
//! textual state-file format used to persist the timer across runs.

pub mod codec;
pub mod decimal;
pub mod timer;
