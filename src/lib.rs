//! A leveled logger whose persistence pipeline is a verified state machine:
//! configuration, line formatting, the writer's decisions and rolling
//! truncation are proved here, together with the collaborators they use
//! (color escape sequences, timestamps) and address validation. The thread,
//! the queue and the file are driven from outside through these decisions.

pub mod config;
pub mod format;
pub mod worker;
pub mod color;
pub mod clock;
pub mod net;
