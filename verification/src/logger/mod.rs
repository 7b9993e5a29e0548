//! The session logger: what it writes of a terminal session, what it takes for
//! the wish to stop, and how it ends the session.

pub mod args;
pub mod logfile;
pub mod safe_view;
pub mod session;
pub mod signals;
pub mod stop_trigger;
pub mod terminal;
pub mod timestamp;
