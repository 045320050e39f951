//! Resolution of a weekly recurring timetable.
//!
//! A [`Timetable`] lists, for each [`Day`] of the week, the events that recur
//! on that day. Given the current [`Moment`] and a notification lead in
//! minutes, [`resolve_active`] says which event is inside its notification
//! window right now, and [`resolve_next_wakeup`] says how long to wait until
//! the next event's notification threshold, across day and week boundaries.
//!
//! Every function of this crate is verified against the contract it carries.

pub mod command;
pub mod day;
pub mod event;
pub mod order;
pub mod resolve;
pub mod time;
pub mod timetable;

pub use command::CommandArgs;
pub use day::{Day, InvalidDay};
pub use event::{compare_events, Event};
pub use resolve::{resolve_active, resolve_next_wakeup, Wakeup};
pub use time::{Moment, TimeOfDay};
pub use timetable::{events_on, Timetable};
