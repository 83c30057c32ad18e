//! A read-only projector from a flat list of calendar events to a day's
//! timetable and a one-line "now" status.

pub mod time;
pub mod text;
pub mod day;
pub mod status;
pub mod table;
