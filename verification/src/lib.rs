//! Verified core of an environmental monitoring station: calendar arithmetic,
//! the synced wall clock, the CSV log format and how the daily graph reads it
//! back, time sync packets, the reading histories and screen geometry of the
//! dashboard, and the decisions of the sampling loop.
pub mod calendar;
pub mod rtc;
pub mod decimal;
pub mod daily_history;
pub mod sdcard;
pub mod netsync;
pub mod ui;
pub mod control;
