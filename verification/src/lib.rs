//! Bookkeeping of live streams: sessions, their split into days, and reports.
pub mod aggregate;
pub mod bus;
pub mod calendar;
pub mod clock;
pub mod config;
pub mod daily;
pub mod hours;
pub mod monitor;
pub mod query;
pub mod reading;
pub mod report;
pub mod segments;
pub mod session;
pub mod split;
pub mod stats;
pub mod storage;
pub mod streak;
pub mod text;
pub mod wire;
