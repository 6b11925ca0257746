//! System health report library: the decisions and text processing behind
//! the health monitor (prompt building, log trimming, fix-command parsing,
//! Discord message layout and the report scheduler).

pub mod ai;
pub mod bot;
pub mod config;
pub mod confirm;
pub mod dispatch;
pub mod embed;
pub mod fix;
pub mod logs;
pub mod metrics;
pub mod report;
pub mod schedule;
pub mod text;
pub mod watch;
