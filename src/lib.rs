//! Reshapes a raw visitor-metrics snapshot into a daily report and keeps the
//! latest report for readers.
pub mod calendar;
pub mod country;
pub mod json;
pub mod poller;
pub mod report;
pub mod store;
pub mod text;
