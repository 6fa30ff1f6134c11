//! In-process scheduling: jobs that recur on a cron expression or at a fixed
//! interval, and the computation of the next instant at which one is due.

pub mod agenda;
pub mod calendar;
pub mod constraint;
pub mod cron;
pub mod error;
pub mod job;
pub mod parser;
pub mod resolver;
pub mod schedule;
pub mod timestamp;

pub use agenda::Agenda;
