//! A small personal time-tracking library: an in-memory task store with a
//! single-active-task rule, monotone id assignment, and a CSV representation
//! for persistence between invocations.

pub mod codec;
pub mod config;
pub mod csv;
pub mod laws;
pub mod num;
pub mod task;
pub mod tasks;
pub mod text;
pub mod time;
