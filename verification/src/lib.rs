//! Reconciliation of parliamentary divisions with discussion threads.
//!
//! A pass takes the remote listing of divisions, opens a thread for every
//! division that has none yet, and posts into the thread of every division
//! whose publication marker moved. The decisions are made by
//! [`engine::Engine`], a state machine that is told what each outside call
//! returned and answers with the next call to make; the caller owns the
//! network and the database.

pub mod engine;
pub mod errors;
pub mod laws;
pub mod model;
pub mod pass;
pub mod platform;
pub mod schedule;
pub mod source;
pub mod store;
