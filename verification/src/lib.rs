//! Reconciliation engine for a queue of filesystem scan events.
//!
//! Each [`event::ScanEvent`] tracks one file path: whether the file has been
//! seen on disk with the expected content digest, and how far notification of
//! the configured downstream targets has progressed, with exponential-backoff
//! retries up to a configured ceiling.  The pipeline stages live on
//! [`runner::PulseRunner`]; aggregate queries and event creation live on
//! [`service::PulseService`].

pub mod clock;
pub mod event;
pub mod laws;
pub mod runner;
pub mod service;
pub mod settings;
pub mod store;
