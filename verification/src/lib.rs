//! Time capsules: content that is stored now and becomes readable at a later
//! instant.
//!
//! The crate holds the rules of the capsule service: which creation requests
//! are accepted, how public identifiers are kept unique, when a capsule's
//! content may be shown, and in which order and in which pages capsules are
//! listed. The rules are stated over a mathematical model of the stored
//! capsules and proved of the code that carries them out.
//!
//! - `capsule`: a capsule and the time lock on its content.
//! - `calendar`: leap years, months, and the days between two dates.
//! - `timestamp`: instants, the texts that name them, and how one is written.
//! - `error`: the failures of the store and of the service.
//! - `store`: the stored capsules, newest first, under unique identifiers.
//! - `service`: creation, read and listing, and the decisions they rest on.
//! - `laws`: what holds of the service whatever is asked of it.
//! - `config`: the settings of a deployment.
//!
//! One thing is taken on trust: the URL parser that `config` calls.
pub mod calendar;
pub mod capsule;
pub mod config;
pub mod error;
pub mod laws;
pub mod service;
pub mod store;
pub mod timestamp;
