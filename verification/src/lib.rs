//! grafbabe keeps a month of one Prometheus endpoint's metrics and serves a
//! dashboard of them. This library holds the program's decisions: its
//! settings, its database schema versions, which events answer a request
//! and how their values group into series, what a snapshot adds, and how an
//! HTTP request is answered.
use vstd::prelude::*;

pub mod text;
pub mod config;
pub mod ini;
pub mod args;
pub mod models;
pub mod sampling;
pub mod migrations;
pub mod series;
pub mod snapshot;
pub mod http;
pub mod files;
pub mod serve;
pub mod messages;

verus! {

} // verus!
