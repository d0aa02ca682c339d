//! Read-only query API over the traffic statistics of a NetFlow collector:
//! the rules of the service, each with its contract.

pub mod address;
pub mod auth;
pub mod cli;
pub mod config;
pub mod error;
pub mod models;
pub mod query;
pub mod routes;
pub mod text;
pub mod threshold;
pub mod timeutil;
