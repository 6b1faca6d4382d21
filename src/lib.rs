//! A MySQL-to-PostgreSQL gateway's core: the credential check, the
//! interception of MySQL-only statements, the translation of MySQL dialect
//! into PostgreSQL syntax, and the mapping of backend outcomes into client
//! responses.
use vstd::prelude::*;

pub mod auth;
pub mod config;
pub mod intercept;
pub mod query;
pub mod repair;
pub mod server;
pub mod text;
pub mod translate;

verus! {

} // verus!
