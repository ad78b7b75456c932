//! The process configuration: which datasets to load, and where the shared
//! introspection and canonical schema definitions live.

use vstd::prelude::*;

verus! {

/// The whole configuration file.
#[derive(Debug)]
pub struct Config {
    pub config: ConfigConfig,
    pub database: Vec<ConfigDatabase>,
}

/// The shared schema definitions every dataset reuses.
#[derive(Debug)]
pub struct ConfigConfig {
    pub instropection: String,
    pub canonical: String,
}

/// One dataset to load, by name.
#[derive(Debug)]
pub struct ConfigDatabase {
    pub name: String,
}

} // verus!
