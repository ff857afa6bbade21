//! Static data model for an economic simulation: catalog records for wares,
//! buildings and population classes, production recipes, and the `Balance`
//! ledger algebra that ties them together.

pub mod balance;
pub mod config;
pub mod model;
pub mod error;
