//! A registry of network services and their host instances, kept in a shared
//! key-value backend and republished as a list of scrape targets.

pub mod connect;
pub mod discovery;
pub mod error;
pub mod instance;
pub mod laws;
pub mod monitor;
pub mod naming;
pub mod operation;
pub mod registry;
pub mod store;
pub mod text;
pub mod text_map;
pub mod text_set;
pub mod transaction;
