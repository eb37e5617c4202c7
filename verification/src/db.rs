//! The records that the registry of installations stores.

pub use crate::commands::PhpVersion;
pub use crate::releases::InstallUrl;
