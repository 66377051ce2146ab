//! Verified core of a skill manager: diagnosing and repairing the links that
//! tool directories hold to a central skills repository, and exporting and
//! importing a portable manifest of skills, scenarios and settings.
//!
//! Everything that touches the file system or the database is left to the
//! caller, which hands the library plain values and carries out the steps
//! the library plans.

pub mod strings;
pub mod fresh;
pub mod records;
pub mod links;
pub mod manifest;
pub mod import;
