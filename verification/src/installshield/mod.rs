//! InstallShield installers.
pub mod entries;
pub mod file;
pub mod installer;
pub mod read;
pub mod return_codes;
pub mod setup_ini;
pub mod setup_iss;
pub mod setup_xml;
