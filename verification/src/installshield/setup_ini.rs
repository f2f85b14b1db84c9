//! The file `setup.ini`.
use vstd::prelude::*;

verus! {

/// What `setup.ini` says.
#[derive(Debug)]
pub struct SetupIni {
    pub startup: Startup,
    pub languages: Languages,
}

/// The section `Startup`.
#[derive(Debug)]
pub struct Startup {
    pub cmd_line: String,
    /// 0 is basic MSI, 1 InstallScript, 2 basic MSI with InstallScript, 4 InstallScript Unicode.
    pub script_driven: Option<String>,
    pub company_name: Option<String>,
    pub package_name: Option<String>,
    pub product: Option<String>,
    pub product_code: Option<String>,
    pub product_version: Option<String>,
    pub upgrade_code: Option<String>,
}

/// The section `Languages`.
#[derive(Debug)]
pub struct Languages {
    pub default: String,
}

} // verus!
