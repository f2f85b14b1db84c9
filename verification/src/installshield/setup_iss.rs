//! The response file `setup.iss`.
use vstd::prelude::*;

verus! {

/// What `setup.iss` says.
#[derive(Debug)]
pub struct SetupIss {
    pub application: Application,
}

/// The section `Application`.
#[derive(Debug)]
pub struct Application {
    pub name: String,
    pub version: String,
    pub company: String,
}

} // verus!
