//! Local backend "none": PDFs are already on disk; deploy and refresh do
//! nothing.
use vstd::prelude::*;

use super::{DeployError, Deployer};

verus! {

#[derive(Debug)]
pub struct LocalDeployer;

impl Deployer for LocalDeployer {
    fn deploy(&self, targets: &[(String, String)]) -> (r: Result<(), DeployError>)
        ensures
            r is Ok,
    {
        Ok(())
    }

    fn refresh(&self, targets: &[(String, String)]) -> (r: Result<(), DeployError>)
        ensures
            r is Ok,
    {
        Ok(())
    }

    fn fetch(&self, folder: &str, name: &str) -> (r: Result<Option<String>, DeployError>)
        ensures
            r matches Ok(None),
    {
        Ok(None)
    }

    fn replace(&self, pdf: &str, folder: &str) -> (r: Result<(), DeployError>)
        ensures
            r is Ok,
    {
        Ok(())
    }
}

} // verus!
