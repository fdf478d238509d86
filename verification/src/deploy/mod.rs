//! Deploy seam. `none` is a no-op; `rmapi` uploads (pdf, folder) pairs.
pub mod local;
pub mod rmapi;

use vstd::prelude::*;

use crate::config::Config;
use crate::text::str_eq;

verus! {

/// A failure reported by a deploy backend.
#[derive(Debug, Clone, PartialEq)]
pub struct DeployError {
    pub message: String,
}

pub trait Deployer {
    /// Upload each `(pdf path, remote folder)` target.
    fn deploy(&self, targets: &[(String, String)]) -> Result<(), DeployError>;

    /// Replace the content of already-uploaded targets, keeping annotations.
    fn refresh(&self, targets: &[(String, String)]) -> Result<(), DeployError>;

    /// Download the bundle for `<folder>/<name>` to a stable temp path;
    /// `Ok(None)` when the document does not exist yet (e.g. first run).
    fn fetch(&self, folder: &str, name: &str) -> Result<Option<String>, DeployError>;

    /// Full replace: remove the existing doc (ignored if absent), then upload.
    fn replace(&self, pdf: &str, folder: &str) -> Result<(), DeployError>;
}

/// Which deploy backend a configuration selects.
#[derive(Debug, Clone, Copy, PartialEq, Eq, Structural)]
pub enum Backend {
    Local,
    Rmapi,
}

pub open spec fn backend_spec(name: Seq<char>) -> Option<Backend> {
    if name == "none"@ {
        Some(Backend::Local)
    } else if name == "rmapi"@ {
        Some(Backend::Rmapi)
    } else {
        None
    }
}

/// The backend named by `deploy.backend`: `none` or `rmapi`.
pub fn get_deployer(config: &Config) -> (r: Result<Backend, DeployError>)
    ensures
        backend_spec(config.deploy.backend@) matches Some(b) ==> r == Ok::<Backend, DeployError>(
            b,
        ),
        backend_spec(config.deploy.backend@) is None ==> r is Err,
{
    proof {
        reveal_strlit("none");
        reveal_strlit("rmapi");
    }
    let name = config.deploy.backend.as_str();
    if str_eq(name, "none") {
        Ok(Backend::Local)
    } else if str_eq(name, "rmapi") {
        Ok(Backend::Rmapi)
    } else {
        let mut m: Vec<char> = Vec::new();
        crate::text::extend_str(&mut m, "unsupported deploy backend: ");
        crate::text::extend_str(&mut m, name);
        Err(DeployError { message: crate::text::string_of(&m) })
    }
}

} // verus!
