//! The data contract with the twin for the records that hold no
//! measurements: services and deployment references.
use vstd::prelude::*;

verus! {

/// A Kubernetes service and the deployment its `app` selector points at.
pub struct Service {
    pub namespace: String,
    pub name: String,
    pub deployment: String,
}

/// A deployment the twin knows of.
pub struct DeployRef {
    pub namespace: String,
    pub name: String,
}

} // verus!
