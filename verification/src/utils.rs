//! Deployment helpers: the rollout-convergence predicate and the
//! pod-template fingerprint.

use vstd::prelude::*;

use crate::fingerprint::{fingerprint, spec_fingerprint};
use crate::model::{Deployment, DeploymentView};

verus! {

/// A rollout has converged exactly when the desired, observed and ready
/// replica counts are all present and all equal.
pub open spec fn spec_did_successfully_deploy(d: DeploymentView) -> bool {
    match (d.status, d.spec) {
        (Some(status), Some(spec)) => match (status.ready_replicas, status.replicas, spec.replicas) {
            (Some(ready), Some(observed), Some(desired)) => ready == observed && observed
                == desired,
            _ => false,
        },
        _ => false,
    }
}

/// The fingerprint of a Deployment's pod specification, absent when the
/// Deployment carries none.
pub open spec fn spec_pod_template_hash(d: DeploymentView) -> Option<Seq<char>> {
    match d.pod_spec() {
        Some(ps) => Some(spec_fingerprint(ps)),
        None => None,
    }
}

/// What the controller asks of a Deployment.
pub trait DeploymentExt {
    /// Whether the rollout has converged.
    spec fn complete_spec(&self) -> bool;

    /// The fingerprint of the pod specification, if one is carried.
    spec fn hash_spec(&self) -> Option<Seq<char>>;

    /// True exactly when desired, observed and ready replica counts are all
    /// present and all equal.
    fn did_successfully_deploy(&self) -> (r: bool)
        ensures
            r == self.complete_spec(),
    ;

    /// The fingerprint of the pod specification — 64 uppercase hex
    /// characters — or nothing when the object has no pod specification.
    fn pod_template_hash(&self) -> (r: Option<String>)
        ensures
            match r {
                Some(s) => self.hash_spec() == Some(s@) && s@.len() == 64,
                None => self.hash_spec() is None,
            },
    ;
}

impl DeploymentExt for Deployment {
    open spec fn complete_spec(&self) -> bool {
        spec_did_successfully_deploy(self@)
    }

    open spec fn hash_spec(&self) -> Option<Seq<char>> {
        spec_pod_template_hash(self@)
    }

    fn did_successfully_deploy(&self) -> (r: bool)
        ensures
            r == spec_did_successfully_deploy(self@),
    {
        match (&self.status, &self.spec) {
            (Some(status), Some(spec)) => match (status.ready_replicas, status.replicas, spec.replicas) {
                (Some(ready), Some(observed), Some(desired)) => ready == observed && observed
                    == desired,
                _ => false,
            },
            _ => false,
        }
    }

    fn pod_template_hash(&self) -> (r: Option<String>)
        ensures
            match r {
                Some(s) => spec_pod_template_hash(self@) == Some(s@) && s@.len() == 64,
                None => spec_pod_template_hash(self@) is None,
            },
    {
        match &self.spec {
            Some(spec) => match &spec.template.spec {
                Some(pod_spec) => Some(fingerprint(pod_spec)),
                None => None,
            },
            None => None,
        }
    }
}

} // verus!
