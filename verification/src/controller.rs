//! The per-event pipeline of the controller.
//!
//! For each Deployment event the controller gates on rollout convergence,
//! then on the fingerprint store, then fans out to every matching hook. The
//! watchers, the cluster API and the clock live outside; the decisions they
//! act on are taken here.

use vstd::prelude::*;

use crate::cache::{
    has_ns_name, hash_at, matching_hooks, spec_deployment_key, CacheOp, DeploymentHookCache,
    DeploymentPodTemplateHashCache,
};
use crate::crd::{spec_embedded_pod_template, DeploymentHook, DeploymentHookView};
use crate::model::{Deployment, PodTemplate};
use crate::resolver::PodTemplateService;
use crate::utils::{spec_did_successfully_deploy, spec_pod_template_hash, DeploymentExt};

verus! {

/// What one Deployment event leads to.
pub enum DeploymentDecision {
    /// The rollout has not converged: nothing happens.
    Incomplete,
    /// The rollout converged, but its pod template was already seen with
    /// this fingerprint: a scale event or restart, no fanout.
    TemplateUnchanged,
    /// The rollout converged with a new template revision: one Job per
    /// listed hook.
    FanOut(Vec<DeploymentHook>),
}

/// Whether an observed, converged Deployment counts as unchanged: its
/// fingerprint is present and already stored under its key.
pub open spec fn spec_observation_unchanged(
    d: crate::model::DeploymentView,
    hashes: crate::cache::HashEntries,
) -> bool {
    match spec_pod_template_hash(d) {
        Some(h) => hash_at(hashes, spec_deployment_key(d)) == Some(h),
        None => false,
    }
}

/// Decide one Deployment event: gate on convergence, observe the
/// fingerprint, and list the hooks to fan out to.
pub fn process_deployment_event(
    deployment: &Deployment,
    hooks: &DeploymentHookCache,
    hashes: &mut DeploymentPodTemplateHashCache,
) -> (r: DeploymentDecision)
    requires
        hooks.wf(),
        old(hashes).wf(),
        deployment@.metadata.wf(),
        has_ns_name(deployment@.metadata),
    ensures
        final(hashes).wf(),
        r is Incomplete <==> !spec_did_successfully_deploy(deployment@),
        !spec_did_successfully_deploy(deployment@) ==> final(hashes)@ == old(hashes)@,
        spec_did_successfully_deploy(deployment@) ==> {
            &&& (r is TemplateUnchanged <==> spec_observation_unchanged(deployment@, old(hashes)@))
            &&& match spec_pod_template_hash(deployment@) {
                Some(h) => {
                    &&& hash_at(final(hashes)@, spec_deployment_key(deployment@)) == Some(h)
                    &&& forall|k: (Seq<char>, Seq<char>)|
                        k != spec_deployment_key(deployment@) ==> hash_at(final(hashes)@, k)
                            == hash_at(old(hashes)@, k)
                },
                None => final(hashes)@ == old(hashes)@,
            }
        },
        match r {
            DeploymentDecision::FanOut(v) => spec_did_successfully_deploy(deployment@)
                && !spec_observation_unchanged(deployment@, old(hashes)@) && v@.map_values(
                |h: DeploymentHook| h@,
            ) == matching_hooks(hooks@, deployment@),
            _ => true,
        },
{
    if !deployment.did_successfully_deploy() {
        return DeploymentDecision::Incomplete;
    }
    match hashes.update_cache(deployment) {
        CacheOp::Unchanged => DeploymentDecision::TemplateUnchanged,
        CacheOp::Changed => DeploymentDecision::FanOut(
            hooks.find_by_matching_deployment(deployment),
        ),
    }
}

/// How a hook's pod template resolves against the local cache.
pub enum TemplateResolution {
    /// The template is at hand: inline in the hook, or cached.
    Resolved(PodTemplate),
    /// A named template that the cache does not hold: it must be fetched
    /// from the cluster under this (namespace, name) and pushed back.
    NeedsFetch(String, String),
    /// The hook names no template and embeds none: nothing can be built.
    NoTemplate,
}

/// The namespace a hook's named template is looked up in: the hook's own,
/// or `default`.
pub open spec fn spec_hook_namespace(h: DeploymentHookView) -> Seq<char> {
    match h.metadata.namespace {
        Some(ns) => ns,
        None => "default"@,
    }
}

/// Resolve a hook's pod template as far as the local state allows: an
/// embedded template immediately, a named one from the cache, and otherwise
/// the key to fetch.
pub fn resolve_pod_template(hook: &DeploymentHook, service: &mut PodTemplateService) -> (r:
    TemplateResolution)
    ensures
        final(service).contents() == old(service).contents(),
        final(service).wf() == old(service).wf(),
        match r {
            TemplateResolution::Resolved(t) => {
                ||| spec_embedded_pod_template(hook@) == Some(t@)
                ||| (spec_embedded_pod_template(hook@) is None && match hook@.spec.template.name {
                    Some(name) => old(service).contents().dom().contains(
                        (spec_hook_namespace(hook@), name),
                    ) && old(service).contents()[(spec_hook_namespace(hook@), name)] == t@,
                    None => false,
                })
            },
            TemplateResolution::NeedsFetch(ns, name) => spec_embedded_pod_template(hook@) is None
                && hook@.spec.template.name == Some(name@) && ns@ == spec_hook_namespace(hook@)
                && !old(service).contents().dom().contains((ns@, name@)),
            TemplateResolution::NoTemplate => spec_embedded_pod_template(hook@) is None
                && hook@.spec.template.name is None,
        },
{
    match hook.embedded_pod_template() {
        Some(t) => TemplateResolution::Resolved(t),
        None => {
            match &hook.spec.template.name {
                Some(name) => {
                    let namespace: String = match &hook.metadata.namespace {
                        Some(ns) => ns.clone(),
                        None => String::from_str("default"),
                    };
                    match service.get_cached(&namespace, name) {
                        Some(t) => TemplateResolution::Resolved(t),
                        None => TemplateResolution::NeedsFetch(namespace, name.clone()),
                    }
                },
                None => TemplateResolution::NoTemplate,
            }
        },
    }
}

} // verus!
