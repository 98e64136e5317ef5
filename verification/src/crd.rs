//! The DeploymentHook custom resource.
//!
//! A hook binds a label selector to a pod-template job body: either a full
//! inline template or the name of a cluster PodTemplate in the hook's
//! namespace.

use vstd::prelude::*;

use crate::labels::{submap_of, LabelMap, Pairs};
use crate::model::{
    Deployment, DeploymentView, ObjectMeta, ObjectMetaView, OwnerReference, OwnerReferenceView,
    PodTemplate, PodTemplateSpec, PodTemplateSpecView, PodTemplateView,
};

verus! {

/// The default job ttl is 72 hours.
pub fn default_job_ttl_seconds_after_finished() -> (r: Option<i32>)
    ensures
        r == Some(259200i32),
{
    Some(259200)
}

/// The labels a Deployment must carry, each with its exact value, for a hook
/// to apply.
#[derive(Debug, PartialEq, Eq)]
pub struct DeploymentSelector {
    pub labels: LabelMap,
}

#[verifier::ext_equal]
pub ghost struct DeploymentSelectorView {
    pub labels: Pairs,
}

impl View for DeploymentSelector {
    type V = DeploymentSelectorView;

    open spec fn view(&self) -> DeploymentSelectorView {
        DeploymentSelectorView { labels: self.labels@ }
    }
}

impl Clone for DeploymentSelector {
    fn clone(&self) -> (res: Self)
        ensures
            res@ == self@,
    {
        DeploymentSelector { labels: self.labels.clone() }
    }
}

/// A container a hook addresses by name, with the command to run in it.
#[derive(Debug, PartialEq, Eq)]
pub struct TargetContainer {
    pub name: String,
    pub command: Vec<String>,
}

#[verifier::ext_equal]
pub ghost struct TargetContainerView {
    pub name: Seq<char>,
    pub command: Seq<Seq<char>>,
}

impl View for TargetContainer {
    type V = TargetContainerView;

    open spec fn view(&self) -> TargetContainerView {
        TargetContainerView {
            name: self.name@,
            command: self.command@.map_values(|s: String| s@),
        }
    }
}

impl Clone for TargetContainer {
    fn clone(&self) -> (res: Self)
        ensures
            res@ == self@,
    {
        let res = TargetContainer { name: self.name.clone(), command: self.command.clone() };
        proof {
            assert(res.command@.map_values(|s: String| s@) =~= self.command@.map_values(
                |s: String| s@,
            ));
            assert(res@ =~= self@);
        }
        res
    }
}

/// The job body of a hook: a ttl for the finished Job, and exactly one of a
/// named cluster PodTemplate or an inline template.
#[derive(Debug, PartialEq, Eq)]
pub struct InternalPodTemplate {
    pub ttl_seconds_after_finished: Option<i32>,
    pub name: Option<String>,
    pub spec: Option<PodTemplateSpec>,
}

#[verifier::ext_equal]
pub ghost struct InternalPodTemplateView {
    pub ttl_seconds_after_finished: Option<i32>,
    pub name: Option<Seq<char>>,
    pub spec: Option<PodTemplateSpecView>,
}

impl View for InternalPodTemplate {
    type V = InternalPodTemplateView;

    open spec fn view(&self) -> InternalPodTemplateView {
        InternalPodTemplateView {
            ttl_seconds_after_finished: self.ttl_seconds_after_finished,
            name: crate::model::opt_str_view(self.name),
            spec: match self.spec {
                Some(s) => Some(s@),
                None => None,
            },
        }
    }
}

impl Clone for InternalPodTemplate {
    fn clone(&self) -> (res: Self)
        ensures
            res@ == self@,
    {
        InternalPodTemplate {
            ttl_seconds_after_finished: self.ttl_seconds_after_finished,
            name: self.name.clone(),
            spec: match &self.spec {
                Some(s) => Some(s.clone()),
                None => None,
            },
        }
    }
}

/// The `spec` of a DeploymentHook resource.
#[derive(Debug, PartialEq, Eq)]
pub struct DeploymentHookSpec {
    pub selector: DeploymentSelector,
    pub template: InternalPodTemplate,
}

#[verifier::ext_equal]
pub ghost struct DeploymentHookSpecView {
    pub selector: DeploymentSelectorView,
    pub template: InternalPodTemplateView,
}

impl View for DeploymentHookSpec {
    type V = DeploymentHookSpecView;

    open spec fn view(&self) -> DeploymentHookSpecView {
        DeploymentHookSpecView { selector: self.selector@, template: self.template@ }
    }
}

impl Clone for DeploymentHookSpec {
    fn clone(&self) -> (res: Self)
        ensures
            res@ == self@,
    {
        DeploymentHookSpec { selector: self.selector.clone(), template: self.template.clone() }
    }
}

/// A DeploymentHook resource: metadata plus its spec.
#[derive(Debug, PartialEq, Eq)]
pub struct DeploymentHook {
    pub metadata: ObjectMeta,
    pub spec: DeploymentHookSpec,
}

#[verifier::ext_equal]
pub ghost struct DeploymentHookView {
    pub metadata: ObjectMetaView,
    pub spec: DeploymentHookSpecView,
}

impl View for DeploymentHook {
    type V = DeploymentHookView;

    open spec fn view(&self) -> DeploymentHookView {
        DeploymentHookView { metadata: self.metadata@, spec: self.spec@ }
    }
}

impl Clone for DeploymentHook {
    fn clone(&self) -> (res: Self)
        ensures
            res@ == self@,
    {
        DeploymentHook { metadata: self.metadata.clone(), spec: self.spec.clone() }
    }
}

impl DeploymentHookView {
    /// Label maps in the metadata and the selector have unique keys.
    pub open spec fn wf(&self) -> bool {
        &&& self.metadata.wf()
        &&& crate::labels::unique_keys(self.spec.selector.labels)
        &&& match self.spec.template.spec {
            Some(t) => t.wf(),
            None => true,
        }
    }
}

/// Whether a hook applies to a Deployment: every selector label must be
/// present on the Deployment with the same value. A Deployment without a
/// label map matches no hook.
pub open spec fn spec_does_match_deployment(h: DeploymentHookView, d: DeploymentView) -> bool {
    match d.metadata.labels {
        Some(l) => submap_of(h.spec.selector.labels, l),
        None => false,
    }
}

/// The owner reference a Job built from this hook carries: the hook's name
/// and uid under its resource kind, marked as the controller. Absent when
/// the hook lacks a name or a uid.
pub open spec fn spec_controller_owner_ref(h: DeploymentHookView) -> Option<OwnerReferenceView> {
    match (h.metadata.name, h.metadata.uid) {
        (Some(name), Some(uid)) => Some(
            OwnerReferenceView {
                api_version: "apps.mx.com/v1"@,
                kind: "DeploymentHook"@,
                name: name,
                uid: uid,
                controller: Some(true),
                block_owner_deletion: None,
            },
        ),
        _ => None,
    }
}

/// The PodTemplate a hook's inline template stands for: the hook's
/// namespace, no other metadata, and the inline template itself. Absent when
/// the hook references a template by name instead.
pub open spec fn spec_embedded_pod_template(h: DeploymentHookView) -> Option<PodTemplateView> {
    match h.spec.template.spec {
        Some(t) => Some(
            PodTemplateView {
                metadata: ObjectMetaView {
                    name: None,
                    generate_name: None,
                    namespace: h.metadata.namespace,
                    uid: None,
                    labels: None,
                    annotations: None,
                    owner_references: None,
                },
                template: Some(t),
            },
        ),
        None => None,
    }
}

impl DeploymentHook {
    /// Whether this hook applies to `deployment`.
    pub fn does_match_deployment(&self, deployment: &Deployment) -> (r: bool)
        requires
            self@.wf(),
            deployment@.metadata.wf(),
        ensures
            r == spec_does_match_deployment(self@, deployment@),
    {
        match &deployment.metadata.labels {
            Some(labels) => self.spec.selector.labels.is_contained_in(labels),
            None => false,
        }
    }

    /// The owner reference for Jobs this hook spawns, when the hook carries
    /// a name and a uid.
    pub fn controller_owner_ref(&self) -> (r: Option<OwnerReference>)
        ensures
            match r {
                Some(o) => spec_controller_owner_ref(self@) == Some(o@),
                None => spec_controller_owner_ref(self@) is None,
            },
    {
        match (&self.metadata.name, &self.metadata.uid) {
            (Some(name), Some(uid)) => Some(
                OwnerReference {
                    api_version: String::from_str("apps.mx.com/v1"),
                    kind: String::from_str("DeploymentHook"),
                    name: name.clone(),
                    uid: uid.clone(),
                    controller: Some(true),
                    block_owner_deletion: None,
                },
            ),
            _ => None,
        }
    }

    /// The PodTemplate the hook's inline template stands for, if the
    /// template is inline.
    pub fn embedded_pod_template(&self) -> (r: Option<PodTemplate>)
        ensures
            match r {
                Some(t) => spec_embedded_pod_template(self@) == Some(t@),
                None => spec_embedded_pod_template(self@) is None,
            },
    {
        match &self.spec.template.spec {
            Some(template) => Some(
                PodTemplate {
                    metadata: ObjectMeta {
                        name: None,
                        generate_name: None,
                        namespace: self.metadata.namespace.clone(),
                        uid: None,
                        labels: None,
                        annotations: None,
                        owner_references: None,
                    },
                    template: Some(template.clone()),
                },
            ),
            None => None,
        }
    }
}

} // verus!
