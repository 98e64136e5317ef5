//! The controller's data model.
//!
//! The cluster objects that the logic reads — Deployments, PodTemplates and
//! the Jobs it produces — are held here as plain values: exactly the fields
//! the controller looks at, with a mathematical view for each type.

use vstd::prelude::*;

use crate::labels::{LabelMap, Pairs};

verus! {

/// The view of an optional string.
pub open spec fn opt_str_view(o: Option<String>) -> Option<Seq<char>> {
    match o {
        Some(s) => Some(s@),
        None => None,
    }
}

/// The view of an optional label map.
pub open spec fn opt_labels_view(o: Option<LabelMap>) -> Option<Pairs> {
    match o {
        Some(m) => Some(m@),
        None => None,
    }
}

/// A reference from an owned object back to its owner.
#[derive(Debug, PartialEq, Eq)]
pub struct OwnerReference {
    pub api_version: String,
    pub kind: String,
    pub name: String,
    pub uid: String,
    pub controller: Option<bool>,
    pub block_owner_deletion: Option<bool>,
}

#[verifier::ext_equal]
pub ghost struct OwnerReferenceView {
    pub api_version: Seq<char>,
    pub kind: Seq<char>,
    pub name: Seq<char>,
    pub uid: Seq<char>,
    pub controller: Option<bool>,
    pub block_owner_deletion: Option<bool>,
}

impl View for OwnerReference {
    type V = OwnerReferenceView;

    open spec fn view(&self) -> OwnerReferenceView {
        OwnerReferenceView {
            api_version: self.api_version@,
            kind: self.kind@,
            name: self.name@,
            uid: self.uid@,
            controller: self.controller,
            block_owner_deletion: self.block_owner_deletion,
        }
    }
}

impl Clone for OwnerReference {
    fn clone(&self) -> (res: Self)
        ensures
            res@ == self@,
    {
        OwnerReference {
            api_version: self.api_version.clone(),
            kind: self.kind.clone(),
            name: self.name.clone(),
            uid: self.uid.clone(),
            controller: self.controller,
            block_owner_deletion: self.block_owner_deletion,
        }
    }
}

/// The metadata fields the controller reads or writes.
#[derive(Debug, PartialEq, Eq)]
pub struct ObjectMeta {
    pub name: Option<String>,
    pub generate_name: Option<String>,
    pub namespace: Option<String>,
    pub uid: Option<String>,
    pub labels: Option<LabelMap>,
    pub annotations: Option<LabelMap>,
    pub owner_references: Option<Vec<OwnerReference>>,
}

#[verifier::ext_equal]
pub ghost struct ObjectMetaView {
    pub name: Option<Seq<char>>,
    pub generate_name: Option<Seq<char>>,
    pub namespace: Option<Seq<char>>,
    pub uid: Option<Seq<char>>,
    pub labels: Option<Pairs>,
    pub annotations: Option<Pairs>,
    pub owner_references: Option<Seq<OwnerReferenceView>>,
}

impl View for ObjectMeta {
    type V = ObjectMetaView;

    open spec fn view(&self) -> ObjectMetaView {
        ObjectMetaView {
            name: opt_str_view(self.name),
            generate_name: opt_str_view(self.generate_name),
            namespace: opt_str_view(self.namespace),
            uid: opt_str_view(self.uid),
            labels: opt_labels_view(self.labels),
            annotations: opt_labels_view(self.annotations),
            owner_references: match self.owner_references {
                Some(v) => Some(v@.map_values(|r: OwnerReference| r@)),
                None => None,
            },
        }
    }
}

impl ObjectMetaView {
    /// Any label or annotation map present has unique keys.
    pub open spec fn wf(&self) -> bool {
        &&& match self.labels {
            Some(l) => crate::labels::unique_keys(l),
            None => true,
        }
        &&& match self.annotations {
            Some(a) => crate::labels::unique_keys(a),
            None => true,
        }
    }
}

impl ObjectMeta {
    /// Metadata with every field absent.
    pub fn empty() -> (r: ObjectMeta)
        ensures
            r@ == (ObjectMetaView {
                name: None,
                generate_name: None,
                namespace: None,
                uid: None,
                labels: None,
                annotations: None,
                owner_references: None,
            }),
    {
        ObjectMeta {
            name: None,
            generate_name: None,
            namespace: None,
            uid: None,
            labels: None,
            annotations: None,
            owner_references: None,
        }
    }

    /// The name this metadata would print as, `namespace/name`, with
    /// `default` for a missing namespace and `__unknown__` for a missing
    /// name.
    pub fn formatted_name(&self) -> (r: String)
        ensures
            r@ == spec_formatted_name(self@),
    {
        let namespace: String = match &self.namespace {
            Some(ns) => ns.clone(),
            None => String::from_str("default"),
        };
        let name: String = match &self.name {
            Some(n) => n.clone(),
            None => String::from_str("__unknown__"),
        };
        namespace.concat("/").concat(name.as_str())
    }
}

/// What `formatted_name` returns: `namespace/name` with defaults filled in.
pub open spec fn spec_formatted_name(m: ObjectMetaView) -> Seq<char> {
    let namespace = match m.namespace {
        Some(ns) => ns,
        None => "default"@,
    };
    let name = match m.name {
        Some(n) => n,
        None => "__unknown__"@,
    };
    namespace + "/"@ + name
}

impl Clone for ObjectMeta {
    fn clone(&self) -> (res: Self)
        ensures
            res@ == self@,
    {
        let res = ObjectMeta {
            name: self.name.clone(),
            generate_name: self.generate_name.clone(),
            namespace: self.namespace.clone(),
            uid: self.uid.clone(),
            labels: self.labels.clone(),
            annotations: self.annotations.clone(),
            owner_references: match &self.owner_references {
                Some(v) => Some(v.clone()),
                None => None,
            },
        };
        proof {
            if let Some(v) = &self.owner_references {
                if let Some(rv) = &res.owner_references {
                    assert(rv@.map_values(|r: OwnerReference| r@) =~= v@.map_values(
                        |r: OwnerReference| r@,
                    ));
                }
            }
            assert(res@ =~= self@);
        }
        res
    }
}

/// One container of a pod: the fields the controller reads by name — the
/// identifying name, image, command, configMap-sourced environment and
/// ports — and `remainder`, a canonical serialization of everything else
/// the cluster object carried, supplied by the caller. The fingerprint
/// covers the remainder too, so a change anywhere in the container is a
/// change of the model value.
#[derive(Debug, PartialEq, Eq)]
pub struct Container {
    pub name: String,
    pub image: Option<String>,
    pub command: Vec<String>,
    pub env_from_config_maps: Vec<String>,
    pub container_ports: Vec<u16>,
    pub remainder: String,
}

#[verifier::ext_equal]
pub ghost struct ContainerView {
    pub name: Seq<char>,
    pub image: Option<Seq<char>>,
    pub command: Seq<Seq<char>>,
    pub env_from_config_maps: Seq<Seq<char>>,
    pub container_ports: Seq<u16>,
    pub remainder: Seq<char>,
}

impl View for Container {
    type V = ContainerView;

    open spec fn view(&self) -> ContainerView {
        ContainerView {
            name: self.name@,
            image: opt_str_view(self.image),
            command: self.command@.map_values(|s: String| s@),
            env_from_config_maps: self.env_from_config_maps@.map_values(|s: String| s@),
            container_ports: self.container_ports@,
            remainder: self.remainder@,
        }
    }
}

impl Clone for Container {
    fn clone(&self) -> (res: Self)
        ensures
            res@ == self@,
    {
        let res = Container {
            name: self.name.clone(),
            image: self.image.clone(),
            command: self.command.clone(),
            env_from_config_maps: self.env_from_config_maps.clone(),
            container_ports: self.container_ports.clone(),
            remainder: self.remainder.clone(),
        };
        proof {
            assert(res.command@.map_values(|s: String| s@) =~= self.command@.map_values(
                |s: String| s@,
            ));
            assert(res.env_from_config_maps@.map_values(|s: String| s@)
                =~= self.env_from_config_maps@.map_values(|s: String| s@));
            assert(res.container_ports@ =~= self.container_ports@);
            assert(res@ =~= self@);
        }
        res
    }
}

/// The specification of a pod: what the fingerprint hashes and the job
/// builder copies. Beside the restart policy the builder coerces and the
/// containers, `remainder` carries a canonical serialization of every other
/// field of the cluster object, supplied by the caller; the fingerprint
/// hashes it too, so any change to the full specification is a new template
/// revision.
#[derive(Debug, PartialEq, Eq)]
pub struct PodSpec {
    pub restart_policy: Option<String>,
    pub containers: Vec<Container>,
    pub remainder: String,
}

#[verifier::ext_equal]
pub ghost struct PodSpecView {
    pub restart_policy: Option<Seq<char>>,
    pub containers: Seq<ContainerView>,
    pub remainder: Seq<char>,
}

impl View for PodSpec {
    type V = PodSpecView;

    open spec fn view(&self) -> PodSpecView {
        PodSpecView {
            restart_policy: opt_str_view(self.restart_policy),
            containers: self.containers@.map_values(|c: Container| c@),
            remainder: self.remainder@,
        }
    }
}

impl Clone for PodSpec {
    fn clone(&self) -> (res: Self)
        ensures
            res@ == self@,
    {
        let res = PodSpec {
            restart_policy: self.restart_policy.clone(),
            containers: self.containers.clone(),
            remainder: self.remainder.clone(),
        };
        proof {
            assert(res.containers@.map_values(|c: Container| c@) =~= self.containers@.map_values(
                |c: Container| c@,
            ));
            assert(res@ =~= self@);
        }
        res
    }
}

/// A pod template: optional metadata and an optional pod specification.
#[derive(Debug, PartialEq, Eq)]
pub struct PodTemplateSpec {
    pub metadata: Option<ObjectMeta>,
    pub spec: Option<PodSpec>,
}

#[verifier::ext_equal]
pub ghost struct PodTemplateSpecView {
    pub metadata: Option<ObjectMetaView>,
    pub spec: Option<PodSpecView>,
}

impl View for PodTemplateSpec {
    type V = PodTemplateSpecView;

    open spec fn view(&self) -> PodTemplateSpecView {
        PodTemplateSpecView {
            metadata: match self.metadata {
                Some(m) => Some(m@),
                None => None,
            },
            spec: match self.spec {
                Some(s) => Some(s@),
                None => None,
            },
        }
    }
}

impl PodTemplateSpecView {
    pub open spec fn wf(&self) -> bool {
        match self.metadata {
            Some(m) => m.wf(),
            None => true,
        }
    }
}

impl PodTemplateSpec {
    /// A template with neither metadata nor a pod specification.
    pub fn empty() -> (r: PodTemplateSpec)
        ensures
            r@ == (PodTemplateSpecView { metadata: None, spec: None }),
    {
        PodTemplateSpec { metadata: None, spec: None }
    }
}

impl Clone for PodTemplateSpec {
    fn clone(&self) -> (res: Self)
        ensures
            res@ == self@,
    {
        PodTemplateSpec {
            metadata: match &self.metadata {
                Some(m) => Some(m.clone()),
                None => None,
            },
            spec: match &self.spec {
                Some(s) => Some(s.clone()),
                None => None,
            },
        }
    }
}

/// A cluster-stored reusable pod specification.
#[derive(Debug, PartialEq, Eq)]
pub struct PodTemplate {
    pub metadata: ObjectMeta,
    pub template: Option<PodTemplateSpec>,
}

#[verifier::ext_equal]
pub ghost struct PodTemplateView {
    pub metadata: ObjectMetaView,
    pub template: Option<PodTemplateSpecView>,
}

impl View for PodTemplate {
    type V = PodTemplateView;

    open spec fn view(&self) -> PodTemplateView {
        PodTemplateView {
            metadata: self.metadata@,
            template: match self.template {
                Some(t) => Some(t@),
                None => None,
            },
        }
    }
}

impl PodTemplateView {
    pub open spec fn wf(&self) -> bool {
        &&& self.metadata.wf()
        &&& match self.template {
            Some(t) => t.wf(),
            None => true,
        }
    }
}

impl Clone for PodTemplate {
    fn clone(&self) -> (res: Self)
        ensures
            res@ == self@,
    {
        PodTemplate {
            metadata: self.metadata.clone(),
            template: match &self.template {
                Some(t) => Some(t.clone()),
                None => None,
            },
        }
    }
}

/// The part of a Deployment's spec the controller reads.
#[derive(Debug, PartialEq, Eq)]
pub struct DeploymentSpec {
    pub replicas: Option<i32>,
    pub template: PodTemplateSpec,
}

#[verifier::ext_equal]
pub ghost struct DeploymentSpecView {
    pub replicas: Option<i32>,
    pub template: PodTemplateSpecView,
}

impl View for DeploymentSpec {
    type V = DeploymentSpecView;

    open spec fn view(&self) -> DeploymentSpecView {
        DeploymentSpecView { replicas: self.replicas, template: self.template@ }
    }
}

impl Clone for DeploymentSpec {
    fn clone(&self) -> (res: Self)
        ensures
            res@ == self@,
    {
        DeploymentSpec { replicas: self.replicas, template: self.template.clone() }
    }
}

/// The part of a Deployment's status the controller reads.
#[derive(Debug, PartialEq, Eq)]
pub struct DeploymentStatus {
    pub replicas: Option<i32>,
    pub ready_replicas: Option<i32>,
}

#[verifier::ext_equal]
pub ghost struct DeploymentStatusView {
    pub replicas: Option<i32>,
    pub ready_replicas: Option<i32>,
}

impl View for DeploymentStatus {
    type V = DeploymentStatusView;

    open spec fn view(&self) -> DeploymentStatusView {
        DeploymentStatusView { replicas: self.replicas, ready_replicas: self.ready_replicas }
    }
}

impl Clone for DeploymentStatus {
    fn clone(&self) -> (res: Self)
        ensures
            res@ == self@,
    {
        DeploymentStatus { replicas: self.replicas, ready_replicas: self.ready_replicas }
    }
}

/// An observed Deployment.
#[derive(Debug, PartialEq, Eq)]
pub struct Deployment {
    pub metadata: ObjectMeta,
    pub spec: Option<DeploymentSpec>,
    pub status: Option<DeploymentStatus>,
}

#[verifier::ext_equal]
pub ghost struct DeploymentView {
    pub metadata: ObjectMetaView,
    pub spec: Option<DeploymentSpecView>,
    pub status: Option<DeploymentStatusView>,
}

impl View for Deployment {
    type V = DeploymentView;

    open spec fn view(&self) -> DeploymentView {
        DeploymentView {
            metadata: self.metadata@,
            spec: match self.spec {
                Some(s) => Some(s@),
                None => None,
            },
            status: match self.status {
                Some(s) => Some(s@),
                None => None,
            },
        }
    }
}

impl DeploymentView {
    pub open spec fn wf(&self) -> bool {
        &&& self.metadata.wf()
        &&& match self.spec {
            Some(s) => s.template.wf(),
            None => true,
        }
    }

    /// The pod specification whose identity the fingerprint tracks, if the
    /// Deployment carries one.
    pub open spec fn pod_spec(&self) -> Option<PodSpecView> {
        match self.spec {
            Some(s) => s.template.spec,
            None => None,
        }
    }
}

impl Clone for Deployment {
    fn clone(&self) -> (res: Self)
        ensures
            res@ == self@,
    {
        Deployment {
            metadata: self.metadata.clone(),
            spec: match &self.spec {
                Some(s) => Some(s.clone()),
                None => None,
            },
            status: match &self.status {
                Some(s) => Some(s.clone()),
                None => None,
            },
        }
    }
}

/// The specification of a produced Job.
#[derive(Debug, PartialEq, Eq)]
pub struct JobSpec {
    pub ttl_seconds_after_finished: Option<i32>,
    pub backoff_limit: Option<i32>,
    pub template: PodTemplateSpec,
}

#[verifier::ext_equal]
pub ghost struct JobSpecView {
    pub ttl_seconds_after_finished: Option<i32>,
    pub backoff_limit: Option<i32>,
    pub template: PodTemplateSpecView,
}

impl View for JobSpec {
    type V = JobSpecView;

    open spec fn view(&self) -> JobSpecView {
        JobSpecView {
            ttl_seconds_after_finished: self.ttl_seconds_after_finished,
            backoff_limit: self.backoff_limit,
            template: self.template@,
        }
    }
}

impl Clone for JobSpec {
    fn clone(&self) -> (res: Self)
        ensures
            res@ == self@,
    {
        JobSpec {
            ttl_seconds_after_finished: self.ttl_seconds_after_finished,
            backoff_limit: self.backoff_limit,
            template: self.template.clone(),
        }
    }
}

/// A batch Job as the builder produces it.
#[derive(Debug, PartialEq, Eq)]
pub struct Job {
    pub metadata: ObjectMeta,
    pub spec: Option<JobSpec>,
}

#[verifier::ext_equal]
pub ghost struct JobView {
    pub metadata: ObjectMetaView,
    pub spec: Option<JobSpecView>,
}

impl View for Job {
    type V = JobView;

    open spec fn view(&self) -> JobView {
        JobView {
            metadata: self.metadata@,
            spec: match self.spec {
                Some(s) => Some(s@),
                None => None,
            },
        }
    }
}

impl Clone for Job {
    fn clone(&self) -> (res: Self)
        ensures
            res@ == self@,
    {
        Job {
            metadata: self.metadata.clone(),
            spec: match &self.spec {
                Some(s) => Some(s.clone()),
                None => None,
            },
        }
    }
}

} // verus!
