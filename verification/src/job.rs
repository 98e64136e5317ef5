//! The job builder: a deterministic transformation from a hook and a pod
//! template to the batch Job the controller submits.

use vstd::prelude::*;

use crate::crd::{spec_controller_owner_ref, DeploymentHook, DeploymentHookView};
use crate::labels::{remove_key_seq, LabelMap, Pairs};
use crate::model::{
    Job, JobSpec, JobSpecView, JobView, ObjectMeta, ObjectMetaView, OwnerReference, PodSpec,
    PodSpecView, PodTemplate, PodTemplateSpec, PodTemplateSpecView, PodTemplateView,
};

verus! {

/// Building a Job fails only on a hook without a name.
#[derive(Debug, PartialEq, Eq, Clone, Copy)]
pub enum JobError {
    MissingHookName,
}

/// The annotation key the cluster writes on applied objects; it must never
/// be copied onto a Job.
pub open spec fn last_applied_key() -> Seq<char> {
    "kubectl.kubernetes.io/last-applied-configuration"@
}

/// What the Job's pod restart policy is, given the source template's: a Job
/// may not say `Always`, so `Always` and an absent policy both become
/// `Never`; any other value is kept.
pub open spec fn coerce_restart_policy(p: Option<Seq<char>>) -> Option<Seq<char>> {
    match p {
        None => Some("Never"@),
        Some(s) => if s == "Always"@ {
            Some("Never"@)
        } else {
            Some(s)
        },
    }
}

/// The Job's pod template: the source template with its restart policy
/// coerced.
pub open spec fn spec_job_template(t: PodTemplateSpecView) -> PodTemplateSpecView {
    PodTemplateSpecView {
        metadata: t.metadata,
        spec: match t.spec {
            Some(ps) => Some(
                PodSpecView {
                    restart_policy: coerce_restart_policy(ps.restart_policy),
                    containers: ps.containers,
                    remainder: ps.remainder,
                },
            ),
            None => None,
        },
    }
}

/// The annotations the Job carries: the inner template's, with the
/// last-applied-configuration key removed.
pub open spec fn spec_job_annotations(t: PodTemplateView) -> Option<Pairs> {
    match t.template {
        Some(pts) => match pts.metadata {
            Some(md) => match md.annotations {
                Some(a) => Some(remove_key_seq(a, last_applied_key())),
                None => None,
            },
            None => None,
        },
        None => None,
    }
}

/// The Job built from a hook and a pod template; nothing when the hook has
/// no name. The Job takes the template's labels and namespace, a
/// `generateName` derived from the hook's name, the stripped inner
/// annotations, an owner reference to the hook, the hook's ttl, a backoff
/// limit of one, and the coerced inner template.
pub open spec fn spec_generate_from_template(h: DeploymentHookView, t: PodTemplateView) -> Option<
    JobView,
> {
    match h.metadata.name {
        None => None,
        Some(name) => Some(
            JobView {
                metadata: ObjectMetaView {
                    name: None,
                    generate_name: Some("docbot-hook-"@ + name + "-"@),
                    namespace: t.metadata.namespace,
                    uid: None,
                    labels: t.metadata.labels,
                    annotations: spec_job_annotations(t),
                    owner_references: match spec_controller_owner_ref(h) {
                        Some(o) => Some(seq![o]),
                        None => None,
                    },
                },
                spec: Some(
                    JobSpecView {
                        ttl_seconds_after_finished: h.spec.template.ttl_seconds_after_finished,
                        backoff_limit: Some(1),
                        template: match t.template {
                            Some(pts) => spec_job_template(pts),
                            None => PodTemplateSpecView { metadata: None, spec: None },
                        },
                    },
                ),
            },
        ),
    }
}

/// Coerce a pod specification's restart policy for use in a Job.
fn coerce_pod_spec(ps: &PodSpec) -> (r: PodSpec)
    ensures
        r@ == (PodSpecView {
            restart_policy: coerce_restart_policy(ps@.restart_policy),
            containers: ps@.containers,
            remainder: ps@.remainder,
        }),
{
    let policy: Option<String> = match &ps.restart_policy {
        None => Some(String::from_str("Never")),
        Some(p) => {
            let always = String::from_str("Always");
            if *p == always {
                Some(String::from_str("Never"))
            } else {
                Some(p.clone())
            }
        },
    };
    let mut r = ps.clone();
    r.restart_policy = policy;
    proof {
        assert(r@ =~= (PodSpecView {
            restart_policy: coerce_restart_policy(ps@.restart_policy),
            containers: ps@.containers,
            remainder: ps@.remainder,
        }));
    }
    r
}

/// Build the Job a hook spawns from a pod template.
pub fn generate_from_template(hook: &DeploymentHook, template: PodTemplate) -> (r: Result<
    Job,
    JobError,
>)
    requires
        hook@.wf(),
        template@.wf(),
    ensures
        match r {
            Ok(j) => spec_generate_from_template(hook@, template@) == Some(j@),
            Err(e) => hook@.metadata.name is None && e == JobError::MissingHookName,
        },
        r is Ok <==> hook@.metadata.name is Some,
{
    let name = match &hook.metadata.name {
        Some(n) => n,
        None => {
            return Err(JobError::MissingHookName);
        },
    };
    let generate_name = String::from_str("docbot-hook-").concat(name.as_str()).concat("-");
    let labels: Option<LabelMap> = match &template.metadata.labels {
        Some(l) => Some(l.clone()),
        None => None,
    };
    let annotations: Option<LabelMap> = match &template.template {
        Some(pts) => match &pts.metadata {
            Some(md) => match &md.annotations {
                Some(a) => {
                    let mut stripped = a.clone();
                    stripped.remove_key(
                        &String::from_str("kubectl.kubernetes.io/last-applied-configuration"),
                    );
                    Some(stripped)
                },
                None => None,
            },
            None => None,
        },
        None => None,
    };
    let owner_references: Option<Vec<OwnerReference>> = match hook.controller_owner_ref() {
        Some(o) => {
            let ghost ov = o@;
            let mut v: Vec<OwnerReference> = Vec::new();
            v.push(o);
            proof {
                assert(v@.map_values(|x: OwnerReference| x@) =~= seq![ov]);
            }
            Some(v)
        },
        None => None,
    };
    let job_template: PodTemplateSpec = match &template.template {
        Some(pts) => {
            let coerced_spec: Option<PodSpec> = match &pts.spec {
                Some(ps) => Some(coerce_pod_spec(ps)),
                None => None,
            };
            let metadata: Option<ObjectMeta> = match &pts.metadata {
                Some(md) => Some(md.clone()),
                None => None,
            };
            PodTemplateSpec { metadata: metadata, spec: coerced_spec }
        },
        None => PodTemplateSpec::empty(),
    };
    let job = Job {
        metadata: ObjectMeta {
            name: None,
            generate_name: Some(generate_name),
            namespace: match &template.metadata.namespace {
                Some(ns) => Some(ns.clone()),
                None => None,
            },
            uid: None,
            labels: labels,
            annotations: annotations,
            owner_references: owner_references,
        },
        spec: Some(
            JobSpec {
                ttl_seconds_after_finished: hook.spec.template.ttl_seconds_after_finished,
                backoff_limit: Some(1),
                template: job_template,
            },
        ),
    };
    proof {
        let expected = spec_generate_from_template(hook@, template@);
        assert(expected is Some);
        assert(job@.metadata =~= expected->Some_0.metadata);
        assert(job@.spec->Some_0.template =~= expected->Some_0.spec->Some_0.template);
        assert(job@.spec->Some_0 =~= expected->Some_0.spec->Some_0);
        assert(job@ =~= expected->Some_0);
    }
    Ok(job)
}

/// The builder is deterministic: equal inputs give equal Jobs, so the Job
/// is byte-for-byte reproducible from the hook and the template.
pub proof fn lemma_job_builder_deterministic(
    h1: DeploymentHookView,
    t1: PodTemplateView,
    h2: DeploymentHookView,
    t2: PodTemplateView,
)
    requires
        h1 == h2,
        t1 == t2,
    ensures
        spec_generate_from_template(h1, t1) == spec_generate_from_template(h2, t2),
{
}

/// How the restart policy is coerced: `Always` and an absent policy become
/// `Never`; `Never` and `OnFailure` are kept as they are.
pub proof fn lemma_restart_policy_coercion()
    ensures
        coerce_restart_policy(Some("Always"@)) == Some("Never"@),
        coerce_restart_policy(Some("Never"@)) == Some("Never"@),
        coerce_restart_policy(None) == Some("Never"@),
        coerce_restart_policy(Some("OnFailure"@)) == Some("OnFailure"@),
{
    reveal_strlit("Always");
    reveal_strlit("Never");
    reveal_strlit("OnFailure");
    assert("Never"@.len() == 5);
    assert("Always"@.len() == 6);
    assert("OnFailure"@.len() == 9);
}

/// A built Job never carries the last-applied-configuration annotation,
/// whatever the source template carried.
pub proof fn lemma_job_annotations_stripped(h: DeploymentHookView, t: PodTemplateView)
    requires
        t.wf(),
    ensures
        match spec_generate_from_template(h, t) {
            Some(j) => match j.metadata.annotations {
                Some(a) => !crate::labels::has_key(a, last_applied_key()),
                None => true,
            },
            None => true,
        },
{
    if h.metadata.name is Some {
        match t.template {
            Some(pts) => match pts.metadata {
                Some(md) => match md.annotations {
                    Some(a0) => {
                        let k = last_applied_key();
                        let a1 = remove_key_seq(a0, k);
                        if crate::labels::has_key(a0, k) {
                            let c = choose|i: int|
                                0 <= i < a0.len() && (#[trigger] a0[i]).0 == k;
                            assert(a1 == a0.remove(c));
                            assert(!crate::labels::has_key(a1, k)) by {
                                if crate::labels::has_key(a1, k) {
                                    let j = choose|j: int|
                                        0 <= j < a1.len() && (#[trigger] a1[j]).0 == k;
                                    let j0: int = if j < c {
                                        j
                                    } else {
                                        j + 1
                                    };
                                    assert(a1[j] == a0[j0]);
                                    assert(a0[j0].0 == k);
                                    assert(j0 != c);
                                }
                            }
                        } else {
                            assert(a1 == a0);
                        }
                    },
                    None => {},
                },
                None => {},
            },
            None => {},
        }
    }
}

} // verus!
