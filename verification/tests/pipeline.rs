use docbot::cache::{CacheOp, DeploymentHookCache, DeploymentPodTemplateHashCache};
use docbot::controller::{process_deployment_event, resolve_pod_template, DeploymentDecision,
    TemplateResolution};
use docbot::crd::{
    default_job_ttl_seconds_after_finished, DeploymentHook, DeploymentHookSpec,
    DeploymentSelector, InternalPodTemplate,
};
use docbot::job::generate_from_template;
use docbot::labels::LabelMap;
use docbot::model::{
    Container, Deployment, DeploymentSpec, DeploymentStatus, ObjectMeta, PodSpec, PodTemplate,
    PodTemplateSpec,
};
use docbot::resolver::PodTemplateService;
use docbot::utils::DeploymentExt;

fn labels(pairs: &[(&str, &str)]) -> LabelMap {
    LabelMap::from_pairs(
        pairs.iter().map(|(k, v)| (k.to_string(), v.to_string())).collect::<Vec<_>>(),
    )
}

fn empty_meta() -> ObjectMeta {
    ObjectMeta {
        name: None,
        generate_name: None,
        namespace: None,
        uid: None,
        labels: None,
        annotations: None,
        owner_references: None,
    }
}

fn pod_spec(image: &str) -> PodSpec {
    PodSpec {
        restart_policy: None,
        containers: vec![Container {
            name: "nginx".to_string(),
            image: Some(image.to_string()),
            command: vec![],
            env_from_config_maps: vec![],
            container_ports: vec![80],
            remainder: String::new(),
        }],
        remainder: String::new(),
    }
}

fn deployment(image: &str, replicas: i32, ready: i32, observed: i32) -> Deployment {
    Deployment {
        metadata: ObjectMeta {
            name: Some("nginx-deployment".to_string()),
            namespace: Some("docbot-test".to_string()),
            labels: Some(labels(&[("apps.mx.com/deploymenthook", "finished")])),
            ..empty_meta()
        },
        spec: Some(DeploymentSpec {
            replicas: Some(replicas),
            template: PodTemplateSpec { metadata: None, spec: Some(pod_spec(image)) },
        }),
        status: Some(DeploymentStatus { replicas: Some(observed), ready_replicas: Some(ready) }),
    }
}

fn inline_hook() -> DeploymentHook {
    DeploymentHook {
        metadata: ObjectMeta {
            name: Some("run-app-migrations".to_string()),
            namespace: Some("docbot-test".to_string()),
            uid: Some("1234".to_string()),
            ..empty_meta()
        },
        spec: DeploymentHookSpec {
            selector: DeploymentSelector {
                labels: labels(&[("apps.mx.com/deploymenthook", "finished")]),
            },
            template: InternalPodTemplate {
                ttl_seconds_after_finished: default_job_ttl_seconds_after_finished(),
                name: None,
                spec: Some(PodTemplateSpec {
                    metadata: None,
                    spec: Some(pod_spec("migrate:1.0")),
                }),
            },
        },
    }
}

fn named_hook() -> DeploymentHook {
    let mut hook = inline_hook();
    hook.spec.template.spec = None;
    hook.spec.template.name = Some("nginx-template".to_string());
    hook
}

fn primed_stores(hook: &DeploymentHook) -> (DeploymentHookCache, DeploymentPodTemplateHashCache) {
    let mut hooks = DeploymentHookCache::new();
    hooks.refresh(vec![hook.clone()]);
    (hooks, DeploymentPodTemplateHashCache::new())
}

/// A new, fully converged Deployment with a matching inline hook fires one
/// Job with the expected shape.
#[test]
fn new_successful_deployment_fires_inline_hook_once() {
    let hook = inline_hook();
    let (hooks, mut hashes) = primed_stores(&hook);
    let mut service = PodTemplateService::new();
    let d = deployment("nginx:1.14.2", 1, 1, 1);

    let decision = process_deployment_event(&d, &hooks, &mut hashes);
    let matched = match decision {
        DeploymentDecision::FanOut(v) => v,
        _ => panic!("expected fanout"),
    };
    assert_eq!(matched.len(), 1);

    let mut jobs = vec![];
    for h in &matched {
        let template = match resolve_pod_template(h, &mut service) {
            TemplateResolution::Resolved(t) => t,
            _ => panic!("inline hook must resolve locally"),
        };
        jobs.push(generate_from_template(h, template).unwrap());
    }
    assert_eq!(jobs.len(), 1);
    let job = &jobs[0];
    assert_eq!(
        job.metadata.generate_name,
        Some("docbot-hook-run-app-migrations-".to_string())
    );
    let owner = &job.metadata.owner_references.as_ref().unwrap()[0];
    assert_eq!(owner.name, "run-app-migrations".to_string());
    assert_eq!(owner.uid, "1234".to_string());
    assert_eq!(owner.controller, Some(true));
    let spec = job.spec.as_ref().unwrap();
    assert_eq!(spec.backoff_limit, Some(1));
    assert_eq!(spec.ttl_seconds_after_finished, Some(259200));
    assert_eq!(
        spec.template.spec.as_ref().unwrap().restart_policy,
        Some("Never".to_string())
    );
}

/// The same Deployment seen again with only a scale change is dropped by the
/// fingerprint gate: no Jobs.
#[test]
fn unchanged_template_is_deduplicated() {
    let hook = inline_hook();
    let (hooks, mut hashes) = primed_stores(&hook);
    let first = deployment("nginx:1.14.2", 1, 1, 1);
    match process_deployment_event(&first, &hooks, &mut hashes) {
        DeploymentDecision::FanOut(_) => {},
        _ => panic!("first observation must fan out"),
    }
    let scaled = deployment("nginx:1.14.2", 3, 3, 3);
    match process_deployment_event(&scaled, &hooks, &mut hashes) {
        DeploymentDecision::TemplateUnchanged => {},
        _ => panic!("scale event must be deduplicated"),
    }
}

/// A new image tag is a new template revision: the observation is a change
/// and exactly one Job per matching hook follows.
#[test]
fn changed_template_fans_out_again() {
    let hook = inline_hook();
    let (hooks, mut hashes) = primed_stores(&hook);
    let first = deployment("nginx:1.14.2", 1, 1, 1);
    process_deployment_event(&first, &hooks, &mut hashes);
    let retagged = deployment("nginx:1.14.3", 1, 1, 1);
    let matched = match process_deployment_event(&retagged, &hooks, &mut hashes) {
        DeploymentDecision::FanOut(v) => v,
        _ => panic!("new image tag must fan out"),
    };
    assert_eq!(matched.len(), 1);
}

/// A Deployment whose labels lack one selector key matches no hook: zero
/// Jobs.
#[test]
fn selector_mismatch_yields_no_jobs() {
    let hook = inline_hook();
    let (hooks, mut hashes) = primed_stores(&hook);
    let mut d = deployment("nginx:1.14.2", 1, 1, 1);
    d.metadata.labels = Some(labels(&[("app", "nginx")]));
    let matched = match process_deployment_event(&d, &hooks, &mut hashes) {
        DeploymentDecision::FanOut(v) => v,
        _ => panic!("a new completed deployment is a change"),
    };
    assert_eq!(matched.len(), 0);
}

/// A named template misses the cache on the first fanout and must be
/// fetched; once pushed, the second fanout is a cache hit.
#[test]
fn named_template_cached_on_second_hit() {
    let hook = named_hook();
    let mut service = PodTemplateService::new();

    let (ns, name) = match resolve_pod_template(&hook, &mut service) {
        TemplateResolution::NeedsFetch(ns, name) => (ns, name),
        _ => panic!("first resolution must need a fetch"),
    };
    assert_eq!(ns, "docbot-test".to_string());
    assert_eq!(name, "nginx-template".to_string());

    // What the cluster API would have returned for that key.
    let fetched = PodTemplate {
        metadata: ObjectMeta {
            name: Some("nginx-template".to_string()),
            namespace: Some("docbot-test".to_string()),
            ..empty_meta()
        },
        template: Some(PodTemplateSpec { metadata: None, spec: Some(pod_spec("nginx:1.14.2")) }),
    };
    service.push(fetched.clone());

    match resolve_pod_template(&hook, &mut service) {
        TemplateResolution::Resolved(t) => assert_eq!(t, fetched),
        _ => panic!("second resolution must hit the cache"),
    }
}

/// A hook that neither embeds a template nor names one cannot resolve.
#[test]
fn hook_without_any_template_cannot_resolve() {
    let mut hook = inline_hook();
    hook.spec.template.spec = None;
    hook.spec.template.name = None;
    let mut service = PodTemplateService::new();
    assert!(matches!(
        resolve_pod_template(&hook, &mut service),
        TemplateResolution::NoTemplate
    ));
}

/// A Deployment that never converged produces nothing, whatever its labels.
#[test]
fn unconverged_deployment_is_ignored() {
    let hook = inline_hook();
    let (hooks, mut hashes) = primed_stores(&hook);
    let d = deployment("nginx:1.14.2", 1, 0, 1);
    match process_deployment_event(&d, &hooks, &mut hashes) {
        DeploymentDecision::Incomplete => {},
        _ => panic!("an unconverged deployment must be ignored"),
    }
}

/// The fingerprint of a Deployment equals the fingerprint of its clone.
#[test]
fn fingerprint_is_stable_across_clones() {
    let d = deployment("nginx:1.14.2", 1, 1, 1);
    assert_eq!(d.pod_template_hash(), d.clone().pod_template_hash());
}

/// A template change moves the fingerprint; a status change does not.
#[test]
fn fingerprint_tracks_template_not_status() {
    let base = deployment("nginx:1.14.2", 1, 1, 1);
    let retagged = deployment("nginx:1.14.3", 1, 1, 1);
    let rescaled = deployment("nginx:1.14.2", 1, 0, 7);
    assert_ne!(base.pod_template_hash(), retagged.pod_template_hash());
    assert_eq!(base.pod_template_hash(), rescaled.pod_template_hash());
}

/// A change anywhere in the pod specification — also in the opaque
/// remainder carrying the fields outside the named ones — is a new
/// revision: the fingerprint moves and the dedup gate reports a change.
#[test]
fn remainder_changes_are_new_revisions() {
    let base = deployment("nginx:1.14.2", 1, 1, 1);

    let mut spec_rest = deployment("nginx:1.14.2", 1, 1, 1);
    if let Some(spec) = &mut spec_rest.spec {
        if let Some(ps) = &mut spec.template.spec {
            ps.remainder = "serviceAccountName: migrations".to_string();
        }
    }
    assert_ne!(base.pod_template_hash(), spec_rest.pod_template_hash());

    let mut container_rest = deployment("nginx:1.14.2", 1, 1, 1);
    if let Some(spec) = &mut container_rest.spec {
        if let Some(ps) = &mut spec.template.spec {
            ps.containers[0].remainder = "resources: 500m".to_string();
        }
    }
    assert_ne!(base.pod_template_hash(), container_rest.pod_template_hash());

    let mut hashes = DeploymentPodTemplateHashCache::new();
    assert!(matches!(hashes.update_cache(&base), CacheOp::Changed));
    assert!(matches!(hashes.update_cache(&spec_rest), CacheOp::Changed));
    assert!(matches!(hashes.update_cache(&container_rest), CacheOp::Changed));
    assert!(matches!(hashes.update_cache(&container_rest), CacheOp::Unchanged));
}

/// The fingerprint is rendered as 64 uppercase hexadecimal characters.
#[test]
fn fingerprint_is_uppercase_hex() {
    let d = deployment("nginx:1.14.2", 1, 1, 1);
    let hash = d.pod_template_hash().unwrap();
    assert_eq!(hash.len(), 64);
    assert!(hash.chars().all(|c| c.is_ascii_digit() || ('A'..='F').contains(&c)));
}

/// A Deployment without a pod specification has no fingerprint.
#[test]
fn missing_pod_spec_has_no_fingerprint() {
    let mut d = deployment("nginx:1.14.2", 1, 1, 1);
    if let Some(spec) = &mut d.spec {
        spec.template.spec = None;
    }
    assert_eq!(d.pod_template_hash(), None);
}

/// The dedup gate: `Unchanged` exactly when the key was stored with the same
/// fingerprint.
#[test]
fn dedup_gate_reports_unchanged_iff_key_and_hash_repeat() {
    let mut hashes = DeploymentPodTemplateHashCache::new();
    let d = deployment("nginx:1.14.2", 1, 1, 1);
    assert!(matches!(hashes.update_cache(&d), CacheOp::Changed));
    assert!(matches!(hashes.update_cache(&d), CacheOp::Unchanged));
    let retagged = deployment("nginx:1.14.3", 1, 1, 1);
    assert!(matches!(hashes.update_cache(&retagged), CacheOp::Changed));
    let mut other = deployment("nginx:1.14.3", 1, 1, 1);
    other.metadata.name = Some("other-deployment".to_string());
    assert!(matches!(hashes.update_cache(&other), CacheOp::Changed));
}

/// A Deployment lacking a pod specification is conservatively a change and
/// stays one.
#[test]
fn missing_pod_spec_is_always_a_change() {
    let mut hashes = DeploymentPodTemplateHashCache::new();
    let mut d = deployment("nginx:1.14.2", 1, 1, 1);
    if let Some(spec) = &mut d.spec {
        spec.template.spec = None;
    }
    assert!(matches!(hashes.update_cache(&d), CacheOp::Changed));
    assert!(matches!(hashes.update_cache(&d), CacheOp::Changed));
}

/// The completion predicate asks for all three counts, present and equal.
#[test]
fn completion_requires_all_three_counts_equal() {
    assert!(deployment("i", 1, 1, 1).did_successfully_deploy());
    assert!(deployment("i", 0, 0, 0).did_successfully_deploy());
    assert!(!deployment("i", 1, 0, 1).did_successfully_deploy());
    assert!(!deployment("i", 2, 1, 1).did_successfully_deploy());
    let mut no_status = deployment("i", 1, 1, 1);
    no_status.status = None;
    assert!(!no_status.did_successfully_deploy());
    let mut no_replicas = deployment("i", 1, 1, 1);
    if let Some(spec) = &mut no_replicas.spec {
        spec.replicas = None;
    }
    assert!(!no_replicas.did_successfully_deploy());
}

/// The matcher holds exactly when every selector pair is on the Deployment.
#[test]
fn matcher_is_selector_subset() {
    let mut hook = inline_hook();
    hook.spec.selector.labels = labels(&[("a", "1"), ("b", "2")]);
    let mut d = deployment("i", 1, 1, 1);
    d.metadata.labels = Some(labels(&[("a", "1"), ("b", "2"), ("c", "3")]));
    assert!(hook.does_match_deployment(&d));
    d.metadata.labels = Some(labels(&[("a", "1"), ("c", "3")]));
    assert!(!hook.does_match_deployment(&d));
    d.metadata.labels = Some(labels(&[("a", "1"), ("b", "wrong")]));
    assert!(!hook.does_match_deployment(&d));
}

/// An empty selector matches any labelled Deployment, but never one without
/// a label map.
#[test]
fn empty_selector_matches_labelled_deployments_only() {
    let mut hook = inline_hook();
    hook.spec.selector.labels = labels(&[]);
    let mut d = deployment("i", 1, 1, 1);
    assert!(hook.does_match_deployment(&d));
    d.metadata.labels = Some(labels(&[]));
    assert!(hook.does_match_deployment(&d));
    d.metadata.labels = None;
    assert!(!hook.does_match_deployment(&d));
}

/// Fanout lists matching hooks sorted by (namespace, name), the last
/// refresh winning for a repeated key.
#[test]
fn hook_store_sorts_and_deduplicates() {
    let mut hooks = DeploymentHookCache::new();
    let mut a = inline_hook();
    a.metadata.namespace = Some("beta".to_string());
    a.metadata.name = Some("second".to_string());
    let mut b = inline_hook();
    b.metadata.namespace = Some("alpha".to_string());
    b.metadata.name = Some("zeta".to_string());
    let mut c = inline_hook();
    c.metadata.namespace = Some("alpha".to_string());
    c.metadata.name = Some("eta".to_string());
    let mut replacement = inline_hook();
    replacement.metadata.namespace = Some("beta".to_string());
    replacement.metadata.name = Some("second".to_string());
    replacement.metadata.uid = Some("5678".to_string());
    hooks.refresh(vec![a, b, c, replacement]);
    assert_eq!(hooks.len(), 3);

    let d = deployment("i", 1, 1, 1);
    let matched = hooks.find_by_matching_deployment(&d);
    assert_eq!(matched.len(), 3);
    assert_eq!(matched[0].metadata.namespace, Some("alpha".to_string()));
    assert_eq!(matched[0].metadata.name, Some("eta".to_string()));
    assert_eq!(matched[1].metadata.namespace, Some("alpha".to_string()));
    assert_eq!(matched[1].metadata.name, Some("zeta".to_string()));
    assert_eq!(matched[2].metadata.namespace, Some("beta".to_string()));
    assert_eq!(matched[2].metadata.name, Some("second".to_string()));
    assert_eq!(matched[2].metadata.uid, Some("5678".to_string()));
}

/// The resolver cache answers from what was pushed, under the template's
/// own key; templates without a name are not cached.
#[test]
fn resolver_cache_roundtrip() {
    let mut service = PodTemplateService::new();
    let ns = "docbot-test".to_string();
    let name = "nginx-template".to_string();
    assert_eq!(service.get_cached(&ns, &name), None);

    let template = PodTemplate {
        metadata: ObjectMeta {
            name: Some(name.clone()),
            namespace: Some(ns.clone()),
            ..empty_meta()
        },
        template: Some(PodTemplateSpec { metadata: None, spec: Some(pod_spec("nginx:1")) }),
    };
    service.push(template.clone());
    assert_eq!(service.get_cached(&ns, &name), Some(template.clone()));

    let mut nameless = template;
    nameless.metadata.name = None;
    nameless.metadata.namespace = Some("elsewhere".to_string());
    service.push(nameless);
    assert_eq!(service.get_cached(&"elsewhere".to_string(), &"".to_string()), None);
}

/// Change notifications carry the `namespace/name` key and match exactly.
#[test]
fn change_notifications_match_exactly() {
    let key = PodTemplateService::change_key(&"docbot-test".to_string(), &"tmpl".to_string());
    assert_eq!(key, "docbot-test/tmpl".to_string());
    assert!(PodTemplateService::notification_matches(&key, &"docbot-test/tmpl".to_string()));
    assert!(!PodTemplateService::notification_matches(&key, &"docbot-test/other".to_string()));
}
