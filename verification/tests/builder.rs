use docbot::crd::{
    default_job_ttl_seconds_after_finished, DeploymentHook, DeploymentHookSpec,
    DeploymentSelector, InternalPodTemplate,
};
use docbot::job::{generate_from_template, JobError};
use docbot::labels::LabelMap;
use docbot::model::{
    Container, Job, JobSpec, ObjectMeta, OwnerReference, PodSpec, PodTemplate, PodTemplateSpec,
};

fn labels(pairs: &[(&str, &str)]) -> LabelMap {
    LabelMap::from_pairs(
        pairs.iter().map(|(k, v)| (k.to_string(), v.to_string())).collect::<Vec<_>>(),
    )
}

fn empty_meta() -> ObjectMeta {
    ObjectMeta {
        name: None,
        generate_name: None,
        namespace: None,
        uid: None,
        labels: None,
        annotations: None,
        owner_references: None,
    }
}

fn nginx_container() -> Container {
    Container {
        name: "nginx".to_string(),
        image: Some("nginx:1.14.2".to_string()),
        command: vec![
            "sh".to_string(),
            "-c".to_string(),
            "echo \"Running migrations...\"\necho \"Stopping istio...\"\ncurl -sf -XPOST http://127.0.0.1:15020/quitquitquit\necho \"Done\"\n".to_string(),
        ],
        env_from_config_maps: vec!["config-nginx-test".to_string()],
        container_ports: vec![80],
        remainder: String::new(),
    }
}

fn example_pod_template() -> PodTemplate {
    PodTemplate {
        metadata: ObjectMeta {
            name: Some("nginx-template".to_string()),
            namespace: Some("docbot-test".to_string()),
            labels: Some(labels(&[("app", "nginx")])),
            ..empty_meta()
        },
        template: Some(PodTemplateSpec {
            metadata: Some(ObjectMeta {
                labels: Some(labels(&[("app", "nginx")])),
                ..empty_meta()
            }),
            spec: Some(PodSpec {
                restart_policy: None,
                containers: vec![nginx_container()],
                remainder: String::new(),
            }),
        }),
    }
}

fn example_deployment_hook() -> DeploymentHook {
    DeploymentHook {
        metadata: ObjectMeta {
            name: Some("run-app-migrations".to_string()),
            namespace: Some("docbot-test".to_string()),
            uid: Some("1234".to_string()),
            ..empty_meta()
        },
        spec: DeploymentHookSpec {
            selector: DeploymentSelector {
                labels: labels(&[("apps.mx.com/deploymenthook", "finished")]),
            },
            template: InternalPodTemplate {
                ttl_seconds_after_finished: default_job_ttl_seconds_after_finished(),
                name: Some("nginx-template".to_string()),
                spec: None,
            },
        },
    }
}

#[test]
fn generating_job_from_deployment_and_hook() {
    let template = example_pod_template();
    let hook = example_deployment_hook();
    let job = generate_from_template(&hook, template).unwrap();

    let expected_job = Job {
        metadata: ObjectMeta {
            generate_name: Some("docbot-hook-run-app-migrations-".to_string()),
            labels: Some(labels(&[("app", "nginx")])),
            namespace: Some("docbot-test".to_string()),
            owner_references: Some(vec![OwnerReference {
                api_version: "apps.mx.com/v1".to_string(),
                kind: "DeploymentHook".to_string(),
                name: "run-app-migrations".to_string(),
                uid: "1234".to_string(),
                controller: Some(true),
                block_owner_deletion: None,
            }]),
            ..empty_meta()
        },
        spec: Some(JobSpec {
            ttl_seconds_after_finished: Some(259200),
            backoff_limit: Some(1),
            template: PodTemplateSpec {
                metadata: Some(ObjectMeta {
                    labels: Some(labels(&[("app", "nginx")])),
                    ..empty_meta()
                }),
                spec: Some(PodSpec {
                    restart_policy: Some("Never".to_string()),
                    containers: vec![nginx_container()],
                    remainder: String::new(),
                }),
            },
        }),
    };

    assert_eq!(expected_job, job);
}

/// The Job spec carries `backoffLimit = 1` and the hook's ttl even when the
/// source PodTemplate has no inner template.
#[test]
fn backoff_limit_is_always_one() {
    let mut template = example_pod_template();
    template.template = None;
    let hook = example_deployment_hook();
    let job = generate_from_template(&hook, template).unwrap();
    let spec = job.spec.as_ref().unwrap();
    assert_eq!(spec.backoff_limit, Some(1));
    assert_eq!(spec.ttl_seconds_after_finished, Some(259200));
    assert_eq!(spec.template, PodTemplateSpec { metadata: None, spec: None });
}

#[test]
fn builder_fails_without_hook_name() {
    let template = example_pod_template();
    let mut hook = example_deployment_hook();
    hook.metadata.name = None;
    let result = generate_from_template(&hook, template);
    assert_eq!(result, Err(JobError::MissingHookName));
}

#[test]
fn builder_is_deterministic() {
    let a = generate_from_template(&example_deployment_hook(), example_pod_template()).unwrap();
    let b = generate_from_template(&example_deployment_hook(), example_pod_template()).unwrap();
    assert_eq!(a, b);
}

fn job_with_policy(policy: Option<&str>) -> Job {
    let mut template = example_pod_template();
    if let Some(t) = &mut template.template {
        if let Some(s) = &mut t.spec {
            s.restart_policy = policy.map(|p| p.to_string());
        }
    }
    generate_from_template(&example_deployment_hook(), template).unwrap()
}

fn job_policy(job: &Job) -> Option<String> {
    job.spec.as_ref().unwrap().template.spec.as_ref().unwrap().restart_policy.clone()
}

#[test]
fn restart_policy_always_becomes_never() {
    assert_eq!(job_policy(&job_with_policy(Some("Always"))), Some("Never".to_string()));
}

#[test]
fn restart_policy_never_stays_never() {
    assert_eq!(job_policy(&job_with_policy(Some("Never"))), Some("Never".to_string()));
}

#[test]
fn restart_policy_absent_becomes_never() {
    assert_eq!(job_policy(&job_with_policy(None)), Some("Never".to_string()));
}

#[test]
fn restart_policy_on_failure_is_kept() {
    assert_eq!(job_policy(&job_with_policy(Some("OnFailure"))), Some("OnFailure".to_string()));
}

#[test]
fn last_applied_annotation_is_stripped() {
    let mut template = example_pod_template();
    if let Some(t) = &mut template.template {
        t.metadata = Some(ObjectMeta {
            annotations: Some(labels(&[
                ("kubectl.kubernetes.io/last-applied-configuration", "{}"),
                ("team", "platform"),
            ])),
            ..empty_meta()
        });
    }
    let job = generate_from_template(&example_deployment_hook(), template).unwrap();
    let annotations = job.metadata.annotations.unwrap();
    assert_eq!(
        annotations.get(&"kubectl.kubernetes.io/last-applied-configuration".to_string()),
        None
    );
    assert_eq!(annotations.get(&"team".to_string()), Some(&"platform".to_string()));
}

#[test]
fn owner_reference_absent_without_uid() {
    let template = example_pod_template();
    let mut hook = example_deployment_hook();
    hook.metadata.uid = None;
    let job = generate_from_template(&hook, template).unwrap();
    assert_eq!(job.metadata.owner_references, None);
}

#[test]
fn default_ttl_is_72_hours() {
    assert_eq!(default_job_ttl_seconds_after_finished(), Some(259200));
}

#[test]
fn label_map_last_pair_wins() {
    let m = labels(&[("a", "1"), ("b", "2"), ("a", "3")]);
    assert_eq!(m.get(&"a".to_string()), Some(&"3".to_string()));
    assert_eq!(m.get(&"b".to_string()), Some(&"2".to_string()));
    assert_eq!(m.get(&"c".to_string()), None);
    assert_eq!(m.len(), 2);
}

#[test]
fn label_map_remove_key() {
    let mut m = labels(&[("a", "1"), ("b", "2")]);
    m.remove_key(&"a".to_string());
    assert_eq!(m.get(&"a".to_string()), None);
    assert_eq!(m.get(&"b".to_string()), Some(&"2".to_string()));
    assert_eq!(m.len(), 1);
}

#[test]
fn formatted_name_uses_defaults() {
    let named = ObjectMeta {
        name: Some("web".to_string()),
        namespace: Some("prod".to_string()),
        ..empty_meta()
    };
    assert_eq!(named.formatted_name(), "prod/web".to_string());
    let bare = empty_meta();
    assert_eq!(bare.formatted_name(), "default/__unknown__".to_string());
}
