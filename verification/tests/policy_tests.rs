use cc_policy::errors::PolicyError;
use cc_policy::image::{get_env, image_uri, ImageConfig, ImageEntry};
use cc_policy::kubernetes::get_pause_image_ref;
use cc_policy::policy::{
    create_policy_by_image_ref, get_policy_from_yaml, image_refs, CcPolicy, ContainerPolicy,
};
use cc_policy::yaml::Yaml;

fn ystr(s: &str) -> Yaml {
    Yaml::Str(s.to_string())
}

fn ymap(entries: Vec<(&str, Yaml)>) -> Yaml {
    Yaml::Mapping(entries.into_iter().map(|(k, v)| (ystr(k), v)).collect())
}

fn yseq(items: Vec<Yaml>) -> Yaml {
    Yaml::Sequence(items)
}

fn shell_image() -> ImageConfig {
    let mut c = ImageConfig::empty();
    c.entrypoint = vec!["/bin/sh".to_string()];
    c.cmd = vec!["-c".to_string(), "sleep 1".to_string()];
    c
}

fn entry(reference: &str, config: ImageConfig) -> ImageEntry {
    ImageEntry { reference: reference.to_string(), config }
}

fn one_container_pod() -> Yaml {
    ymap(vec![
        ("kind", ystr("Pod")),
        (
            "spec",
            ymap(vec![(
                "containers",
                yseq(vec![ymap(vec![("name", ystr("web")), ("image", ystr("busybox"))])]),
            )]),
        ),
    ])
}

#[test]
fn image_uri_normalization() {
    assert_eq!(image_uri("busybox"), "docker://docker.io/library/busybox");
    assert_eq!(image_uri("quay.io/app/img"), "docker://quay.io/app/img");
    assert_eq!(image_uri("oci://somewhere/img"), "oci://somewhere/img");
}

#[test]
fn image_env_is_anchored_exactly() {
    let mut c = ImageConfig::empty();
    c.env = vec!["PATH=/bin".to_string()];
    assert_eq!(get_env(&c), vec!["^PATH=/bin$".to_string()]);
}

#[test]
fn pause_image_reference() {
    assert_eq!(get_pause_image_ref(), "registry.k8s.io/pause:3.6");
}

#[test]
fn image_refs_lists_named_images() {
    let containers = vec![
        ymap(vec![("name", ystr("a")), ("image", ystr("busybox"))]),
        ymap(vec![("name", ystr("b"))]),
        ymap(vec![("name", ystr("c")), ("image", ystr("nginx:1.23"))]),
    ];
    assert_eq!(image_refs(&containers), vec!["busybox".to_string(), "nginx:1.23".to_string()]);
}

#[test]
fn end_to_end_pod_args_come_from_the_image() {
    let manifest = one_container_pod();
    let pod = cc_policy::pod_yaml::PodYaml::from(&manifest).unwrap();
    let images = vec![entry("busybox", shell_image())];
    let policy = CcPolicy::from_pod_yaml(&pod, false, &images, &vec![]).unwrap();
    assert_eq!(policy.version, "0.1.0");
    assert_eq!(policy.containers.len(), 1);
    assert_eq!(policy.containers[0].name, "web");
    let process = policy.containers[0].policy.oci_spec.process.as_ref().unwrap();
    assert_eq!(
        process.args.as_ref().unwrap(),
        &vec!["/bin/sh".to_string(), "-c".to_string(), "sleep 1".to_string()]
    );
}

#[test]
fn default_rules_add_the_sandbox_policy() {
    let manifest = one_container_pod();
    let pod = cc_policy::pod_yaml::PodYaml::from(&manifest).unwrap();
    let images = vec![
        entry("busybox", shell_image()),
        entry("registry.k8s.io/pause:3.6", {
            let mut c = ImageConfig::empty();
            c.entrypoint = vec!["/pause".to_string()];
            c
        }),
    ];
    let policy = CcPolicy::from_pod_yaml(&pod, true, &images, &vec![]).unwrap();
    assert_eq!(policy.containers.len(), 2);
    assert_eq!(policy.containers[1].name, "pause");
    let sandbox = &policy.containers[1].policy;
    let args = sandbox.oci_spec.process.as_ref().unwrap().args.as_ref().unwrap();
    assert_eq!(args, &vec!["/pause".to_string()]);
    // the sandbox spec has no cgroup mount, the regular container's does
    let sandbox_mounts = sandbox.oci_spec.mounts.as_ref().unwrap();
    assert!(sandbox_mounts.iter().all(|m| m.typ != "cgroup"));
    let web_mounts = policy.containers[0].policy.oci_spec.mounts.as_ref().unwrap();
    assert!(web_mounts.iter().any(|m| m.typ == "cgroup"));
}

#[test]
fn missing_image_in_snapshot_is_an_error() {
    let manifest = one_container_pod();
    let pod = cc_policy::pod_yaml::PodYaml::from(&manifest).unwrap();
    let e = CcPolicy::from_pod_yaml(&pod, false, &vec![], &vec![]).unwrap_err();
    assert!(matches!(e, PolicyError::ImageConfigMissing(_)));
}

#[test]
fn container_env_overrides_image_env_in_place() {
    let manifest = ymap(vec![
        ("kind", ystr("Pod")),
        (
            "spec",
            ymap(vec![(
                "containers",
                yseq(vec![ymap(vec![
                    ("name", ystr("web")),
                    ("image", ystr("busybox")),
                    (
                        "env",
                        yseq(vec![ymap(vec![("name", ystr("^FOO")), ("value", ystr("2$"))])]),
                    ),
                ])]),
            )]),
        ),
    ]);
    let pod = cc_policy::pod_yaml::PodYaml::from(&manifest).unwrap();
    let mut img = shell_image();
    img.env = vec!["FOO=1".to_string()];
    let images = vec![entry("busybox", img)];
    let policy = CcPolicy::from_pod_yaml(&pod, false, &images, &vec![]).unwrap();
    let env = policy.containers[0].policy.oci_spec.process.as_ref().unwrap().env.as_ref().unwrap();
    // without default rules the list starts from the orchestrator's eight
    // service-discovery patterns; the image then contributed ^FOO=1$, and
    // the container's declared ^FOO=2$ replaced it at the same position
    assert_eq!(env.len(), 9);
    assert_eq!(env[8], "^FOO=2$");
    assert!(!env.iter().any(|e| e == "^FOO=1$"));
    assert!(env[0].starts_with("^[A-Z0-9_]+_SERVICE_HOST="));
}

#[test]
fn from_image_ref_keys_by_name_part() {
    let policy =
        CcPolicy::from_image_ref(&"nginx:1.23".to_string(), &shell_image(), false).unwrap();
    assert_eq!(policy.containers.len(), 1);
    assert_eq!(policy.containers[0].name, "nginx");
}

#[test]
fn container_policy_from_image_ref_uses_defaults() {
    let p = ContainerPolicy::from_image_ref(&shell_image(), true).unwrap();
    assert_eq!(p.oci_spec.oci_version, "1.0.2-dev");
    let process = p.oci_spec.process.as_ref().unwrap();
    assert_eq!(
        process.args.as_ref().unwrap(),
        &vec!["/bin/sh".to_string(), "-c".to_string(), "sleep 1".to_string()]
    );
    let custom = p.custom.as_ref().unwrap();
    assert!(custom.layers.is_empty());
}

#[test]
fn create_policy_by_image_ref_returns_text_and_transport_forms() {
    let (json, b64) =
        create_policy_by_image_ref(&"busybox".to_string(), &shell_image(), false).unwrap();
    assert_eq!(base64::encode(json.as_bytes()), b64);
    let v: serde_json::Value = serde_json::from_str(&json).unwrap();
    assert_eq!(v["version"], "0.1.0");
    assert!(v["containers"]["busybox"]["oci_spec"]["process"]["args"].is_array());
}

#[test]
fn get_policy_from_yaml_reports_kind() {
    let manifest = one_container_pod();
    let images = vec![entry("busybox", shell_image())];
    let (kind, json, b64) = get_policy_from_yaml(&manifest, false, &images, &vec![]).unwrap();
    assert_eq!(kind, "Pod");
    assert_eq!(base64::encode(json.as_bytes()), b64);
}

#[test]
fn working_dir_precedence_in_policy() {
    let manifest = ymap(vec![
        ("kind", ystr("Pod")),
        (
            "spec",
            ymap(vec![(
                "containers",
                yseq(vec![ymap(vec![
                    ("name", ystr("web")),
                    ("image", ystr("busybox")),
                    ("workingDir", ystr("/override")),
                ])]),
            )]),
        ),
    ]);
    let pod = cc_policy::pod_yaml::PodYaml::from(&manifest).unwrap();
    let mut img = shell_image();
    img.working_dir = "/image".to_string();
    let images = vec![entry("busybox", img)];
    let policy = CcPolicy::from_pod_yaml(&pod, true, &images, &vec![]);
    // with default rules the sandbox image is also needed
    assert!(matches!(policy.unwrap_err(), PolicyError::ImageConfigMissing(_)));

    let mut img2 = shell_image();
    img2.working_dir = "/image".to_string();
    let images2 = vec![entry("busybox", img2)];
    let policy2 = CcPolicy::from_pod_yaml(&pod, false, &images2, &vec![]).unwrap();
    let process = policy2.containers[0].policy.oci_spec.process.as_ref().unwrap();
    assert_eq!(process.cwd, "/override");
}

#[test]
fn init_containers_are_compiled_after_containers() {
    let manifest = ymap(vec![
        ("kind", ystr("Pod")),
        (
            "spec",
            ymap(vec![
                (
                    "containers",
                    yseq(vec![ymap(vec![("name", ystr("web")), ("image", ystr("busybox"))])]),
                ),
                (
                    "initContainers",
                    yseq(vec![ymap(vec![("name", ystr("setup")), ("image", ystr("busybox"))])]),
                ),
            ]),
        ),
    ]);
    let pod = cc_policy::pod_yaml::PodYaml::from(&manifest).unwrap();
    let images = vec![entry("busybox", shell_image())];
    let policy = CcPolicy::from_pod_yaml(&pod, false, &images, &vec![]).unwrap();
    assert_eq!(policy.containers.len(), 2);
    assert_eq!(policy.containers[0].name, "web");
    assert_eq!(policy.containers[1].name, "setup");
}

#[test]
fn colliding_container_names_overwrite_in_place() {
    let manifest = ymap(vec![
        ("kind", ystr("Pod")),
        (
            "spec",
            ymap(vec![(
                "containers",
                yseq(vec![
                    ymap(vec![("name", ystr("dup")), ("image", ystr("busybox"))]),
                    ymap(vec![("name", ystr("other")), ("image", ystr("busybox"))]),
                    ymap(vec![
                        ("name", ystr("dup")),
                        ("image", ystr("busybox")),
                        ("workingDir", ystr("/second")),
                    ]),
                ]),
            )]),
        ),
    ]);
    let pod = cc_policy::pod_yaml::PodYaml::from(&manifest).unwrap();
    let images = vec![entry("busybox", shell_image())];
    let policy = CcPolicy::from_pod_yaml(&pod, false, &images, &vec![]).unwrap();
    assert_eq!(policy.containers.len(), 2);
    assert_eq!(policy.containers[0].name, "dup");
    assert_eq!(policy.containers[1].name, "other");
    // the later declaration won, at the earlier position
    let process = policy.containers[0].policy.oci_spec.process.as_ref().unwrap();
    assert_eq!(process.cwd, "/second");
}

#[test]
fn orchestrator_fragment_for_regular_containers() {
    let spec = cc_policy::kubernetes::get_rules(false);
    let env = spec.process.as_ref().unwrap().env.as_ref().unwrap();
    assert_eq!(env.len(), 8);
    let mounts = spec.mounts.as_ref().unwrap();
    assert_eq!(mounts.len(), 2);
    assert_eq!(mounts[0].destination, "/dev/termination-log");
    assert_eq!(mounts[1].destination, "/var/run/secrets/kubernetes.io/serviceaccount");
    assert_eq!(
        mounts[1].options,
        vec!["rbind".to_string(), "rprivate".to_string(), "ro".to_string()]
    );
}

#[test]
fn orchestrator_fragment_for_the_sandbox_is_empty() {
    let spec = cc_policy::kubernetes::get_rules(true);
    assert!(spec.process.is_none());
    assert!(spec.mounts.is_none());
}

#[test]
fn empty_spec_and_process_start_bare() {
    let s = cc_policy::oci::empty_spec();
    assert_eq!(s.oci_version, "");
    assert!(s.process.is_none());
    assert!(s.mounts.is_none());
    let p = cc_policy::oci::empty_process();
    assert_eq!(p.user.uid, 0);
    assert_eq!(p.cwd, "");
    assert!(p.args.is_none());
    assert!(p.env.is_none());
}

#[test]
fn pod_declared_mount_beats_the_runtime_default() {
    // the runtime defaults carry an /etc/hosts bind; a pod-declared mount
    // at the same destination replaces it wholesale
    let manifest = ymap(vec![
        ("kind", ystr("Pod")),
        (
            "spec",
            ymap(vec![
                (
                    "volumes",
                    yseq(vec![ymap(vec![
                        ("name", ystr("hosts")),
                        ("hostPath", ymap(vec![("path", ystr("/my/hosts"))])),
                    ])]),
                ),
                (
                    "containers",
                    yseq(vec![ymap(vec![
                        ("name", ystr("web")),
                        ("image", ystr("busybox")),
                        (
                            "volumeMounts",
                            yseq(vec![ymap(vec![
                                ("mountPath", ystr("/etc/hosts")),
                                ("name", ystr("hosts")),
                            ])]),
                        ),
                    ])]),
                ),
            ]),
        ),
    ]);
    let pod = cc_policy::pod_yaml::PodYaml::from(&manifest).unwrap();
    let images = vec![
        entry("busybox", shell_image()),
        entry("registry.k8s.io/pause:3.6", shell_image()),
    ];
    let policy = CcPolicy::from_pod_yaml(&pod, true, &images, &vec![]).unwrap();
    let mounts = policy.containers[0].policy.oci_spec.mounts.as_ref().unwrap();
    let hosts: Vec<_> = mounts.iter().filter(|m| m.destination == "/etc/hosts").collect();
    assert_eq!(hosts.len(), 1);
    assert_eq!(hosts[0].source, "/my/hosts");
    // an untouched default keeps its generated-path source pattern
    let hostname = mounts.iter().find(|m| m.destination == "/etc/hostname").unwrap();
    assert!(hostname.source.starts_with("^/run/kata-containers/"));
}
