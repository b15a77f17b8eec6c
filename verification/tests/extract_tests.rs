use cc_policy::cri::merge_process_env;
use cc_policy::errors::PolicyError;
use cc_policy::pod_yaml::{
    config_map_refs, config_map_value, ConfigMapEntry, patch_yaml, PodYaml, VolumeType,
};
use cc_policy::yaml::Yaml;

fn ystr(s: &str) -> Yaml {
    Yaml::Str(s.to_string())
}

fn ymap(entries: Vec<(&str, Yaml)>) -> Yaml {
    Yaml::Mapping(entries.into_iter().map(|(k, v)| (ystr(k), v)).collect())
}

fn yseq(items: Vec<Yaml>) -> Yaml {
    Yaml::Sequence(items)
}

fn cm_entry(name: &str, key: &str, value: &str) -> ConfigMapEntry {
    ConfigMapEntry { name: name.to_string(), key: key.to_string(), value: value.to_string() }
}

fn get_in<'a>(y: &'a Yaml, path: &[&str]) -> &'a Yaml {
    let mut cur = y;
    for k in path {
        cur = cur.get(k).unwrap();
    }
    cur
}

#[test]
fn pod_from_reads_kind_and_containers() {
    let manifest = ymap(vec![
        ("kind", ystr("Pod")),
        ("spec", ymap(vec![("containers", yseq(vec![ymap(vec![("name", ystr("c1"))])]))])),
    ]);
    let pod = PodYaml::from(&manifest).unwrap();
    assert_eq!(pod.kind, "Pod");
    assert_eq!(pod.containers.unwrap().len(), 1);
    assert!(pod.init_containers.is_none());
}

#[test]
fn pod_from_rejects_unsupported_kind() {
    let manifest = ymap(vec![("kind", ystr("Service"))]);
    let e = PodYaml::from(&manifest).unwrap_err();
    assert!(matches!(e, PolicyError::UnsupportedKind(_)));
    assert_eq!(e.message(), "unsupported kind: Service");
}

#[test]
fn deployment_containers_live_under_template() {
    let manifest = ymap(vec![
        ("kind", ystr("Deployment")),
        (
            "spec",
            ymap(vec![(
                "template",
                ymap(vec![(
                    "spec",
                    ymap(vec![(
                        "initContainers",
                        yseq(vec![ymap(vec![("name", ystr("init1"))])]),
                    )]),
                )]),
            )]),
        ),
    ]);
    let pod = PodYaml::from(&manifest).unwrap();
    assert_eq!(pod.kind, "Deployment");
    assert!(pod.containers.is_none());
    assert_eq!(pod.init_containers.unwrap().len(), 1);
}

#[test]
fn get_name_requires_a_string() {
    let c = ymap(vec![("name", ystr("web"))]);
    assert_eq!(PodYaml::get_name(&c).unwrap(), "web");
    let bad = ymap(vec![("name", Yaml::Bool(true))]);
    assert!(matches!(PodYaml::get_name(&bad).unwrap_err(), PolicyError::MalformedField(_)));
}

#[test]
fn security_context_defaults_and_values() {
    let c = ymap(vec![]);
    let sc = PodYaml::get_security_context(&c).unwrap();
    assert!(!sc.privileged);
    assert!(!sc.allow_elevated);
    let c2 = ymap(vec![(
        "securityContext",
        ymap(vec![("privileged", Yaml::Bool(true)), ("allowPrivilegeEscalation", Yaml::Bool(true))]),
    )]);
    let sc2 = PodYaml::get_security_context(&c2).unwrap();
    assert!(sc2.privileged);
    assert!(sc2.allow_elevated);
}

#[test]
fn debugging_tty_defaults_false() {
    assert!(!PodYaml::get_debugging(&ymap(vec![])).unwrap().tty);
    assert!(PodYaml::get_debugging(&ymap(vec![("tty", Yaml::Bool(true))])).unwrap().tty);
    assert!(matches!(
        PodYaml::get_debugging(&ymap(vec![("tty", ystr("yes"))])).unwrap_err(),
        PolicyError::MalformedField(_)
    ));
}

#[test]
fn entry_point_reads_strings_and_defaults_when_absent() {
    let c = ymap(vec![
        ("workingDir", ystr("/work")),
        ("command", yseq(vec![ystr("/bin/sh"), ystr("-c")])),
        ("args", yseq(vec![ystr("sleep 1")])),
    ]);
    let (wd, cmd, args) = PodYaml::get_entry_point(&c).unwrap();
    assert_eq!(wd, "/work");
    assert_eq!(cmd, vec!["/bin/sh".to_string(), "-c".to_string()]);
    assert_eq!(args, vec!["sleep 1".to_string()]);
    let (wd2, cmd2, args2) = PodYaml::get_entry_point(&ymap(vec![])).unwrap();
    assert_eq!(wd2, "");
    assert!(cmd2.is_empty());
    assert!(args2.is_empty());
}

#[test]
fn entry_point_rejects_malformed_command_and_args() {
    // a non-string element in the list is a malformed field, not silently
    // dropped
    let c = ymap(vec![(
        "command",
        yseq(vec![ystr("/bin/sh"), Yaml::Bool(true), ystr("-c")]),
    )]);
    let e = PodYaml::get_entry_point(&c).unwrap_err();
    assert!(matches!(e, PolicyError::MalformedField(_)));
    assert_eq!(e.message(), "missing or malformed field: command");

    // a field that is present but not a sequence likewise
    let c2 = ymap(vec![("args", ystr("oops"))]);
    let e2 = PodYaml::get_entry_point(&c2).unwrap_err();
    assert_eq!(e2.message(), "missing or malformed field: args");
}

#[test]
fn env_literal_and_default_rules() {
    let c = ymap(vec![(
        "env",
        yseq(vec![
            ymap(vec![("name", ystr("A")), ("value", ystr("1"))]),
            ymap(vec![("name", ystr("B"))]),
        ]),
    )]);
    let rules = PodYaml::get_env(&c, &vec![]).unwrap();
    assert_eq!(rules, vec!["A=1".to_string(), "B=".to_string()]);
}

#[test]
fn env_config_map_reference_resolves_to_literal_rule() {
    let c = ymap(vec![(
        "env",
        yseq(vec![ymap(vec![
            ("name", ystr("FOO")),
            (
                "valueFrom",
                ymap(vec![(
                    "configMapKeyRef",
                    ymap(vec![("name", ystr("m")), ("key", ystr("k"))]),
                )]),
            ),
        ])]),
    )]);
    let rules = PodYaml::get_env(&c, &vec![cm_entry("m", "k", "val")]).unwrap();
    assert_eq!(rules, vec!["FOO=val".to_string()]);
    let e = PodYaml::get_env(&c, &vec![]).unwrap_err();
    assert!(matches!(e, PolicyError::ConfigMapValueMissing(_, _)));
}

#[test]
fn env_opaque_references_get_loose_pattern() {
    for refkind in ["secretKeyRef", "fieldRef", "resourceFieldRef"] {
        let c = ymap(vec![(
            "env",
            yseq(vec![ymap(vec![
                ("name", ystr("S")),
                ("valueFrom", ymap(vec![(refkind, ymap(vec![]))])),
            ])]),
        )]);
        let rules = PodYaml::get_env(&c, &vec![]).unwrap();
        assert_eq!(rules, vec!["^S=.".to_string()]);
    }
}

#[test]
fn env_unsupported_reference_is_an_error() {
    let c = ymap(vec![(
        "env",
        yseq(vec![ymap(vec![
            ("name", ystr("X")),
            ("valueFrom", ymap(vec![("weirdRef", ymap(vec![]))])),
        ])]),
    )]);
    let e = PodYaml::get_env(&c, &vec![]).unwrap_err();
    assert!(matches!(e, PolicyError::UnsupportedReference(_)));
}

#[test]
fn volumes_resolve_types_and_readonly() {
    let spec = ymap(vec![(
        "volumes",
        yseq(vec![
            ymap(vec![("name", ystr("e")), ("emptyDir", ymap(vec![]))]),
            ymap(vec![("name", ystr("s")), ("secret", ymap(vec![]))]),
            ymap(vec![
                ("name", ystr("h")),
                ("hostPath", ymap(vec![("path", ystr("/hp"))])),
            ]),
        ]),
    )]);
    let vols = PodYaml::get_volmues(&spec).unwrap();
    assert_eq!(vols.len(), 3);
    assert_eq!(vols[0].name, "e");
    assert_eq!(vols[0].volume.kind, VolumeType::EmptyDir);
    assert!(vols[0].volume.local);
    assert!(!vols[0].volume.readonly);
    assert_eq!(vols[1].volume.kind, VolumeType::Secret);
    assert!(vols[1].volume.readonly);
    assert_eq!(vols[2].volume.kind, VolumeType::HostPath);
    assert_eq!(vols[2].volume.host_path, "/hp");
}

fn pod_with_volumes(volumes: Yaml, container: Yaml) -> Yaml {
    ymap(vec![
        ("kind", ystr("Pod")),
        (
            "spec",
            ymap(vec![("volumes", volumes), ("containers", yseq(vec![container]))]),
        ),
    ])
}

#[test]
fn mounts_resolve_propagation_and_readonly() {
    let volumes = yseq(vec![
        ymap(vec![("name", ystr("v")), ("hostPath", ymap(vec![("path", ystr("/hp"))]))]),
        ymap(vec![("name", ystr("sec")), ("secret", ymap(vec![]))]),
    ]);
    let container = ymap(vec![
        ("name", ystr("c")),
        (
            "volumeMounts",
            yseq(vec![
                ymap(vec![
                    ("mountPath", ystr("/x")),
                    ("name", ystr("v")),
                    ("mountPropagation", ystr("HostToContainer")),
                ]),
                ymap(vec![
                    ("mountPath", ystr("/y")),
                    ("name", ystr("sec")),
                    ("readOnly", Yaml::Bool(false)),
                ]),
            ]),
        ),
    ]);
    let manifest = pod_with_volumes(volumes, container);
    let pod = PodYaml::from(&manifest).unwrap();
    let c = &pod.containers.unwrap()[0];
    let mounts = pod.get_mounts(c).unwrap();
    assert_eq!(mounts.len(), 2);
    assert_eq!(mounts[0].destination, "/x");
    assert_eq!(mounts[0].typ, "bind");
    assert_eq!(mounts[0].source, "/hp");
    assert_eq!(
        mounts[0].options,
        vec!["rbind".to_string(), "rslave".to_string(), "rw".to_string()]
    );
    // a read-only volume wins over the request's readOnly: false
    assert_eq!(
        mounts[1].options,
        vec!["rbind".to_string(), "rprivate".to_string(), "ro".to_string()]
    );
}

#[test]
fn mounts_unknown_volume_and_propagation_are_errors() {
    let manifest = pod_with_volumes(
        yseq(vec![]),
        ymap(vec![
            ("name", ystr("c")),
            (
                "volumeMounts",
                yseq(vec![ymap(vec![("mountPath", ystr("/x")), ("name", ystr("nope"))])]),
            ),
        ]),
    );
    let pod = PodYaml::from(&manifest).unwrap();
    let c = &pod.containers.as_ref().unwrap()[0];
    assert!(matches!(pod.get_mounts(c).unwrap_err(), PolicyError::UnknownVolume(_)));

    let manifest2 = pod_with_volumes(
        yseq(vec![ymap(vec![("name", ystr("v")), ("emptyDir", ymap(vec![]))])]),
        ymap(vec![
            ("name", ystr("c")),
            (
                "volumeMounts",
                yseq(vec![ymap(vec![
                    ("mountPath", ystr("/x")),
                    ("name", ystr("v")),
                    ("mountPropagation", ystr("Sideways")),
                ])]),
            ),
        ]),
    );
    let pod2 = PodYaml::from(&manifest2).unwrap();
    let c2 = &pod2.containers.as_ref().unwrap()[0];
    let e = pod2.get_mounts(c2).unwrap_err();
    assert!(matches!(e, PolicyError::UnsupportedPropagation(_)));
}

#[test]
fn local_empty_dir_mounts_use_local_type() {
    let manifest = pod_with_volumes(
        yseq(vec![ymap(vec![("name", ystr("v")), ("emptyDir", ymap(vec![]))])]),
        ymap(vec![
            ("name", ystr("c")),
            (
                "volumeMounts",
                yseq(vec![ymap(vec![("mountPath", ystr("/x")), ("name", ystr("v"))])]),
            ),
        ]),
    );
    let pod = PodYaml::from(&manifest).unwrap();
    let c = &pod.containers.as_ref().unwrap()[0];
    let mounts = pod.get_mounts(c).unwrap();
    assert_eq!(mounts[0].typ, "local");
}

#[test]
fn config_map_value_reads_data_key() {
    let cm = ymap(vec![("data", ymap(vec![("k", ystr("v"))]))]);
    assert_eq!(
        config_map_value(&cm, &"m".to_string(), &"k".to_string()).unwrap(),
        "v"
    );
    let e = config_map_value(&cm, &"m".to_string(), &"missing".to_string()).unwrap_err();
    assert!(matches!(e, PolicyError::ConfigMapValueMissing(_, _)));
    let bad = ymap(vec![]);
    assert!(matches!(
        config_map_value(&bad, &"m".to_string(), &"k".to_string()).unwrap_err(),
        PolicyError::MalformedField(_)
    ));
}

#[test]
fn config_map_refs_lists_name_key_pairs() {
    let containers = vec![ymap(vec![
        ("name", ystr("c")),
        (
            "env",
            yseq(vec![
                ymap(vec![("name", ystr("A")), ("value", ystr("1"))]),
                ymap(vec![
                    ("name", ystr("B")),
                    (
                        "valueFrom",
                        ymap(vec![(
                            "configMapKeyRef",
                            ymap(vec![("name", ystr("m")), ("key", ystr("k"))]),
                        )]),
                    ),
                ]),
            ]),
        ),
    ])];
    let refs = config_map_refs(&containers);
    assert_eq!(refs, vec![("m".to_string(), "k".to_string())]);
}

#[test]
fn patch_pod_creates_metadata_and_annotation() {
    let root = ymap(vec![("kind", ystr("Pod"))]);
    let patched = patch_yaml(root, &"Pod".to_string(), &"QUJD".to_string()).unwrap();
    let ann = get_in(&patched, &["metadata", "annotations", "io.katacontainers.cc_policy"]);
    assert_eq!(ann.as_str().unwrap(), "QUJD");
}

#[test]
fn patch_overwrites_existing_annotation() {
    let root = ymap(vec![(
        "metadata",
        ymap(vec![(
            "annotations",
            ymap(vec![("io.katacontainers.cc_policy", ystr("old"))]),
        )]),
    )]);
    let patched = patch_yaml(root, &"Pod".to_string(), &"new".to_string()).unwrap();
    let ann = get_in(&patched, &["metadata", "annotations", "io.katacontainers.cc_policy"]);
    assert_eq!(ann.as_str().unwrap(), "new");
    // the annotations mapping still holds exactly one entry
    match get_in(&patched, &["metadata", "annotations"]) {
        Yaml::Mapping(es) => assert_eq!(es.len(), 1),
        _ => panic!("annotations is not a mapping"),
    }
}

#[test]
fn patch_templated_kind_reaches_the_template() {
    let root = ymap(vec![
        ("kind", ystr("Deployment")),
        ("spec", ymap(vec![("template", ymap(vec![]))])),
    ]);
    let patched = patch_yaml(root, &"Deployment".to_string(), &"enc".to_string()).unwrap();
    let ann = get_in(
        &patched,
        &["spec", "template", "metadata", "annotations", "io.katacontainers.cc_policy"],
    );
    assert_eq!(ann.as_str().unwrap(), "enc");
}

#[test]
fn patch_unsupported_kind_is_an_error() {
    let root = ymap(vec![]);
    let e = patch_yaml(root, &"Service".to_string(), &"x".to_string()).unwrap_err();
    assert!(matches!(e, PolicyError::UnsupportedKind(_)));
}

#[test]
fn resolved_config_map_rule_replaces_by_name() {
    // the literal form keeps the plain variable name, so under the merge a
    // resolved rule replaces an existing rule for that name in place
    let c = ymap(vec![(
        "env",
        yseq(vec![ymap(vec![
            ("name", ystr("TERM")),
            (
                "valueFrom",
                ymap(vec![(
                    "configMapKeyRef",
                    ymap(vec![("name", ystr("m")), ("key", ystr("k"))]),
                )]),
            ),
        ])]),
    )]);
    let rules = PodYaml::get_env(&c, &vec![cm_entry("m", "k", "vt220")]).unwrap();
    assert_eq!(rules, vec!["TERM=vt220".to_string()]);
    let mut defaults = vec!["A=1".to_string(), "TERM=xterm".to_string()];
    merge_process_env(&mut defaults, &rules);
    assert_eq!(defaults, vec!["A=1".to_string(), "TERM=vt220".to_string()]);
}
