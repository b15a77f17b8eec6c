use cc_policy::cri::{get_rules, merge_mounts, merge_process_args, merge_process_cwd, merge_process_env, get_image_volume_mounts};
use cc_policy::errors::PolicyError;
use cc_policy::image::ImageConfig;
use cc_policy::oci::Mount;

fn strings(items: &[&str]) -> Vec<String> {
    items.iter().map(|s| s.to_string()).collect()
}

fn image(entrypoint: &[&str], cmd: &[&str]) -> ImageConfig {
    let mut c = ImageConfig::empty();
    c.entrypoint = strings(entrypoint);
    c.cmd = strings(cmd);
    c
}

fn mount(dest: &str, typ: &str, source: &str, options: &[&str]) -> Mount {
    Mount {
        destination: dest.to_string(),
        typ: typ.to_string(),
        source: source.to_string(),
        options: strings(options),
    }
}

#[test]
fn env_merge_replaces_in_place_and_ignores_absent_removal() {
    let mut defaults = strings(&["A=1", "B=2"]);
    let overrides = strings(&["B=3", "C"]);
    merge_process_env(&mut defaults, &overrides);
    assert_eq!(defaults, strings(&["A=1", "B=3"]));
}

#[test]
fn env_merge_appends_new_names() {
    let mut defaults = strings(&["A=1"]);
    let overrides = strings(&["B=2", "C=3"]);
    merge_process_env(&mut defaults, &overrides);
    assert_eq!(defaults, strings(&["A=1", "B=2", "C=3"]));
}

#[test]
fn env_merge_removal_uses_snapshot_positions() {
    let mut defaults = strings(&["A=1", "B=2", "C=3"]);
    let overrides = strings(&["B=9", "A"]);
    merge_process_env(&mut defaults, &overrides);
    assert_eq!(defaults, strings(&["B=9", "C=3"]));
}

#[test]
fn env_merge_duplicate_new_name_appends_twice() {
    // The accepted quirk: a second override with the same new name appends
    // again instead of replacing.
    let mut defaults = strings(&["A=1"]);
    let overrides = strings(&["X=1", "X=2"]);
    merge_process_env(&mut defaults, &overrides);
    assert_eq!(defaults, strings(&["A=1", "X=1", "X=2"]));
}

#[test]
fn env_merge_removal_never_touches_appended_entries() {
    let mut defaults = strings(&["A=1"]);
    let overrides = strings(&["B=2", "B"]);
    merge_process_env(&mut defaults, &overrides);
    assert_eq!(defaults, strings(&["A=1", "B=2"]));
}

#[test]
fn mount_merge_mounts_beat_extras() {
    let v2 = mount("/x", "bind", "src2", &["rw"]);
    let v1 = mount("/x", "bind", "src1", &["ro"]);
    let merged = merge_mounts(vec![v2], vec![v1]);
    assert_eq!(merged.len(), 1);
    assert_eq!(merged[0].destination, "/x");
    assert_eq!(merged[0].source, "src2");
    assert_eq!(merged[0].options, strings(&["rw"]));
}

#[test]
fn mount_merge_keeps_first_insertion_order() {
    let extras = vec![
        mount("/a", "bind", "ea", &[]),
        mount("/b", "bind", "eb", &[]),
    ];
    let mounts = vec![
        mount("/b", "bind", "mb", &[]),
        mount("/c", "bind", "mc", &[]),
    ];
    let merged = merge_mounts(mounts, extras);
    let dests: Vec<&str> = merged.iter().map(|m| m.destination.as_str()).collect();
    assert_eq!(dests, vec!["/a", "/b", "/c"]);
    assert_eq!(merged[1].source, "mb");
}

#[test]
fn args_merge_image_cmd_when_all_empty() {
    let r = merge_process_args(&vec![], &vec![], &image(&[], &["a", "b"])).unwrap();
    assert_eq!(r, strings(&["a", "b"]));
}

#[test]
fn args_merge_empty_string_entrypoint_sentinel() {
    let r = merge_process_args(&vec![], &vec![], &image(&[""], &["a"])).unwrap();
    assert_eq!(r, strings(&["a"]));
}

#[test]
fn args_merge_empty_everything_fails() {
    let e = merge_process_args(&vec![], &vec![], &image(&[], &[])).unwrap_err();
    assert!(matches!(e, PolicyError::NoCommand));
    assert_eq!(e.message(), "no command specified");
}

#[test]
fn args_merge_container_command_wins() {
    let r = merge_process_args(
        &strings(&["/bin/mine"]),
        &strings(&["-x"]),
        &image(&["/bin/sh"], &["-c", "sleep 1"]),
    )
    .unwrap();
    assert_eq!(r, strings(&["/bin/mine", "-x"]));
}

#[test]
fn args_merge_entrypoint_and_container_args() {
    let r = merge_process_args(&vec![], &strings(&["-v"]), &image(&["/bin/sh"], &["-c"]))
        .unwrap();
    assert_eq!(r, strings(&["/bin/sh", "-v"]));
}

#[test]
fn cwd_merge_precedence() {
    let mut img = ImageConfig::empty();
    img.working_dir = "/image".to_string();
    assert_eq!(merge_process_cwd(&"/container".to_string(), &img), "/container");
    assert_eq!(merge_process_cwd(&String::new(), &img), "/image");
    assert_eq!(merge_process_cwd(&String::new(), &ImageConfig::empty()), "");
}

#[test]
fn privileged_flips_ro_on_sysfs_and_cgroup() {
    let spec = get_rules(false, true, false);
    let mounts = spec.mounts.unwrap();
    assert_eq!(mounts.len(), 10);
    let sysfs = mounts.iter().find(|m| m.typ == "sysfs").unwrap();
    assert_eq!(sysfs.options, strings(&["nosuid", "noexec", "nodev", "rw"]));
    let cgroup = mounts.iter().find(|m| m.typ == "cgroup").unwrap();
    assert_eq!(cgroup.options, strings(&["nosuid", "noexec", "nodev", "relatime", "rw"]));
    // a non-matching mount type is untouched
    let shm = mounts.iter().find(|m| m.destination == "/dev/shm").unwrap();
    assert_eq!(shm.options, strings(&["rbind"]));
}

#[test]
fn unprivileged_keeps_ro() {
    let spec = get_rules(false, false, false);
    let mounts = spec.mounts.unwrap();
    let sysfs = mounts.iter().find(|m| m.typ == "sysfs").unwrap();
    assert_eq!(sysfs.options, strings(&["nosuid", "noexec", "nodev", "ro"]));
}

#[test]
fn container_rules_env_and_process() {
    let spec = get_rules(false, false, true);
    assert_eq!(spec.oci_version, "1.0.2-dev");
    let p = spec.process.unwrap();
    assert_eq!(p.user.uid, 0);
    assert_eq!(p.user.gid, 0);
    assert_eq!(p.cwd, "/");
    assert!(p.args.is_none());
    let env = p.env.unwrap();
    assert_eq!(
        env,
        strings(&[
            "^HOSTNAME=.+",
            "^PATH=/usr/local/sbin:/usr/local/bin:/usr/sbin:/usr/bin:/sbin:/bin$",
            "TERM=xterm",
        ])
    );
}

#[test]
fn sandbox_rules_have_single_resolv_mount_and_term_env() {
    let spec = get_rules(true, false, true);
    let p = spec.process.unwrap();
    assert_eq!(p.env.unwrap(), strings(&["TERM=xterm"]));
    let mounts = spec.mounts.unwrap();
    assert_eq!(mounts.len(), 7);
    let resolv = mounts.iter().find(|m| m.destination == "/etc/resolv.conf").unwrap();
    assert_eq!(resolv.options, strings(&["rbind", "ro"]));
}

#[test]
fn sandbox_rules_without_tty_have_empty_env() {
    let spec = get_rules(true, false, false);
    let p = spec.process.unwrap();
    assert_eq!(p.env.unwrap(), Vec::<String>::new());
}

#[test]
fn image_volume_mounts_use_final_segment() {
    let mut img = ImageConfig::empty();
    img.volumes = strings(&["/data/store"]);
    let mounts = get_image_volume_mounts(&img).unwrap();
    assert_eq!(mounts.len(), 1);
    assert_eq!(mounts[0].destination, "/data/store");
    assert_eq!(mounts[0].typ, "bind");
    assert_eq!(
        mounts[0].source,
        "^/run/kata-containers/shared/containers/[a-z0-9]+-[a-z0-9]+-store$"
    );
    assert_eq!(mounts[0].options, strings(&["rbind", "rprivate", "rw"]));
}

#[test]
fn image_volume_without_segment_is_an_error() {
    for path in ["/", "/data/..", "/data/.", "..", "."] {
        let mut img = ImageConfig::empty();
        img.volumes = strings(&[path]);
        let e = get_image_volume_mounts(&img).unwrap_err();
        assert!(matches!(e, PolicyError::MalformedField(_)));
    }
}

#[test]
fn image_volume_trailing_slashes_are_ignored() {
    let mut img = ImageConfig::empty();
    img.volumes = strings(&["/data/store//"]);
    let mounts = get_image_volume_mounts(&img).unwrap();
    assert_eq!(
        mounts[0].source,
        "^/run/kata-containers/shared/containers/[a-z0-9]+-[a-z0-9]+-store$"
    );
}
