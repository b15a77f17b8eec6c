//! Orchestrator-default allow-spec fragments: the environment patterns and
//! mount points the cluster control plane injects at launch time, plus the
//! identity of the sandbox (pause) container image.

use vstd::prelude::*;
use crate::oci::{Mount, MountV, Process, ProcessV, Spec, SpecV, User};
use crate::strutil::s_to_owned;

verus! {

/// Anchored patterns for the service-discovery variables the orchestrator
/// injects into every regular container.
pub open spec fn kube_env_v() -> Seq<Seq<char>> {
    seq![
        "^[A-Z0-9_]+_SERVICE_HOST=^((25[0-5]|(2[0-4]|1\\d|[1-9]|)\\d).?\\b){4}$"@,
        "^[A-Z0-9_]+_SERVICE_PORT=[0-9]+"@,
        "^[A-Z0-9_]+_SERVICE_PORT_[A-Z]+=[0-9]+"@,
        "^[A-Z0-9_]+_PORT=[a-z]+://^((25[0-5]|(2[0-4]|1\\d|[1-9]|)\\d).?\\b){4}:[0-9]+"@,
        "^[A-Z0-9_]+_PORT_[0-9]+_[A-Z]+=[a-z]+://^((25[0-5]|(2[0-4]|1\\d|[1-9]|)\\d).?\\b){4}:[0-9]+"@,
        "^[A-Z0-9_]+_PORT_[0-9]+_[A-Z]+_PROTO=[a-z]+"@,
        "^[A-Z0-9_]+_PORT_[0-9]+_[A-Z]+_PORT=[0-9]+"@,
        "^[A-Z0-9_]+_PORT_[0-9]+_[A-Z]+_ADDR=^((25[0-5]|(2[0-4]|1\\d|[1-9]|)\\d).?\\b){4}$"@,
    ]
}

/// The two bind mounts the orchestrator injects: a termination-log file
/// and the projected service-account directory, the latter read-only.
pub open spec fn kube_mounts_v() -> Seq<MountV> {
    seq![
        (MountV {
            destination: "/dev/termination-log"@,
            typ: "bind"@,
            source: "^/run/kata-containers/shared/containers/[a-z0-9]+-[a-z0-9]+-termination-log$"@,
            options: seq!["rbind"@, "rprivate"@, "rw"@],
        }),
        (MountV {
            destination: "/var/run/secrets/kubernetes.io/serviceaccount"@,
            typ: "bind"@,
            source: "^/run/kata-containers/shared/containers/[a-z0-9]+-[a-z0-9]+-serviceaccount$"@,
            options: seq!["rbind"@, "rprivate"@, "ro"@],
        }),
    ]
}

/// The orchestrator-default fragment of a regular container.
pub open spec fn kube_container_rules_v() -> SpecV {
    SpecV {
        oci_version: Seq::empty(),
        mounts: Some(kube_mounts_v()),
        process: Some(
            ProcessV {
                user: User { uid: 0, gid: 0 },
                args: None,
                env: Some(kube_env_v()),
                cwd: Seq::empty(),
            },
        ),
    }
}

/// The orchestrator-default fragment of the sandbox container: empty.
pub open spec fn kube_sandbox_rules_v() -> SpecV {
    SpecV { oci_version: Seq::empty(), mounts: None, process: None }
}

/// The orchestrator-default fragment for either flavour of container.
pub open spec fn kube_rules_v(is_sandbox: bool) -> SpecV {
    if !is_sandbox {
        kube_container_rules_v()
    } else {
        kube_sandbox_rules_v()
    }
}

/// The orchestrator-default fragment: service-discovery environment
/// patterns and the two injected mounts for a regular container, an empty
/// fragment for the sandbox.
pub fn get_rules(is_sandbox: bool) -> (r: Spec)
    ensures
        r.deep_view() == kube_rules_v(is_sandbox),
{
    if !is_sandbox {
        let env: Vec<String> = vec![
            s_to_owned("^[A-Z0-9_]+_SERVICE_HOST=^((25[0-5]|(2[0-4]|1\\d|[1-9]|)\\d).?\\b){4}$"),
            s_to_owned("^[A-Z0-9_]+_SERVICE_PORT=[0-9]+"),
            s_to_owned("^[A-Z0-9_]+_SERVICE_PORT_[A-Z]+=[0-9]+"),
            s_to_owned("^[A-Z0-9_]+_PORT=[a-z]+://^((25[0-5]|(2[0-4]|1\\d|[1-9]|)\\d).?\\b){4}:[0-9]+"),
            s_to_owned(
                "^[A-Z0-9_]+_PORT_[0-9]+_[A-Z]+=[a-z]+://^((25[0-5]|(2[0-4]|1\\d|[1-9]|)\\d).?\\b){4}:[0-9]+",
            ),
            s_to_owned("^[A-Z0-9_]+_PORT_[0-9]+_[A-Z]+_PROTO=[a-z]+"),
            s_to_owned("^[A-Z0-9_]+_PORT_[0-9]+_[A-Z]+_PORT=[0-9]+"),
            s_to_owned("^[A-Z0-9_]+_PORT_[0-9]+_[A-Z]+_ADDR=^((25[0-5]|(2[0-4]|1\\d|[1-9]|)\\d).?\\b){4}$"),
        ];
        let mounts: Vec<Mount> = vec![
            Mount {
                destination: s_to_owned("/dev/termination-log"),
                typ: s_to_owned("bind"),
                source: s_to_owned(
                    "^/run/kata-containers/shared/containers/[a-z0-9]+-[a-z0-9]+-termination-log$",
                ),
                options: vec![s_to_owned("rbind"), s_to_owned("rprivate"), s_to_owned("rw")],
            },
            Mount {
                destination: s_to_owned("/var/run/secrets/kubernetes.io/serviceaccount"),
                typ: s_to_owned("bind"),
                source: s_to_owned(
                    "^/run/kata-containers/shared/containers/[a-z0-9]+-[a-z0-9]+-serviceaccount$",
                ),
                options: vec![s_to_owned("rbind"), s_to_owned("rprivate"), s_to_owned("ro")],
            },
        ];
        let r = Spec {
            oci_version: String::new(),
            mounts: Some(mounts),
            process: Some(
                Process {
                    user: User { uid: 0, gid: 0 },
                    args: None,
                    env: Some(env),
                    cwd: String::new(),
                },
            ),
        };
        proof {
            assert(r.deep_view() =~~= kube_container_rules_v());
        }
        r
    } else {
        let r = Spec { oci_version: String::new(), mounts: None, process: None };
        proof {
            assert(r.deep_view() =~~= kube_sandbox_rules_v());
        }
        r
    }
}

/// The fixed name under which the sandbox container's policy is keyed.
pub fn pause_name() -> (r: String)
    ensures
        r@ == "pause"@,
{
    s_to_owned("pause")
}

/// The image reference of the sandbox (pause) container: the well-known
/// registry, name and version.
pub fn get_pause_image_ref() -> (r: String)
    ensures
        r@ == "registry.k8s.io/pause:3.6"@,
{
    s_to_owned("registry.k8s.io/pause:3.6")
}

} // verus!
