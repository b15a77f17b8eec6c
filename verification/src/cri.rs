//! Runtime-default allow-spec fragments mirroring a reference container
//! runtime's CRI implementation, and the three merge algorithms that
//! reconcile them with orchestrator defaults, the image configuration and
//! the workload manifest.

use vstd::prelude::*;
use vstd::string::StringExecFns;
use crate::oci::{Mount, MountV, Process, ProcessV, Spec, SpecV, User};
use crate::strutil::{s_to_owned, str_eq, copy_strings, env_has_eq, env_name, env_name_of, env_entry_has_eq, last_segment, last_segment_of};
use crate::errors::{PolicyError, PolicyErrV};
use crate::image::{ImageConfig, ImageConfigV};

verus! {

/// Allow-pattern for the generated hostname variable.
pub open spec fn hostname_env_v() -> Seq<char> {
    "^HOSTNAME=.+"@
}

/// Exact-match rule for the standard search path.
pub open spec fn path_env_v() -> Seq<char> {
    "^PATH=/usr/local/sbin:/usr/local/bin:/usr/sbin:/usr/bin:/sbin:/bin$"@
}

/// Literal rule added when the container asks for a terminal.
pub open spec fn term_env_v() -> Seq<char> {
    "TERM=xterm"@
}

/// The default environment rules of a regular container: hostname and path
/// patterns, plus the terminal rule when `tty` is set.
pub open spec fn container_env_v(tty: bool) -> Seq<Seq<char>> {
    if tty {
        seq![hostname_env_v(), path_env_v(), term_env_v()]
    } else {
        seq![hostname_env_v(), path_env_v()]
    }
}

/// The default environment rules of the sandbox container: only the
/// terminal rule, and only when `tty` is set.
pub open spec fn sandbox_env_v(tty: bool) -> Seq<Seq<char>> {
    if tty {
        seq![term_env_v()]
    } else {
        Seq::empty()
    }
}

/// The six standard mounts common to sandbox and regular containers.
pub open spec fn default_mounts_v() -> Seq<MountV> {
    seq![
        (MountV {
            destination: "/proc"@,
            typ: "proc"@,
            source: "^proc$"@,
            options: seq!["nosuid"@, "noexec"@, "nodev"@],
        }),
        (MountV {
            destination: "/dev"@,
            typ: "tmpfs"@,
            source: "^tmpfs$"@,
            options: seq!["nosuid"@, "strictatime"@, "mode=755"@, "size=65536k"@],
        }),
        (MountV {
            destination: "/dev/pts"@,
            typ: "devpts"@,
            source: "^devpts$"@,
            options: seq![
                "nosuid"@,
                "noexec"@,
                "newinstance"@,
                "ptmxmode=0666"@,
                "mode=0620"@,
                "gid=5"@,
            ],
        }),
        (MountV {
            destination: "/dev/mqueue"@,
            typ: "mqueue"@,
            source: "^mqueue$"@,
            options: seq!["nosuid"@, "noexec"@, "nodev"@],
        }),
        (MountV {
            destination: "/dev/shm"@,
            typ: "bind"@,
            source: "^/run/kata-containers/sandbox/shm$"@,
            options: seq!["rbind"@],
        }),
        (MountV {
            destination: "/sys"@,
            typ: "sysfs"@,
            source: "^sysfs$"@,
            options: seq!["nosuid"@, "noexec"@, "nodev"@, "ro"@],
        }),
    ]
}

/// The read-only cgroup mount added for regular containers.
pub open spec fn cgroup_mount_v() -> MountV {
    MountV {
        destination: "/sys/fs/cgroup"@,
        typ: "cgroup"@,
        source: "^cgroup$"@,
        options: seq!["nosuid"@, "noexec"@, "nodev"@, "relatime"@, "ro"@],
    }
}

/// The hostname/hosts/resolv.conf bind mounts of a regular container, whose
/// sources range over a generated per-container path.
pub open spec fn etc_mounts_v() -> Seq<MountV> {
    seq![
        (MountV {
            destination: "/etc/hostname"@,
            typ: "bind"@,
            source: "^/run/kata-containers/shared/containers/[a-z0-9]+-[a-z0-9]+-hostname$"@,
            options: seq!["rbind"@, "rprivate"@, "rw"@],
        }),
        (MountV {
            destination: "/etc/hosts"@,
            typ: "bind"@,
            source: "^/run/kata-containers/shared/containers/[a-z0-9]+-[a-z0-9]+-hosts$"@,
            options: seq!["rbind"@, "rprivate"@, "rw"@],
        }),
        (MountV {
            destination: "/etc/resolv.conf"@,
            typ: "bind"@,
            source: "^/run/kata-containers/shared/containers/[a-z0-9]+-[a-z0-9]+-resolv.conf$"@,
            options: seq!["rbind"@, "rprivate"@, "rw"@],
        }),
    ]
}

/// The single read-only resolv.conf bind mount of the sandbox container.
pub open spec fn sandbox_resolv_mount_v() -> MountV {
    MountV {
        destination: "/etc/resolv.conf"@,
        typ: "bind"@,
        source: "^/run/kata-containers/shared/containers/[a-z0-9]+-[a-z0-9]+-resolv.conf$"@,
        options: seq!["rbind"@, "ro"@],
    }
}

/// `ro` becomes `rw`; any other option is untouched.
pub open spec fn flip_ro_v(o: Seq<char>) -> Seq<char> {
    if o == "ro"@ {
        "rw"@
    } else {
        o
    }
}

/// Privileged-mode rewrite of one mount: on a `sysfs` or `cgroup` mount
/// every `ro` option is flipped to `rw`; other mount types are untouched.
pub open spec fn adjust_mount_v(m: MountV) -> MountV {
    if m.typ == "sysfs"@ || m.typ == "cgroup"@ {
        MountV {
            destination: m.destination,
            typ: m.typ,
            source: m.source,
            options: m.options.map_values(|o: Seq<char>| flip_ro_v(o)),
        }
    } else {
        m
    }
}

/// Privileged-mode rewrite of a whole mount list: a full-list scan, not a
/// lookup.
pub open spec fn adjust_privileged_mounts_v(ms: Seq<MountV>) -> Seq<MountV> {
    ms.map_values(|m: MountV| adjust_mount_v(m))
}

/// The ordered mount list of a regular container's runtime defaults.
pub open spec fn container_mounts_v() -> Seq<MountV> {
    default_mounts_v() + seq![cgroup_mount_v()] + etc_mounts_v()
}

/// The ordered mount list of the sandbox container's runtime defaults.
pub open spec fn sandbox_mounts_v() -> Seq<MountV> {
    default_mounts_v() + seq![sandbox_resolv_mount_v()]
}

/// The runtime-default fragment of a regular container.
pub open spec fn container_rules_v(privileged: bool, tty: bool) -> SpecV {
    SpecV {
        oci_version: "1.0.2-dev"@,
        mounts: Some(
            if privileged {
                adjust_privileged_mounts_v(container_mounts_v())
            } else {
                container_mounts_v()
            },
        ),
        process: Some(
            ProcessV {
                user: User { uid: 0, gid: 0 },
                args: None,
                env: Some(container_env_v(tty)),
                cwd: "/"@,
            },
        ),
    }
}

/// The runtime-default fragment of the sandbox container.
pub open spec fn sandbox_rules_v(privileged: bool, tty: bool) -> SpecV {
    SpecV {
        oci_version: "1.0.2-dev"@,
        mounts: Some(
            if privileged {
                adjust_privileged_mounts_v(sandbox_mounts_v())
            } else {
                sandbox_mounts_v()
            },
        ),
        process: Some(
            ProcessV {
                user: User { uid: 0, gid: 0 },
                args: None,
                env: Some(sandbox_env_v(tty)),
                cwd: "/"@,
            },
        ),
    }
}

/// The runtime-default fragment for either flavour of container.
pub open spec fn rules_v(is_sandbox: bool, privileged: bool, tty: bool) -> SpecV {
    if !is_sandbox {
        container_rules_v(privileged, tty)
    } else {
        sandbox_rules_v(privileged, tty)
    }
}

/// A mount built from literal parts.
fn mk_mount(destination: &str, typ: &str, source: &str, options: Vec<String>) -> (r: Mount)
    ensures
        r.deep_view() == (MountV {
            destination: destination@,
            typ: typ@,
            source: source@,
            options: options.deep_view(),
        }),
{
    let r = Mount {
        destination: destination.to_owned(),
        typ: typ.to_owned(),
        source: source.to_owned(),
        options,
    };
    proof {
        assert(r.deep_view() =~~= (MountV {
            destination: destination@,
            typ: typ@,
            source: source@,
            options: r.options.deep_view(),
        }));
    }
    r
}

/// The six standard mounts, freshly built.
fn default_mounts() -> (r: Vec<Mount>)
    ensures
        r.deep_view() == default_mounts_v(),
{
    let r: Vec<Mount> = vec![
        mk_mount(
            "/proc",
            "proc",
            "^proc$",
            vec![s_to_owned("nosuid"), s_to_owned("noexec"), s_to_owned("nodev")],
        ),
        mk_mount(
            "/dev",
            "tmpfs",
            "^tmpfs$",
            vec![
                s_to_owned("nosuid"),
                s_to_owned("strictatime"),
                s_to_owned("mode=755"),
                s_to_owned("size=65536k"),
            ],
        ),
        mk_mount(
            "/dev/pts",
            "devpts",
            "^devpts$",
            vec![
                s_to_owned("nosuid"),
                s_to_owned("noexec"),
                s_to_owned("newinstance"),
                s_to_owned("ptmxmode=0666"),
                s_to_owned("mode=0620"),
                s_to_owned("gid=5"),
            ],
        ),
        mk_mount(
            "/dev/mqueue",
            "mqueue",
            "^mqueue$",
            vec![s_to_owned("nosuid"), s_to_owned("noexec"), s_to_owned("nodev")],
        ),
        mk_mount(
            "/dev/shm",
            "bind",
            "^/run/kata-containers/sandbox/shm$",
            vec![s_to_owned("rbind")],
        ),
        mk_mount(
            "/sys",
            "sysfs",
            "^sysfs$",
            vec![
                s_to_owned("nosuid"),
                s_to_owned("noexec"),
                s_to_owned("nodev"),
                s_to_owned("ro"),
            ],
        ),
    ];
    proof {
        assert(r.deep_view() =~~= default_mounts_v());
    }
    r
}

/// A mount-option list with every `ro` flipped to `rw`.
fn flip_ro_options(options: &Vec<String>) -> (r: Vec<String>)
    ensures
        r.deep_view() == options.deep_view().map_values(|o: Seq<char>| flip_ro_v(o)),
{
    let ghost target = options.deep_view().map_values(|o: Seq<char>| flip_ro_v(o));
    let n = options.len();
    let mut r: Vec<String> = Vec::new();
    let mut i: usize = 0;
    while i < n
        invariant
            i <= n,
            n == options.len(),
            target == options.deep_view().map_values(|o: Seq<char>| flip_ro_v(o)),
            r.deep_view() =~= target.subrange(0, i as int),
        decreases n - i,
    {
        let ghost pre = r.deep_view();
        if str_eq(options[i].as_str(), "ro") {
            r.push(s_to_owned("rw"));
        } else {
            r.push(options[i].clone());
        }
        proof {
            assert(r.deep_view() =~= pre.push(r@[i as int]@));
            assert(r@[i as int]@ == flip_ro_v(options.deep_view()[i as int]));
            assert(target[i as int] == flip_ro_v(options.deep_view()[i as int]));
            assert(r.deep_view() =~= target.subrange(0, i + 1 as int));
        }
        i = i + 1;
    }
    proof {
        assert(target.subrange(0, n as int) =~= target);
    }
    r
}

/// The privileged-mode scan over a whole mount list.
fn adjust_privileged_mounts(mounts: Vec<Mount>) -> (r: Vec<Mount>)
    ensures
        r.deep_view() == adjust_privileged_mounts_v(mounts.deep_view()),
{
    let ghost orig = mounts.deep_view();
    let ghost target = adjust_privileged_mounts_v(orig);
    let mut rest = mounts;
    let mut r: Vec<Mount> = Vec::new();
    while rest.len() > 0
        invariant
            target == adjust_privileged_mounts_v(orig),
            orig.len() == r.len() + rest.len(),
            r.deep_view() =~= target.subrange(0, r.len() as int),
            rest.deep_view() =~= orig.subrange(r.len() as int, orig.len() as int),
        decreases rest.len(),
    {
        let ghost k = r.len() as int;
        let ghost prev = rest.deep_view();
        let ghost prevvec = rest@;
        let m = rest.remove(0);
        proof {
            assert(prev[0] == m.deep_view());
            assert(prev == orig.subrange(k, orig.len() as int));
            assert(m.deep_view() == orig[k]);
            assert forall|j: int| 0 <= j < rest.deep_view().len() implies rest.deep_view()[j]
                == orig.subrange(k + 1, orig.len() as int)[j] by {
                assert(rest@[j] == prevvec.remove(0)[j]);
                assert(rest@[j] == prevvec[j + 1]);
                assert(rest.deep_view()[j] == prev[j + 1]);
            }
            assert(rest.deep_view() =~= orig.subrange(k + 1, orig.len() as int));
        }
        let Mount { destination, typ, source, options } = m;
        if str_eq(typ.as_str(), "sysfs") || str_eq(typ.as_str(), "cgroup") {
            let new_options = flip_ro_options(&options);
            let m2 = Mount { destination, typ, source, options: new_options };
            proof {
                assert(m2.deep_view() =~~= adjust_mount_v(orig[k]));
            }
            r.push(m2);
        } else {
            let m2 = Mount { destination, typ, source, options };
            proof {
                assert(m2.deep_view() =~~= adjust_mount_v(orig[k]));
            }
            r.push(m2);
        }
        proof {
            assert(r.deep_view() =~= target.subrange(0, k + 1));
        }
    }
    proof {
        assert(target.subrange(0, target.len() as int) =~= target);
    }
    r
}

/// The runtime-default fragment: fixed process defaults, environment
/// allow-patterns, and the standard mount list for either a regular or the
/// sandbox container, with the privileged-mode adjustment applied on demand.
pub fn get_rules(is_sandbox: bool, privileged: bool, tty: bool) -> (r: Spec)
    ensures
        r.deep_view() == rules_v(is_sandbox, privileged, tty),
{
    let mut env: Vec<String> = Vec::new();
    if !is_sandbox {
        env.push(s_to_owned("^HOSTNAME=.+"));
        env.push(s_to_owned("^PATH=/usr/local/sbin:/usr/local/bin:/usr/sbin:/usr/bin:/sbin:/bin$"));
    }
    if tty {
        env.push(s_to_owned("TERM=xterm"));
    }
    proof {
        if !is_sandbox {
            assert(env.deep_view() =~= container_env_v(tty));
        } else {
            assert(env.deep_view() =~= sandbox_env_v(tty));
        }
    }

    let mut mounts = default_mounts();
    if !is_sandbox {
        mounts.push(mk_mount(
            "/sys/fs/cgroup",
            "cgroup",
            "^cgroup$",
            vec![
                s_to_owned("nosuid"),
                s_to_owned("noexec"),
                s_to_owned("nodev"),
                s_to_owned("relatime"),
                s_to_owned("ro"),
            ],
        ));
        mounts.push(mk_mount(
            "/etc/hostname",
            "bind",
            "^/run/kata-containers/shared/containers/[a-z0-9]+-[a-z0-9]+-hostname$",
            vec![s_to_owned("rbind"), s_to_owned("rprivate"), s_to_owned("rw")],
        ));
        mounts.push(mk_mount(
            "/etc/hosts",
            "bind",
            "^/run/kata-containers/shared/containers/[a-z0-9]+-[a-z0-9]+-hosts$",
            vec![s_to_owned("rbind"), s_to_owned("rprivate"), s_to_owned("rw")],
        ));
        mounts.push(mk_mount(
            "/etc/resolv.conf",
            "bind",
            "^/run/kata-containers/shared/containers/[a-z0-9]+-[a-z0-9]+-resolv.conf$",
            vec![s_to_owned("rbind"), s_to_owned("rprivate"), s_to_owned("rw")],
        ));
        proof {
            assert(mounts.deep_view() =~~= container_mounts_v());
        }
    } else {
        mounts.push(mk_mount(
            "/etc/resolv.conf",
            "bind",
            "^/run/kata-containers/shared/containers/[a-z0-9]+-[a-z0-9]+-resolv.conf$",
            vec![s_to_owned("rbind"), s_to_owned("ro")],
        ));
        proof {
            assert(mounts.deep_view() =~~= sandbox_mounts_v());
        }
    }

    let mounts = if privileged {
        adjust_privileged_mounts(mounts)
    } else {
        mounts
    };

    let process = Process {
        user: User { uid: 0, gid: 0 },
        args: None,
        env: Some(env),
        cwd: s_to_owned("/"),
    };
    let r = Spec {
        oci_version: s_to_owned("1.0.2-dev"),
        mounts: Some(mounts),
        process: Some(process),
    };
    proof {
        assert(r.deep_view() =~~= rules_v(is_sandbox, privileged, tty));
    }
    r
}

// ---------------------------------------------------------------------------
// Mount merge
// ---------------------------------------------------------------------------
/// First position in `s` whose mount sits at `dest`, or -1 when none does.
pub open spec fn mount_index_v(s: Seq<MountV>, dest: Seq<char>) -> int
    decreases s.len(),
{
    if s.len() == 0 {
        -1
    } else if s[0].destination == dest {
        0
    } else {
        let r = mount_index_v(s.subrange(1, s.len() as int), dest);
        if r < 0 {
            -1
        } else {
            r + 1
        }
    }
}

/// What [`mount_index_v`] returns: the first position with that
/// destination, or -1 when the destination is absent.
pub proof fn lemma_mount_index_v(s: Seq<MountV>, dest: Seq<char>)
    ensures
        mount_index_v(s, dest) >= 0 ==> 0 <= mount_index_v(s, dest) < s.len() && s[mount_index_v(
            s,
            dest,
        )].destination == dest && (forall|j: int|
            0 <= j < mount_index_v(s, dest) ==> s[j].destination != dest),
        mount_index_v(s, dest) < 0 ==> (forall|j: int|
            0 <= j < s.len() ==> s[j].destination != dest),
    decreases s.len(),
{
    if s.len() > 0 {
        let rest = s.subrange(1, s.len() as int);
        lemma_mount_index_v(rest, dest);
        assert forall|j: int| 1 <= j < s.len() implies s[j] == rest[j - 1] by {}
    }
}

/// One mount folded into an accumulator keyed by destination: an existing
/// mount at the same destination is replaced in place, otherwise the mount
/// is appended.
pub open spec fn insert_mount_v(s: Seq<MountV>, m: MountV) -> Seq<MountV> {
    let i = mount_index_v(s, m.destination);
    if i >= 0 {
        s.update(i, m)
    } else {
        s.push(m)
    }
}

/// A whole list folded into the accumulator, in order.
pub open spec fn insert_mounts_v(s: Seq<MountV>, ms: Seq<MountV>) -> Seq<MountV>
    decreases ms.len(),
{
    if ms.len() == 0 {
        s
    } else {
        insert_mounts_v(insert_mount_v(s, ms[0]), ms.subrange(1, ms.len() as int))
    }
}

/// Folding distributes over appending one mount at the end.
pub proof fn lemma_insert_mounts_v_snoc(s: Seq<MountV>, ms: Seq<MountV>, m: MountV)
    ensures
        insert_mounts_v(s, ms.push(m)) == insert_mount_v(insert_mounts_v(s, ms), m),
    decreases ms.len(),
{
    if ms.len() == 0 {
        assert(ms.push(m).subrange(1, 1) =~= Seq::<MountV>::empty());
        assert(insert_mounts_v(s, ms.push(m)) == insert_mounts_v(insert_mount_v(s, m), Seq::empty()));
    } else {
        assert(ms.push(m).subrange(1, ms.len() + 1 as int) =~= ms.subrange(
            1,
            ms.len() as int,
        ).push(m));
        lemma_insert_mounts_v_snoc(insert_mount_v(s, ms[0]), ms.subrange(1, ms.len() as int), m);
    }
}

/// The merged mount list: `extras` inserted first, then `mounts`, so a
/// mount sharing a destination with an extra replaces it wholesale.
/// Within one list a later mount likewise beats an earlier one.
pub open spec fn merge_mounts_v(mounts: Seq<MountV>, extras: Seq<MountV>) -> Seq<MountV> {
    insert_mounts_v(insert_mounts_v(Seq::empty(), extras), mounts)
}

/// One mount folded into the accumulator, replacing in place on a
/// destination collision.
fn insert_mount(r: &mut Vec<Mount>, m: Mount)
    ensures
        final(r).deep_view() == insert_mount_v(old(r).deep_view(), m.deep_view()),
{
    let ghost rv = r.deep_view();
    let ghost mi = mount_index_v(rv, m.deep_view().destination);
    proof {
        lemma_mount_index_v(rv, m.deep_view().destination);
    }
    let n = r.len();
    let mut i: usize = 0;
    while i < n
        invariant
            i <= n,
            n == r.len(),
            rv == r.deep_view(),
            rv == old(r).deep_view(),
            mi == mount_index_v(rv, m.deep_view().destination),
            forall|j: int| 0 <= j < i ==> rv[j].destination != m.deep_view().destination,
            mi >= 0 ==> 0 <= mi < n && rv[mi].destination == m.deep_view().destination && (
            forall|j: int| 0 <= j < mi ==> rv[j].destination != m.deep_view().destination),
            mi < 0 ==> (forall|j: int| 0 <= j < n ==> rv[j].destination != m.deep_view().destination),
        decreases n - i,
    {
        if r[i].destination == m.destination {
            proof {
                assert(rv[i as int] == r@[i as int].deep_view());
                assert(rv[i as int].destination == m.deep_view().destination);
                assert(mi == i);
            }
            let ghost mdv = m.deep_view();
            let ghost before = r@;
            r.set(i, m);
            proof {
                assert(r@ == before.update(mi, m));
                assert forall|j: int| 0 <= j < r.deep_view().len() implies r.deep_view()[j]
                    == rv.update(mi, mdv)[j] by {
                    assert(r.deep_view()[j] == r@[j].deep_view());
                }
                assert(r.deep_view() =~= rv.update(mi, mdv));
                assert(r.deep_view() == insert_mount_v(rv, mdv));
            }
            return ;
        }
        i = i + 1;
    }
    r.push(m);
    proof {
        assert(r.deep_view() =~= rv.push(m.deep_view()));
    }
}

/// Merge of two mount lists keyed by destination, `mounts` beating
/// `extras`; the result keeps first-insertion order, with replacement in
/// place.
pub fn merge_mounts(mounts: Vec<Mount>, extras: Vec<Mount>) -> (r: Vec<Mount>)
    ensures
        r.deep_view() == merge_mounts_v(mounts.deep_view(), extras.deep_view()),
{
    let ghost ev = extras.deep_view();
    let ghost mv = mounts.deep_view();
    let mut r: Vec<Mount> = Vec::new();
    proof {
        assert(r.deep_view() =~= Seq::<MountV>::empty());
    }

    let mut rest = extras;
    let ghost mut k: int = 0;
    while rest.len() > 0
        invariant
            0 <= k <= ev.len(),
            rest.len() == ev.len() - k,
            rest.deep_view() =~= ev.subrange(k, ev.len() as int),
            r.deep_view() == insert_mounts_v(Seq::empty(), ev.subrange(0, k)),
        decreases rest.len(),
    {
        let ghost prev = rest.deep_view();
        let ghost prevvec = rest@;
        let m = rest.remove(0);
        proof {
            assert(prev[0] == m.deep_view());
            assert(m.deep_view() == ev[k]);
            assert forall|j: int| 0 <= j < rest.deep_view().len() implies rest.deep_view()[j]
                == ev.subrange(k + 1, ev.len() as int)[j] by {
                assert(rest@[j] == prevvec.remove(0)[j]);
                assert(rest@[j] == prevvec[j + 1]);
                assert(rest.deep_view()[j] == prev[j + 1]);
            }
            assert(rest.deep_view() =~= ev.subrange(k + 1, ev.len() as int));
        }
        let ghost racc = r.deep_view();
        insert_mount(&mut r, m);
        proof {
            assert(ev.subrange(0, k + 1) =~= ev.subrange(0, k).push(ev[k]));
            lemma_insert_mounts_v_snoc(Seq::empty(), ev.subrange(0, k), ev[k]);
            k = k + 1;
        }
    }
    proof {
        assert(ev.subrange(0, ev.len() as int) =~= ev);
    }

    let mut rest = mounts;
    let ghost base = insert_mounts_v(Seq::empty(), ev);
    let ghost mut k: int = 0;
    while rest.len() > 0
        invariant
            0 <= k <= mv.len(),
            rest.len() == mv.len() - k,
            rest.deep_view() =~= mv.subrange(k, mv.len() as int),
            r.deep_view() == insert_mounts_v(base, mv.subrange(0, k)),
        decreases rest.len(),
    {
        let ghost prev = rest.deep_view();
        let ghost prevvec = rest@;
        let m = rest.remove(0);
        proof {
            assert(prev[0] == m.deep_view());
            assert(m.deep_view() == mv[k]);
            assert forall|j: int| 0 <= j < rest.deep_view().len() implies rest.deep_view()[j]
                == mv.subrange(k + 1, mv.len() as int)[j] by {
                assert(rest@[j] == prevvec.remove(0)[j]);
                assert(rest@[j] == prevvec[j + 1]);
                assert(rest.deep_view()[j] == prev[j + 1]);
            }
            assert(rest.deep_view() =~= mv.subrange(k + 1, mv.len() as int));
        }
        insert_mount(&mut r, m);
        proof {
            assert(mv.subrange(0, k + 1) =~= mv.subrange(0, k).push(mv[k]));
            lemma_insert_mounts_v_snoc(base, mv.subrange(0, k), mv[k]);
            k = k + 1;
        }
    }
    proof {
        assert(mv.subrange(0, mv.len() as int) =~= mv);
    }
    r
}

// ---------------------------------------------------------------------------
// Process argument and working-directory merge
// ---------------------------------------------------------------------------
/// The merged process argument vector.  A non-empty container command wins
/// outright; otherwise the image entrypoint stands in for the command
/// (unless it is the single-empty-string sentinel) and the image cmd stands
/// in for absent container args.  An empty result is an error.
pub open spec fn merge_args_v(
    command: Seq<Seq<char>>,
    args: Seq<Seq<char>>,
    image: ImageConfigV,
) -> Result<Seq<Seq<char>>, PolicyErrV> {
    let a = if command.len() == 0 && args.len() == 0 {
        image.cmd
    } else {
        args
    };
    let c = if command.len() > 0 {
        command
    } else if image.entrypoint.len() == 1 && image.entrypoint[0].len() == 0 {
        Seq::empty()
    } else {
        image.entrypoint
    };
    if c.len() == 0 && a.len() == 0 {
        Err(PolicyErrV::NoCommand)
    } else {
        Ok(c + a)
    }
}

/// The final process argument vector: container command and args merged
/// with the image's entrypoint and cmd.  Fails if and only if the merged
/// command and argument lists are both empty.
pub fn merge_process_args(
    container_command: &Vec<String>,
    container_args: &Vec<String>,
    image_config: &ImageConfig,
) -> (r: Result<Vec<String>, PolicyError>)
    ensures
        match merge_args_v(
            container_command.deep_view(),
            container_args.deep_view(),
            image_config.deep_view(),
        ) {
            Ok(v) => r matches Ok(rv) && rv.deep_view() == v,
            Err(e) => r matches Err(re) && re.deep_view() == e,
        },
{
    let mut args = if container_command.is_empty() && container_args.is_empty() {
        copy_strings(&image_config.cmd)
    } else {
        copy_strings(container_args)
    };
    let single_empty = image_config.entrypoint.len() == 1 && image_config.entrypoint[0].as_str().is_empty();
    let mut command = if !container_command.is_empty() {
        copy_strings(container_command)
    } else if single_empty {
        Vec::new()
    } else {
        copy_strings(&image_config.entrypoint)
    };
    let ghost spec_r = merge_args_v(
        container_command.deep_view(),
        container_args.deep_view(),
        image_config.deep_view(),
    );
    if command.is_empty() && args.is_empty() {
        return Err(PolicyError::NoCommand);
    }
    let ghost cv = command.deep_view();
    let ghost av = args.deep_view();
    command.append(&mut args);
    proof {
        assert(command.deep_view() =~= cv + av);
        assert(spec_r is Ok);
        assert(command.deep_view() =~= spec_r->Ok_0);
    }
    Ok(command)
}

/// The merged working directory: the container's wins when non-empty, else
/// the image's, else the empty sentinel meaning "do not override".
pub open spec fn merge_cwd_v(container: Seq<char>, image: ImageConfigV) -> Seq<char> {
    if container.len() > 0 {
        container
    } else if image.working_dir.len() > 0 {
        image.working_dir
    } else {
        Seq::empty()
    }
}

/// The working directory the allow-spec should carry, per [`merge_cwd_v`].
pub fn merge_process_cwd(container_working_dir: &String, image_config: &ImageConfig) -> (r: String)
    ensures
        r@ == merge_cwd_v(container_working_dir@, image_config.deep_view()),
{
    if !container_working_dir.as_str().is_empty() {
        container_working_dir.clone()
    } else if !image_config.working_dir.as_str().is_empty() {
        image_config.working_dir.clone()
    } else {
        String::new()
    }
}

// ---------------------------------------------------------------------------
// Environment merge
// ---------------------------------------------------------------------------
/// Position of the last entry in `d` whose name is `n`, or -1 when no entry
/// has that name.  This is the index snapshot the merge works from.
pub open spec fn env_index_v(d: Seq<Seq<char>>, n: Seq<char>) -> int
    decreases d.len(),
{
    if d.len() == 0 {
        -1
    } else if env_name(d.last()) == n {
        d.len() - 1
    } else {
        env_index_v(d.drop_last(), n)
    }
}

/// What [`env_index_v`] returns: the last position with that name, or -1
/// when the name is absent.
pub proof fn lemma_env_index_v(d: Seq<Seq<char>>, n: Seq<char>)
    ensures
        env_index_v(d, n) >= 0 ==> 0 <= env_index_v(d, n) < d.len() && env_name(
            d[env_index_v(d, n)],
        ) == n && (forall|j: int| env_index_v(d, n) < j < d.len() ==> env_name(d[j]) != n),
        env_index_v(d, n) < 0 ==> (forall|j: int| 0 <= j < d.len() ==> env_name(d[j]) != n),
    decreases d.len(),
{
    if d.len() > 0 {
        if env_name(d.last()) == n {
        } else {
            lemma_env_index_v(d.drop_last(), n);
            assert forall|j: int| 0 <= j < d.len() - 1 implies d.drop_last()[j] == d[j] by {}
        }
    }
}

/// One override entry folded into the working list.  An entry with a value
/// replaces the entry at the name's snapshot position, or is appended when
/// the name was not in the snapshot; a bare removal entry changes nothing
/// in this phase.
pub open spec fn env_step_v(orig: Seq<Seq<char>>, cur: Seq<Seq<char>>, e: Seq<char>) -> Seq<
    Seq<char>,
> {
    if env_has_eq(e) {
        let i = env_index_v(orig, env_name(e));
        if i >= 0 {
            cur.update(i, e)
        } else {
            cur.push(e)
        }
    } else {
        cur
    }
}

/// The substitution-and-append phase: every override folded in, in order,
/// always against the original index snapshot `orig`.
pub open spec fn apply_env_overrides_v(
    orig: Seq<Seq<char>>,
    cur: Seq<Seq<char>>,
    ovs: Seq<Seq<char>>,
) -> Seq<Seq<char>>
    decreases ovs.len(),
{
    if ovs.len() == 0 {
        cur
    } else {
        apply_env_overrides_v(orig, env_step_v(orig, cur, ovs[0]), ovs.subrange(1, ovs.len() as int))
    }
}

/// Folding distributes over appending one override at the end.
pub proof fn lemma_apply_env_overrides_v_snoc(
    orig: Seq<Seq<char>>,
    cur: Seq<Seq<char>>,
    ovs: Seq<Seq<char>>,
    e: Seq<char>,
)
    ensures
        apply_env_overrides_v(orig, cur, ovs.push(e)) == env_step_v(
            orig,
            apply_env_overrides_v(orig, cur, ovs),
            e,
        ),
    decreases ovs.len(),
{
    if ovs.len() == 0 {
        assert(ovs.push(e)[0] == e);
        assert(ovs.push(e).subrange(1, 1) =~= Seq::<Seq<char>>::empty());
        assert(apply_env_overrides_v(orig, cur, ovs.push(e)) == apply_env_overrides_v(
            orig,
            env_step_v(orig, cur, e),
            Seq::empty(),
        ));
        assert(apply_env_overrides_v(orig, env_step_v(orig, cur, e), Seq::empty()) == env_step_v(
            orig,
            cur,
            e,
        ));
        assert(apply_env_overrides_v(orig, cur, ovs) == cur);
    } else {
        assert(ovs.push(e)[0] == ovs[0]);
        assert(ovs.push(e).subrange(1, ovs.len() + 1 as int) =~= ovs.subrange(
            1,
            ovs.len() as int,
        ).push(e));
        assert(apply_env_overrides_v(orig, cur, ovs.push(e)) == apply_env_overrides_v(
            orig,
            env_step_v(orig, cur, ovs[0]),
            ovs.subrange(1, ovs.len() as int).push(e),
        ));
        lemma_apply_env_overrides_v_snoc(
            orig,
            env_step_v(orig, cur, ovs[0]),
            ovs.subrange(1, ovs.len() as int),
            e,
        );
        assert(apply_env_overrides_v(orig, cur, ovs) == apply_env_overrides_v(
            orig,
            env_step_v(orig, cur, ovs[0]),
            ovs.subrange(1, ovs.len() as int),
        ));
    }
}

/// The snapshot positions doomed by the removal phase: the position of each
/// name that some bare override entry asks to remove and that the snapshot
/// holds.
pub open spec fn env_removal_set_v(orig: Seq<Seq<char>>, ovs: Seq<Seq<char>>) -> Set<int> {
    Set::new(
        |i: int|
            exists|t: int|
                0 <= t < ovs.len() && !env_has_eq(ovs[t]) && env_index_v(orig, env_name(ovs[t]))
                    == i && i >= 0,
    )
}

/// The list with the elements at the given positions taken out, everything
/// else kept in order.
pub open spec fn remove_positions_v(s: Seq<Seq<char>>, rm: Set<int>) -> Seq<Seq<char>>
    decreases s.len(),
{
    if s.len() == 0 {
        Seq::empty()
    } else {
        let prefix = remove_positions_v(s.drop_last(), rm);
        if rm.contains(s.len() - 1) {
            prefix
        } else {
            prefix.push(s.last())
        }
    }
}

/// The merged environment list: substitutions and appends first, then the
/// removals, both computed against the original index snapshot.
pub open spec fn merge_env_v(defaults: Seq<Seq<char>>, overrides: Seq<Seq<char>>) -> Seq<
    Seq<char>,
> {
    remove_positions_v(
        apply_env_overrides_v(defaults, defaults, overrides),
        env_removal_set_v(defaults, overrides),
    )
}

/// Position of the last entry before `upto` whose name equals `name`.
fn find_env_index(d: &Vec<String>, upto: usize, name: &String) -> (r: Option<usize>)
    requires
        upto <= d.len(),
    ensures
        match r {
            Some(i) => i < upto && env_name(d.deep_view()[i as int]) == name@ && (forall|j: int|
                i < j < upto ==> env_name(d.deep_view()[j]) != name@),
            None => forall|j: int| 0 <= j < upto ==> env_name(d.deep_view()[j]) != name@,
        },
{
    let mut i: usize = upto;
    while i > 0
        invariant
            i <= upto,
            upto <= d.len(),
            forall|j: int| i <= j < upto ==> env_name(d.deep_view()[j]) != name@,
        decreases i,
    {
        i = i - 1;
        let dn = env_name_of(&d[i]);
        proof {
            assert(d.deep_view()[i as int] == d@[i as int]@);
        }
        if dn == *name {
            return Some(i);
        }
    }
    None
}

/// The three-phase environment merge.  The original positions of `defaults`
/// are indexed by name (last occurrence winning); each override with a
/// value replaces the entry at its name's snapshot position in place or is
/// appended when the name is new; each bare override then deletes the entry
/// at its name's snapshot position.  A name appended by this very batch is
/// never indexed, so a second override with the same new name appends
/// again, and a removal never touches appended entries.
pub fn merge_process_env(defaults: &mut Vec<String>, overrides: &Vec<String>)
    requires
        forall|i: int|
            0 <= i < old(defaults).deep_view().len() ==> env_has_eq(
                #[trigger] old(defaults).deep_view()[i],
            ),
    ensures
        final(defaults).deep_view() == merge_env_v(
            old(defaults).deep_view(),
            overrides.deep_view(),
        ),
        forall|i: int|
            0 <= i < final(defaults).deep_view().len() ==> env_has_eq(
                #[trigger] final(defaults).deep_view()[i],
            ),
{
    let ghost orig = defaults.deep_view();
    let ghost ov = overrides.deep_view();
    let orig_len = defaults.len();

    // Phase one and two: index the snapshot, then substitute or append.
    let n = overrides.len();
    let mut k: usize = 0;
    while k < n
        invariant
            k <= n,
            n == overrides.len(),
            ov == overrides.deep_view(),
            orig == old(defaults).deep_view(),
            orig_len == orig.len(),
            orig_len <= defaults.len(),
            forall|i: int| 0 <= i < orig.len() ==> env_has_eq(#[trigger] orig[i]),
            defaults.deep_view() == apply_env_overrides_v(orig, orig, ov.subrange(0, k as int)),
            forall|j: int|
                0 <= j < orig_len ==> env_name(#[trigger] defaults.deep_view()[j]) == env_name(
                    orig[j],
                ),
            forall|j: int|
                0 <= j < defaults.deep_view().len() ==> env_has_eq(
                    #[trigger] defaults.deep_view()[j],
                ),
        decreases n - k,
    {
        let ghost cur = defaults.deep_view();
        if env_entry_has_eq(&overrides[k]) {
            let name = env_name_of(&overrides[k]);
            proof {
                assert(overrides.deep_view()[k as int] == overrides@[k as int]@);
                lemma_env_index_v(orig, name@);
            }
            let ghost ei = env_index_v(orig, name@);
            let found = find_env_index(defaults, orig_len, &name);
            match found {
                Some(i) => {
                    proof {
                        assert(env_name(orig[i as int]) == name@);
                        if ei > i as int {
                            assert(env_name(defaults.deep_view()[ei]) == env_name(orig[ei]));
                            assert(env_name(defaults.deep_view()[ei]) != name@);
                            assert(false);
                        }
                        if ei < i as int {
                            assert(env_name(orig[i as int]) != name@);
                            assert(false);
                        }
                        assert(ei == i);
                    }
                    let ghost before = defaults@;
                    let e = overrides[k].clone();
                    defaults.set(i, e);
                    proof {
                        assert(defaults@ == before.update(i as int, defaults@[i as int]));
                        assert forall|j: int| 0 <= j < defaults.deep_view().len() implies
                            defaults.deep_view()[j] == cur.update(ei, ov[k as int])[j] by {
                            assert(defaults.deep_view()[j] == defaults@[j]@);
                        }
                        assert(defaults.deep_view() =~= cur.update(ei, ov[k as int]));
                    }
                },
                None => {
                    proof {
                        if ei >= 0 {
                            assert(env_name(defaults.deep_view()[ei]) == env_name(orig[ei]));
                            assert(env_name(defaults.deep_view()[ei]) != name@);
                            assert(false);
                        }
                        assert(ei < 0);
                    }
                    let e = overrides[k].clone();
                    defaults.push(e);
                    proof {
                        assert(defaults.deep_view() =~= cur.push(ov[k as int]));
                    }
                },
            }
        }
        proof {
            assert(ov.subrange(0, k + 1 as int) =~= ov.subrange(0, k as int).push(ov[k as int]));
            lemma_apply_env_overrides_v_snoc(orig, orig, ov.subrange(0, k as int), ov[k as int]);
            assert(defaults.deep_view() == apply_env_overrides_v(
                orig,
                orig,
                ov.subrange(0, k + 1 as int),
            ));
        }
        k = k + 1;
    }
    proof {
        assert(ov.subrange(0, n as int) =~= ov);
    }
    let ghost applied = defaults.deep_view();

    // Phase three: mark the snapshot positions the removal entries doom.
    let mut marks: Vec<bool> = Vec::new();
    while marks.len() < orig_len
        invariant
            marks.len() <= orig_len,
            forall|j: int| 0 <= j < marks.len() ==> #[trigger] marks@[j] == false,
        decreases orig_len - marks.len(),
    {
        marks.push(false);
    }

    let mut k: usize = 0;
    while k < n
        invariant
            k <= n,
            n == overrides.len(),
            ov == overrides.deep_view(),
            orig == old(defaults).deep_view(),
            orig_len == orig.len(),
            marks.len() == orig_len,
            applied == defaults.deep_view(),
            orig_len <= defaults.len(),
            forall|j: int|
                0 <= j < orig_len ==> env_name(#[trigger] defaults.deep_view()[j]) == env_name(
                    orig[j],
                ),
            forall|i: int|
                0 <= i < orig_len ==> (#[trigger] marks@[i] <==> exists|t: int|
                    0 <= t < k && !env_has_eq(#[trigger] ov[t]) && env_index_v(
                        orig,
                        env_name(ov[t]),
                    ) == i),
        decreases n - k,
    {
        if !env_entry_has_eq(&overrides[k]) {
            let name = env_name_of(&overrides[k]);
            proof {
                assert(overrides.deep_view()[k as int] == overrides@[k as int]@);
                lemma_env_index_v(orig, name@);
            }
            let ghost ei = env_index_v(orig, name@);
            let found = find_env_index(defaults, orig_len, &name);
            let ghost before_marks = marks@;
            match found {
                Some(i) => {
                    proof {
                        assert(env_name(orig[i as int]) == name@);
                        if ei > i as int {
                            assert(env_name(defaults.deep_view()[ei]) == env_name(orig[ei]));
                            assert(env_name(defaults.deep_view()[ei]) != name@);
                            assert(false);
                        }
                        if ei < i as int {
                            assert(env_name(orig[i as int]) != name@);
                            assert(false);
                        }
                        assert(ei == i);
                    }
                    marks.set(i, true);
                },
                None => {
                    proof {
                        if ei >= 0 {
                            assert(env_name(defaults.deep_view()[ei]) == env_name(orig[ei]));
                            assert(env_name(defaults.deep_view()[ei]) != name@);
                            assert(false);
                        }
                        assert(ei < 0);
                    }
                },
            }
            proof {
                assert forall|i: int| 0 <= i < orig_len implies (#[trigger] marks@[i]
                    <==> exists|t: int|
                    0 <= t < k + 1 && !env_has_eq(#[trigger] ov[t]) && env_index_v(
                        orig,
                        env_name(ov[t]),
                    ) == i) by {
                    if i == ei {
                        assert(!env_has_eq(ov[k as int]) && env_index_v(
                            orig,
                            env_name(ov[k as int]),
                        ) == i);
                    } else {
                        if marks@[i] {
                            assert(before_marks[i]);
                        }
                        if exists|t: int|
                            0 <= t < k + 1 && !env_has_eq(#[trigger] ov[t]) && env_index_v(
                                orig,
                                env_name(ov[t]),
                            ) == i {
                            let t = choose|t: int|
                                0 <= t < k + 1 && !env_has_eq(#[trigger] ov[t]) && env_index_v(
                                    orig,
                                    env_name(ov[t]),
                                ) == i;
                            assert(t < k);
                        }
                    }
                }
            }
        } else {
            proof {
                assert forall|i: int| 0 <= i < orig_len implies (#[trigger] marks@[i]
                    <==> exists|t: int|
                    0 <= t < k + 1 && !env_has_eq(#[trigger] ov[t]) && env_index_v(
                        orig,
                        env_name(ov[t]),
                    ) == i) by {
                    if exists|t: int|
                        0 <= t < k + 1 && !env_has_eq(#[trigger] ov[t]) && env_index_v(
                            orig,
                            env_name(ov[t]),
                        ) == i {
                        let t = choose|t: int|
                            0 <= t < k + 1 && !env_has_eq(#[trigger] ov[t]) && env_index_v(
                                orig,
                                env_name(ov[t]),
                            ) == i;
                        assert(t < k);
                    }
                }
            }
        }
        k = k + 1;
    }

    // Phase three, second half: rebuild the list without the doomed
    // positions.
    let ghost rmset = env_removal_set_v(orig, ov);
    proof {
        assert forall|i: int| 0 <= i < orig_len implies (marks@[i] <==> rmset.contains(i)) by {}
        assert forall|i: int| i >= orig_len implies !rmset.contains(i) by {
            if rmset.contains(i) {
                let t = choose|t: int|
                    0 <= t < ov.len() && !env_has_eq(#[trigger] ov[t]) && env_index_v(
                        orig,
                        env_name(ov[t]),
                    ) == i && i >= 0;
                lemma_env_index_v(orig, env_name(ov[t]));
            }
        }
    }
    let dlen = defaults.len();
    let mut result: Vec<String> = Vec::new();
    let mut i: usize = 0;
    while i < dlen
        invariant
            i <= dlen,
            dlen == defaults.len(),
            applied == defaults.deep_view(),
            orig_len == marks.len(),
            orig_len <= dlen,
            rmset == env_removal_set_v(orig, ov),
            forall|j: int| 0 <= j < orig_len ==> (#[trigger] marks@[j] <==> rmset.contains(j)),
            forall|j: int| j >= orig_len ==> !rmset.contains(j),
            result.deep_view() == remove_positions_v(applied.subrange(0, i as int), rmset),
            forall|j: int|
                0 <= j < defaults.deep_view().len() ==> env_has_eq(
                    #[trigger] defaults.deep_view()[j],
                ),
            forall|j: int|
                0 <= j < result.deep_view().len() ==> env_has_eq(#[trigger] result.deep_view()[j]),
        decreases dlen - i,
    {
        let keep = if i < orig_len {
            !marks[i]
        } else {
            true
        };
        let ghost pre = result.deep_view();
        if keep {
            result.push(defaults[i].clone());
            proof {
                assert(result.deep_view() =~= pre.push(applied[i as int]));
            }
        }
        proof {
            let sub1 = applied.subrange(0, i + 1 as int);
            assert(sub1.drop_last() =~= applied.subrange(0, i as int));
            assert(sub1.last() == applied[i as int]);
            assert(keep <==> !rmset.contains(i as int));
            assert(result.deep_view() == remove_positions_v(sub1, rmset));
        }
        i = i + 1;
    }
    proof {
        assert(applied.subrange(0, dlen as int) =~= applied);
    }
    *defaults = result;
}

// ---------------------------------------------------------------------------
// Image-volume mounts
// ---------------------------------------------------------------------------
/// The bind mount derived from one declared image volume: its source is an
/// anchored regex over a generated per-container path ending in the
/// volume's final path segment.  A path without a final segment yields
/// nothing.
pub open spec fn image_volume_mount_v(path: Seq<char>) -> Option<MountV> {
    match last_segment(path) {
        Some(seg) => Some(
            MountV {
                destination: path,
                typ: "bind"@,
                source: "^/run/kata-containers/shared/containers/[a-z0-9]+-[a-z0-9]+-"@ + seg
                    + "$"@,
                options: seq!["rbind"@, "rprivate"@, "rw"@],
            },
        ),
        None => None,
    }
}

/// The bind mounts derived from a list of declared image volumes, in
/// order; the first path without a final segment is the error.
pub open spec fn image_volume_mounts_v(vols: Seq<Seq<char>>) -> Result<Seq<MountV>, PolicyErrV>
    decreases vols.len(),
{
    if vols.len() == 0 {
        Ok(Seq::empty())
    } else {
        match image_volume_mount_v(vols[0]) {
            None => Err(PolicyErrV::MalformedField(vols[0])),
            Some(m) => match image_volume_mounts_v(vols.subrange(1, vols.len() as int)) {
                Ok(rest) => Ok(seq![m] + rest),
                Err(e) => Err(e),
            },
        }
    }
}

/// One bind mount per volume the image declares, per
/// [`image_volume_mounts_v`].  Fails on a volume path with no final
/// segment.
pub fn get_image_volume_mounts(image_config: &ImageConfig) -> (r: Result<Vec<Mount>, PolicyError>)
    ensures
        match image_volume_mounts_v(image_config.deep_view().volumes) {
            Ok(ms) => r matches Ok(v) && v.deep_view() == ms,
            Err(e) => r matches Err(pe) && pe.deep_view() == e,
        },
{
    let ghost vols = image_config.deep_view().volumes;
    let n = image_config.volumes.len();
    let mut mounts: Vec<Mount> = Vec::new();
    proof {
        assert(vols.subrange(0, vols.len() as int) =~= vols);
        match image_volume_mounts_v(vols) {
            Ok(rest) => {
                assert(mounts.deep_view() + rest =~= rest);
            },
            Err(_) => {
            },
        }
    }
    let mut k: usize = 0;
    while k < n
        invariant
            k <= n,
            n == image_config.volumes.len(),
            vols == image_config.deep_view().volumes,
            match image_volume_mounts_v(vols.subrange(k as int, vols.len() as int)) {
                Ok(rest) => image_volume_mounts_v(vols) == Ok::<_, PolicyErrV>(
                    mounts.deep_view() + rest,
                ),
                Err(e) => image_volume_mounts_v(vols) == Err::<Seq<MountV>, _>(e),
            },
        decreases n - k,
    {
        let ghost suffix = vols.subrange(k as int, vols.len() as int);
        proof {
            assert(suffix[0] == vols[k as int]);
            assert(suffix.subrange(1, suffix.len() as int) =~= vols.subrange(
                k + 1 as int,
                vols.len() as int,
            ));
            assert(image_config.deep_view().volumes[k as int] == image_config.volumes@[k as int]@);
        }
        match last_segment_of(image_config.volumes[k].as_str()) {
            Some(seg) => {
                let mut source = s_to_owned(
                    "^/run/kata-containers/shared/containers/[a-z0-9]+-[a-z0-9]+-",
                );
                source.append(seg.as_str());
                source.append("$");
                let m = Mount {
                    destination: image_config.volumes[k].clone(),
                    typ: s_to_owned("bind"),
                    source,
                    options: vec![s_to_owned("rbind"), s_to_owned("rprivate"), s_to_owned("rw")],
                };
                let ghost pre = mounts.deep_view();
                proof {
                    assert(m.deep_view() =~~= image_volume_mount_v(vols[k as int])->0);
                }
                mounts.push(m);
                proof {
                    assert(mounts.deep_view() =~= pre.push(image_volume_mount_v(vols[k as int])->0));
                    match image_volume_mounts_v(vols.subrange(k + 1 as int, vols.len() as int)) {
                        Ok(rest) => {
                            assert(pre + (seq![image_volume_mount_v(vols[k as int])->0] + rest)
                                =~= mounts.deep_view() + rest);
                        },
                        Err(_) => {
                        },
                    }
                }
            },
            None => {
                return Err(PolicyError::MalformedField(image_config.volumes[k].clone()));
            },
        }
        k = k + 1;
    }
    proof {
        assert(vols.subrange(n as int, vols.len() as int) =~= Seq::<Seq<char>>::empty());
        assert(mounts.deep_view() + Seq::<MountV>::empty() =~= mounts.deep_view());
    }
    Ok(mounts)
}

// ---------------------------------------------------------------------------
// Laws of the environment merge
// ---------------------------------------------------------------------------
/// How many entries of `s` carry the name `n`.
pub open spec fn count_name(s: Seq<Seq<char>>, n: Seq<char>) -> nat
    decreases s.len(),
{
    if s.len() == 0 {
        0
    } else {
        (if env_name(s[0]) == n {
            1nat
        } else {
            0nat
        }) + count_name(s.subrange(1, s.len() as int), n)
    }
}

/// Counting distributes over appending one entry at the end.
pub proof fn lemma_count_name_push(s: Seq<Seq<char>>, x: Seq<char>, n: Seq<char>)
    ensures
        count_name(s.push(x), n) == count_name(s, n) + (if env_name(x) == n {
            1nat
        } else {
            0nat
        }),
    decreases s.len(),
{
    if s.len() == 0 {
        assert(s.push(x)[0] == x);
        assert(s.push(x).subrange(1, 1) =~= Seq::<Seq<char>>::empty());
        assert(count_name(s.push(x), n) == (if env_name(x) == n {
            1nat
        } else {
            0nat
        }) + count_name(Seq::empty(), n));
        assert(count_name(Seq::<Seq<char>>::empty(), n) == 0);
    } else {
        assert(s.push(x)[0] == s[0]);
        assert(s.push(x).subrange(1, s.len() + 1 as int) =~= s.subrange(1, s.len() as int).push(x));
        assert(count_name(s.push(x), n) == (if env_name(s[0]) == n {
            1nat
        } else {
            0nat
        }) + count_name(s.subrange(1, s.len() as int).push(x), n));
        lemma_count_name_push(s.subrange(1, s.len() as int), x, n);
    }
}

/// Replacing an entry adjusts the count by the names going out and in.
pub proof fn lemma_count_name_update(s: Seq<Seq<char>>, i: int, x: Seq<char>, n: Seq<char>)
    requires
        0 <= i < s.len(),
    ensures
        count_name(s.update(i, x), n) + (if env_name(s[i]) == n {
            1nat
        } else {
            0nat
        }) == count_name(s, n) + (if env_name(x) == n {
            1nat
        } else {
            0nat
        }),
    decreases s.len(),
{
    if i == 0 {
        assert(s.update(0, x)[0] == x);
        assert(s.update(0, x).subrange(1, s.len() as int) =~= s.subrange(1, s.len() as int));
    } else {
        assert(s.update(i, x)[0] == s[0]);
        assert(s.update(i, x).subrange(1, s.len() as int) =~= s.subrange(
            1,
            s.len() as int,
        ).update(i - 1, x));
        lemma_count_name_update(s.subrange(1, s.len() as int), i - 1, x, n);
    }
}

/// A positive count means some position carries the name.
pub proof fn lemma_count_name_pos(s: Seq<Seq<char>>, n: Seq<char>)
    requires
        count_name(s, n) > 0,
    ensures
        exists|p: int| 0 <= p < s.len() && env_name(#[trigger] s[p]) == n,
    decreases s.len(),
{
    if s.len() > 0 {
        if env_name(s[0]) == n {
            assert(0 <= 0 < s.len() && env_name(s[0]) == n);
        } else {
            lemma_count_name_pos(s.subrange(1, s.len() as int), n);
            let p = choose|p: int|
                0 <= p < s.subrange(1, s.len() as int).len() && env_name(
                    #[trigger] s.subrange(1, s.len() as int)[p],
                ) == n;
            assert(env_name(s[p + 1]) == n);
        }
    }
}

/// With unique names, a present name is counted exactly once.
pub proof fn lemma_count_name_unique(s: Seq<Seq<char>>, n: Seq<char>)
    requires
        forall|i: int, j: int| 0 <= i < j < s.len() ==> env_name(s[i]) != env_name(s[j]),
        env_index_v(s, n) >= 0,
    ensures
        count_name(s, n) == 1,
    decreases s.len(),
{
    lemma_env_index_v(s, n);
    let e = env_index_v(s, n);
    let rest = s.subrange(1, s.len() as int);
    assert forall|j: int| 0 <= j < rest.len() implies rest[j] == s[j + 1] by {}
    if env_name(s[0]) == n {
        assert forall|j: int| 0 <= j < rest.len() implies env_name(rest[j]) != n by {
            assert(env_name(s[0]) != env_name(s[j + 1]));
        }
        lemma_count_name_zero(rest, n);
    } else {
        assert(e > 0);
        assert(env_name(rest[e - 1]) == n);
        lemma_env_index_v_present(rest, n, e - 1);
        lemma_count_name_unique(rest, n);
    }
}

/// Without an occurrence, the count is zero.
pub proof fn lemma_count_name_zero(s: Seq<Seq<char>>, n: Seq<char>)
    requires
        forall|j: int| 0 <= j < s.len() ==> env_name(#[trigger] s[j]) != n,
    ensures
        count_name(s, n) == 0,
    decreases s.len(),
{
    if s.len() > 0 {
        let rest = s.subrange(1, s.len() as int);
        assert forall|j: int| 0 <= j < rest.len() implies env_name(#[trigger] rest[j]) != n by {
            assert(rest[j] == s[j + 1]);
        }
        lemma_count_name_zero(rest, n);
    }
}

/// A position that carries the name forces the index to find the name.
pub proof fn lemma_env_index_v_present(s: Seq<Seq<char>>, n: Seq<char>, p: int)
    requires
        0 <= p < s.len(),
        env_name(s[p]) == n,
    ensures
        env_index_v(s, n) >= 0,
{
    lemma_env_index_v(s, n);
}

/// Removing no positions leaves the list unchanged.
pub proof fn lemma_remove_positions_v_empty(s: Seq<Seq<char>>, rm: Set<int>)
    requires
        forall|i: int| !rm.contains(i),
    ensures
        remove_positions_v(s, rm) == s,
    decreases s.len(),
{
    if s.len() > 0 {
        lemma_remove_positions_v_empty(s.drop_last(), rm);
        assert(remove_positions_v(s, rm) =~= s.drop_last().push(s.last()));
        assert(s.drop_last().push(s.last()) =~= s);
    }
}

/// Shape of the substituted list when every override carries a value:
/// original positions keep their names, appended entries carry names the
/// snapshot lacks, and the count of every name is governed by the snapshot
/// and the overrides.
pub proof fn lemma_apply_env_shape(orig: Seq<Seq<char>>, ovs: Seq<Seq<char>>, n: Seq<char>)
    requires
        forall|k: int| 0 <= k < ovs.len() ==> env_has_eq(#[trigger] ovs[k]),
    ensures
        apply_env_overrides_v(orig, orig, ovs).len() >= orig.len(),
        forall|i: int|
            0 <= i < orig.len() ==> env_name(
                #[trigger] apply_env_overrides_v(orig, orig, ovs)[i],
            ) == env_name(orig[i]),
        count_name(apply_env_overrides_v(orig, orig, ovs), n) == if env_index_v(orig, n) >= 0 {
            count_name(orig, n)
        } else {
            count_name(ovs, n)
        },
    decreases ovs.len(),
{
    lemma_env_index_v(orig, n);
    if ovs.len() == 0 {
        assert(apply_env_overrides_v(orig, orig, ovs) == orig);
        assert(count_name(ovs, n) == 0);
        if env_index_v(orig, n) < 0 {
            lemma_count_name_zero(orig, n);
        }
    } else {
        let front = ovs.drop_last();
        let e = ovs.last();
        assert(front.push(e) =~= ovs);
        assert forall|k: int| 0 <= k < front.len() implies env_has_eq(#[trigger] front[k]) by {
            assert(front[k] == ovs[k]);
        }
        lemma_apply_env_shape(orig, front, n);
        lemma_apply_env_overrides_v_snoc(orig, orig, front, e);
        let app = apply_env_overrides_v(orig, orig, front);
        let app2 = apply_env_overrides_v(orig, orig, ovs);
        assert(app2 == env_step_v(orig, app, e));
        lemma_count_name_push(front, e, n);
        let m = env_name(e);
        let ei = env_index_v(orig, m);
        lemma_env_index_v(orig, m);
        if ei >= 0 {
            assert(app2 == app.update(ei, e));
            assert(env_name(app[ei]) == env_name(orig[ei]));
            assert(env_name(orig[ei]) == m);
            lemma_count_name_update(app, ei, e, n);
            assert forall|i: int| 0 <= i < orig.len() implies env_name(#[trigger] app2[i])
                == env_name(orig[i]) by {
                if i != ei {
                    assert(app2[i] == app[i]);
                }
            }
            if env_index_v(orig, n) < 0 {
                assert(m != n);
            }
        } else {
            assert(app2 == app.push(e));
            lemma_count_name_push(app, e, n);
            assert forall|i: int| 0 <= i < orig.len() implies env_name(#[trigger] app2[i])
                == env_name(orig[i]) by {
                assert(app2[i] == app[i]);
            }
            if env_index_v(orig, n) >= 0 {
                assert(m != n);
            }
        }
    }
}

/// A name that an override batch sets always appears exactly once in the
/// merged list: at the position the defaults established when the name
/// pre-existed there, or in the appended region otherwise.  The law asks
/// that the defaults carry values under unique names, that the batch holds
/// no removal entries, and that a name new to the defaults is set only once
/// in the batch.
pub proof fn lemma_env_override_wins(d: Seq<Seq<char>>, ov: Seq<Seq<char>>, t: int)
    requires
        forall|i: int| 0 <= i < d.len() ==> env_has_eq(#[trigger] d[i]),
        forall|i: int, j: int| 0 <= i < j < d.len() ==> env_name(d[i]) != env_name(d[j]),
        forall|k: int| 0 <= k < ov.len() ==> env_has_eq(#[trigger] ov[k]),
        0 <= t < ov.len(),
        env_index_v(d, env_name(ov[t])) < 0 ==> (forall|k: int|
            0 <= k < ov.len() && env_name(#[trigger] ov[k]) == env_name(ov[t]) ==> k == t),
    ensures
        count_name(merge_env_v(d, ov), env_name(ov[t])) == 1,
        env_index_v(d, env_name(ov[t])) >= 0 ==> env_name(
            merge_env_v(d, ov)[env_index_v(d, env_name(ov[t]))],
        ) == env_name(ov[t]),
        env_index_v(d, env_name(ov[t])) < 0 ==> exists|p: int|
            d.len() <= p < merge_env_v(d, ov).len() && env_name(#[trigger] merge_env_v(d, ov)[p])
                == env_name(ov[t]),
{
    let n = env_name(ov[t]);
    let app = apply_env_overrides_v(d, d, ov);
    assert forall|i: int| !env_removal_set_v(d, ov).contains(i) by {
        if env_removal_set_v(d, ov).contains(i) {
            let k = choose|k: int|
                0 <= k < ov.len() && !env_has_eq(#[trigger] ov[k]) && env_index_v(
                    d,
                    env_name(ov[k]),
                ) == i && i >= 0;
        }
    }
    lemma_remove_positions_v_empty(app, env_removal_set_v(d, ov));
    assert(merge_env_v(d, ov) == app);
    lemma_apply_env_shape(d, ov, n);
    lemma_env_index_v(d, n);
    let ei = env_index_v(d, n);
    if ei >= 0 {
        lemma_count_name_unique(d, n);
        assert(env_name(app[ei]) == env_name(d[ei]));
    } else {
        lemma_count_ov_single(ov, t);
        assert(count_name(app, n) == 1);
        lemma_count_name_pos(app, n);
        let p = choose|p: int| 0 <= p < app.len() && env_name(#[trigger] app[p]) == n;
        assert forall|i: int| 0 <= i < d.len() implies env_name(#[trigger] app[i]) != n by {
            assert(env_name(app[i]) == env_name(d[i]));
            if env_name(d[i]) == n {
                lemma_env_index_v_present(d, n, i);
                assert(false);
            }
        }
        assert(p >= d.len());
    }
}

/// A batch that sets a name in exactly one entry counts it once.
proof fn lemma_count_ov_single(ov: Seq<Seq<char>>, t: int)
    requires
        0 <= t < ov.len(),
        forall|k: int|
            0 <= k < ov.len() && env_name(#[trigger] ov[k]) == env_name(ov[t]) ==> k == t,
    ensures
        count_name(ov, env_name(ov[t])) == 1,
    decreases ov.len(),
{
    let n = env_name(ov[t]);
    let rest = ov.subrange(1, ov.len() as int);
    assert forall|j: int| 0 <= j < rest.len() implies rest[j] == ov[j + 1] by {}
    if t == 0 {
        assert forall|j: int| 0 <= j < rest.len() implies env_name(#[trigger] rest[j]) != n by {
            assert(rest[j] == ov[j + 1]);
        }
        lemma_count_name_zero(rest, n);
    } else {
        assert(env_name(ov[0]) != n);
        assert forall|k: int|
            0 <= k < rest.len() && env_name(#[trigger] rest[k]) == env_name(rest[t - 1])
                implies k == t - 1 by {
            assert(rest[k] == ov[k + 1]);
        }
        lemma_count_ov_single(rest, t - 1);
    }
}

/// Every entry of the runtime-default environment carries a value.
pub proof fn lemma_default_env_has_eq(tty: bool)
    ensures
        forall|i: int|
            0 <= i < container_env_v(tty).len() ==> env_has_eq(#[trigger] container_env_v(tty)[i]),
        forall|i: int|
            0 <= i < sandbox_env_v(tty).len() ==> env_has_eq(#[trigger] sandbox_env_v(tty)[i]),
{
    reveal_strlit("^HOSTNAME=.+");
    reveal_strlit("^PATH=/usr/local/sbin:/usr/local/bin:/usr/sbin:/usr/bin:/sbin:/bin$");
    reveal_strlit("TERM=xterm");
    assert(env_has_eq(hostname_env_v())) by {
        reveal_with_fuel(crate::strutil::spec_find_from, 12);
        assert(hostname_env_v()[9] == '=');
    }
    assert(env_has_eq(path_env_v())) by {
        reveal_with_fuel(crate::strutil::spec_find_from, 8);
        assert(path_env_v()[5] == '=');
    }
    assert(env_has_eq(term_env_v())) by {
        reveal_with_fuel(crate::strutil::spec_find_from, 6);
        assert(term_env_v()[4] == '=');
    }
}


// ---------------------------------------------------------------------------
// Laws of the mount merge and the privileged adjustment
// ---------------------------------------------------------------------------
/// No two entries share a destination.
pub open spec fn unique_dests(s: Seq<MountV>) -> bool {
    forall|i: int, j: int|
        0 <= i < j < s.len() ==> (#[trigger] s[i]).destination != (#[trigger] s[j]).destination
}

/// The entry at a destination, under unique destinations.
pub open spec fn mount_at(s: Seq<MountV>, d: Seq<char>) -> Option<MountV> {
    let i = mount_index_v(s, d);
    if i >= 0 {
        Some(s[i])
    } else {
        None
    }
}

/// The last entry of a list at a destination, if any.
pub open spec fn last_mount_at(s: Seq<MountV>, d: Seq<char>) -> Option<MountV>
    decreases s.len(),
{
    if s.len() == 0 {
        None
    } else {
        match last_mount_at(s.subrange(1, s.len() as int), d) {
            Some(m) => Some(m),
            None => if s[0].destination == d {
                Some(s[0])
            } else {
                None
            },
        }
    }
}

/// One insertion leaves every other destination alone, installs the new
/// mount at its own destination, and keeps destinations unique.
pub proof fn lemma_insert_mount_at(acc: Seq<MountV>, m: MountV, d: Seq<char>)
    requires
        unique_dests(acc),
    ensures
        unique_dests(insert_mount_v(acc, m)),
        mount_at(insert_mount_v(acc, m), m.destination) == Some(m),
        d != m.destination ==> mount_at(insert_mount_v(acc, m), d) == mount_at(acc, d),
{
    lemma_mount_index_v(acc, m.destination);
    let i = mount_index_v(acc, m.destination);
    let acc2 = insert_mount_v(acc, m);
    if i >= 0 {
        assert(acc2 == acc.update(i, m));
        assert forall|a: int, b: int| 0 <= a < b < acc2.len() implies (
        #[trigger] acc2[a]).destination != (#[trigger] acc2[b]).destination by {
            assert(acc[a].destination != acc[b].destination);
            if a == i {
                assert(acc2[a].destination == acc[i].destination);
            }
            if b == i {
                assert(acc2[b].destination == acc[i].destination);
            }
        }
        lemma_mount_index_v(acc2, m.destination);
        let i2 = mount_index_v(acc2, m.destination);
        assert(acc2[i].destination == m.destination);
        if i2 < 0 {
            assert(false);
        }
        if i2 != i {
            assert(acc2[i2].destination == acc2[i].destination);
            assert(false);
        }
        if d != m.destination {
            lemma_mount_index_v(acc, d);
            lemma_mount_index_v(acc2, d);
            let j = mount_index_v(acc, d);
            let j2 = mount_index_v(acc2, d);
            if j >= 0 {
                assert(j != i);
                assert(acc2[j].destination == d);
                if j2 < 0 {
                    assert(false);
                }
                if j2 != j {
                    if j2 == i {
                        assert(acc2[j2].destination == m.destination);
                        assert(false);
                    }
                    assert(acc[j2].destination == d);
                    assert(false);
                }
            } else {
                if j2 >= 0 {
                    if j2 == i {
                        assert(acc2[j2].destination == m.destination);
                        assert(false);
                    }
                    assert(acc[j2].destination == d);
                    assert(false);
                }
            }
        }
    } else {
        assert(acc2 == acc.push(m));
        assert forall|a: int, b: int| 0 <= a < b < acc2.len() implies (
        #[trigger] acc2[a]).destination != (#[trigger] acc2[b]).destination by {
            if b < acc.len() {
                assert(acc[a].destination != acc[b].destination);
            } else {
                assert(acc2[b] == m);
                assert(acc[a].destination != m.destination);
            }
        }
        lemma_mount_index_v(acc2, m.destination);
        let i2 = mount_index_v(acc2, m.destination);
        assert(acc2[acc.len() as int].destination == m.destination);
        if i2 < 0 {
            assert(false);
        }
        if i2 != acc.len() {
            assert(acc[i2].destination == m.destination);
            assert(false);
        }
        if d != m.destination {
            lemma_mount_index_v(acc, d);
            lemma_mount_index_v(acc2, d);
            let j = mount_index_v(acc, d);
            let j2 = mount_index_v(acc2, d);
            if j >= 0 {
                assert(acc2[j].destination == d);
                if j2 < 0 {
                    assert(false);
                }
                if j2 != j {
                    if j2 == acc.len() {
                        assert(false);
                    }
                    assert(acc[j2].destination == d);
                    assert(false);
                }
            } else {
                if j2 >= 0 {
                    if j2 == acc.len() {
                        assert(acc2[j2].destination == m.destination);
                        assert(false);
                    }
                    assert(acc[j2].destination == d);
                    assert(false);
                }
            }
        }
    }
}

/// Folding a list into the accumulator: a destination the list covers ends
/// up holding the list's last entry for it; any other destination keeps
/// the accumulator's entry; destinations stay unique.
pub proof fn lemma_insert_mounts_at(acc: Seq<MountV>, ms: Seq<MountV>, d: Seq<char>)
    requires
        unique_dests(acc),
    ensures
        unique_dests(insert_mounts_v(acc, ms)),
        mount_at(insert_mounts_v(acc, ms), d) == (match last_mount_at(ms, d) {
            Some(m) => Some(m),
            None => mount_at(acc, d),
        }),
    decreases ms.len(),
{
    if ms.len() == 0 {
    } else {
        let m0 = ms[0];
        let rest = ms.subrange(1, ms.len() as int);
        lemma_insert_mount_at(acc, m0, d);
        lemma_insert_mounts_at(insert_mount_v(acc, m0), rest, d);
        if last_mount_at(rest, d) is None && m0.destination == d {
            assert(mount_at(insert_mount_v(acc, m0), d) == Some(m0));
        }
    }
}

/// The merge's precedence, in full: at every destination the merged list
/// holds the last `mounts` entry for it when one exists (mounts beat
/// extras), else the last `extras` entry, else nothing; and the merged
/// list's destinations are unique.
pub proof fn lemma_merge_mounts_precedence(mounts: Seq<MountV>, extras: Seq<MountV>, d: Seq<char>)
    ensures
        unique_dests(merge_mounts_v(mounts, extras)),
        mount_at(merge_mounts_v(mounts, extras), d) == (match last_mount_at(mounts, d) {
            Some(m) => Some(m),
            None => last_mount_at(extras, d),
        }),
{
    let base = insert_mounts_v(Seq::empty(), extras);
    lemma_insert_mounts_at(Seq::empty(), extras, d);
    lemma_insert_mounts_at(base, mounts, d);
    lemma_mount_index_v(Seq::empty(), d);
}

/// The privileged-mode adjustment in one sentence each way: a `sysfs` or
/// `cgroup` mount has exactly its `ro` options flipped to `rw`, and a
/// mount of any other type is untouched.
pub proof fn lemma_adjust_mount(m: MountV)
    ensures
        m.typ != "sysfs"@ && m.typ != "cgroup"@ ==> adjust_mount_v(m) == m,
        m.typ == "sysfs"@ || m.typ == "cgroup"@ ==> {
            &&& adjust_mount_v(m).destination == m.destination
            &&& adjust_mount_v(m).typ == m.typ
            &&& adjust_mount_v(m).source == m.source
            &&& adjust_mount_v(m).options.len() == m.options.len()
            &&& forall|i: int|
                0 <= i < m.options.len() ==> #[trigger] adjust_mount_v(m).options[i] == (if m.options[i]
                    == "ro"@ {
                    "rw"@
                } else {
                    m.options[i]
                })
        },
{
}


/// Under unique destinations the last entry at a destination is the only
/// one.
pub proof fn lemma_unique_last_at(s: Seq<MountV>, d: Seq<char>)
    requires
        unique_dests(s),
    ensures
        last_mount_at(s, d) == mount_at(s, d),
    decreases s.len(),
{
    lemma_mount_index_v(s, d);
    if s.len() > 0 {
        let rest = s.subrange(1, s.len() as int);
        assert forall|a: int, b: int| 0 <= a < b < rest.len() implies (
        #[trigger] rest[a]).destination != (#[trigger] rest[b]).destination by {
            assert(rest[a] == s[a + 1] && rest[b] == s[b + 1]);
        }
        lemma_unique_last_at(rest, d);
        lemma_mount_index_v(rest, d);
        if s[0].destination == d {
            if mount_index_v(rest, d) >= 0 {
                assert(rest[mount_index_v(rest, d)] == s[mount_index_v(rest, d) + 1]);
                assert(false);
            }
        }
    }
}

/// The net four-layer precedence, highest to lowest: pod-declared beats
/// orchestrator-injected beats image-declared beats runtime defaults, at
/// every destination, across the three successive two-way merges.
pub proof fn lemma_mount_layering(
    pod: Seq<MountV>,
    kube: Seq<MountV>,
    image: Seq<MountV>,
    defaults: Seq<MountV>,
    d: Seq<char>,
)
    ensures
        mount_at(
            merge_mounts_v(merge_mounts_v(merge_mounts_v(pod, kube), image), defaults),
            d,
        ) == (match last_mount_at(pod, d) {
            Some(m) => Some(m),
            None => match last_mount_at(kube, d) {
                Some(m) => Some(m),
                None => match last_mount_at(image, d) {
                    Some(m) => Some(m),
                    None => last_mount_at(defaults, d),
                },
            },
        }),
{
    let r1 = merge_mounts_v(pod, kube);
    let r2 = merge_mounts_v(r1, image);
    lemma_merge_mounts_precedence(pod, kube, d);
    lemma_unique_last_at(r1, d);
    lemma_merge_mounts_precedence(r1, image, d);
    lemma_unique_last_at(r2, d);
    lemma_merge_mounts_precedence(r2, defaults, d);
}

} // verus!
