//! The allow-spec data model: the runtime-specification fragment that is
//! built up per container.  String fields hold either literal values or
//! anchored regular expressions denoting an allowed range.

use vstd::prelude::*;

verus! {

/// Identity the allowed process runs as.
#[derive(Clone, Copy, Debug, PartialEq, Eq, Structural)]
pub struct User {
    pub uid: u32,
    pub gid: u32,
}

impl DeepView for User {
    type V = User;

    open spec fn deep_view(&self) -> User {
        *self
    }
}

/// Allowed process: identity, argument list, environment rules and working
/// directory.  `args` and `env` are absent until the corresponding merge has
/// run; an empty `cwd` means "do not override the inherited default".
#[derive(Debug)]
pub struct Process {
    pub user: User,
    pub args: Option<Vec<String>>,
    pub env: Option<Vec<String>>,
    pub cwd: String,
}

/// Mathematical model of a [`Process`].
#[verifier::ext_equal]
pub ghost struct ProcessV {
    pub user: User,
    pub args: Option<Seq<Seq<char>>>,
    pub env: Option<Seq<Seq<char>>>,
    pub cwd: Seq<char>,
}

impl DeepView for Process {
    type V = ProcessV;

    open spec fn deep_view(&self) -> ProcessV {
        ProcessV {
            user: self.user,
            args: self.args.deep_view(),
            env: self.env.deep_view(),
            cwd: self.cwd@,
        }
    }
}

/// One allowed mount.  Identity for merge purposes is `destination` alone;
/// the other fields are replaced wholesale when two mounts collide.
#[derive(Debug)]
pub struct Mount {
    pub destination: String,
    pub typ: String,
    pub source: String,
    pub options: Vec<String>,
}

/// Mathematical model of a [`Mount`].
#[verifier::ext_equal]
pub ghost struct MountV {
    pub destination: Seq<char>,
    pub typ: Seq<char>,
    pub source: Seq<char>,
    pub options: Seq<Seq<char>>,
}

impl DeepView for Mount {
    type V = MountV;

    open spec fn deep_view(&self) -> MountV {
        MountV {
            destination: self.destination@,
            typ: self.typ@,
            source: self.source@,
            options: self.options.deep_view(),
        }
    }
}

/// The per-container runtime-specification fragment under construction.
#[derive(Debug)]
pub struct Spec {
    pub oci_version: String,
    pub mounts: Option<Vec<Mount>>,
    pub process: Option<Process>,
}

/// Mathematical model of a [`Spec`].
#[verifier::ext_equal]
pub ghost struct SpecV {
    pub oci_version: Seq<char>,
    pub mounts: Option<Seq<MountV>>,
    pub process: Option<ProcessV>,
}

impl DeepView for Spec {
    type V = SpecV;

    open spec fn deep_view(&self) -> SpecV {
        SpecV {
            oci_version: self.oci_version@,
            mounts: self.mounts.deep_view(),
            process: self.process.deep_view(),
        }
    }
}

/// The process every allow-spec starts from: root identity, no argument or
/// environment list yet, and no working-directory override.
pub open spec fn empty_process_v() -> ProcessV {
    ProcessV { user: User { uid: 0, gid: 0 }, args: None, env: None, cwd: Seq::empty() }
}

/// A process with root identity, empty working directory, and no argument or
/// environment list.
pub fn empty_process() -> (r: Process)
    ensures
        r.deep_view() == empty_process_v(),
{
    let r = Process { user: User { uid: 0, gid: 0 }, args: None, env: None, cwd: String::new() };
    proof {
        assert(r.deep_view() =~= empty_process_v());
    }
    r
}

/// The allow-spec every merge starts from when runtime defaults are not
/// requested: no version, no process, no mounts.
pub open spec fn empty_spec_v() -> SpecV {
    SpecV { oci_version: Seq::empty(), mounts: None, process: None }
}

/// An allow-spec with an empty version string and no process or mount list.
pub fn empty_spec() -> (r: Spec)
    ensures
        r.deep_view() == empty_spec_v(),
{
    let r = Spec { oci_version: String::new(), mounts: None, process: None };
    proof {
        assert(r.deep_view() =~= empty_spec_v());
    }
    r
}

} // verus!
