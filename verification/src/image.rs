//! The image-configuration side of policy compilation: the library's own
//! model of an image's declared configuration, the normalization of an image
//! reference into a fully qualified URI, and the derivation of allow-list
//! environment patterns from the image's declared environment.
//!
//! Retrieving the configuration itself is an external collaborator's job;
//! the caller hands the library an [`ImageConfig`] snapshot.

use vstd::prelude::*;
use vstd::string::StringExecFns;
use crate::strutil::{spec_find, s_to_owned};

verus! {

/// What the policy compiler reads from an image's configuration.
/// Absent fields of the underlying document are represented as empty.
#[derive(Debug)]
pub struct ImageConfig {
    pub entrypoint: Vec<String>,
    pub cmd: Vec<String>,
    pub working_dir: String,
    pub env: Vec<String>,
    pub volumes: Vec<String>,
}

/// Mathematical model of an [`ImageConfig`].
#[verifier::ext_equal]
pub ghost struct ImageConfigV {
    pub entrypoint: Seq<Seq<char>>,
    pub cmd: Seq<Seq<char>>,
    pub working_dir: Seq<char>,
    pub env: Seq<Seq<char>>,
    pub volumes: Seq<Seq<char>>,
}

impl DeepView for ImageConfig {
    type V = ImageConfigV;

    open spec fn deep_view(&self) -> ImageConfigV {
        ImageConfigV {
            entrypoint: self.entrypoint.deep_view(),
            cmd: self.cmd.deep_view(),
            working_dir: self.working_dir@,
            env: self.env.deep_view(),
            volumes: self.volumes.deep_view(),
        }
    }
}

/// An image configuration with every field empty.
pub open spec fn empty_image_config_v() -> ImageConfigV {
    ImageConfigV {
        entrypoint: Seq::empty(),
        cmd: Seq::empty(),
        working_dir: Seq::empty(),
        env: Seq::empty(),
        volumes: Seq::empty(),
    }
}

impl ImageConfig {
    /// An image configuration with every field empty.
    pub fn empty() -> (r: ImageConfig)
        ensures
            r.deep_view() == empty_image_config_v(),
    {
        let r = ImageConfig {
            entrypoint: Vec::new(),
            cmd: Vec::new(),
            working_dir: String::new(),
            env: Vec::new(),
            volumes: Vec::new(),
        };
        proof {
            assert(r.deep_view() =~~= empty_image_config_v());
        }
        r
    }
}

/// One fetched image configuration, keyed by the reference it was fetched
/// for.
#[derive(Debug)]
pub struct ImageEntry {
    pub reference: String,
    pub config: ImageConfig,
}

/// Mathematical model of an [`ImageEntry`].
#[verifier::ext_equal]
pub ghost struct ImageEntryV {
    pub reference: Seq<char>,
    pub config: ImageConfigV,
}

impl DeepView for ImageEntry {
    type V = ImageEntryV;

    open spec fn deep_view(&self) -> ImageEntryV {
        ImageEntryV { reference: self.reference@, config: self.config.deep_view() }
    }
}

/// The first fetched configuration under a reference.
pub open spec fn spec_image_lookup(s: Seq<ImageEntryV>, reference: Seq<char>) -> Option<
    ImageConfigV,
>
    decreases s.len(),
{
    if s.len() == 0 {
        None
    } else if s[0].reference == reference {
        Some(s[0].config)
    } else {
        spec_image_lookup(s.subrange(1, s.len() as int), reference)
    }
}

/// The first fetched configuration under a reference.
pub fn image_lookup<'a>(s: &'a Vec<ImageEntry>, reference: &String) -> (r: Option<&'a ImageConfig>)
    ensures
        match r {
            Some(c) => spec_image_lookup(s.deep_view(), reference@) == Some(c.deep_view()),
            None => spec_image_lookup(s.deep_view(), reference@) is None,
        },
{
    let ghost sv = s.deep_view();
    proof {
        assert(sv.subrange(0, sv.len() as int) =~= sv);
    }
    let n = s.len();
    let mut i: usize = 0;
    while i < n
        invariant
            i <= n,
            n == s.len(),
            sv == s.deep_view(),
            spec_image_lookup(sv, reference@) == spec_image_lookup(
                sv.subrange(i as int, sv.len() as int),
                reference@,
            ),
        decreases n - i,
    {
        let ghost suffix = sv.subrange(i as int, sv.len() as int);
        proof {
            assert(suffix[0] == sv[i as int]);
            assert(suffix.subrange(1, suffix.len() as int) =~= sv.subrange(
                i + 1 as int,
                sv.len() as int,
            ));
        }
        if s[i].reference == *reference {
            return Some(&s[i].config);
        }
        i = i + 1;
    }
    proof {
        assert(sv.subrange(n as int, sv.len() as int) =~= Seq::<ImageEntryV>::empty());
    }
    None
}

/// Whether the reference already names a transport scheme (`://`).
pub open spec fn has_scheme(s: Seq<char>) -> bool {
    exists|i: int| 0 <= i && i + 2 < s.len() && #[trigger] s[i] == ':' && s[i + 1] == '/' && s[i + 2] == '/'
}

/// Normalization of an image reference: a bare name with no `/` and no
/// scheme is expanded into the default registry's library namespace, a name
/// with a `/` but no scheme gets the default transport scheme, and a name
/// that already has a scheme passes through unchanged.
pub open spec fn image_uri_v(r: Seq<char>) -> Seq<char> {
    if has_scheme(r) {
        r
    } else if spec_find(r, '/') is Some {
        "docker://"@ + r
    } else {
        "docker://docker.io/library/"@ + r
    }
}

/// Whether the reference contains `://` somewhere.
fn find_scheme(s: &str) -> (r: bool)
    ensures
        r == has_scheme(s@),
{
    let len = s.unicode_len();
    if len < 3 {
        return false;
    }
    let mut i: usize = 0;
    while i + 2 < len
        invariant
            len == s@.len(),
            i + 2 <= len,
            forall|j: int|
                0 <= j < i ==> !(#[trigger] s@[j] == ':' && s@[j + 1] == '/' && s@[j + 2] == '/'),
        decreases len - i,
    {
        if s.get_char(i) == ':' && s.get_char(i + 1) == '/' && s.get_char(i + 2) == '/' {
            return true;
        }
        i = i + 1;
    }
    false
}

/// The fully qualified URI for an image reference, per [`image_uri_v`].
pub fn image_uri(image_ref: &str) -> (r: String)
    ensures
        r@ == image_uri_v(image_ref@),
{
    if find_scheme(image_ref) {
        s_to_owned(image_ref)
    } else if crate::strutil::find_char(image_ref, '/').is_some() {
        s_to_owned("docker://").concat(image_ref)
    } else {
        s_to_owned("docker://docker.io/library/").concat(image_ref)
    }
}

/// Allow-list environment rules derived from the image's declared
/// environment: each `KEY=VALUE` entry anchored as an exact match.
pub open spec fn image_env_v(c: ImageConfigV) -> Seq<Seq<char>> {
    c.env.map_values(|e: Seq<char>| "^"@ + e + "$"@)
}

/// Environment allow-patterns of an image: each declared entry anchored
/// between `^` and `$` so it must match byte for byte.
pub fn get_env(image_config: &ImageConfig) -> (r: Vec<String>)
    ensures
        r.deep_view() == image_env_v(image_config.deep_view()),
{
    let mut r: Vec<String> = Vec::new();
    let n = image_config.env.len();
    let mut i: usize = 0;
    while i < n
        invariant
            i <= n,
            n == image_config.env.len(),
            r.deep_view() =~= image_env_v(image_config.deep_view()).subrange(0, i as int),
        decreases n - i,
    {
        let ghost pre = r.deep_view();
        let mut entry = s_to_owned("^");
        entry.append(image_config.env[i].as_str());
        entry.append("$");
        proof {
            assert(entry@ == "^"@ + image_config.deep_view().env[i as int] + "$"@);
        }
        r.push(entry);
        proof {
            assert(r.deep_view() =~= pre.push(entry@));
            assert(image_env_v(image_config.deep_view())[i as int] == "^"@
                + image_config.deep_view().env[i as int] + "$"@);
            assert(r.deep_view() =~= image_env_v(image_config.deep_view()).subrange(
                0,
                i + 1 as int,
            ));
        }
        i = i + 1;
    }
    proof {
        assert(image_env_v(image_config.deep_view()).subrange(
            0,
            n as int,
        ) =~= image_env_v(image_config.deep_view()));
    }
    r
}

} // verus!
