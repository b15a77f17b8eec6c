//! The manifest extractor: a normalized view of a workload manifest — its
//! kind, containers, declared volumes — and the per-container accessors for
//! security context, debugging flags, environment rules, entry point and
//! mount requests.  It also injects a compiled policy back into a manifest
//! tree.

use vstd::prelude::*;
use vstd::string::StringExecFns;
use crate::errors::{PolicyError, PolicyErrV};
use crate::oci::{Mount, MountV};
use crate::strutil::{s_to_owned, str_eq};
use crate::yaml::{Yaml, YamlV, yget, yindex, map_get_v};

verus! {

/// How a declared volume provides its data.
#[derive(Clone, Copy, Debug, PartialEq, Eq, Structural)]
pub enum VolumeType {
    Unknown,
    EmptyDir,
    Secret,
    ConfigMap,
    DownwardAPI,
    Projected,
    HostPath,
}

impl Default for VolumeType {
    /// A volume starts out of unknown type.
    fn default() -> (r: Self)
        ensures
            r == VolumeType::Unknown,
    {
        VolumeType::Unknown
    }
}

/// A declared volume, resolved once per manifest: its type, whether it is
/// forced read-only, its host path, and whether it is a bare `emptyDir: {}`
/// that maps to the distinct local mount type.
#[derive(Debug)]
pub struct Volume {
    pub kind: VolumeType,
    pub readonly: bool,
    pub host_path: String,
    pub local: bool,
}

/// Mathematical model of a [`Volume`].
#[verifier::ext_equal]
pub ghost struct VolumeV {
    pub kind: VolumeType,
    pub readonly: bool,
    pub host_path: Seq<char>,
    pub local: bool,
}

impl DeepView for Volume {
    type V = VolumeV;

    open spec fn deep_view(&self) -> VolumeV {
        VolumeV {
            kind: self.kind,
            readonly: self.readonly,
            host_path: self.host_path@,
            local: self.local,
        }
    }
}

/// A container's security context.
#[derive(Clone, Copy, Debug, PartialEq, Eq, Structural)]
pub struct SecurityContext {
    pub allow_elevated: bool,
    pub privileged: bool,
}

impl DeepView for SecurityContext {
    type V = SecurityContext;

    open spec fn deep_view(&self) -> SecurityContext {
        *self
    }
}

/// A container's debugging-related settings.
#[derive(Clone, Copy, Debug, PartialEq, Eq, Structural)]
pub struct Debugging {
    pub tty: bool,
}

impl DeepView for Debugging {
    type V = Debugging;

    open spec fn deep_view(&self) -> Debugging {
        *self
    }
}

/// One resolved config-map value the cluster collaborator handed over:
/// the map's name, the key, and the literal value found there.
#[derive(Debug)]
pub struct ConfigMapEntry {
    pub name: String,
    pub key: String,
    pub value: String,
}

/// Mathematical model of a [`ConfigMapEntry`].
#[verifier::ext_equal]
pub ghost struct ConfigMapEntryV {
    pub name: Seq<char>,
    pub key: Seq<char>,
    pub value: Seq<char>,
}

impl DeepView for ConfigMapEntry {
    type V = ConfigMapEntryV;

    open spec fn deep_view(&self) -> ConfigMapEntryV {
        ConfigMapEntryV { name: self.name@, key: self.key@, value: self.value@ }
    }
}

/// The first resolved value for a map name and key.
pub open spec fn spec_cm_lookup(
    maps: Seq<ConfigMapEntryV>,
    name: Seq<char>,
    key: Seq<char>,
) -> Option<Seq<char>>
    decreases maps.len(),
{
    if maps.len() == 0 {
        None
    } else if maps[0].name == name && maps[0].key == key {
        Some(maps[0].value)
    } else {
        spec_cm_lookup(maps.subrange(1, maps.len() as int), name, key)
    }
}

/// The first resolved value for a map name and key.
pub fn cm_lookup<'a>(maps: &'a Vec<ConfigMapEntry>, name: &String, key: &String) -> (r: Option<
    &'a String,
>)
    ensures
        match r {
            Some(v) => spec_cm_lookup(maps.deep_view(), name@, key@) == Some(v@),
            None => spec_cm_lookup(maps.deep_view(), name@, key@) is None,
        },
{
    let ghost ms = maps.deep_view();
    proof {
        assert(ms.subrange(0, ms.len() as int) =~= ms);
    }
    let n = maps.len();
    let mut i: usize = 0;
    while i < n
        invariant
            i <= n,
            n == maps.len(),
            ms == maps.deep_view(),
            spec_cm_lookup(ms, name@, key@) == spec_cm_lookup(
                ms.subrange(i as int, ms.len() as int),
                name@,
                key@,
            ),
        decreases n - i,
    {
        let ghost suffix = ms.subrange(i as int, ms.len() as int);
        proof {
            assert(suffix[0] == ms[i as int]);
            assert(suffix.subrange(1, suffix.len() as int) =~= ms.subrange(
                i + 1 as int,
                ms.len() as int,
            ));
        }
        if maps[i].name == *name && maps[i].key == *key {
            return Some(&maps[i].value);
        }
        i = i + 1;
    }
    proof {
        assert(ms.subrange(n as int, ms.len() as int) =~= Seq::<ConfigMapEntryV>::empty());
    }
    None
}

/// The literal value under `data/<key>` of a fetched config-map document.
/// `name` only labels the error when the key is absent.
pub open spec fn spec_config_map_value(cm: YamlV, name: Seq<char>, key: Seq<char>) -> Result<
    Seq<char>,
    PolicyErrV,
> {
    match yget(cm, "data"@) {
        Some(data) => match data {
            YamlV::Mapping(es) => match map_get_v(es, key) {
                Some(v) => match v {
                    YamlV::Str(s) => Ok(s),
                    _ => Err(PolicyErrV::MalformedField("value"@)),
                },
                None => Err(PolicyErrV::ConfigMapValueMissing(name, key)),
            },
            _ => Err(PolicyErrV::MalformedField("data"@)),
        },
        None => Err(PolicyErrV::MalformedField("data"@)),
    }
}

/// The literal value a fetched config-map document holds under `data` and
/// the given key.
pub fn config_map_value(cm: &Yaml, name: &String, key: &String) -> (r: Result<String, PolicyError>)
    ensures
        match spec_config_map_value(cm.deep_view(), name@, key@) {
            Ok(v) => r matches Ok(s) && s@ == v,
            Err(e) => r matches Err(pe) && pe.deep_view() == e,
        },
{
    let data = match cm.get("data") {
        Some(d) => d,
        None => {
            return Err(PolicyError::MalformedField(s_to_owned("data")));
        },
    };
    if data.as_mapping().is_none() {
        return Err(PolicyError::MalformedField(s_to_owned("data")));
    }
    match data.get(key.as_str()) {
        Some(v) => match v.as_str() {
            Some(s) => Ok(s.clone()),
            None => Err(PolicyError::MalformedField(s_to_owned("value"))),
        },
        None => Err(PolicyError::ConfigMapValueMissing(name.clone(), key.clone())),
    }
}

// ---------------------------------------------------------------------------
// Volume resolution
// ---------------------------------------------------------------------------
/// One declared volume resolved to its name and attributes.  Secret,
/// config-map, downward-API and projected volumes are forced read-only; an
/// `emptyDir` declared as a bare `{}` is marked local; a host-path volume
/// carries its path when one is declared as a string.
pub open spec fn spec_volume(vol: YamlV) -> Result<(Seq<char>, VolumeV), PolicyErrV> {
    match vol {
        YamlV::Mapping(es) => match yindex(vol, "name"@) {
            YamlV::Str(name) => {
                let v = if yget(vol, "emptyDir"@) is Some {
                    VolumeV {
                        kind: VolumeType::EmptyDir,
                        readonly: false,
                        host_path: Seq::empty(),
                        local: (match yget(vol, "emptyDir"@) {
                            Some(YamlV::Mapping(m)) => m.len() == 0,
                            _ => false,
                        }),
                    }
                } else if yget(vol, "secret"@) is Some {
                    VolumeV {
                        kind: VolumeType::Secret,
                        readonly: true,
                        host_path: Seq::empty(),
                        local: false,
                    }
                } else if yget(vol, "configMap"@) is Some {
                    VolumeV {
                        kind: VolumeType::ConfigMap,
                        readonly: true,
                        host_path: Seq::empty(),
                        local: false,
                    }
                } else if yget(vol, "downwardAPI"@) is Some {
                    VolumeV {
                        kind: VolumeType::DownwardAPI,
                        readonly: true,
                        host_path: Seq::empty(),
                        local: false,
                    }
                } else if yget(vol, "projected"@) is Some {
                    VolumeV {
                        kind: VolumeType::Projected,
                        readonly: true,
                        host_path: Seq::empty(),
                        local: false,
                    }
                } else if yget(vol, "hostPath"@) is Some {
                    VolumeV {
                        kind: VolumeType::HostPath,
                        readonly: false,
                        host_path: (match yget(yindex(vol, "hostPath"@), "path"@) {
                            Some(YamlV::Str(p)) => p,
                            _ => Seq::empty(),
                        }),
                        local: false,
                    }
                } else {
                    VolumeV {
                        kind: VolumeType::Unknown,
                        readonly: false,
                        host_path: Seq::empty(),
                        local: false,
                    }
                };
                Ok((name, v))
            },
            _ => Err(PolicyErrV::MalformedField("name"@)),
        },
        _ => Err(PolicyErrV::MalformedField("volume"@)),
    }
}

/// The declared volumes of a pod spec, in order; missing or non-sequence
/// `volumes` yields none.
pub open spec fn spec_volume_items(items: Seq<YamlV>) -> Result<
    Seq<(Seq<char>, VolumeV)>,
    PolicyErrV,
>
    decreases items.len(),
{
    if items.len() == 0 {
        Ok(Seq::empty())
    } else {
        match spec_volume(items[0]) {
            Err(e) => Err(e),
            Ok(nv) => match spec_volume_items(items.subrange(1, items.len() as int)) {
                Ok(rest) => Ok(seq![nv] + rest),
                Err(e) => Err(e),
            },
        }
    }
}

/// The resolved volumes of a pod spec node.
pub open spec fn spec_get_volumes(spec: YamlV) -> Result<Seq<(Seq<char>, VolumeV)>, PolicyErrV> {
    match yget(spec, "volumes"@) {
        Some(v) => match v {
            YamlV::Sequence(items) => spec_volume_items(items),
            _ => Ok(Seq::empty()),
        },
        None => Ok(Seq::empty()),
    }
}

/// The last declared volume under a name, mirroring a map insert where a
/// later declaration of the same name replaces an earlier one.
pub open spec fn spec_vol_lookup(vols: Seq<(Seq<char>, VolumeV)>, name: Seq<char>) -> Option<
    VolumeV,
>
    decreases vols.len(),
{
    if vols.len() == 0 {
        None
    } else if vols.last().0 == name {
        Some(vols.last().1)
    } else {
        spec_vol_lookup(vols.drop_last(), name)
    }
}

/// One volume node resolved, per [`spec_volume`].
fn parse_volume(vol: &Yaml) -> (r: Result<(String, Volume), PolicyError>)
    ensures
        match spec_volume(vol.deep_view()) {
            Ok(nv) => r matches Ok(p) && p.0@ == nv.0 && p.1.deep_view() == nv.1,
            Err(e) => r matches Err(pe) && pe.deep_view() == e,
        },
{
    if vol.as_mapping().is_none() {
        return Err(PolicyError::MalformedField(s_to_owned("volume")));
    }
    let name = match vol.get("name") {
        Some(n) => match n.as_str() {
            Some(s) => s.clone(),
            None => {
                return Err(PolicyError::MalformedField(s_to_owned("name")));
            },
        },
        None => {
            return Err(PolicyError::MalformedField(s_to_owned("name")));
        },
    };
    let mut kind = VolumeType::default();
    let mut readonly = false;
    let mut host_path = String::new();
    let mut local = false;
    match vol.get("emptyDir") {
        Some(ed) => {
            kind = VolumeType::EmptyDir;
            match ed.as_mapping() {
                Some(m) => {
                    if m.len() == 0 {
                        local = true;
                    }
                },
                None => {
                },
            }
        },
        None => {
            if vol.contains_key("secret") {
                kind = VolumeType::Secret;
                readonly = true;
            } else if vol.contains_key("configMap") {
                kind = VolumeType::ConfigMap;
                readonly = true;
            } else if vol.contains_key("downwardAPI") {
                kind = VolumeType::DownwardAPI;
                readonly = true;
            } else if vol.contains_key("projected") {
                kind = VolumeType::Projected;
                readonly = true;
            } else {
                match vol.get("hostPath") {
                    Some(hp) => {
                        kind = VolumeType::HostPath;
                        match hp.get("path") {
                            Some(p) => match p.as_str() {
                                Some(ps) => {
                                    host_path = ps.clone();
                                },
                                None => {
                                },
                            },
                            None => {
                            },
                        }
                    },
                    None => {
                    },
                }
            }
        },
    }
    let v = Volume { kind, readonly, host_path, local };
    proof {
        assert(v.deep_view() =~= spec_volume(vol.deep_view())->Ok_0.1);
    }
    Ok((name, v))
}

/// An association list of resolved volumes keyed by name.
#[derive(Debug)]
pub struct VolumeEntry {
    pub name: String,
    pub volume: Volume,
}

/// Mathematical model of a [`VolumeEntry`], as a name/volume pair.
impl DeepView for VolumeEntry {
    type V = (Seq<char>, VolumeV);

    open spec fn deep_view(&self) -> (Seq<char>, VolumeV) {
        (self.name@, self.volume.deep_view())
    }
}

impl<'input> PodYaml<'input> {
    /// The declared volumes of a pod spec node, resolved in order.  A later
    /// declaration under the same name wins on lookup.
    pub fn get_volmues(spec: &Yaml) -> (r: Result<Vec<VolumeEntry>, PolicyError>)
        ensures
            match spec_get_volumes(spec.deep_view()) {
                Ok(vs) => r matches Ok(v) && v.deep_view() == vs,
                Err(e) => r matches Err(pe) && pe.deep_view() == e,
            },
    {
        let items: &Vec<Yaml> = match spec.get("volumes") {
            Some(v) => match v.as_sequence() {
                Some(seq) => seq,
                None => {
                    let empty: Vec<VolumeEntry> = Vec::new();
                    proof {
                        assert(empty.deep_view() =~= Seq::<(Seq<char>, VolumeV)>::empty());
                    }
                    return Ok(empty);
                },
            },
            None => {
                let empty: Vec<VolumeEntry> = Vec::new();
                proof {
                    assert(empty.deep_view() =~= Seq::<(Seq<char>, VolumeV)>::empty());
                }
                return Ok(empty);
            },
        };
        let ghost iv = items.deep_view();
        let n = items.len();
        let mut out: Vec<VolumeEntry> = Vec::new();
        proof {
            assert(iv.subrange(0, iv.len() as int) =~= iv);
            match spec_volume_items(iv) {
                Ok(rest) => {
                    assert(out.deep_view() + rest =~= rest);
                },
                Err(_) => {
                },
            }
        }
        let mut k: usize = 0;
        while k < n
            invariant
                k <= n,
                n == items.len(),
                iv == items.deep_view(),
                spec_get_volumes(spec.deep_view()) == spec_volume_items(iv),
                match spec_volume_items(iv.subrange(k as int, iv.len() as int)) {
                    Ok(rest) => spec_volume_items(iv) == Ok::<_, PolicyErrV>(out.deep_view() + rest),
                    Err(e) => spec_volume_items(iv) == Err::<Seq<(Seq<char>, VolumeV)>, _>(e),
                },
            decreases n - k,
        {
            let ghost suffix = iv.subrange(k as int, iv.len() as int);
            proof {
                assert(suffix[0] == iv[k as int]);
                assert(suffix.subrange(1, suffix.len() as int) =~= iv.subrange(
                    k + 1 as int,
                    iv.len() as int,
                ));
                assert(items.deep_view()[k as int] == items@[k as int].deep_view());
            }
            match parse_volume(&items[k]) {
                Ok(nv) => {
                    let ghost pre = out.deep_view();
                    let (name, volume) = nv;
                    out.push(VolumeEntry { name, volume });
                    proof {
                        assert(out.deep_view() =~= pre.push(spec_volume(iv[k as int])->Ok_0));
                        match spec_volume_items(iv.subrange(k + 1 as int, iv.len() as int)) {
                            Ok(rest) => {
                                assert(pre + (seq![spec_volume(iv[k as int])->Ok_0] + rest)
                                    =~= out.deep_view() + rest);
                            },
                            Err(_) => {
                            },
                        }
                    }
                },
                Err(e) => {
                    return Err(e);
                },
            }
            k = k + 1;
        }
        proof {
            assert(iv.subrange(n as int, iv.len() as int) =~= Seq::<YamlV>::empty());
            assert(out.deep_view() + Seq::<(Seq<char>, VolumeV)>::empty() =~= out.deep_view());
        }
        Ok(out)
    }
}

// ---------------------------------------------------------------------------
// The normalized manifest view and its per-container accessors
// ---------------------------------------------------------------------------
/// The normalized view of one workload manifest: its kind, its containers
/// and init-containers, and its resolved volumes.
#[derive(Debug)]
pub struct PodYaml<'input> {
    pub kind: String,
    pub containers: Option<&'input Vec<Yaml>>,
    pub init_containers: Option<&'input Vec<Yaml>>,
    pub volumes: Vec<VolumeEntry>,
}

/// Mathematical model of a [`PodYaml`].
#[verifier::ext_equal]
pub ghost struct PodYamlV {
    pub kind: Seq<char>,
    pub containers: Option<Seq<YamlV>>,
    pub init_containers: Option<Seq<YamlV>>,
    pub volumes: Seq<(Seq<char>, VolumeV)>,
}

impl<'input> DeepView for PodYaml<'input> {
    type V = PodYamlV;

    open spec fn deep_view(&self) -> PodYamlV {
        PodYamlV {
            kind: self.kind@,
            containers: (match self.containers {
                Some(v) => Some(v.deep_view()),
                None => None,
            }),
            init_containers: (match self.init_containers {
                Some(v) => Some(v.deep_view()),
                None => None,
            }),
            volumes: self.volumes.deep_view(),
        }
    }
}

/// The manifest's kind: the top-level discriminator string, or empty when
/// the field is absent; a non-string discriminator is an error.
pub open spec fn spec_kind(y: YamlV) -> Result<Seq<char>, PolicyErrV> {
    match yget(y, "kind"@) {
        Some(k) => match k {
            YamlV::Str(s) => Ok(s),
            _ => Err(PolicyErrV::MalformedField("kind"@)),
        },
        None => Ok(Seq::empty()),
    }
}

/// Whether the kind locates containers under `spec.template.spec`.
pub open spec fn spec_is_templated_kind(kind: Seq<char>) -> bool {
    kind == "Job"@ || kind == "Deployment"@ || kind == "ReplicationController"@
}

/// Where the pod spec node lives for a supported kind: directly under
/// `spec` for a Pod, under `spec.template.spec` for the templated kinds.
pub open spec fn spec_pod_spec_node(y: YamlV, kind: Seq<char>) -> YamlV {
    if kind == "Pod"@ {
        yindex(y, "spec"@)
    } else {
        yindex(yindex(yindex(y, "spec"@), "template"@), "spec"@)
    }
}

/// The containers listed under a key of the pod spec node, when that key
/// holds a sequence.
pub open spec fn spec_container_list(spec: YamlV, key: Seq<char>) -> Option<Seq<YamlV>> {
    match yget(spec, key) {
        Some(v) => match v {
            YamlV::Sequence(items) => Some(items),
            _ => None,
        },
        None => None,
    }
}

/// The normalized view of a manifest: its kind (an unsupported one is an
/// error), its container lists, and its resolved volumes.
pub open spec fn spec_pod_from(y: YamlV) -> Result<PodYamlV, PolicyErrV> {
    match spec_kind(y) {
        Err(e) => Err(e),
        Ok(kind) => if kind == "Pod"@ || spec_is_templated_kind(kind) {
            let spec = spec_pod_spec_node(y, kind);
            match spec_get_volumes(spec) {
                Err(e) => Err(e),
                Ok(vols) => Ok(
                    PodYamlV {
                        kind: kind,
                        containers: spec_container_list(spec, "containers"@),
                        init_containers: spec_container_list(spec, "initContainers"@),
                        volumes: vols,
                    },
                ),
            }
        } else {
            Err(PolicyErrV::UnsupportedKind(kind))
        },
    }
}

impl<'input> PodYaml<'input> {
    /// The normalized view of a manifest tree, per [`spec_pod_from`].
    pub fn from(yaml: &'input Yaml) -> (r: Result<PodYaml<'input>, PolicyError>)
        ensures
            match spec_pod_from(yaml.deep_view()) {
                Ok(p) => r matches Ok(pv) && pv.deep_view() == p,
                Err(e) => r matches Err(pe) && pe.deep_view() == e,
            },
    {
        let kind: String = match yaml.get("kind") {
            Some(k) => match k.as_str() {
                Some(s) => s.clone(),
                None => {
                    return Err(PolicyError::MalformedField(s_to_owned("kind")));
                },
            },
            None => String::new(),
        };
        let is_pod = str_eq(kind.as_str(), "Pod");
        let is_templated = str_eq(kind.as_str(), "Job") || str_eq(kind.as_str(), "Deployment")
            || str_eq(kind.as_str(), "ReplicationController");
        if !is_pod && !is_templated {
            return Err(PolicyError::UnsupportedKind(kind));
        }
        let spec_node: Option<&Yaml> = if is_pod {
            yaml.get("spec")
        } else {
            match yaml.get("spec") {
                Some(s) => match s.get("template") {
                    Some(t) => t.get("spec"),
                    None => None,
                },
                None => None,
            }
        };
        let ghost sv = spec_pod_spec_node(yaml.deep_view(), kind@);
        proof {
            match spec_node {
                Some(sn) => {
                    assert(sv == sn.deep_view());
                },
                None => {
                    assert(sv == YamlV::Null);
                },
            }
        }
        match spec_node {
            Some(sn) => {
                let volumes = match PodYaml::get_volmues(sn) {
                    Ok(v) => v,
                    Err(e) => {
                        return Err(e);
                    },
                };
                let containers = match sn.get("containers") {
                    Some(v) => v.as_sequence(),
                    None => None,
                };
                let init_containers = match sn.get("initContainers") {
                    Some(v) => v.as_sequence(),
                    None => None,
                };
                let r = PodYaml { kind, containers, init_containers, volumes };
                proof {
                    assert(r.deep_view() =~= spec_pod_from(yaml.deep_view())->Ok_0);
                }
                Ok(r)
            },
            None => {
                let r = PodYaml { kind, containers: None, init_containers: None, volumes: Vec::new() };
                proof {
                    assert(spec_get_volumes(YamlV::Null) == Ok::<_, PolicyErrV>(
                        Seq::<(Seq<char>, VolumeV)>::empty(),
                    ));
                    assert(r.deep_view() =~= spec_pod_from(yaml.deep_view())->Ok_0);
                }
                Ok(r)
            },
        }
    }

    /// The container's required name.
    pub fn get_name(container: &Yaml) -> (r: Result<String, PolicyError>)
        ensures
            match spec_get_name(container.deep_view()) {
                Ok(n) => r matches Ok(s) && s@ == n,
                Err(e) => r matches Err(pe) && pe.deep_view() == e,
            },
    {
        match container.get("name") {
            Some(n) => match n.as_str() {
                Some(s) => Ok(s.clone()),
                None => Err(PolicyError::MalformedField(s_to_owned("name"))),
            },
            None => Err(PolicyError::MalformedField(s_to_owned("name"))),
        }
    }

    /// The container's security context; absent flags default to false.
    pub fn get_security_context(container: &Yaml) -> (r: Result<SecurityContext, PolicyError>)
        ensures
            match spec_get_security_context(container.deep_view()) {
                Ok(c) => r matches Ok(rc) && rc == c,
                Err(e) => r matches Err(pe) && pe.deep_view() == e,
            },
    {
        let mut context = SecurityContext { allow_elevated: false, privileged: false };
        match container.get("securityContext") {
            Some(sc) => {
                match sc.get("privileged") {
                    Some(p) => match p.as_bool() {
                        Some(b) => {
                            context.privileged = b;
                        },
                        None => {
                            return Err(PolicyError::MalformedField(s_to_owned("privileged")));
                        },
                    },
                    None => {
                    },
                }
                match sc.get("allowPrivilegeEscalation") {
                    Some(a) => match a.as_bool() {
                        Some(b) => {
                            context.allow_elevated = b;
                        },
                        None => {
                            return Err(
                                PolicyError::MalformedField(s_to_owned("allowPrivilegeEscalation")),
                            );
                        },
                    },
                    None => {
                    },
                }
                Ok(context)
            },
            None => Ok(context),
        }
    }

    /// The container's debugging settings; absent `tty` defaults to false.
    pub fn get_debugging(container: &Yaml) -> (r: Result<Debugging, PolicyError>)
        ensures
            match spec_get_debugging(container.deep_view()) {
                Ok(d) => r matches Ok(rd) && rd == d,
                Err(e) => r matches Err(pe) && pe.deep_view() == e,
            },
    {
        match container.get("tty") {
            Some(t) => match t.as_bool() {
                Some(b) => Ok(Debugging { tty: b }),
                None => Err(PolicyError::MalformedField(s_to_owned("tty"))),
            },
            None => Ok(Debugging { tty: false }),
        }
    }
}

/// The container's required name.
pub open spec fn spec_get_name(c: YamlV) -> Result<Seq<char>, PolicyErrV> {
    match yget(c, "name"@) {
        Some(n) => match n {
            YamlV::Str(s) => Ok(s),
            _ => Err(PolicyErrV::MalformedField("name"@)),
        },
        None => Err(PolicyErrV::MalformedField("name"@)),
    }
}

/// The container's security context: `privileged` and
/// `allowPrivilegeEscalation`, each false when absent, an error when
/// declared non-boolean.
pub open spec fn spec_get_security_context(c: YamlV) -> Result<SecurityContext, PolicyErrV> {
    match yget(c, "securityContext"@) {
        Some(sc) => {
            let priv_r = (match yget(sc, "privileged"@) {
                Some(p) => match p {
                    YamlV::Bool(b) => Ok(b),
                    _ => Err(PolicyErrV::MalformedField("privileged"@)),
                },
                None => Ok(false),
            });
            let allow_r = (match yget(sc, "allowPrivilegeEscalation"@) {
                Some(a) => match a {
                    YamlV::Bool(b) => Ok(b),
                    _ => Err(PolicyErrV::MalformedField("allowPrivilegeEscalation"@)),
                },
                None => Ok(false),
            });
            match priv_r {
                Err(e) => Err(e),
                Ok(p) => match allow_r {
                    Err(e) => Err(e),
                    Ok(a) => Ok(SecurityContext { allow_elevated: a, privileged: p }),
                },
            }
        },
        None => Ok(SecurityContext { allow_elevated: false, privileged: false }),
    }
}

/// The container's `tty` flag, false when absent, an error when declared
/// non-boolean.
pub open spec fn spec_get_debugging(c: YamlV) -> Result<Debugging, PolicyErrV> {
    match yget(c, "tty"@) {
        Some(t) => match t {
            YamlV::Bool(b) => Ok(Debugging { tty: b }),
            _ => Err(PolicyErrV::MalformedField("tty"@)),
        },
        None => Ok(Debugging { tty: false }),
    }
}

// ---------------------------------------------------------------------------
// Entry point
// ---------------------------------------------------------------------------
/// The strings of a sequence, in order, or nothing when some element is
/// not a string.
pub open spec fn spec_str_items(s: Seq<YamlV>) -> Option<Seq<Seq<char>>>
    decreases s.len(),
{
    if s.len() == 0 {
        Some(Seq::empty())
    } else {
        match spec_str_items(s.drop_last()) {
            Some(p) => match s.last() {
                YamlV::Str(t) => Some(p.push(t)),
                _ => None,
            },
            None => None,
        }
    }
}

/// Once a prefix holds a non-string element, so does the whole sequence.
proof fn lemma_str_items_none_prefix(s: Seq<YamlV>, j: int)
    requires
        0 <= j <= s.len(),
        spec_str_items(s.subrange(0, j)) is None,
    ensures
        spec_str_items(s) is None,
    decreases s.len() - j,
{
    if j < s.len() {
        assert(s.subrange(0, j + 1).drop_last() =~= s.subrange(0, j));
        lemma_str_items_none_prefix(s, j + 1);
    } else {
        assert(s.subrange(0, s.len() as int) =~= s);
    }
}

/// A list field read as its string elements: absent yields none; one that
/// is present but not a sequence, or whose sequence holds a non-string
/// element, is a malformed-field error naming the key.
pub open spec fn spec_str_list(c: YamlV, key: Seq<char>) -> Result<Seq<Seq<char>>, PolicyErrV> {
    match yget(c, key) {
        Some(v) => match v {
            YamlV::Sequence(items) => match spec_str_items(items) {
                Some(ss) => Ok(ss),
                None => Err(PolicyErrV::MalformedField(key)),
            },
            _ => Err(PolicyErrV::MalformedField(key)),
        },
        None => Ok(Seq::empty()),
    }
}

/// The container's entry-point override: working directory, command and
/// args, each empty when absent.  A non-string `workingDir`, a `command`
/// or `args` that is not a list, or a list element that is not a string,
/// is a malformed-field error.
pub open spec fn spec_get_entry_point(c: YamlV) -> Result<
    (Seq<char>, Seq<Seq<char>>, Seq<Seq<char>>),
    PolicyErrV,
> {
    let wd_r: Result<Seq<char>, PolicyErrV> = (match yget(c, "workingDir"@) {
        Some(w) => match w {
            YamlV::Str(wd) => Ok(wd),
            _ => Err(PolicyErrV::MalformedField("workingDir"@)),
        },
        None => Ok(Seq::empty()),
    });
    match wd_r {
        Err(e) => Err(e),
        Ok(wd) => match spec_str_list(c, "command"@) {
            Err(e) => Err(e),
            Ok(command) => match spec_str_list(c, "args"@) {
                Err(e) => Err(e),
                Ok(args) => Ok((wd, command, args)),
            },
        },
    }
}

/// The string elements of a list field, per [`spec_str_list`].
fn read_str_list(c: &Yaml, key: &str) -> (r: Result<Vec<String>, PolicyError>)
    ensures
        match spec_str_list(c.deep_view(), key@) {
            Ok(ss) => r matches Ok(v) && v.deep_view() == ss,
            Err(e) => r matches Err(pe) && pe.deep_view() == e,
        },
{
    let mut out: Vec<String> = Vec::new();
    let items: &Vec<Yaml> = match c.get(key) {
        Some(v) => match v.as_sequence() {
            Some(seq) => seq,
            None => {
                return Err(PolicyError::MalformedField(s_to_owned(key)));
            },
        },
        None => {
            proof {
                assert(out.deep_view() =~= Seq::<Seq<char>>::empty());
            }
            return Ok(out);
        },
    };
    let ghost iv = items.deep_view();
    let n = items.len();
    let mut k: usize = 0;
    proof {
        assert(iv.subrange(0, 0) =~= Seq::<YamlV>::empty());
        assert(spec_str_items(iv.subrange(0, 0)) == Some(out.deep_view()));
    }
    while k < n
        invariant
            k <= n,
            n == items.len(),
            iv == items.deep_view(),
            spec_str_list(c.deep_view(), key@) == (match spec_str_items(iv) {
                Some(ss) => Ok::<_, PolicyErrV>(ss),
                None => Err::<Seq<Seq<char>>, _>(PolicyErrV::MalformedField(key@)),
            }),
            spec_str_items(iv.subrange(0, k as int)) == Some(out.deep_view()),
        decreases n - k,
    {
        let ghost pre = out.deep_view();
        proof {
            assert(items.deep_view()[k as int] == items@[k as int].deep_view());
        }
        match items[k].as_str() {
            Some(s) => {
                out.push(s.clone());
                proof {
                    assert(out.deep_view() =~= pre.push(s@));
                    let sub1 = iv.subrange(0, k + 1 as int);
                    assert(sub1.drop_last() =~= iv.subrange(0, k as int));
                    assert(sub1.last() == iv[k as int]);
                    assert(spec_str_items(sub1) == Some(out.deep_view()));
                }
            },
            None => {
                proof {
                    let sub1 = iv.subrange(0, k + 1 as int);
                    assert(sub1.drop_last() =~= iv.subrange(0, k as int));
                    assert(sub1.last() == iv[k as int]);
                    assert(spec_str_items(sub1) is None);
                    lemma_str_items_none_prefix(iv, k + 1);
                }
                return Err(PolicyError::MalformedField(s_to_owned(key)));
            },
        }
        k = k + 1;
    }
    proof {
        assert(iv.subrange(0, n as int) =~= iv);
    }
    Ok(out)
}

impl<'input> PodYaml<'input> {
    /// The container's entry-point override: working directory, command and
    /// args, per [`spec_get_entry_point`].
    pub fn get_entry_point(container: &Yaml) -> (r: Result<
        (String, Vec<String>, Vec<String>),
        PolicyError,
    >)
        ensures
            match spec_get_entry_point(container.deep_view()) {
                Ok(t) => r matches Ok(rt) && rt.0@ == t.0 && rt.1.deep_view() == t.1
                    && rt.2.deep_view() == t.2,
                Err(e) => r matches Err(pe) && pe.deep_view() == e,
            },
    {
        let working_dir: String = match container.get("workingDir") {
            Some(w) => match w.as_str() {
                Some(s) => s.clone(),
                None => {
                    return Err(PolicyError::MalformedField(s_to_owned("workingDir")));
                },
            },
            None => String::new(),
        };
        let command = match read_str_list(container, "command") {
            Ok(v) => v,
            Err(e) => {
                return Err(e);
            },
        };
        let args = match read_str_list(container, "args") {
            Ok(v) => v,
            Err(e) => {
                return Err(e);
            },
        };
        Ok((working_dir, command, args))
    }
}

// ---------------------------------------------------------------------------
// Environment rules
// ---------------------------------------------------------------------------
/// The rule for one declared environment entry.  A literal `value` yields
/// `NAME=value`; a `valueFrom` reference yields the literal rule for the
/// value the config-map collaborator resolved for `configMapKeyRef`, a
/// loose pattern for `secretKeyRef`/`fieldRef`/`resourceFieldRef`, and an
/// error otherwise; with neither, the rule is `NAME=`.
pub open spec fn spec_env_rule(item: YamlV, maps: Seq<ConfigMapEntryV>) -> Result<
    Seq<char>,
    PolicyErrV,
> {
    match yget(item, "name"@) {
        Some(n) => match n {
            YamlV::Str(name) => match yget(item, "value"@) {
                Some(v) => match v {
                    YamlV::Str(value) => Ok(name + "="@ + value),
                    _ => Err(PolicyErrV::MalformedField("value"@)),
                },
                None => spec_value_from(item, name, maps),
            },
            _ => Err(PolicyErrV::MalformedField("name"@)),
        },
        None => Err(PolicyErrV::MalformedField("name"@)),
    }
}

/// The rule for a reference-typed environment entry, per
/// [`spec_env_rule`].
pub open spec fn spec_value_from(item: YamlV, name: Seq<char>, maps: Seq<ConfigMapEntryV>) -> Result<
    Seq<char>,
    PolicyErrV,
> {
    match yget(item, "valueFrom"@) {
        None => Ok(name + "="@),
        Some(vf) => match vf {
            YamlV::Mapping(_) => {
                if yget(vf, "configMapKeyRef"@) is Some {
                    spec_config_map_rule(yget(vf, "configMapKeyRef"@)->0, name, maps)
                } else if yget(vf, "secretKeyRef"@) is Some || yget(vf, "fieldRef"@) is Some
                    || yget(vf, "resourceFieldRef"@) is Some {
                    Ok("^"@ + name + "=."@)
                } else {
                    Err(PolicyErrV::UnsupportedReference(name))
                }
            },
            _ => Err(PolicyErrV::MalformedField("valueFrom"@)),
        },
    }
}

/// The rule a `configMapKeyRef` resolves to: the referenced map and key
/// looked up in the collaborator's snapshot, yielding the literal rule
/// `NAME=value`.
pub open spec fn spec_config_map_rule(
    cmref: YamlV,
    name: Seq<char>,
    maps: Seq<ConfigMapEntryV>,
) -> Result<Seq<char>, PolicyErrV> {
    match cmref {
        YamlV::Mapping(_) => match yget(cmref, "name"@) {
            Some(YamlV::Str(mapname)) => match yget(cmref, "key"@) {
                Some(YamlV::Str(key)) => match spec_cm_lookup(maps, mapname, key) {
                    Some(value) => Ok(name + "="@ + value),
                    None => Err(PolicyErrV::ConfigMapValueMissing(mapname, key)),
                },
                _ => Err(PolicyErrV::MalformedField("key"@)),
            },
            _ => Err(PolicyErrV::MalformedField("name"@)),
        },
        _ => Err(PolicyErrV::MalformedField("configMapKeyRef"@)),
    }
}

/// The rules for a whole list of declared environment entries, in order.
pub open spec fn spec_env_items(items: Seq<YamlV>, maps: Seq<ConfigMapEntryV>) -> Result<
    Seq<Seq<char>>,
    PolicyErrV,
>
    decreases items.len(),
{
    if items.len() == 0 {
        Ok(Seq::empty())
    } else {
        match spec_env_rule(items[0], maps) {
            Err(e) => Err(e),
            Ok(rule) => match spec_env_items(items.subrange(1, items.len() as int), maps) {
                Ok(rest) => Ok(seq![rule] + rest),
                Err(e) => Err(e),
            },
        }
    }
}

/// The container's declared environment rules.  An absent `env` yields
/// none; a non-sequence `env` is an error.
pub open spec fn spec_get_env(c: YamlV, maps: Seq<ConfigMapEntryV>) -> Result<
    Seq<Seq<char>>,
    PolicyErrV,
> {
    match yget(c, "env"@) {
        None => Ok(Seq::empty()),
        Some(e) => match e {
            YamlV::Sequence(items) => spec_env_items(items, maps),
            _ => Err(PolicyErrV::MalformedField("env"@)),
        },
    }
}

/// The rule for one declared environment entry, per [`spec_env_rule`].
fn env_rule(item: &Yaml, maps: &Vec<ConfigMapEntry>) -> (r: Result<String, PolicyError>)
    ensures
        match spec_env_rule(item.deep_view(), maps.deep_view()) {
            Ok(rule) => r matches Ok(s) && s@ == rule,
            Err(e) => r matches Err(pe) && pe.deep_view() == e,
        },
{
    let name: &String = match item.get("name") {
        Some(n) => match n.as_str() {
            Some(s) => s,
            None => {
                return Err(PolicyError::MalformedField(s_to_owned("name")));
            },
        },
        None => {
            return Err(PolicyError::MalformedField(s_to_owned("name")));
        },
    };
    match item.get("value") {
        Some(v) => match v.as_str() {
            Some(value) => {
                let mut rule = name.clone();
                rule.append("=");
                rule.append(value.as_str());
                Ok(rule)
            },
            None => Err(PolicyError::MalformedField(s_to_owned("value"))),
        },
        None => {
            // valueFrom handling
            match item.get("valueFrom") {
                None => {
                    let mut rule = name.clone();
                    rule.append("=");
                    Ok(rule)
                },
                Some(vf) => {
                    if vf.as_mapping().is_none() {
                        return Err(PolicyError::MalformedField(s_to_owned("valueFrom")));
                    }
                    match vf.get("configMapKeyRef") {
                        Some(cmref) => config_map_rule(cmref, name, maps),
                        None => {
                            if vf.contains_key("secretKeyRef") || vf.contains_key("fieldRef")
                                || vf.contains_key("resourceFieldRef") {
                                let mut rule = s_to_owned("^");
                                rule.append(name.as_str());
                                rule.append("=.");
                                Ok(rule)
                            } else {
                                Err(PolicyError::UnsupportedReference(name.clone()))
                            }
                        },
                    }
                },
            }
        },
    }
}

/// The rule a `configMapKeyRef` resolves to, per
/// [`spec_config_map_rule`].
fn config_map_rule(cmref: &Yaml, name: &String, maps: &Vec<ConfigMapEntry>) -> (r: Result<
    String,
    PolicyError,
>)
    ensures
        match spec_config_map_rule(cmref.deep_view(), name@, maps.deep_view()) {
            Ok(rule) => r matches Ok(s) && s@ == rule,
            Err(e) => r matches Err(pe) && pe.deep_view() == e,
        },
{
    if cmref.as_mapping().is_none() {
        return Err(PolicyError::MalformedField(s_to_owned("configMapKeyRef")));
    }
    let mapname: &String = match cmref.get("name") {
        Some(n) => match n.as_str() {
            Some(s) => s,
            None => {
                return Err(PolicyError::MalformedField(s_to_owned("name")));
            },
        },
        None => {
            return Err(PolicyError::MalformedField(s_to_owned("name")));
        },
    };
    let key: &String = match cmref.get("key") {
        Some(k) => match k.as_str() {
            Some(s) => s,
            None => {
                return Err(PolicyError::MalformedField(s_to_owned("key")));
            },
        },
        None => {
            return Err(PolicyError::MalformedField(s_to_owned("key")));
        },
    };
    match cm_lookup(maps, mapname, key) {
        Some(value) => {
            let mut rule = name.clone();
            rule.append("=");
            rule.append(value.as_str());
            Ok(rule)
        },
        None => Err(PolicyError::ConfigMapValueMissing(mapname.clone(), key.clone())),
    }
}

impl<'input> PodYaml<'input> {
    /// The container's declared environment rules, resolved against the
    /// collaborator's config-map snapshot, per [`spec_get_env`].
    pub fn get_env(container: &Yaml, maps: &Vec<ConfigMapEntry>) -> (r: Result<
        Vec<String>,
        PolicyError,
    >)
        ensures
            match spec_get_env(container.deep_view(), maps.deep_view()) {
                Ok(rules) => r matches Ok(v) && v.deep_view() == rules,
                Err(e) => r matches Err(pe) && pe.deep_view() == e,
            },
    {
        let mut out: Vec<String> = Vec::new();
        let items: &Vec<Yaml> = match container.get("env") {
            None => {
                proof {
                    assert(out.deep_view() =~= Seq::<Seq<char>>::empty());
                }
                return Ok(out);
            },
            Some(e) => match e.as_sequence() {
                Some(seq) => seq,
                None => {
                    return Err(PolicyError::MalformedField(s_to_owned("env")));
                },
            },
        };
        let ghost iv = items.deep_view();
        let ghost mv = maps.deep_view();
        let n = items.len();
        proof {
            assert(iv.subrange(0, iv.len() as int) =~= iv);
            match spec_env_items(iv, mv) {
                Ok(rest) => {
                    assert(out.deep_view() + rest =~= rest);
                },
                Err(_) => {
                },
            }
        }
        let mut k: usize = 0;
        while k < n
            invariant
                k <= n,
                n == items.len(),
                iv == items.deep_view(),
                mv == maps.deep_view(),
                spec_get_env(container.deep_view(), mv) == spec_env_items(iv, mv),
                match spec_env_items(iv.subrange(k as int, iv.len() as int), mv) {
                    Ok(rest) => spec_env_items(iv, mv) == Ok::<_, PolicyErrV>(
                        out.deep_view() + rest,
                    ),
                    Err(e) => spec_env_items(iv, mv) == Err::<Seq<Seq<char>>, _>(e),
                },
            decreases n - k,
        {
            let ghost suffix = iv.subrange(k as int, iv.len() as int);
            proof {
                assert(suffix[0] == iv[k as int]);
                assert(suffix.subrange(1, suffix.len() as int) =~= iv.subrange(
                    k + 1 as int,
                    iv.len() as int,
                ));
                assert(items.deep_view()[k as int] == items@[k as int].deep_view());
            }
            match env_rule(&items[k], maps) {
                Ok(rule) => {
                    let ghost pre = out.deep_view();
                    let ghost rv = rule@;
                    out.push(rule);
                    proof {
                        assert(out.deep_view() =~= pre.push(rv));
                        match spec_env_items(iv.subrange(k + 1 as int, iv.len() as int), mv) {
                            Ok(rest) => {
                                assert(pre + (seq![rv] + rest) =~= out.deep_view() + rest);
                            },
                            Err(_) => {
                            },
                        }
                    }
                },
                Err(e) => {
                    return Err(e);
                },
            }
            k = k + 1;
        }
        proof {
            assert(iv.subrange(n as int, iv.len() as int) =~= Seq::<YamlV>::empty());
            assert(out.deep_view() + Seq::<Seq<char>>::empty() =~= out.deep_view());
        }
        Ok(out)
    }
}

// ---------------------------------------------------------------------------
// Mount requests
// ---------------------------------------------------------------------------
/// One volume-mount request resolved against the declared volumes: the
/// destination comes from `mountPath`, the source and type from the named
/// volume (`local` for a bare empty-dir, else `bind`), and the options from
/// the propagation mode plus the effective read-only flag.  A volume-level
/// read-only wins and suppresses the request's own `readOnly` field.
pub open spec fn spec_mount(item: YamlV, vols: Seq<(Seq<char>, VolumeV)>) -> Result<
    MountV,
    PolicyErrV,
> {
    match yget(item, "mountPath"@) {
        Some(YamlV::Str(dest)) => {
            let prop_r: Result<Seq<char>, PolicyErrV> = (match yget(item, "mountPropagation"@) {
                None => Ok("None"@),
                Some(p) => match p {
                    YamlV::Str(ps) => Ok(ps),
                    _ => Err(PolicyErrV::MalformedField("mountPropagation"@)),
                },
            });
            match prop_r {
                Err(e) => Err(e),
                Ok(prop) => match yget(item, "name"@) {
                    Some(YamlV::Str(name)) => match spec_vol_lookup(vols, name) {
                        Some(vol) => {
                            let ro_r: Result<bool, PolicyErrV> = if vol.readonly {
                                Ok(true)
                            } else {
                                match yget(item, "readOnly"@) {
                                    None => Ok(false),
                                    Some(b) => match b {
                                        YamlV::Bool(bv) => Ok(bv),
                                        _ => Err(PolicyErrV::MalformedField("readOnly"@)),
                                    },
                                }
                            };
                            match ro_r {
                                Err(e) => Err(e),
                                Ok(ro) => {
                                    let po_r: Result<Seq<char>, PolicyErrV> = if prop == "None"@ {
                                        Ok("rprivate"@)
                                    } else if prop == "HostToContainer"@ {
                                        Ok("rslave"@)
                                    } else if prop == "Bidirectional"@ {
                                        Ok("rshared"@)
                                    } else {
                                        Err(PolicyErrV::UnsupportedPropagation(prop))
                                    };
                                    match po_r {
                                        Err(e) => Err(e),
                                        Ok(po) => Ok(
                                            MountV {
                                                destination: dest,
                                                typ: (if vol.local {
                                                    "local"@
                                                } else {
                                                    "bind"@
                                                }),
                                                source: vol.host_path,
                                                options: seq![
                                                    "rbind"@,
                                                    po,
                                                    (if ro {
                                                        "ro"@
                                                    } else {
                                                        "rw"@
                                                    }),
                                                ],
                                            },
                                        ),
                                    }
                                },
                            }
                        },
                        None => Err(PolicyErrV::UnknownVolume(name)),
                    },
                    _ => Err(PolicyErrV::MalformedField("name"@)),
                },
            }
        },
        _ => Err(PolicyErrV::MalformedField("mountPath"@)),
    }
}

/// The resolved mounts for a whole list of volume-mount requests, in
/// order.
pub open spec fn spec_mount_items(items: Seq<YamlV>, vols: Seq<(Seq<char>, VolumeV)>) -> Result<
    Seq<MountV>,
    PolicyErrV,
>
    decreases items.len(),
{
    if items.len() == 0 {
        Ok(Seq::empty())
    } else {
        match spec_mount(items[0], vols) {
            Err(e) => Err(e),
            Ok(m) => match spec_mount_items(items.subrange(1, items.len() as int), vols) {
                Ok(rest) => Ok(seq![m] + rest),
                Err(e) => Err(e),
            },
        }
    }
}

/// The container's resolved mount requests.  An absent `volumeMounts`
/// yields none; a non-sequence one is an error.
pub open spec fn spec_get_mounts(vols: Seq<(Seq<char>, VolumeV)>, c: YamlV) -> Result<
    Seq<MountV>,
    PolicyErrV,
> {
    match yget(c, "volumeMounts"@) {
        None => Ok(Seq::empty()),
        Some(vm) => match vm {
            YamlV::Sequence(items) => spec_mount_items(items, vols),
            _ => Err(PolicyErrV::MalformedField("volumeMounts"@)),
        },
    }
}

/// The last declared volume under a name, per [`spec_vol_lookup`].
fn vol_lookup<'a>(vols: &'a Vec<VolumeEntry>, name: &String) -> (r: Option<&'a Volume>)
    ensures
        match r {
            Some(v) => spec_vol_lookup(vols.deep_view(), name@) == Some(v.deep_view()),
            None => spec_vol_lookup(vols.deep_view(), name@) is None,
        },
{
    let ghost vv = vols.deep_view();
    let mut i: usize = vols.len();
    proof {
        assert(vv.subrange(0, vv.len() as int) =~= vv);
    }
    while i > 0
        invariant
            i <= vols.len(),
            vv == vols.deep_view(),
            spec_vol_lookup(vv, name@) == spec_vol_lookup(vv.subrange(0, i as int), name@),
        decreases i,
    {
        let ghost prefix = vv.subrange(0, i as int);
        proof {
            assert(prefix.last() == vv[i - 1]);
            assert(prefix.drop_last() =~= vv.subrange(0, i - 1 as int));
            assert(vols.deep_view()[i - 1] == vols@[i - 1].deep_view());
        }
        if vols[i - 1].name == *name {
            return Some(&vols[i - 1].volume);
        }
        i = i - 1;
    }
    proof {
        assert(vv.subrange(0, 0) =~= Seq::<(Seq<char>, VolumeV)>::empty());
    }
    None
}

/// One volume-mount request resolved, per [`spec_mount`].
fn parse_mount(item: &Yaml, vols: &Vec<VolumeEntry>) -> (r: Result<Mount, PolicyError>)
    ensures
        match spec_mount(item.deep_view(), vols.deep_view()) {
            Ok(m) => r matches Ok(rm) && rm.deep_view() == m,
            Err(e) => r matches Err(pe) && pe.deep_view() == e,
        },
{
    let destination: String = match item.get("mountPath") {
        Some(d) => match d.as_str() {
            Some(s) => s.clone(),
            None => {
                return Err(PolicyError::MalformedField(s_to_owned("mountPath")));
            },
        },
        None => {
            return Err(PolicyError::MalformedField(s_to_owned("mountPath")));
        },
    };
    let propagation: String = match item.get("mountPropagation") {
        Some(p) => match p.as_str() {
            Some(s) => s.clone(),
            None => {
                return Err(PolicyError::MalformedField(s_to_owned("mountPropagation")));
            },
        },
        None => s_to_owned("None"),
    };
    let name: &String = match item.get("name") {
        Some(n) => match n.as_str() {
            Some(s) => s,
            None => {
                return Err(PolicyError::MalformedField(s_to_owned("name")));
            },
        },
        None => {
            return Err(PolicyError::MalformedField(s_to_owned("name")));
        },
    };
    let volume: &Volume = match vol_lookup(vols, name) {
        Some(v) => v,
        None => {
            return Err(PolicyError::UnknownVolume(name.clone()));
        },
    };
    let read_only: bool = if volume.readonly {
        true
    } else {
        match item.get("readOnly") {
            Some(b) => match b.as_bool() {
                Some(bv) => bv,
                None => {
                    return Err(PolicyError::MalformedField(s_to_owned("readOnly")));
                },
            },
            None => false,
        }
    };
    let prop_option: String = if str_eq(propagation.as_str(), "None") {
        s_to_owned("rprivate")
    } else if str_eq(propagation.as_str(), "HostToContainer") {
        s_to_owned("rslave")
    } else if str_eq(propagation.as_str(), "Bidirectional") {
        s_to_owned("rshared")
    } else {
        return Err(PolicyError::UnsupportedPropagation(propagation));
    };
    let typ: String = if volume.local {
        s_to_owned("local")
    } else {
        s_to_owned("bind")
    };
    let options: Vec<String> = vec![
        s_to_owned("rbind"),
        prop_option,
        if read_only {
            s_to_owned("ro")
        } else {
            s_to_owned("rw")
        },
    ];
    let m = Mount { destination, typ, source: volume.host_path.clone(), options };
    proof {
        assert(m.deep_view() =~~= spec_mount(item.deep_view(), vols.deep_view())->Ok_0);
    }
    Ok(m)
}

impl<'input> PodYaml<'input> {
    /// The container's resolved mount requests against this manifest's
    /// volumes, per [`spec_get_mounts`].
    pub fn get_mounts(&self, container: &Yaml) -> (r: Result<Vec<Mount>, PolicyError>)
        ensures
            match spec_get_mounts(self.deep_view().volumes, container.deep_view()) {
                Ok(ms) => r matches Ok(v) && v.deep_view() == ms,
                Err(e) => r matches Err(pe) && pe.deep_view() == e,
            },
    {
        let mut out: Vec<Mount> = Vec::new();
        let items: &Vec<Yaml> = match container.get("volumeMounts") {
            None => {
                proof {
                    assert(out.deep_view() =~= Seq::<MountV>::empty());
                }
                return Ok(out);
            },
            Some(vm) => match vm.as_sequence() {
                Some(seq) => seq,
                None => {
                    return Err(PolicyError::MalformedField(s_to_owned("volumeMounts")));
                },
            },
        };
        let ghost iv = items.deep_view();
        let ghost vv = self.volumes.deep_view();
        let n = items.len();
        proof {
            assert(iv.subrange(0, iv.len() as int) =~= iv);
            match spec_mount_items(iv, vv) {
                Ok(rest) => {
                    assert(out.deep_view() + rest =~= rest);
                },
                Err(_) => {
                },
            }
        }
        let mut k: usize = 0;
        while k < n
            invariant
                k <= n,
                n == items.len(),
                iv == items.deep_view(),
                vv == self.volumes.deep_view(),
                spec_get_mounts(self.deep_view().volumes, container.deep_view())
                    == spec_mount_items(iv, vv),
                match spec_mount_items(iv.subrange(k as int, iv.len() as int), vv) {
                    Ok(rest) => spec_mount_items(iv, vv) == Ok::<_, PolicyErrV>(
                        out.deep_view() + rest,
                    ),
                    Err(e) => spec_mount_items(iv, vv) == Err::<Seq<MountV>, _>(e),
                },
            decreases n - k,
        {
            let ghost suffix = iv.subrange(k as int, iv.len() as int);
            proof {
                assert(suffix[0] == iv[k as int]);
                assert(suffix.subrange(1, suffix.len() as int) =~= iv.subrange(
                    k + 1 as int,
                    iv.len() as int,
                ));
                assert(items.deep_view()[k as int] == items@[k as int].deep_view());
            }
            match parse_mount(&items[k], &self.volumes) {
                Ok(m) => {
                    let ghost pre = out.deep_view();
                    let ghost mdv = m.deep_view();
                    out.push(m);
                    proof {
                        assert(out.deep_view() =~= pre.push(mdv));
                        match spec_mount_items(iv.subrange(k + 1 as int, iv.len() as int), vv) {
                            Ok(rest) => {
                                assert(pre + (seq![mdv] + rest) =~= out.deep_view() + rest);
                            },
                            Err(_) => {
                            },
                        }
                    }
                },
                Err(e) => {
                    return Err(e);
                },
            }
            k = k + 1;
        }
        proof {
            assert(iv.subrange(n as int, iv.len() as int) =~= Seq::<YamlV>::empty());
            assert(out.deep_view() + Seq::<MountV>::empty() =~= out.deep_view());
        }
        Ok(out)
    }
}

// ---------------------------------------------------------------------------
// Config-map references
// ---------------------------------------------------------------------------
/// The config-map reference one environment entry makes, when it is well
/// formed enough to name a map and a key.
pub open spec fn spec_cm_ref(item: YamlV) -> Option<(Seq<char>, Seq<char>)> {
    match yget(item, "valueFrom"@) {
        Some(vf) => match yget(vf, "configMapKeyRef"@) {
            Some(r) => match yget(r, "name"@) {
                Some(YamlV::Str(n)) => match yget(r, "key"@) {
                    Some(YamlV::Str(k)) => Some((n, k)),
                    _ => None,
                },
                _ => None,
            },
            None => None,
        },
        None => None,
    }
}

/// The config-map references of an environment list, in order.
pub open spec fn spec_cm_refs_of_env(items: Seq<YamlV>) -> Seq<(Seq<char>, Seq<char>)>
    decreases items.len(),
{
    if items.len() == 0 {
        Seq::empty()
    } else {
        let p = spec_cm_refs_of_env(items.drop_last());
        match spec_cm_ref(items.last()) {
            Some(nk) => p.push(nk),
            None => p,
        }
    }
}

/// The config-map references a container's environment makes.
pub open spec fn spec_cm_refs_of_container(c: YamlV) -> Seq<(Seq<char>, Seq<char>)> {
    match yget(c, "env"@) {
        Some(e) => match e {
            YamlV::Sequence(items) => spec_cm_refs_of_env(items),
            _ => Seq::empty(),
        },
        None => Seq::empty(),
    }
}

/// The config-map references a list of containers makes, in order.
pub open spec fn spec_cm_refs(cs: Seq<YamlV>) -> Seq<(Seq<char>, Seq<char>)>
    decreases cs.len(),
{
    if cs.len() == 0 {
        Seq::empty()
    } else {
        spec_cm_refs(cs.drop_last()) + spec_cm_refs_of_container(cs.last())
    }
}

/// The config-map reference of one environment entry, per [`spec_cm_ref`].
fn cm_ref_of_item(item: &Yaml) -> (r: Option<(String, String)>)
    ensures
        match r {
            Some(nk) => spec_cm_ref(item.deep_view()) == Some((nk.0@, nk.1@)),
            None => spec_cm_ref(item.deep_view()) is None,
        },
{
    match item.get("valueFrom") {
        Some(vf) => match vf.get("configMapKeyRef") {
            Some(cmref) => match cmref.get("name") {
                Some(n) => match n.as_str() {
                    Some(ns) => match cmref.get("key") {
                        Some(k) => match k.as_str() {
                            Some(ks) => Some((ns.clone(), ks.clone())),
                            None => None,
                        },
                        None => None,
                    },
                    None => None,
                },
                None => None,
            },
            None => None,
        },
        None => None,
    }
}

/// Every config-map name and key the containers' environments reference,
/// in order, so the caller can fetch their values before compilation.
pub fn config_map_refs(containers: &Vec<Yaml>) -> (r: Vec<(String, String)>)
    ensures
        r.deep_view() == spec_cm_refs(containers.deep_view()),
{
    let cv = containers;
    let ghost cs = containers.deep_view();
    let n = cv.len();
    let mut out: Vec<(String, String)> = Vec::new();
    proof {
        assert(cs.subrange(0, 0) =~= Seq::<YamlV>::empty());
        assert(out.deep_view() =~= spec_cm_refs(cs.subrange(0, 0)));
    }
    let mut k: usize = 0;
    while k < n
        invariant
            k <= n,
            n == cv.len(),
            cs == cv.deep_view(),
            out.deep_view() == spec_cm_refs(cs.subrange(0, k as int)),
        decreases n - k,
    {
        proof {
            assert(cv.deep_view()[k as int] == cv@[k as int].deep_view());
        }
        let container = &cv[k];
        let ghost pre = out.deep_view();
        match container.get("env") {
            Some(e) => match e.as_sequence() {
                Some(items) => {
                    let ghost iv = items.deep_view();
                    let m = items.len();
                    let mut j: usize = 0;
                    proof {
                        assert(iv.subrange(0, 0) =~= Seq::<YamlV>::empty());
                        assert(out.deep_view() =~= pre + spec_cm_refs_of_env(iv.subrange(0, 0)));
                    }
                    while j < m
                        invariant
                            j <= m,
                            m == items.len(),
                            iv == items.deep_view(),
                            out.deep_view() == pre + spec_cm_refs_of_env(iv.subrange(0, j as int)),
                        decreases m - j,
                    {
                        proof {
                            assert(items.deep_view()[j as int] == items@[j as int].deep_view());
                        }
                        let ghost pre2 = out.deep_view();
                        match cm_ref_of_item(&items[j]) {
                            Some(nk) => {
                                let ghost nkv = (nk.0@, nk.1@);
                                out.push(nk);
                                proof {
                                    assert(out.deep_view() =~= pre2.push(nkv));
                                }
                            },
                            None => {
                            },
                        }
                        proof {
                            let sub1 = iv.subrange(0, j + 1 as int);
                            assert(sub1.drop_last() =~= iv.subrange(0, j as int));
                            assert(sub1.last() == iv[j as int]);
                            assert(out.deep_view() =~= pre + spec_cm_refs_of_env(sub1));
                        }
                        j = j + 1;
                    }
                    proof {
                        assert(iv.subrange(0, m as int) =~= iv);
                    }
                },
                None => {
                },
            },
            None => {
            },
        }
        proof {
            let sub1 = cs.subrange(0, k + 1 as int);
            assert(sub1.drop_last() =~= cs.subrange(0, k as int));
            assert(sub1.last() == cs[k as int]);
            assert(out.deep_view() =~= spec_cm_refs(sub1));
        }
        k = k + 1;
    }
    proof {
        assert(cs.subrange(0, n as int) =~= cs);
    }
    out
}

// ---------------------------------------------------------------------------
// Policy injection
// ---------------------------------------------------------------------------
/// First position whose key is the given string, or -1.
pub open spec fn map_key_index_v(es: Seq<(YamlV, YamlV)>, key: Seq<char>) -> int
    decreases es.len(),
{
    if es.len() == 0 {
        -1
    } else if es[0].0 == YamlV::Str(key) {
        0
    } else {
        let r = map_key_index_v(es.subrange(1, es.len() as int), key);
        if r < 0 {
            -1
        } else {
            r + 1
        }
    }
}

/// What [`map_key_index_v`] returns: the first position with that key, or
/// -1 when the key is absent.
pub proof fn lemma_map_key_index_v(es: Seq<(YamlV, YamlV)>, key: Seq<char>)
    ensures
        map_key_index_v(es, key) >= 0 ==> 0 <= map_key_index_v(es, key) < es.len()
            && es[map_key_index_v(es, key)].0 == YamlV::Str(key) && (forall|j: int|
            0 <= j < map_key_index_v(es, key) ==> es[j].0 != YamlV::Str(key)),
        map_key_index_v(es, key) < 0 ==> (forall|j: int|
            0 <= j < es.len() ==> es[j].0 != YamlV::Str(key)),
    decreases es.len(),
{
    if es.len() > 0 {
        let rest = es.subrange(1, es.len() as int);
        lemma_map_key_index_v(rest, key);
        assert forall|j: int| 1 <= j < es.len() implies es[j] == rest[j - 1] by {}
    }
}

/// A mapping with the value under a string key replaced in place, or the
/// pair appended when the key is absent.
pub open spec fn map_set_v(es: Seq<(YamlV, YamlV)>, key: Seq<char>, val: YamlV) -> Seq<
    (YamlV, YamlV),
> {
    let i = map_key_index_v(es, key);
    if i >= 0 {
        es.update(i, (es[i].0, val))
    } else {
        es.push((YamlV::Str(key), val))
    }
}

/// A template mapping with the policy annotation injected: `metadata` and
/// `annotations` mappings are created when absent, and the policy key's
/// value is overwritten or appended.  A non-mapping `metadata` or
/// `annotations` is an error.
pub open spec fn spec_patch_template(es: Seq<(YamlV, YamlV)>, b64: Seq<char>) -> Result<
    Seq<(YamlV, YamlV)>,
    PolicyErrV,
> {
    let es1 = if map_key_index_v(es, "metadata"@) < 0 {
        es.push((YamlV::Str("metadata"@), YamlV::Mapping(Seq::empty())))
    } else {
        es
    };
    let i = map_key_index_v(es1, "metadata"@);
    match es1[i].1 {
        YamlV::Mapping(mes) => {
            let mes1 = if map_key_index_v(mes, "annotations"@) < 0 {
                mes.push((YamlV::Str("annotations"@), YamlV::Mapping(Seq::empty())))
            } else {
                mes
            };
            let j = map_key_index_v(mes1, "annotations"@);
            match mes1[j].1 {
                YamlV::Mapping(aes) => Ok(
                    es1.update(
                        i,
                        (
                            es1[i].0,
                            YamlV::Mapping(
                                mes1.update(
                                    j,
                                    (
                                        mes1[j].0,
                                        YamlV::Mapping(
                                            map_set_v(
                                                aes,
                                                "io.katacontainers.cc_policy"@,
                                                YamlV::Str(b64),
                                            ),
                                        ),
                                    ),
                                ),
                            ),
                        ),
                    ),
                ),
                _ => Err(PolicyErrV::MalformedField("annotations"@)),
            }
        },
        _ => Err(PolicyErrV::MalformedField("metadata"@)),
    }
}

/// A manifest tree with the policy annotation injected into its pod
/// template: at the root for a Pod, under `spec.template` for the
/// templated kinds; any other kind, or a non-mapping template, is an
/// error.
pub open spec fn spec_patch_yaml(root: YamlV, kind: Seq<char>, b64: Seq<char>) -> Result<
    YamlV,
    PolicyErrV,
> {
    if kind == "Pod"@ {
        match root {
            YamlV::Mapping(es) => match spec_patch_template(es, b64) {
                Ok(es2) => Ok(YamlV::Mapping(es2)),
                Err(e) => Err(e),
            },
            _ => Err(PolicyErrV::MalformedField("template"@)),
        }
    } else if spec_is_templated_kind(kind) {
        match root {
            YamlV::Mapping(res) => {
                let i = map_key_index_v(res, "spec"@);
                if i >= 0 {
                    match res[i].1 {
                        YamlV::Mapping(ses) => {
                            let j = map_key_index_v(ses, "template"@);
                            if j >= 0 {
                                match ses[j].1 {
                                    YamlV::Mapping(tes) => match spec_patch_template(tes, b64) {
                                        Ok(tes2) => Ok(
                                            YamlV::Mapping(
                                                res.update(
                                                    i,
                                                    (
                                                        res[i].0,
                                                        YamlV::Mapping(
                                                            ses.update(
                                                                j,
                                                                (ses[j].0, YamlV::Mapping(tes2)),
                                                            ),
                                                        ),
                                                    ),
                                                ),
                                            ),
                                        ),
                                        Err(e) => Err(e),
                                    },
                                    _ => Err(PolicyErrV::MalformedField("template"@)),
                                }
                            } else {
                                Err(PolicyErrV::MalformedField("template"@))
                            }
                        },
                        _ => Err(PolicyErrV::MalformedField("template"@)),
                    }
                } else {
                    Err(PolicyErrV::MalformedField("template"@))
                }
            },
            _ => Err(PolicyErrV::MalformedField("template"@)),
        }
    } else {
        Err(PolicyErrV::UnsupportedKind(kind))
    }
}

/// First position whose key is the given string.
fn map_key_find(es: &Vec<(Yaml, Yaml)>, key: &str) -> (r: Option<usize>)
    ensures
        match r {
            Some(i) => map_key_index_v(es.deep_view(), key@) == i as int,
            None => map_key_index_v(es.deep_view(), key@) < 0,
        },
{
    let ghost ev = es.deep_view();
    let ghost mi = map_key_index_v(ev, key@);
    proof {
        lemma_map_key_index_v(ev, key@);
    }
    let n = es.len();
    let mut i: usize = 0;
    while i < n
        invariant
            i <= n,
            n == es.len(),
            ev == es.deep_view(),
            mi == map_key_index_v(ev, key@),
            forall|j: int| 0 <= j < i ==> ev[j].0 != YamlV::Str(key@),
            mi >= 0 ==> 0 <= mi < n && ev[mi].0 == YamlV::Str(key@) && (forall|j: int|
                0 <= j < mi ==> ev[j].0 != YamlV::Str(key@)),
            mi < 0 ==> (forall|j: int| 0 <= j < n ==> ev[j].0 != YamlV::Str(key@)),
        decreases n - i,
    {
        let hit = match &es[i].0 {
            Yaml::Str(s) => str_eq(s.as_str(), key),
            _ => false,
        };
        proof {
            assert(ev[i as int] == (es@[i as int].0.deep_view(), es@[i as int].1.deep_view()));
            assert(hit == (ev[i as int].0 == YamlV::Str(key@)));
        }
        if hit {
            return Some(i);
        }
        i = i + 1;
    }
    None
}

/// The position of a key, inserting a fresh empty mapping under it at the
/// end when absent.
fn map_key_ensure(es: &mut Vec<(Yaml, Yaml)>, key: &str) -> (r: usize)
    ensures
        final(es).deep_view() == (if map_key_index_v(old(es).deep_view(), key@) < 0 {
            old(es).deep_view().push((YamlV::Str(key@), YamlV::Mapping(Seq::empty())))
        } else {
            old(es).deep_view()
        }),
        map_key_index_v(final(es).deep_view(), key@) == r as int,
        r < final(es).len(),
        final(es).len() >= old(es).len(),
{
    let ghost ev = es.deep_view();
    proof {
        lemma_map_key_index_v(ev, key@);
    }
    match map_key_find(es, key) {
        Some(i) => i,
        None => {
            let n = es.len();
            let fresh: Vec<(Yaml, Yaml)> = Vec::new();
            proof {
                crate::yaml::lemma_yaml_map_view(&fresh);
            }
            es.push((Yaml::Str(s_to_owned(key)), Yaml::Mapping(fresh)));
            proof {
                assert(es.deep_view() =~= ev.push((YamlV::Str(key@), YamlV::Mapping(Seq::empty()))));
                lemma_map_key_index_v(es.deep_view(), key@);
                let mi2 = map_key_index_v(es.deep_view(), key@);
                assert(es.deep_view()[n as int].0 == YamlV::Str(key@));
                if mi2 < 0 {
                    assert(false);
                }
                if mi2 < n as int {
                    assert(ev[mi2].0 == YamlV::Str(key@));
                    assert(false);
                }
                assert(mi2 == n as int);
            }
            n
        },
    }
}

/// The annotation mapping with the policy value set, per [`map_set_v`].
fn map_set(es: &mut Vec<(Yaml, Yaml)>, key: &str, val: Yaml)
    ensures
        final(es).deep_view() == map_set_v(old(es).deep_view(), key@, val.deep_view()),
{
    let ghost ev = es.deep_view();
    let ghost vv = val.deep_view();
    proof {
        lemma_map_key_index_v(ev, key@);
    }
    match map_key_find(es, key) {
        Some(i) => {
            let ghost before = es@;
            let (k0, _old) = es.remove(i);
            es.insert(i, (k0, val));
            proof {
                assert(es@ == before.remove(i as int).insert(i as int, (before[i as int].0, val)));
                assert forall|j: int| 0 <= j < es.deep_view().len() implies es.deep_view()[j]
                    == map_set_v(ev, key@, vv)[j] by {
                    assert(es.deep_view()[j] == es@[j].deep_view());
                    if j < i as int {
                        assert(es@[j] == before[j]);
                    } else if j == i as int {
                        assert(es@[j] == (before[i as int].0, val));
                    } else {
                        assert(es@[j] == before[j]);
                    }
                }
                assert(es.deep_view() =~= map_set_v(ev, key@, vv));
            }
        },
        None => {
            es.push((Yaml::Str(s_to_owned(key)), val));
            proof {
                assert(es.deep_view() =~= ev.push((YamlV::Str(key@), vv)));
            }
        },
    }
}

/// A template mapping with the policy annotation injected, per
/// [`spec_patch_template`].
fn patch_template(es: Vec<(Yaml, Yaml)>, b64: &String) -> (r: Result<
    Vec<(Yaml, Yaml)>,
    PolicyError,
>)
    ensures
        match spec_patch_template(es.deep_view(), b64@) {
            Ok(es2) => r matches Ok(v) && v.deep_view() == es2,
            Err(e) => r matches Err(pe) && pe.deep_view() == e,
        },
{
    let ghost ev = es.deep_view();
    let mut es = es;
    let i = map_key_ensure(&mut es, "metadata");
    let ghost es1 = es.deep_view();
    let ghost before_meta = es@;
    let (mk, mv) = es.remove(i);
    let mes: Vec<(Yaml, Yaml)> = match mv {
        Yaml::Mapping(m) => m,
        _ => {
            return Err(PolicyError::MalformedField(s_to_owned("metadata")));
        },
    };
    proof {
        crate::yaml::lemma_yaml_map_view(&mes);
        assert(es1[i as int].1 == YamlV::Mapping(mes.deep_view()));
    }
    let mut mes = mes;
    let j = map_key_ensure(&mut mes, "annotations");
    let ghost mes1 = mes.deep_view();
    let ghost before_ann = mes@;
    let (ak, av) = mes.remove(j);
    let aes: Vec<(Yaml, Yaml)> = match av {
        Yaml::Mapping(a) => a,
        _ => {
            return Err(PolicyError::MalformedField(s_to_owned("annotations")));
        },
    };
    proof {
        crate::yaml::lemma_yaml_map_view(&aes);
        assert(mes1[j as int].1 == YamlV::Mapping(aes.deep_view()));
    }
    let mut aes = aes;
    let ghost aev = aes.deep_view();
    map_set(&mut aes, "io.katacontainers.cc_policy", Yaml::Str(b64.clone()));
    proof {
        crate::yaml::lemma_yaml_map_view(&aes);
    }
    let ghost newpair_v = (
        mes1[j as int].0,
        YamlV::Mapping(map_set_v(aev, "io.katacontainers.cc_policy"@, YamlV::Str(b64@))),
    );
    mes.insert(j, (ak, Yaml::Mapping(aes)));
    proof {
        let removed = before_ann.remove(j as int);
        before_ann.remove_ensures(j as int);
        assert(mes@[j as int].deep_view() == newpair_v);
        assert forall|t: int| 0 <= t < mes.deep_view().len() implies mes.deep_view()[t]
            == mes1.update(j as int, newpair_v)[t] by {
            assert(mes.deep_view()[t] == mes@[t].deep_view());
            if t < j as int {
                assert(mes@[t] == removed[t]);
                assert(removed[t] == before_ann[t]);
                assert(mes1[t] == before_ann[t].deep_view());
            } else if t > j as int {
                assert(mes@[t] == removed[t - 1]);
                assert(removed[t - 1] == before_ann[t]);
                assert(mes1[t] == before_ann[t].deep_view());
            }
        }
        assert(mes.deep_view() =~= mes1.update(j as int, newpair_v));
    }
    proof {
        crate::yaml::lemma_yaml_map_view(&mes);
    }
    es.insert(i, (mk, Yaml::Mapping(mes)));
    proof {
        let removed = before_meta.remove(i as int);
        before_meta.remove_ensures(i as int);
        assert forall|t: int| 0 <= t < es.deep_view().len() implies es.deep_view()[t]
            == spec_patch_template(ev, b64@)->Ok_0[t] by {
            assert(es.deep_view()[t] == es@[t].deep_view());
            if t < i as int {
                assert(es@[t] == removed[t]);
                assert(removed[t] == before_meta[t]);
                assert(es1[t] == before_meta[t].deep_view());
            } else if t > i as int {
                assert(es@[t] == removed[t - 1]);
                assert(removed[t - 1] == before_meta[t]);
                assert(es1[t] == before_meta[t].deep_view());
            }
        }
        assert(es.deep_view() =~= spec_patch_template(ev, b64@)->Ok_0);
    }
    Ok(es)
}

/// A manifest tree with the compiled policy injected into its template's
/// `metadata.annotations`, per [`spec_patch_yaml`].
pub fn patch_yaml(yaml: Yaml, kind: &String, policy_base64: &String) -> (r: Result<
    Yaml,
    PolicyError,
>)
    ensures
        match spec_patch_yaml(yaml.deep_view(), kind@, policy_base64@) {
            Ok(y) => r matches Ok(ry) && ry.deep_view() == y,
            Err(e) => r matches Err(pe) && pe.deep_view() == e,
        },
{
    let is_pod = str_eq(kind.as_str(), "Pod");
    let is_templated = str_eq(kind.as_str(), "Job") || str_eq(kind.as_str(), "Deployment")
        || str_eq(kind.as_str(), "ReplicationController");
    if is_pod {
        match yaml {
            Yaml::Mapping(es) => {
                proof {
                    crate::yaml::lemma_yaml_map_view(&es);
                }
                match patch_template(es, policy_base64) {
                    Ok(es2) => {
                        let r = Yaml::Mapping(es2);
                        proof {
                            crate::yaml::lemma_yaml_map_view(&r->Mapping_0);
                        }
                        Ok(r)
                    },
                    Err(e) => Err(e),
                }
            },
            _ => Err(PolicyError::MalformedField(s_to_owned("template"))),
        }
    } else if is_templated {
        match yaml {
            Yaml::Mapping(res) => {
                proof {
                    crate::yaml::lemma_yaml_map_view(&res);
                }
                let ghost rv = res.deep_view();
                let i = match map_key_find(&res, "spec") {
                    Some(i) => i,
                    None => {
                        return Err(PolicyError::MalformedField(s_to_owned("template")));
                    },
                };
                proof {
                    lemma_map_key_index_v(rv, "spec"@);
                }
                let ghost before_spec = res@;
                let mut res = res;
                let (sk, sv) = res.remove(i);
                let ses: Vec<(Yaml, Yaml)> = match sv {
                    Yaml::Mapping(m) => m,
                    _ => {
                        return Err(PolicyError::MalformedField(s_to_owned("template")));
                    },
                };
                proof {
                    crate::yaml::lemma_yaml_map_view(&ses);
                    assert(rv[i as int].1 == YamlV::Mapping(ses.deep_view()));
                }
                let ghost sesv = ses.deep_view();
                let j = match map_key_find(&ses, "template") {
                    Some(j) => j,
                    None => {
                        return Err(PolicyError::MalformedField(s_to_owned("template")));
                    },
                };
                proof {
                    lemma_map_key_index_v(sesv, "template"@);
                }
                let ghost before_tmpl = ses@;
                let mut ses = ses;
                let (tk, tv) = ses.remove(j);
                let tes: Vec<(Yaml, Yaml)> = match tv {
                    Yaml::Mapping(m) => m,
                    _ => {
                        return Err(PolicyError::MalformedField(s_to_owned("template")));
                    },
                };
                proof {
                    crate::yaml::lemma_yaml_map_view(&tes);
                    assert(sesv[j as int].1 == YamlV::Mapping(tes.deep_view()));
                }
                let ghost tesv = tes.deep_view();
                match patch_template(tes, policy_base64) {
                    Ok(tes2) => {
                        proof {
                            crate::yaml::lemma_yaml_map_view(&tes2);
                        }
                        ses.insert(j, (tk, Yaml::Mapping(tes2)));
                        proof {
                            let removed = before_tmpl.remove(j as int);
                            before_tmpl.remove_ensures(j as int);
                            assert forall|t: int| 0 <= t < ses.deep_view().len() implies
                                ses.deep_view()[t] == sesv.update(
                                j as int,
                                (
                                    sesv[j as int].0,
                                    YamlV::Mapping(spec_patch_template(tesv, policy_base64@)->Ok_0),
                                ),
                            )[t] by {
                                assert(ses.deep_view()[t] == ses@[t].deep_view());
                                if t < j as int {
                                    assert(ses@[t] == removed[t]);
                                    assert(removed[t] == before_tmpl[t]);
                                    assert(sesv[t] == before_tmpl[t].deep_view());
                                } else if t > j as int {
                                    assert(ses@[t] == removed[t - 1]);
                                    assert(removed[t - 1] == before_tmpl[t]);
                                    assert(sesv[t] == before_tmpl[t].deep_view());
                                }
                            }
                            assert(ses.deep_view() =~= sesv.update(
                                j as int,
                                (
                                    sesv[j as int].0,
                                    YamlV::Mapping(spec_patch_template(tesv, policy_base64@)->Ok_0),
                                ),
                            ));
                        }
                        proof {
                            crate::yaml::lemma_yaml_map_view(&ses);
                        }
                        let ghost ses_v_final = ses.deep_view();
                        res.insert(i, (sk, Yaml::Mapping(ses)));
                        let ghost target = spec_patch_yaml(
                            yaml.deep_view(),
                            kind@,
                            policy_base64@,
                        )->Ok_0;
                        proof {
                            crate::yaml::lemma_yaml_map_view(&res);
                            let removed = before_spec.remove(i as int);
                            before_spec.remove_ensures(i as int);
                            assert(res@[i as int].deep_view() == (rv[i as int].0, YamlV::Mapping(
                                ses_v_final,
                            )));
                            assert forall|t: int| 0 <= t < res.deep_view().len() implies
                                res.deep_view()[t] == target->Mapping_0[t] by {
                                assert(res.deep_view()[t] == res@[t].deep_view());
                                if t < i as int {
                                    assert(res@[t] == removed[t]);
                                    assert(removed[t] == before_spec[t]);
                                    assert(rv[t] == before_spec[t].deep_view());
                                } else if t > i as int {
                                    assert(res@[t] == removed[t - 1]);
                                    assert(removed[t - 1] == before_spec[t]);
                                    assert(rv[t] == before_spec[t].deep_view());
                                }
                            }
                            assert(res.deep_view() =~= target->Mapping_0);
                        }
                        Ok(Yaml::Mapping(res))
                    },
                    Err(e) => Err(e),
                }
            },
            _ => Err(PolicyError::MalformedField(s_to_owned("template"))),
        }
    } else {
        Err(PolicyError::UnsupportedKind(kind.clone()))
    }
}

} // verus!
