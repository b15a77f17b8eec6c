//! The container policy builder and the policy document assembler: one
//! allow-spec per container, built by the three merges over the four rule
//! sources, collected into a versioned document keyed by container name.
//!
//! The external collaborators' answers — image configurations and
//! config-map values — are handed in as snapshots; compilation itself is a
//! pure function of the manifest and those snapshots.

use vstd::prelude::*;
use crate::cri;
use crate::cri::{
    rules_v, merge_args_v, merge_cwd_v, merge_env_v, merge_mounts_v, image_volume_mounts_v,
    merge_process_args, merge_process_cwd, merge_process_env, merge_mounts,
    get_image_volume_mounts, lemma_default_env_has_eq,
};
use crate::errors::{PolicyError, PolicyErrV};
use crate::image;
use crate::image::{ImageConfig, ImageConfigV, ImageEntry, ImageEntryV, image_env_v, spec_image_lookup, image_lookup};
use crate::kubernetes;
use crate::kubernetes::kube_rules_v;
use crate::oci::{empty_process, empty_process_v, empty_spec, empty_spec_v, Mount, MountV, Process, ProcessV, Spec, SpecV};
use crate::pod_yaml::{
    ConfigMapEntry, ConfigMapEntryV, PodYaml, PodYamlV, spec_get_entry_point, spec_get_env,
    spec_get_mounts, spec_get_name, spec_get_security_context, spec_get_debugging, spec_str_list,
};
use crate::strutil::{copy_strings, env_has_eq, find_char, s_to_owned};
use crate::yaml::{Yaml, YamlV, yget};

verus! {

/// Auxiliary per-container metadata reserved for future content-addressed
/// constraints; `layers` is currently always empty.
#[derive(Debug)]
pub struct Custom {
    pub layers: Vec<String>,
}

/// Mathematical model of a [`Custom`].
#[verifier::ext_equal]
pub ghost struct CustomV {
    pub layers: Seq<Seq<char>>,
}

impl DeepView for Custom {
    type V = CustomV;

    open spec fn deep_view(&self) -> CustomV {
        CustomV { layers: self.layers.deep_view() }
    }
}

/// One container's finished policy: its allow-spec and the auxiliary
/// metadata.
#[derive(Debug)]
pub struct ContainerPolicy {
    pub oci_spec: Spec,
    pub custom: Option<Custom>,
}

/// Mathematical model of a [`ContainerPolicy`].
#[verifier::ext_equal]
pub ghost struct ContainerPolicyV {
    pub oci_spec: SpecV,
    pub custom: Option<CustomV>,
}

impl DeepView for ContainerPolicy {
    type V = ContainerPolicyV;

    open spec fn deep_view(&self) -> ContainerPolicyV {
        ContainerPolicyV {
            oci_spec: self.oci_spec.deep_view(),
            custom: (match self.custom {
                Some(ref c) => Some(c.deep_view()),
                None => None,
            }),
        }
    }
}

/// One entry of the document's container mapping.
#[derive(Debug)]
pub struct NamedPolicy {
    pub name: String,
    pub policy: ContainerPolicy,
}

/// Mathematical model of a [`NamedPolicy`].
#[verifier::ext_equal]
pub ghost struct NamedPolicyV {
    pub name: Seq<char>,
    pub policy: ContainerPolicyV,
}

impl DeepView for NamedPolicy {
    type V = NamedPolicyV;

    open spec fn deep_view(&self) -> NamedPolicyV {
        NamedPolicyV { name: self.name@, policy: self.policy.deep_view() }
    }
}

/// The finished policy document: a fixed version string and the policies
/// keyed by container name, in first-insertion order with unique names.
#[derive(Debug)]
pub struct CcPolicy {
    pub version: String,
    pub containers: Vec<NamedPolicy>,
}

/// Mathematical model of a [`CcPolicy`].
#[verifier::ext_equal]
pub ghost struct CcPolicyV {
    pub version: Seq<char>,
    pub containers: Seq<NamedPolicyV>,
}

impl DeepView for CcPolicy {
    type V = CcPolicyV;

    open spec fn deep_view(&self) -> CcPolicyV {
        CcPolicyV { version: self.version@, containers: self.containers.deep_view() }
    }
}

// ---------------------------------------------------------------------------
// The per-container merges, as one specification each
// ---------------------------------------------------------------------------
/// The environment list a starting allow-spec carries, empty when it has
/// none yet.
pub open spec fn spec_env_of(s: SpecV) -> Seq<Seq<char>> {
    match s.process {
        Some(p) => match p.env {
            Some(e) => e,
            None => Seq::empty(),
        },
        None => Seq::empty(),
    }
}

/// The merged environment of one container: the starting spec's rules,
/// then the orchestrator's, the image's, and the container's own, each
/// batch merged in with the three-phase algorithm so that later sources
/// override earlier ones by name.
pub open spec fn spec_policy_env(
    spec0: SpecV,
    c: YamlV,
    image: ImageConfigV,
    kube: SpecV,
    maps: Seq<ConfigMapEntryV>,
) -> Result<Seq<Seq<char>>, PolicyErrV> {
    let r1 = merge_env_v(spec_env_of(spec0), spec_env_of(kube));
    let r2 = merge_env_v(r1, image_env_v(image));
    match spec_get_env(c, maps) {
        Ok(yaml_envs) => Ok(merge_env_v(r2, yaml_envs)),
        Err(e) => Err(e),
    }
}

/// The merged process of one container: the argument vector via the
/// args/cmd merge, the working directory overriding only when non-empty,
/// and the merged environment.
pub open spec fn spec_policy_process(
    spec0: SpecV,
    c: YamlV,
    image: ImageConfigV,
    kube: SpecV,
    maps: Seq<ConfigMapEntryV>,
) -> Result<ProcessV, PolicyErrV> {
    match spec_get_entry_point(c) {
        Err(e) => Err(e),
        Ok(ep) => match merge_args_v(ep.1, ep.2, image) {
            Err(e) => Err(e),
            Ok(args) => {
                let p0 = (match spec0.process {
                    Some(p) => p,
                    None => empty_process_v(),
                });
                let cwd = merge_cwd_v(ep.0, image);
                let new_cwd = if cwd.len() > 0 {
                    cwd
                } else {
                    p0.cwd
                };
                match spec_policy_env(spec0, c, image, kube, maps) {
                    Err(e) => Err(e),
                    Ok(env) => Ok(
                        ProcessV { user: p0.user, args: Some(args), env: Some(env), cwd: new_cwd },
                    ),
                }
            },
        },
    }
}

/// The merged mounts of one container, by the four-layer precedence:
/// pod-declared beats orchestrator-injected beats image-declared beats
/// runtime defaults.
pub open spec fn spec_policy_mounts(
    spec0: SpecV,
    pod: Option<PodYamlV>,
    c: YamlV,
    image: ImageConfigV,
    kube: SpecV,
) -> Result<Seq<MountV>, PolicyErrV> {
    let pod_mounts_r = (match pod {
        Some(p) => spec_get_mounts(p.volumes, c),
        None => Ok(Seq::empty()),
    });
    match pod_mounts_r {
        Err(e) => Err(e),
        Ok(pod_mounts) => match image_volume_mounts_v(image.volumes) {
            Err(e) => Err(e),
            Ok(image_vols) => {
                let r1 = (match kube.mounts {
                    Some(km) => merge_mounts_v(pod_mounts, km),
                    None => pod_mounts,
                });
                let r2 = merge_mounts_v(r1, image_vols);
                let r3 = (match spec0.mounts {
                    Some(dm) => merge_mounts_v(r2, dm),
                    None => r2,
                });
                Ok(r3)
            },
        },
    }
}

/// One container's finished policy, assembled from a starting spec, the
/// orchestrator fragment, the image configuration and the container node.
pub open spec fn spec_assemble(
    spec0: SpecV,
    pod: Option<PodYamlV>,
    c: YamlV,
    image: ImageConfigV,
    kube: SpecV,
    maps: Seq<ConfigMapEntryV>,
) -> Result<ContainerPolicyV, PolicyErrV> {
    match spec_policy_process(spec0, c, image, kube, maps) {
        Err(e) => Err(e),
        Ok(p) => match spec_policy_mounts(spec0, pod, c, image, kube) {
            Err(e) => Err(e),
            Ok(ms) => Ok(
                ContainerPolicyV {
                    oci_spec: SpecV {
                        oci_version: spec0.oci_version,
                        mounts: Some(ms),
                        process: Some(p),
                    },
                    custom: Some(CustomV { layers: Seq::empty() }),
                },
            ),
        },
    }
}

/// One manifest-declared container's policy: security context and
/// debugging flags choose the runtime-default fragment, the image named by
/// the container is taken from the snapshot, and the three merges run.
pub open spec fn spec_container_policy(
    c: YamlV,
    pod: PodYamlV,
    with_default_rules: bool,
    images: Seq<ImageEntryV>,
    maps: Seq<ConfigMapEntryV>,
) -> Result<ContainerPolicyV, PolicyErrV> {
    match spec_get_security_context(c) {
        Err(e) => Err(e),
        Ok(sc) => match spec_get_debugging(c) {
            Err(e) => Err(e),
            Ok(dbg) => {
                let spec0 = if with_default_rules {
                    rules_v(false, sc.privileged, dbg.tty)
                } else {
                    empty_spec_v()
                };
                match yget(c, "image"@) {
                    Some(YamlV::Str(image_name)) => match spec_image_lookup(images, image_name) {
                        Some(image) => spec_assemble(
                            spec0,
                            Some(pod),
                            c,
                            image,
                            kube_rules_v(false),
                            maps,
                        ),
                        None => Err(PolicyErrV::ImageConfigMissing(image_name)),
                    },
                    _ => Err(PolicyErrV::MalformedField("image"@)),
                }
            },
        },
    }
}

/// A bare image reference's policy: no manifest context, all
/// manifest-derived inputs empty.
pub open spec fn spec_image_policy(image: ImageConfigV, with_default_rules: bool) -> Result<
    ContainerPolicyV,
    PolicyErrV,
> {
    let spec0 = if with_default_rules {
        rules_v(false, false, false)
    } else {
        empty_spec_v()
    };
    spec_assemble(spec0, None, YamlV::Null, image, empty_spec_v(), Seq::empty())
}

/// The synthetic sandbox container's policy: sandbox-flavoured runtime
/// defaults, no orchestrator fragment, no manifest mounts.
pub open spec fn spec_sandbox_policy(image: ImageConfigV) -> Result<ContainerPolicyV, PolicyErrV> {
    spec_assemble(rules_v(true, false, false), None, YamlV::Null, image, empty_spec_v(), Seq::empty())
}

impl ContainerPolicy {
    /// The merged environment list, per [`spec_policy_env`].  Relies on the
    /// starting spec's rules all carrying values, which every runtime
    /// default does.
    fn get_env(
        spec0: &Spec,
        container: &Yaml,
        image_config: &ImageConfig,
        kube_rules: &Spec,
        maps: &Vec<ConfigMapEntry>,
    ) -> (r: Result<Vec<String>, PolicyError>)
        requires
            forall|i: int|
                0 <= i < spec_env_of(spec0.deep_view()).len() ==> env_has_eq(
                    #[trigger] spec_env_of(spec0.deep_view())[i],
                ),
        ensures
            match spec_policy_env(
                spec0.deep_view(),
                container.deep_view(),
                image_config.deep_view(),
                kube_rules.deep_view(),
                maps.deep_view(),
            ) {
                Ok(env) => r matches Ok(v) && v.deep_view() == env,
                Err(e) => r matches Err(pe) && pe.deep_view() == e,
            },
    {
        let mut results: Vec<String> = match &spec0.process {
            Some(p) => match &p.env {
                Some(e) => copy_strings(e),
                None => Vec::new(),
            },
            None => Vec::new(),
        };
        proof {
            assert(results.deep_view() =~= spec_env_of(spec0.deep_view()));
        }
        let kube_envs: Vec<String> = match &kube_rules.process {
            Some(p) => match &p.env {
                Some(e) => copy_strings(e),
                None => Vec::new(),
            },
            None => Vec::new(),
        };
        proof {
            assert(kube_envs.deep_view() =~= spec_env_of(kube_rules.deep_view()));
        }
        merge_process_env(&mut results, &kube_envs);
        let image_envs = image::get_env(image_config);
        merge_process_env(&mut results, &image_envs);
        let yaml_envs = match PodYaml::get_env(container, maps) {
            Ok(v) => v,
            Err(e) => {
                return Err(e);
            },
        };
        merge_process_env(&mut results, &yaml_envs);
        Ok(results)
    }

    /// One policy assembled from its parts, per [`spec_assemble`].
    fn assemble(
        spec0: Spec,
        pod: Option<&PodYaml>,
        container: &Yaml,
        image_config: &ImageConfig,
        kube_rules: Spec,
        maps: &Vec<ConfigMapEntry>,
    ) -> (r: Result<ContainerPolicy, PolicyError>)
        requires
            forall|i: int|
                0 <= i < spec_env_of(spec0.deep_view()).len() ==> env_has_eq(
                    #[trigger] spec_env_of(spec0.deep_view())[i],
                ),
        ensures
            match spec_assemble(
                spec0.deep_view(),
                (match pod {
                    Some(p) => Some(p.deep_view()),
                    None => None,
                }),
                container.deep_view(),
                image_config.deep_view(),
                kube_rules.deep_view(),
                maps.deep_view(),
            ) {
                Ok(p) => r matches Ok(rp) && rp.deep_view() == p,
                Err(e) => r matches Err(pe) && pe.deep_view() == e,
            },
    {
        let ghost spec0v = spec0.deep_view();
        let ghost kubev = kube_rules.deep_view();
        let entry = match PodYaml::get_entry_point(container) {
            Ok(t) => t,
            Err(e) => {
                return Err(e);
            },
        };
        let (working_dir, command, cargs) = entry;
        let args = match merge_process_args(&command, &cargs, image_config) {
            Ok(a) => a,
            Err(e) => {
                return Err(e);
            },
        };
        let cwd = merge_process_cwd(&working_dir, image_config);
        let env = match Self::get_env(&spec0, container, image_config, &kube_rules, maps) {
            Ok(v) => v,
            Err(e) => {
                return Err(e);
            },
        };
        let pod_mounts: Vec<Mount> = match pod {
            Some(p) => match p.get_mounts(container) {
                Ok(ms) => ms,
                Err(e) => {
                    return Err(e);
                },
            },
            None => Vec::new(),
        };
        proof {
            match pod {
                Some(p) => {
                },
                None => {
                    assert(pod_mounts.deep_view() =~= Seq::<MountV>::empty());
                },
            }
        }
        let image_vols = match get_image_volume_mounts(image_config) {
            Ok(ms) => ms,
            Err(e) => {
                return Err(e);
            },
        };
        let Spec { oci_version, mounts: default_mounts, process: process0 } = spec0;
        let p0 = match process0 {
            Some(p) => p,
            None => empty_process(),
        };
        let new_cwd = if !cwd.as_str().is_empty() {
            cwd
        } else {
            p0.cwd
        };
        let process = Process { user: p0.user, args: Some(args), env: Some(env), cwd: new_cwd };
        let Spec { oci_version: _kube_version, mounts: kube_mounts, process: _kube_process } =
            kube_rules;
        let r1 = match kube_mounts {
            Some(km) => merge_mounts(pod_mounts, km),
            None => pod_mounts,
        };
        let r2 = merge_mounts(r1, image_vols);
        let r3 = match default_mounts {
            Some(dm) => merge_mounts(r2, dm),
            None => r2,
        };
        let oci_spec = Spec { oci_version, mounts: Some(r3), process: Some(process) };
        let layers: Vec<String> = Vec::new();
        proof {
            assert(layers.deep_view() =~= Seq::<Seq<char>>::empty());
        }
        let custom = Some(Custom { layers });
        let r = ContainerPolicy { oci_spec, custom };
        proof {
            let target = spec_assemble(
                spec0v,
                (match pod {
                    Some(p) => Some(p.deep_view()),
                    None => None,
                }),
                container.deep_view(),
                image_config.deep_view(),
                kubev,
                maps.deep_view(),
            );
            assert(r.deep_view().custom =~~= target->Ok_0.custom);
            assert(r.deep_view() =~~= target->Ok_0);
        }
        Ok(r)
    }

    /// One manifest-declared container's policy, per
    /// [`spec_container_policy`].
    pub fn from_container_yaml(
        container: &Yaml,
        pod_yaml: &PodYaml,
        with_default_rules: bool,
        images: &Vec<ImageEntry>,
        maps: &Vec<ConfigMapEntry>,
    ) -> (r: Result<ContainerPolicy, PolicyError>)
        ensures
            match spec_container_policy(
                container.deep_view(),
                pod_yaml.deep_view(),
                with_default_rules,
                images.deep_view(),
                maps.deep_view(),
            ) {
                Ok(p) => r matches Ok(rp) && rp.deep_view() == p,
                Err(e) => r matches Err(pe) && pe.deep_view() == e,
            },
    {
        let security_context = match PodYaml::get_security_context(container) {
            Ok(sc) => sc,
            Err(e) => {
                return Err(e);
            },
        };
        let debugging = match PodYaml::get_debugging(container) {
            Ok(d) => d,
            Err(e) => {
                return Err(e);
            },
        };
        let spec0 = if with_default_rules {
            cri::get_rules(false, security_context.privileged, debugging.tty)
        } else {
            empty_spec()
        };
        proof {
            lemma_default_env_has_eq(debugging.tty);
        }
        let kube_rules = kubernetes::get_rules(false);
        let image_name: String = match container.get("image") {
            Some(n) => match n.as_str() {
                Some(s) => s.clone(),
                None => {
                    return Err(PolicyError::MalformedField(s_to_owned("image")));
                },
            },
            None => {
                return Err(PolicyError::MalformedField(s_to_owned("image")));
            },
        };
        let image_config = match image_lookup(images, &image_name) {
            Some(c) => c,
            None => {
                return Err(PolicyError::ImageConfigMissing(image_name));
            },
        };
        Self::assemble(spec0, Some(pod_yaml), container, image_config, kube_rules, maps)
    }

    /// A bare image reference's policy, per [`spec_image_policy`].
    pub fn from_image_ref(image_config: &ImageConfig, with_default_rules: bool) -> (r: Result<
        ContainerPolicy,
        PolicyError,
    >)
        ensures
            match spec_image_policy(image_config.deep_view(), with_default_rules) {
                Ok(p) => r matches Ok(rp) && rp.deep_view() == p,
                Err(e) => r matches Err(pe) && pe.deep_view() == e,
            },
    {
        let spec0 = if with_default_rules {
            cri::get_rules(false, false, false)
        } else {
            empty_spec()
        };
        proof {
            lemma_default_env_has_eq(false);
        }
        let empty_maps: Vec<ConfigMapEntry> = Vec::new();
        proof {
            assert(empty_maps.deep_view() =~= Seq::<ConfigMapEntryV>::empty());
        }
        Self::assemble(spec0, None, &Yaml::Null, image_config, empty_spec(), &empty_maps)
    }

    /// The synthetic sandbox container's policy from the sandbox image's
    /// configuration, per [`spec_sandbox_policy`].
    pub fn create_sandbox_policy(image_config: &ImageConfig) -> (r: Result<
        ContainerPolicy,
        PolicyError,
    >)
        ensures
            match spec_sandbox_policy(image_config.deep_view()) {
                Ok(p) => r matches Ok(rp) && rp.deep_view() == p,
                Err(e) => r matches Err(pe) && pe.deep_view() == e,
            },
    {
        let spec0 = cri::get_rules(true, false, false);
        proof {
            lemma_default_env_has_eq(false);
        }
        let empty_maps: Vec<ConfigMapEntry> = Vec::new();
        proof {
            assert(empty_maps.deep_view() =~= Seq::<ConfigMapEntryV>::empty());
        }
        Self::assemble(spec0, None, &Yaml::Null, image_config, empty_spec(), &empty_maps)
    }
}

// ---------------------------------------------------------------------------
// The policy document assembler
// ---------------------------------------------------------------------------
/// First position whose entry carries the name, or -1.
pub open spec fn policy_index_v(cs: Seq<NamedPolicyV>, name: Seq<char>) -> int
    decreases cs.len(),
{
    if cs.len() == 0 {
        -1
    } else if cs[0].name == name {
        0
    } else {
        let r = policy_index_v(cs.subrange(1, cs.len() as int), name);
        if r < 0 {
            -1
        } else {
            r + 1
        }
    }
}

/// What [`policy_index_v`] returns.
pub proof fn lemma_policy_index_v(cs: Seq<NamedPolicyV>, name: Seq<char>)
    ensures
        policy_index_v(cs, name) >= 0 ==> 0 <= policy_index_v(cs, name) < cs.len()
            && cs[policy_index_v(cs, name)].name == name && (forall|j: int|
            0 <= j < policy_index_v(cs, name) ==> cs[j].name != name),
        policy_index_v(cs, name) < 0 ==> (forall|j: int| 0 <= j < cs.len() ==> cs[j].name != name),
    decreases cs.len(),
{
    if cs.len() > 0 {
        let rest = cs.subrange(1, cs.len() as int);
        lemma_policy_index_v(rest, name);
        assert forall|j: int| 1 <= j < cs.len() implies cs[j] == rest[j - 1] by {}
    }
}

/// One policy keyed into the document's mapping: a later entry with a
/// colliding name overwrites the earlier one in place, otherwise the entry
/// is appended.
pub open spec fn insert_policy_v(
    cs: Seq<NamedPolicyV>,
    name: Seq<char>,
    p: ContainerPolicyV,
) -> Seq<NamedPolicyV> {
    let i = policy_index_v(cs, name);
    if i >= 0 {
        cs.update(i, NamedPolicyV { name: name, policy: p })
    } else {
        cs.push(NamedPolicyV { name: name, policy: p })
    }
}

/// The policies of a list of containers folded into the mapping, in
/// order.
pub open spec fn spec_fold_containers(
    acc: Seq<NamedPolicyV>,
    cs: Seq<YamlV>,
    pod: PodYamlV,
    with_default_rules: bool,
    images: Seq<ImageEntryV>,
    maps: Seq<ConfigMapEntryV>,
) -> Result<Seq<NamedPolicyV>, PolicyErrV>
    decreases cs.len(),
{
    if cs.len() == 0 {
        Ok(acc)
    } else {
        match spec_get_name(cs[0]) {
            Err(e) => Err(e),
            Ok(name) => match spec_container_policy(cs[0], pod, with_default_rules, images, maps) {
                Err(e) => Err(e),
                Ok(p) => spec_fold_containers(
                    insert_policy_v(acc, name, p),
                    cs.subrange(1, cs.len() as int),
                    pod,
                    with_default_rules,
                    images,
                    maps,
                ),
            },
        }
    }
}

/// One batch of containers folded in, with the sandbox policy keyed under
/// its fixed name afterwards when runtime defaults are requested.
pub open spec fn spec_batch(
    acc: Seq<NamedPolicyV>,
    cs: Seq<YamlV>,
    pod: PodYamlV,
    with_default_rules: bool,
    images: Seq<ImageEntryV>,
    maps: Seq<ConfigMapEntryV>,
) -> Result<Seq<NamedPolicyV>, PolicyErrV> {
    match spec_fold_containers(acc, cs, pod, with_default_rules, images, maps) {
        Err(e) => Err(e),
        Ok(acc2) => if with_default_rules {
            match spec_image_lookup(images, "registry.k8s.io/pause:3.6"@) {
                Some(pause_config) => match spec_sandbox_policy(pause_config) {
                    Err(e) => Err(e),
                    Ok(sp) => Ok(insert_policy_v(acc2, "pause"@, sp)),
                },
                None => Err(PolicyErrV::ImageConfigMissing("registry.k8s.io/pause:3.6"@)),
            }
        } else {
            Ok(acc2)
        },
    }
}

/// The whole document's mapping: the containers batch, then the
/// init-containers batch, each followed by the sandbox insertion when
/// runtime defaults are requested.
pub open spec fn spec_from_pod_yaml(
    pod: PodYamlV,
    with_default_rules: bool,
    images: Seq<ImageEntryV>,
    maps: Seq<ConfigMapEntryV>,
) -> Result<CcPolicyV, PolicyErrV> {
    let acc0: Seq<NamedPolicyV> = Seq::empty();
    let r1 = (match pod.containers {
        Some(cs) => spec_batch(acc0, cs, pod, with_default_rules, images, maps),
        None => Ok(acc0),
    });
    match r1 {
        Err(e) => Err(e),
        Ok(acc1) => {
            let r2 = (match pod.init_containers {
                Some(cs) => spec_batch(acc1, cs, pod, with_default_rules, images, maps),
                None => Ok(acc1),
            });
            match r2 {
                Err(e) => Err(e),
                Ok(acc2) => Ok(CcPolicyV { version: "0.1.0"@, containers: acc2 }),
            }
        },
    }
}

/// The document's mapping for a bare image reference: one policy keyed by
/// the reference's name part (everything before the first `:`).
pub open spec fn spec_from_image_ref(
    image_ref: Seq<char>,
    image: ImageConfigV,
    with_default_rules: bool,
) -> Result<CcPolicyV, PolicyErrV> {
    let name = (match crate::strutil::spec_find(image_ref, ':') {
        Some(i) => image_ref.subrange(0, i),
        None => image_ref,
    });
    match spec_image_policy(image, with_default_rules) {
        Err(e) => Err(e),
        Ok(p) => Ok(
            CcPolicyV {
                version: "0.1.0"@,
                containers: insert_policy_v(Seq::empty(), name, p),
            },
        ),
    }
}

/// One policy keyed into the document, per [`insert_policy_v`].
fn insert_policy(cs: &mut Vec<NamedPolicy>, name: String, p: ContainerPolicy)
    ensures
        final(cs).deep_view() == insert_policy_v(old(cs).deep_view(), name@, p.deep_view()),
{
    let ghost cv = cs.deep_view();
    let ghost mi = policy_index_v(cv, name@);
    proof {
        lemma_policy_index_v(cv, name@);
    }
    let n = cs.len();
    let mut i: usize = 0;
    while i < n
        invariant
            i <= n,
            n == cs.len(),
            cv == cs.deep_view(),
            cv == old(cs).deep_view(),
            mi == policy_index_v(cv, name@),
            forall|j: int| 0 <= j < i ==> cv[j].name != name@,
            mi >= 0 ==> 0 <= mi < n && cv[mi].name == name@ && (forall|j: int|
                0 <= j < mi ==> cv[j].name != name@),
            mi < 0 ==> (forall|j: int| 0 <= j < n ==> cv[j].name != name@),
        decreases n - i,
    {
        if cs[i].name == name {
            proof {
                assert(cv[i as int] == cs@[i as int].deep_view());
                assert(mi == i);
            }
            let ghost before = cs@;
            let entry = NamedPolicy { name, policy: p };
            let ghost ev = entry.deep_view();
            cs.set(i, entry);
            proof {
                assert(cs@ == before.update(i as int, cs@[i as int]));
                assert forall|j: int| 0 <= j < cs.deep_view().len() implies cs.deep_view()[j]
                    == cv.update(mi, ev)[j] by {
                    assert(cs.deep_view()[j] == cs@[j].deep_view());
                }
                assert(cs.deep_view() =~= cv.update(mi, ev));
            }
            return ;
        }
        i = i + 1;
    }
    let entry = NamedPolicy { name, policy: p };
    let ghost ev = entry.deep_view();
    cs.push(entry);
    proof {
        assert(cs.deep_view() =~= cv.push(ev));
    }
}

impl CcPolicy {
    /// A fresh, empty policy document carrying the fixed version string.
    pub fn new() -> (r: CcPolicy)
        ensures
            r.deep_view() == (CcPolicyV { version: "0.1.0"@, containers: Seq::empty() }),
    {
        let r = CcPolicy { version: s_to_owned("0.1.0"), containers: Vec::new() };
        proof {
            assert(r.deep_view() =~= (CcPolicyV {
                version: "0.1.0"@,
                containers: Seq::<NamedPolicyV>::empty(),
            }));
        }
        r
    }

    /// One batch of containers folded into this document, with the sandbox
    /// policy inserted afterwards when runtime defaults are requested, per
    /// [`spec_batch`].
    fn get_container_policy(
        &mut self,
        pod_yaml: &PodYaml,
        containers: &Vec<Yaml>,
        with_default_rules: bool,
        images: &Vec<ImageEntry>,
        maps: &Vec<ConfigMapEntry>,
    ) -> (r: Result<(), PolicyError>)
        ensures
            match spec_batch(
                old(self).deep_view().containers,
                containers.deep_view(),
                pod_yaml.deep_view(),
                with_default_rules,
                images.deep_view(),
                maps.deep_view(),
            ) {
                Ok(acc2) => r is Ok && final(self).deep_view() == (CcPolicyV {
                    version: old(self).deep_view().version,
                    containers: acc2,
                }),
                Err(e) => r matches Err(pe) && pe.deep_view() == e,
            },
    {
        let ghost acc0 = self.deep_view().containers;
        let ghost csv = containers.deep_view();
        let ghost podv = pod_yaml.deep_view();
        let ghost imv = images.deep_view();
        let ghost mpv = maps.deep_view();
        let n = containers.len();
        proof {
            assert(csv.subrange(0, csv.len() as int) =~= csv);
        }
        let mut k: usize = 0;
        while k < n
            invariant
                k <= n,
                n == containers.len(),
                csv == containers.deep_view(),
                podv == pod_yaml.deep_view(),
                imv == images.deep_view(),
                mpv == maps.deep_view(),
                self.deep_view().version == old(self).deep_view().version,
                acc0 == old(self).deep_view().containers,
                spec_fold_containers(acc0, csv, podv, with_default_rules, imv, mpv)
                    == spec_fold_containers(
                    self.deep_view().containers,
                    csv.subrange(k as int, csv.len() as int),
                    podv,
                    with_default_rules,
                    imv,
                    mpv,
                ),
            decreases n - k,
        {
            let ghost suffix = csv.subrange(k as int, csv.len() as int);
            proof {
                assert(suffix[0] == csv[k as int]);
                assert(suffix.subrange(1, suffix.len() as int) =~= csv.subrange(
                    k + 1 as int,
                    csv.len() as int,
                ));
                assert(containers.deep_view()[k as int] == containers@[k as int].deep_view());
            }
            let container = &containers[k];
            let name = match PodYaml::get_name(container) {
                Ok(nm) => nm,
                Err(e) => {
                    return Err(e);
                },
            };
            let container_policy = match ContainerPolicy::from_container_yaml(
                container,
                pod_yaml,
                with_default_rules,
                images,
                maps,
            ) {
                Ok(p) => p,
                Err(e) => {
                    return Err(e);
                },
            };
            insert_policy(&mut self.containers, name, container_policy);
            k = k + 1;
        }
        proof {
            assert(csv.subrange(n as int, csv.len() as int) =~= Seq::<YamlV>::empty());
        }
        if with_default_rules {
            let pause_ref = kubernetes::get_pause_image_ref();
            let pause_config = match image_lookup(images, &pause_ref) {
                Some(c) => c,
                None => {
                    return Err(PolicyError::ImageConfigMissing(pause_ref));
                },
            };
            let sandbox_policy = match ContainerPolicy::create_sandbox_policy(pause_config) {
                Ok(p) => p,
                Err(e) => {
                    return Err(e);
                },
            };
            insert_policy(&mut self.containers, kubernetes::pause_name(), sandbox_policy);
        }
        Ok(())
    }

    /// The policy document of a whole manifest: its containers, then its
    /// init-containers, then the sandbox when runtime defaults are
    /// requested, per [`spec_from_pod_yaml`].
    pub fn from_pod_yaml(
        pod_yaml: &PodYaml,
        with_default_rules: bool,
        images: &Vec<ImageEntry>,
        maps: &Vec<ConfigMapEntry>,
    ) -> (r: Result<CcPolicy, PolicyError>)
        ensures
            match spec_from_pod_yaml(
                pod_yaml.deep_view(),
                with_default_rules,
                images.deep_view(),
                maps.deep_view(),
            ) {
                Ok(p) => r matches Ok(rp) && rp.deep_view() == p,
                Err(e) => r matches Err(pe) && pe.deep_view() == e,
            },
    {
        let mut cc_policy = CcPolicy::new();
        match pod_yaml.containers {
            Some(containers) => {
                match cc_policy.get_container_policy(
                    pod_yaml,
                    containers,
                    with_default_rules,
                    images,
                    maps,
                ) {
                    Ok(()) => {
                    },
                    Err(e) => {
                        return Err(e);
                    },
                }
            },
            None => {
            },
        }
        match pod_yaml.init_containers {
            Some(init_containers) => {
                match cc_policy.get_container_policy(
                    pod_yaml,
                    init_containers,
                    with_default_rules,
                    images,
                    maps,
                ) {
                    Ok(()) => {
                    },
                    Err(e) => {
                        return Err(e);
                    },
                }
            },
            None => {
            },
        }
        Ok(cc_policy)
    }

    /// The policy document for a bare image reference, keyed by the
    /// reference's name part, per [`spec_from_image_ref`].
    pub fn from_image_ref(
        image_ref: &String,
        image_config: &ImageConfig,
        with_default_rules: bool,
    ) -> (r: Result<CcPolicy, PolicyError>)
        ensures
            match spec_from_image_ref(
                image_ref@,
                image_config.deep_view(),
                with_default_rules,
            ) {
                Ok(p) => r matches Ok(rp) && rp.deep_view() == p,
                Err(e) => r matches Err(pe) && pe.deep_view() == e,
            },
    {
        let mut cc_policy = CcPolicy::new();
        let name: String = match find_char(image_ref.as_str(), ':') {
            Some(i) => {
                proof {
                    crate::strutil::lemma_spec_find_in_range(image_ref@, ':');
                }
                s_to_owned(image_ref.as_str().substring_char(0, i))
            },
            None => image_ref.clone(),
        };
        let container_policy = match ContainerPolicy::from_image_ref(
            image_config,
            with_default_rules,
        ) {
            Ok(p) => p,
            Err(e) => {
                return Err(e);
            },
        };
        insert_policy(&mut cc_policy.containers, name, container_policy);
        Ok(cc_policy)
    }
}


/// The textual and transport forms of a bare image reference's policy
/// document.
pub fn create_policy_by_image_ref(
    image_ref: &String,
    image_config: &ImageConfig,
    with_default_rules: bool,
) -> (r: Result<(String, String), PolicyError>)
    ensures
        match spec_from_image_ref(image_ref@, image_config.deep_view(), with_default_rules) {
            Ok(doc) => r matches Ok(p) && p.0@ == crate::json::json_doc(doc) && p.1@
                == crate::json::doc_base64(doc),
            Err(e) => r matches Err(pe) && pe.deep_view() == e,
        },
{
    let policy = match CcPolicy::from_image_ref(image_ref, image_config, with_default_rules) {
        Ok(p) => p,
        Err(e) => {
            return Err(e);
        },
    };
    Ok((policy.to_json(), policy.to_base64()))
}

/// The kind, textual form and transport form compiled from one manifest
/// tree against the collaborator snapshots.
pub fn get_policy_from_yaml(
    yaml: &Yaml,
    with_default_rules: bool,
    images: &Vec<ImageEntry>,
    maps: &Vec<ConfigMapEntry>,
) -> (r: Result<(String, String, String), PolicyError>)
    ensures
        match crate::pod_yaml::spec_pod_from(yaml.deep_view()) {
            Err(e) => r matches Err(pe) && pe.deep_view() == e,
            Ok(pod) => match spec_from_pod_yaml(
                pod,
                with_default_rules,
                images.deep_view(),
                maps.deep_view(),
            ) {
                Ok(doc) => r matches Ok(p) && p.0@ == pod.kind && p.1@ == crate::json::json_doc(
                    doc,
                ) && p.2@ == crate::json::doc_base64(doc),
                Err(e) => r matches Err(pe) && pe.deep_view() == e,
            },
        },
{
    let pod_yaml = match PodYaml::from(yaml) {
        Ok(p) => p,
        Err(e) => {
            return Err(e);
        },
    };
    let policy = match CcPolicy::from_pod_yaml(&pod_yaml, with_default_rules, images, maps) {
        Ok(p) => p,
        Err(e) => {
            return Err(e);
        },
    };
    let kind = pod_yaml.kind.clone();
    Ok((kind, policy.to_json(), policy.to_base64()))
}


/// The image reference one container names, when it is a string.
pub open spec fn spec_image_ref_of(c: YamlV) -> Option<Seq<char>> {
    match yget(c, "image"@) {
        Some(YamlV::Str(s)) => Some(s),
        _ => None,
    }
}

/// The image references a list of containers names, in order.
pub open spec fn spec_image_refs(cs: Seq<YamlV>) -> Seq<Seq<char>>
    decreases cs.len(),
{
    if cs.len() == 0 {
        Seq::empty()
    } else {
        let p = spec_image_refs(cs.drop_last());
        match spec_image_ref_of(cs.last()) {
            Some(s) => p.push(s),
            None => p,
        }
    }
}

/// Every image reference the containers name, in order, so the caller can
/// fetch their configurations before compilation.
pub fn image_refs(containers: &Vec<Yaml>) -> (r: Vec<String>)
    ensures
        r.deep_view() == spec_image_refs(containers.deep_view()),
{
    let ghost cs = containers.deep_view();
    let n = containers.len();
    let mut out: Vec<String> = Vec::new();
    proof {
        assert(cs.subrange(0, 0) =~= Seq::<YamlV>::empty());
        assert(out.deep_view() =~= spec_image_refs(cs.subrange(0, 0)));
    }
    let mut k: usize = 0;
    while k < n
        invariant
            k <= n,
            n == containers.len(),
            cs == containers.deep_view(),
            out.deep_view() == spec_image_refs(cs.subrange(0, k as int)),
        decreases n - k,
    {
        proof {
            assert(containers.deep_view()[k as int] == containers@[k as int].deep_view());
        }
        let ghost pre = out.deep_view();
        match containers[k].get("image") {
            Some(v) => match v.as_str() {
                Some(s) => {
                    out.push(s.clone());
                    proof {
                        assert(out.deep_view() =~= pre.push(s@));
                    }
                },
                None => {
                },
            },
            None => {
            },
        }
        proof {
            let sub1 = cs.subrange(0, k + 1 as int);
            assert(sub1.drop_last() =~= cs.subrange(0, k as int));
            assert(sub1.last() == cs[k as int]);
            assert(out.deep_view() =~= spec_image_refs(sub1));
        }
        k = k + 1;
    }
    proof {
        assert(cs.subrange(0, n as int) =~= cs);
    }
    out
}


/// The end-to-end argument law: in a compiled one-container Pod document
/// whose container declares no command and no args, the allowed argument
/// vector is exactly the image's entrypoint followed by its cmd.  The law
/// leaves out the single-empty-string entrypoint sentinel, and — under
/// runtime defaults — a container that carries the sandbox's reserved
/// name, which the sandbox policy would overwrite.
pub proof fn lemma_pod_args_from_image(
    pod: PodYamlV,
    c: YamlV,
    image_name: Seq<char>,
    image: ImageConfigV,
    with_default_rules: bool,
    images: Seq<ImageEntryV>,
    maps: Seq<ConfigMapEntryV>,
    doc: CcPolicyV,
)
    requires
        pod.containers == Some(seq![c]),
        pod.init_containers is None,
        yget(c, "command"@) is None,
        yget(c, "args"@) is None,
        yget(c, "image"@) == Some(YamlV::Str(image_name)),
        spec_image_lookup(images, image_name) == Some(image),
        !(image.entrypoint.len() == 1 && image.entrypoint[0].len() == 0),
        with_default_rules ==> (spec_get_name(c) matches Ok(nm) ==> nm != "pause"@),
        spec_from_pod_yaml(pod, with_default_rules, images, maps) == Ok::<_, PolicyErrV>(doc),
    ensures
        doc.containers.len() >= 1,
        spec_get_name(c) matches Ok(nm) && doc.containers[0].name == nm,
        doc.containers[0].policy.oci_spec.process matches Some(p) && p.args == Some(
            image.entrypoint + image.cmd,
        ),
{
    let cs = seq![c];
    assert(cs[0] == c);
    assert(cs.subrange(1, 1) =~= Seq::<YamlV>::empty());
    let batch_r = spec_batch(Seq::empty(), cs, pod, with_default_rules, images, maps);
    assert(spec_from_pod_yaml(pod, with_default_rules, images, maps) == (match batch_r {
        Err(e) => Err::<CcPolicyV, PolicyErrV>(e),
        Ok(acc1) => Ok(CcPolicyV { version: "0.1.0"@, containers: acc1 }),
    }));
    match spec_get_name(c) {
        Err(_) => {
            assert(false);
        },
        Ok(n) => {
            match spec_container_policy(c, pod, with_default_rules, images, maps) {
                Err(_) => {
                    assert(false);
                },
                Ok(p) => {
                    let entry0 = NamedPolicyV { name: n, policy: p };
                    let acc1 = insert_policy_v(Seq::empty(), n, p);
                    assert(policy_index_v(Seq::empty(), n) == -1);
                    assert(acc1 =~= seq![entry0]);
                    assert(spec_fold_containers(
                        acc1,
                        cs.subrange(1, 1),
                        pod,
                        with_default_rules,
                        images,
                        maps,
                    ) == Ok::<_, PolicyErrV>(acc1));
                    assert(spec_fold_containers(
                        Seq::empty(),
                        cs,
                        pod,
                        with_default_rules,
                        images,
                        maps,
                    ) == Ok::<_, PolicyErrV>(acc1));
                    if with_default_rules {
                        match spec_image_lookup(images, "registry.k8s.io/pause:3.6"@) {
                            None => {
                                assert(false);
                            },
                            Some(pause_config) => {
                                match spec_sandbox_policy(pause_config) {
                                    Err(_) => {
                                        assert(false);
                                    },
                                    Ok(sp) => {
                                        let acc2 = insert_policy_v(acc1, "pause"@, sp);
                                        lemma_policy_index_v(acc1, "pause"@);
                                        assert(acc1[0].name == n);
                                        assert(policy_index_v(acc1, "pause"@) == -1);
                                        assert(acc2 == acc1.push(
                                            NamedPolicyV { name: "pause"@, policy: sp },
                                        ));
                                        assert(acc2[0] == entry0);
                                        assert(batch_r == Ok::<_, PolicyErrV>(acc2));
                                        assert(doc.containers == acc2);
                                    },
                                }
                            },
                        }
                    } else {
                        assert(batch_r == Ok::<_, PolicyErrV>(acc1));
                        assert(doc.containers == acc1);
                    }
                    assert(doc.containers[0] == entry0);
                    // now open the container's policy down to the merged args
                    match spec_get_security_context(c) {
                        Err(_) => {
                            assert(false);
                        },
                        Ok(sc) => {
                            match spec_get_debugging(c) {
                                Err(_) => {
                                    assert(false);
                                },
                                Ok(dbg) => {
                                    let spec0 = if with_default_rules {
                                        rules_v(false, sc.privileged, dbg.tty)
                                    } else {
                                        empty_spec_v()
                                    };
                                    let kube = kube_rules_v(false);
                                    assert(spec_container_policy(
                                        c,
                                        pod,
                                        with_default_rules,
                                        images,
                                        maps,
                                    ) == spec_assemble(spec0, Some(pod), c, image, kube, maps));
                                    match spec_policy_process(spec0, c, image, kube, maps) {
                                        Err(_) => {
                                            assert(false);
                                        },
                                        Ok(proc) => {
                                            match spec_policy_mounts(
                                                spec0,
                                                Some(pod),
                                                c,
                                                image,
                                                kube,
                                            ) {
                                                Err(_) => {
                                                    assert(false);
                                                },
                                                Ok(_) => {
                                                    assert(p.oci_spec.process == Some(proc));
                                                },
                                            }
                                            assert(spec_str_list(c, "command"@)
                                                == Ok::<Seq<Seq<char>>, PolicyErrV>(Seq::empty()));
                                            assert(spec_str_list(c, "args"@)
                                                == Ok::<Seq<Seq<char>>, PolicyErrV>(Seq::empty()));
                                            match spec_get_entry_point(c) {
                                                Err(_) => {
                                                    assert(false);
                                                },
                                                Ok(ep) => {
                                                    assert(ep.1 == Seq::<Seq<char>>::empty());
                                                    assert(ep.2 == Seq::<Seq<char>>::empty());
                                                    if image.entrypoint.len() == 0
                                                        && image.cmd.len() == 0 {
                                                        assert(merge_args_v(ep.1, ep.2, image)
                                                            is Err);
                                                        assert(false);
                                                    }
                                                    assert(merge_args_v(ep.1, ep.2, image)
                                                        == Ok::<_, PolicyErrV>(
                                                        image.entrypoint + image.cmd,
                                                    ));
                                                    assert(proc.args == Some(
                                                        image.entrypoint + image.cmd,
                                                    ));
                                                },
                                            }
                                        },
                                    }
                                },
                            }
                        },
                    }
                },
            }
        },
    }
}

} // verus!
