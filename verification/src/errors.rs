//! Structured errors of policy compilation.  Every failure names the field
//! or value at fault; no error is ever silently swallowed into a default.

use vstd::prelude::*;
use vstd::string::StringExecFns;
use crate::strutil::s_to_owned;

verus! {

/// Why compilation of a container's policy failed.
#[derive(Debug)]
pub enum PolicyError {
    /// The manifest's top-level discriminator names an unsupported kind.
    UnsupportedKind(String),
    /// A manifest or image field is missing or of the wrong shape; carries
    /// the name of the field at fault.
    MalformedField(String),
    /// An environment entry uses a `valueFrom` reference of an unsupported
    /// kind; carries the variable's name.
    UnsupportedReference(String),
    /// A volume mount names a volume the manifest never declared.
    UnknownVolume(String),
    /// A volume mount asks for an unsupported propagation mode.
    UnsupportedPropagation(String),
    /// A referenced config-map value is absent; carries map name and key.
    ConfigMapValueMissing(String, String),
    /// The caller's image snapshot has no entry for this reference.
    ImageConfigMissing(String),
    /// The merged command and argument lists are both empty.
    NoCommand,
}

/// Mathematical model of a [`PolicyError`].
#[verifier::ext_equal]
pub ghost enum PolicyErrV {
    UnsupportedKind(Seq<char>),
    MalformedField(Seq<char>),
    UnsupportedReference(Seq<char>),
    UnknownVolume(Seq<char>),
    UnsupportedPropagation(Seq<char>),
    ConfigMapValueMissing(Seq<char>, Seq<char>),
    ImageConfigMissing(Seq<char>),
    NoCommand,
}

impl DeepView for PolicyError {
    type V = PolicyErrV;

    open spec fn deep_view(&self) -> PolicyErrV {
        match self {
            PolicyError::UnsupportedKind(k) => PolicyErrV::UnsupportedKind(k@),
            PolicyError::MalformedField(f) => PolicyErrV::MalformedField(f@),
            PolicyError::UnsupportedReference(n) => PolicyErrV::UnsupportedReference(n@),
            PolicyError::UnknownVolume(n) => PolicyErrV::UnknownVolume(n@),
            PolicyError::UnsupportedPropagation(p) => PolicyErrV::UnsupportedPropagation(p@),
            PolicyError::ConfigMapValueMissing(n, k) => PolicyErrV::ConfigMapValueMissing(n@, k@),
            PolicyError::ImageConfigMissing(r) => PolicyErrV::ImageConfigMissing(r@),
            PolicyError::NoCommand => PolicyErrV::NoCommand,
        }
    }
}

/// The text [`PolicyError::message`] reports for each failure: a fixed
/// phrase naming the error, followed by the field or value at fault.
pub open spec fn spec_message(e: PolicyErrV) -> Seq<char> {
    match e {
        PolicyErrV::UnsupportedKind(k) => "unsupported kind: "@ + k,
        PolicyErrV::MalformedField(f) => "missing or malformed field: "@ + f,
        PolicyErrV::UnsupportedReference(n) => "unsupported reference for variable: "@ + n,
        PolicyErrV::UnknownVolume(n) => "failed to find volume "@ + n,
        PolicyErrV::UnsupportedPropagation(p) => "unknown mountPropagation type: "@ + p,
        PolicyErrV::ConfigMapValueMissing(n, k) => "failed to find value using key "@ + k
            + " from configMap "@ + n,
        PolicyErrV::ImageConfigMissing(r) => "no image configuration for reference "@ + r,
        PolicyErrV::NoCommand => "no command specified"@,
    }
}

impl PolicyError {
    /// A human-readable account of the failure, per [`spec_message`].
    pub fn message(&self) -> (r: String)
        ensures
            r@ == spec_message(self.deep_view()),
    {
        match self {
            PolicyError::UnsupportedKind(k) => {
                let mut m = s_to_owned("unsupported kind: ");
                m.append(k.as_str());
                m
            },
            PolicyError::MalformedField(f) => {
                let mut m = s_to_owned("missing or malformed field: ");
                m.append(f.as_str());
                m
            },
            PolicyError::UnsupportedReference(n) => {
                let mut m = s_to_owned("unsupported reference for variable: ");
                m.append(n.as_str());
                m
            },
            PolicyError::UnknownVolume(n) => {
                let mut m = s_to_owned("failed to find volume ");
                m.append(n.as_str());
                m
            },
            PolicyError::UnsupportedPropagation(p) => {
                let mut m = s_to_owned("unknown mountPropagation type: ");
                m.append(p.as_str());
                m
            },
            PolicyError::ConfigMapValueMissing(n, k) => {
                let mut m = s_to_owned("failed to find value using key ");
                m.append(k.as_str());
                m.append(" from configMap ");
                m.append(n.as_str());
                proof {
                    assert(m@ =~= spec_message(self.deep_view()));
                }
                m
            },
            PolicyError::ImageConfigMissing(r) => {
                let mut m = s_to_owned("no image configuration for reference ");
                m.append(r.as_str());
                m
            },
            PolicyError::NoCommand => s_to_owned("no command specified"),
        }
    }
}

} // verus!
