//! The library's own model of a parsed manifest document: a tree of
//! scalars, sequences and mappings.  Parsing the raw text into this tree is
//! an external collaborator's job; the tree itself is plain data the
//! extractors walk.  Scalars the policy compiler never reads (numbers,
//! tagged values) ride along opaquely, so a patched document loses nothing.

use vstd::prelude::*;
use crate::strutil::str_eq;

verus! {

/// serde_yaml's own node type, declared so a value of it can ride opaquely
/// inside [`Yaml::Other`].  Nothing is assumed about what such a value
/// holds.
#[verifier::external_type_specification]
#[verifier::external_body]
pub struct ExSerdeYamlValue(serde_yaml::Value);

/// One node of a manifest document.
#[derive(Debug)]
pub enum Yaml {
    /// An explicit null, or an absent value.
    Null,
    /// A boolean scalar.
    Bool(bool),
    /// A string scalar.
    Str(String),
    /// A sequence of nodes.
    Sequence(Vec<Yaml>),
    /// A mapping, in document order.
    Mapping(Vec<(Yaml, Yaml)>),
    /// Any other node (a number, a tagged value), carried through opaquely.
    Other(serde_yaml::Value),
}

/// Mathematical model of a [`Yaml`] node.
#[verifier::ext_equal]
pub ghost enum YamlV {
    Null,
    Bool(bool),
    Str(Seq<char>),
    Sequence(Seq<YamlV>),
    Mapping(Seq<(YamlV, YamlV)>),
    Other(serde_yaml::Value),
}

/// The model of a node.
pub open spec fn yaml_v(y: Yaml) -> YamlV
    decreases y,
    via yaml_v_decreases
{
    match y {
        Yaml::Null => YamlV::Null,
        Yaml::Bool(b) => YamlV::Bool(b),
        Yaml::Str(s) => YamlV::Str(s@),
        Yaml::Sequence(v) => YamlV::Sequence(yaml_seq_v(v@)),
        Yaml::Mapping(m) => YamlV::Mapping(yaml_map_v(m@)),
        Yaml::Other(v) => YamlV::Other(v),
    }
}

/// The models of a sequence's nodes.
pub open spec fn yaml_seq_v(s: Seq<Yaml>) -> Seq<YamlV>
    decreases s,
    via yaml_seq_v_decreases
{
    if s.len() == 0 {
        Seq::empty()
    } else {
        seq![yaml_v(s[0])] + yaml_seq_v(s.subrange(1, s.len() as int))
    }
}

/// The models of a mapping's entries.
pub open spec fn yaml_map_v(s: Seq<(Yaml, Yaml)>) -> Seq<(YamlV, YamlV)>
    decreases s,
    via yaml_map_v_decreases
{
    if s.len() == 0 {
        Seq::empty()
    } else {
        seq![(yaml_v(s[0].0), yaml_v(s[0].1))] + yaml_map_v(s.subrange(1, s.len() as int))
    }
}

#[via_fn]
proof fn yaml_v_decreases(y: Yaml) {
    broadcast use vstd::std_specs::vec::axiom_vec_decreases_to_view;

    match y {
        Yaml::Sequence(v) => {
            assert(decreases_to!(y => v));
            assert(decreases_to!(v => v@));
        },
        Yaml::Mapping(m) => {
            assert(decreases_to!(y => m));
            assert(decreases_to!(m => m@));
        },
        _ => {
        },
    }
}

#[via_fn]
proof fn yaml_seq_v_decreases(s: Seq<Yaml>) {
    broadcast use vstd::seq::axiom_seq_index_decreases;
    broadcast use vstd::seq::axiom_seq_subrange_decreases;

    if s.len() > 0 {
        assert(decreases_to!(s => s[0]));
        assert(decreases_to!(s => s.subrange(1, s.len() as int)));
    }
}

#[via_fn]
proof fn yaml_map_v_decreases(s: Seq<(Yaml, Yaml)>) {
    broadcast use vstd::seq::axiom_seq_index_decreases;
    broadcast use vstd::seq::axiom_seq_subrange_decreases;

    if s.len() > 0 {
        assert(decreases_to!(s => s[0]));
        assert(decreases_to!(s[0] => s[0].0));
        assert(decreases_to!(s[0] => s[0].1));
        assert(decreases_to!(s => s.subrange(1, s.len() as int)));
    }
}

impl DeepView for Yaml {
    type V = YamlV;

    open spec fn deep_view(&self) -> YamlV {
        yaml_v(*self)
    }
}

/// The sequence model agrees with the element-wise deep view.
pub proof fn lemma_yaml_seq_v(s: Seq<Yaml>)
    ensures
        yaml_seq_v(s).len() == s.len(),
        forall|i: int| 0 <= i < s.len() ==> yaml_seq_v(s)[i] == yaml_v(#[trigger] s[i]),
    decreases s.len(),
{
    if s.len() > 0 {
        lemma_yaml_seq_v(s.subrange(1, s.len() as int));
        assert forall|i: int| 0 <= i < s.len() implies yaml_seq_v(s)[i] == yaml_v(
            #[trigger] s[i],
        ) by {
            if i > 0 {
                assert(s.subrange(1, s.len() as int)[i - 1] == s[i]);
                assert(yaml_seq_v(s)[i] == yaml_seq_v(s.subrange(1, s.len() as int))[i - 1]);
            }
        }
    }
}

/// A sequence node's model is its vector's deep view.
pub proof fn lemma_yaml_seq_view(v: &Vec<Yaml>)
    ensures
        yaml_seq_v(v@) == v.deep_view(),
{
    lemma_yaml_seq_v(v@);
    assert(yaml_seq_v(v@) =~= v.deep_view());
}

/// The mapping model agrees with the entry-wise deep view.
pub proof fn lemma_yaml_map_v(s: Seq<(Yaml, Yaml)>)
    ensures
        yaml_map_v(s).len() == s.len(),
        forall|i: int|
            0 <= i < s.len() ==> yaml_map_v(s)[i] == (
            yaml_v(#[trigger] s[i].0),
            yaml_v(s[i].1),
            ),
    decreases s.len(),
{
    if s.len() > 0 {
        lemma_yaml_map_v(s.subrange(1, s.len() as int));
        assert forall|i: int| 0 <= i < s.len() implies yaml_map_v(s)[i] == (
        yaml_v(#[trigger] s[i].0),
        yaml_v(s[i].1),
        ) by {
            if i > 0 {
                assert(s.subrange(1, s.len() as int)[i - 1] == s[i]);
                assert(yaml_map_v(s)[i] == yaml_map_v(s.subrange(1, s.len() as int))[i - 1]);
            }
        }
    }
}

/// A mapping node's model is its vector's deep view.
pub proof fn lemma_yaml_map_view(v: &Vec<(Yaml, Yaml)>)
    ensures
        yaml_map_v(v@) == v.deep_view(),
{
    lemma_yaml_map_v(v@);
    assert(yaml_map_v(v@) =~= v.deep_view());
}

/// The value under a string key, searching entries in order.
pub open spec fn map_get_v(es: Seq<(YamlV, YamlV)>, key: Seq<char>) -> Option<YamlV>
    decreases es.len(),
{
    if es.len() == 0 {
        None
    } else if es[0].0 == YamlV::Str(key) {
        Some(es[0].1)
    } else {
        map_get_v(es.subrange(1, es.len() as int), key)
    }
}

/// The value a mapping node holds under a string key; any other node holds
/// nothing.
pub open spec fn yget(y: YamlV, key: Seq<char>) -> Option<YamlV> {
    match y {
        YamlV::Mapping(es) => map_get_v(es, key),
        _ => None,
    }
}

/// Indexing that yields null for anything absent, like the original
/// document model's index operation.
pub open spec fn yindex(y: YamlV, key: Seq<char>) -> YamlV {
    match yget(y, key) {
        Some(v) => v,
        None => YamlV::Null,
    }
}

impl Yaml {
    /// The value under a string key, if this node is a mapping that has
    /// one.
    pub fn get<'a>(&'a self, key: &str) -> (r: Option<&'a Yaml>)
        ensures
            match r {
                Some(v) => yget(self.deep_view(), key@) == Some(v.deep_view()),
                None => yget(self.deep_view(), key@) is None,
            },
    {
        match self {
            Yaml::Mapping(entries) => {
                proof {
                    lemma_yaml_map_v(entries@);
                }
                let ghost es = yaml_map_v(entries@);
                proof {
                    assert(es.subrange(0, es.len() as int) =~= es);
                }
                let n = entries.len();
                let mut i: usize = 0;
                while i < n
                    invariant
                        i <= n,
                        n == entries.len(),
                        es == yaml_map_v(entries@),
                        yaml_map_v(entries@).len() == entries@.len(),
                        forall|j: int|
                            0 <= j < entries@.len() ==> yaml_map_v(entries@)[j] == (
                            yaml_v(#[trigger] entries@[j].0),
                            yaml_v(entries@[j].1),
                            ),
                        self.deep_view() == YamlV::Mapping(es),
                        map_get_v(es, key@) == map_get_v(es.subrange(i as int, es.len() as int), key@),
                    decreases n - i,
                {
                    let ghost suffix = es.subrange(i as int, es.len() as int);
                    proof {
                        assert(suffix[0] == es[i as int]);
                        assert(suffix.subrange(1, suffix.len() as int) =~= es.subrange(
                            i + 1 as int,
                            es.len() as int,
                        ));
                    }
                    let hit = match &entries[i].0 {
                        Yaml::Str(s) => str_eq(s.as_str(), key),
                        _ => false,
                    };
                    proof {
                        assert(es[i as int].0 == yaml_v(entries@[i as int].0));
                        assert(hit == (es[i as int].0 == YamlV::Str(key@)));
                    }
                    if hit {
                        return Some(&entries[i].1);
                    }
                    i = i + 1;
                }
                proof {
                    assert(es.subrange(n as int, es.len() as int) =~= Seq::<(YamlV, YamlV)>::empty());
                }
                None
            },
            _ => None,
        }
    }

    /// The string a string node holds.
    pub fn as_str<'a>(&'a self) -> (r: Option<&'a String>)
        ensures
            match r {
                Some(s) => self.deep_view() == YamlV::Str(s@),
                None => !(self.deep_view() is Str),
            },
    {
        match self {
            Yaml::Str(s) => Some(s),
            _ => None,
        }
    }

    /// The boolean a boolean node holds.
    pub fn as_bool(&self) -> (r: Option<bool>)
        ensures
            match r {
                Some(b) => self.deep_view() == YamlV::Bool(b),
                None => !(self.deep_view() is Bool),
            },
    {
        match self {
            Yaml::Bool(b) => Some(*b),
            _ => None,
        }
    }

    /// The element vector of a sequence node.
    pub fn as_sequence<'a>(&'a self) -> (r: Option<&'a Vec<Yaml>>)
        ensures
            match r {
                Some(v) => self.deep_view() == YamlV::Sequence(v.deep_view()),
                None => !(self.deep_view() is Sequence),
            },
    {
        match self {
            Yaml::Sequence(v) => {
                proof {
                    lemma_yaml_seq_view(v);
                }
                Some(v)
            },
            _ => None,
        }
    }

    /// The entry vector of a mapping node.
    pub fn as_mapping<'a>(&'a self) -> (r: Option<&'a Vec<(Yaml, Yaml)>>)
        ensures
            match r {
                Some(v) => self.deep_view() == YamlV::Mapping(v.deep_view()),
                None => !(self.deep_view() is Mapping),
            },
    {
        match self {
            Yaml::Mapping(v) => {
                proof {
                    lemma_yaml_map_view(v);
                }
                Some(v)
            },
            _ => None,
        }
    }

    /// Whether this node is a mapping holding the key.
    pub fn contains_key(&self, key: &str) -> (r: bool)
        ensures
            r == (yget(self.deep_view(), key@) is Some),
    {
        self.get(key).is_some()
    }
}

} // verus!
