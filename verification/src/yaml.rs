//! YAML front matter as the two outside readers parse it: `serde_yml` for
//! the front matter lines alone, `gray_matter` for a whole file. Their trees
//! are copied, node for node, into the plain trees below; a number that is
//! not an integer is kept by the text it displays.
use vstd::prelude::*;
use gray_matter::engine::YAML as MatterYaml;
use gray_matter::{Matter, Pod as ParsedPod};
use serde_yml::Value as ParsedYaml;

verus! {

/// A YAML node as `serde_yml` parses it.
pub enum YamlTree {
    Null,
    Bool(bool),
    /// A number: `integer` where it is an `i64`; `text` is how it displays.
    Number { integer: Option<i64>, text: String },
    Str(String),
    List(Vec<YamlTree>),
    /// A mapping: its entries in document order, and the text of its debug
    /// form.
    Mapping { entries: Vec<(String, YamlTree)>, text: String },
    /// A tagged node, by the node it tags.
    Tagged(Box<YamlTree>),
}

/// A node as `gray_matter` parses it.
pub enum PodTree {
    Null,
    Bool(bool),
    Integer(i64),
    /// A float, by the text it displays.
    Float(String),
    Str(String),
    Array(Vec<PodTree>),
    /// A hash: its entries as the hash map was walked, each with the text
    /// of the value's debug form.
    Hash(Vec<(String, PodTree, String)>),
}

/// What a `gray_matter` node holds, whatever order its hashes were walked
/// in (the debug texts of the values depend on that order and are left out).
pub enum PodModel {
    Null,
    Bool(bool),
    Integer(i64),
    Float(Seq<char>),
    Str(Seq<char>),
    Array(Seq<PodModel>),
    Hash(Map<Seq<char>, PodModel>),
}

pub open spec fn pod_model(p: PodTree) -> PodModel
    decreases p,
{
    match p {
        PodTree::Null => PodModel::Null,
        PodTree::Bool(b) => PodModel::Bool(b),
        PodTree::Integer(i) => PodModel::Integer(i),
        PodTree::Float(t) => PodModel::Float(t@),
        PodTree::Str(s) => PodModel::Str(s@),
        PodTree::Array(items) => PodModel::Array(pod_models(items@)),
        PodTree::Hash(entries) => PodModel::Hash(hash_model(entries@)),
    }
}

pub open spec fn pod_models(s: Seq<PodTree>) -> Seq<PodModel>
    decreases s,
{
    if s.len() == 0 {
        Seq::empty()
    } else {
        pod_models(s.drop_last()).push(pod_model(s.last()))
    }
}

pub open spec fn hash_model(s: Seq<(String, PodTree, String)>) -> Map<Seq<char>, PodModel>
    decreases s,
{
    if s.len() == 0 {
        Map::empty()
    } else {
        hash_model(s.drop_last()).insert(s.last().0@, pod_model(s.last().1))
    }
}

pub open spec fn option_pod_model(p: Option<PodTree>) -> Option<PodModel> {
    match p {
        Some(t) => Some(pod_model(t)),
        None => None,
    }
}

#[verifier::external_type_specification]
#[verifier::external_body]
pub struct ExYamlValue(ParsedYaml);

#[verifier::external_type_specification]
#[verifier::external_body]
pub struct ExPod(ParsedPod);

/// What `serde_yml` parses `text` into: the tree, or `None` where it
/// reports an error. The parse depends on the text alone.
pub uninterp spec fn spec_yaml_tree(text: Seq<char>) -> Option<YamlTree>;

/// What `gray_matter` (with its YAML engine) makes of a file's text: the
/// front matter data where there is some, and the content after it.
pub uninterp spec fn spec_gray_matter(raw: Seq<char>) -> (Option<PodModel>, Seq<char>);

/// Calls `serde_yml::from_str` for a `serde_yml::Value` and copies the
/// node (see `yaml_node_model`). Claimed: the outcome is
/// `spec_yaml_tree` of the text.
#[verifier::external_body]
pub(crate) fn yaml_tree(text: &str) -> (r: Option<YamlTree>)
    ensures
        r == spec_yaml_tree(text@),
{
    match serde_yml::from_str::<ParsedYaml>(text) {
        Ok(value) => Some(yaml_node_model(&value)),
        Err(_) => None,
    }
}

/// Copies a `serde_yml` node (part of `yaml_tree`): a number keeps
/// `as_i64` and its display text, a mapping its entries and its debug text,
/// a tagged node the node it tags.
#[verifier::external_body]
fn yaml_node_model(value: &ParsedYaml) -> YamlTree {
    match value {
        ParsedYaml::Null => YamlTree::Null,
        ParsedYaml::Bool(b) => YamlTree::Bool(*b),
        ParsedYaml::Number(n) => YamlTree::Number { integer: n.as_i64(), text: n.to_string() },
        ParsedYaml::String(s) => YamlTree::Str(s.clone()),
        ParsedYaml::Sequence(items) => YamlTree::List(items.iter().map(yaml_node_model).collect()),
        ParsedYaml::Mapping(map) => YamlTree::Mapping {
            entries: map.iter().map(|(k, v)| (k.clone(), yaml_node_model(v))).collect(),
            text: format!("{value:?}"),
        },
        ParsedYaml::Tagged(tagged) => YamlTree::Tagged(Box::new(yaml_node_model(tagged.value()))),
    }
}

/// Calls `gray_matter::Matter::<YAML>::parse` on a file's text and copies
/// its `data` (see `pod_tree`) and `content`. Claimed: these are, up to the
/// order in which hashes are walked, `spec_gray_matter` of the text. The
/// order of a hash's entries (each hash is a `HashMap`), and the debug texts
/// that depend on it, change from process to process and are left unsaid.
#[verifier::external_body]
pub(crate) fn gray_matter_split(raw: &str) -> (r: (Option<PodTree>, String))
    ensures
        spec_gray_matter(raw@) == (option_pod_model(r.0), r.1@),
{
    let parsed = Matter::<MatterYaml>::new().parse(raw);
    (parsed.data.as_ref().map(pod_tree), parsed.content)
}

/// Copies a `gray_matter` node (part of `gray_matter_split`): a float by its
/// display text, a hash by its entries, each with its value's debug text.
#[verifier::external_body]
fn pod_tree(pod: &ParsedPod) -> PodTree {
    match pod {
        ParsedPod::Null => PodTree::Null,
        ParsedPod::Boolean(b) => PodTree::Bool(*b),
        ParsedPod::Integer(i) => PodTree::Integer(*i),
        ParsedPod::Float(f) => PodTree::Float(f.to_string()),
        ParsedPod::String(s) => PodTree::Str(s.clone()),
        ParsedPod::Array(items) => PodTree::Array(items.iter().map(pod_tree).collect()),
        ParsedPod::Hash(map) => PodTree::Hash(map.iter().map(|(k, v)| (k.clone(), pod_tree(v), format!("{v:?}"))).collect()),
    }
}

} // verus!
