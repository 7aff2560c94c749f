//! From a file's text to the fields of its front matter.
//!
//! Two ways lead there. The fast one scans the lines up to the closing
//! delimiter and parses that YAML with `serde_yml`; the full one hands the
//! whole text to `gray_matter`, which also gives the body. Numbers that are
//! not integers are looked up, by the text they display, in a table that the
//! caller supplies (see `frontmatter_float_texts` and `matter_float_texts`).
use vstd::prelude::*;
use crate::calendar::{spec_parse_date, spec_parse_datetime};
use crate::parser::{find_float, float_for};
use crate::reader::{
    entry_value, frontmatter_row, frontmatter_yaml, law_scan_stops, line_texts, list_from_yaml, scan_lines, scan_yaml,
    spec_from_yaml, FrontNode,
};
use crate::row::{spec_get, Row, RowModel};
use crate::text::{chars_of, lemma_texts_push, string_of, texts};
use crate::value::{Float, ValueModel};
use crate::yaml::{
    gray_matter_split, hash_model, option_pod_model, pod_model, pod_models, spec_gray_matter, spec_yaml_tree, yaml_tree,
    PodModel, PodTree, YamlTree,
};

verus! {

broadcast use vstd::std_specs::vec::axiom_vec_decreases_to_view,
    vstd::std_specs::vec::axiom_vec_index_decreases;

/// The value of a YAML string: a date where it reads as `YYYY-MM-DD`, else
/// a date-time where it reads as `YYYY-MM-DDTHH:MM:SS`, else the string.
pub open spec fn text_value(s: Seq<char>) -> ValueModel {
    match spec_parse_date(s) {
        Some(d) => ValueModel::Date(d),
        None => match spec_parse_datetime(s) {
            Some(t) => ValueModel::DateTime(t.0, t.1, t.2),
            None => ValueModel::Str(s),
        },
    }
}

/// The value of a number that is not an integer: the float that the table
/// gives for its text, else null.
pub open spec fn float_value(floats: Seq<(String, Float)>, text: Seq<char>) -> ValueModel {
    match float_for(floats, text) {
        Some(f) => ValueModel::Float(f.bits, f.text@),
        None => ValueModel::Null,
    }
}

/// The value of a `serde_yml` node. A mapping is the text of its debug form.
pub open spec fn yaml_value(t: YamlTree, floats: Seq<(String, Float)>) -> ValueModel
    decreases t,
{
    match t {
        YamlTree::Null => ValueModel::Null,
        YamlTree::Bool(b) => ValueModel::Bool(b),
        YamlTree::Number { integer, text } => match integer {
            Some(i) => ValueModel::Int(i),
            None => float_value(floats, text@),
        },
        YamlTree::Str(s) => text_value(s@),
        YamlTree::List(items) => ValueModel::Array(yaml_values(items@, floats)),
        YamlTree::Mapping { entries, text } => ValueModel::Str(text@),
        YamlTree::Tagged(inner) => yaml_value(*inner, floats),
    }
}

pub open spec fn yaml_values(s: Seq<YamlTree>, floats: Seq<(String, Float)>) -> Seq<ValueModel>
    decreases s,
{
    if s.len() == 0 {
        Seq::empty()
    } else {
        yaml_values(s.drop_last(), floats).push(yaml_value(s.last(), floats))
    }
}

/// The value that a mapping's entries give a key: that of its last entry
/// with the key.
pub open spec fn mapping_field(s: Seq<(String, YamlTree)>, floats: Seq<(String, Float)>, k: Seq<char>) -> Option<ValueModel>
    decreases s.len(),
{
    if s.len() == 0 {
        None
    } else if s.last().0@ == k {
        Some(yaml_value(s.last().1, floats))
    } else {
        mapping_field(s.drop_last(), floats, k)
    }
}

/// The field `k` of a front matter node: only a mapping has fields.
pub open spec fn yaml_field(t: YamlTree, floats: Seq<(String, Float)>, k: Seq<char>) -> Option<ValueModel> {
    match t {
        YamlTree::Mapping { entries, text } => mapping_field(entries@, floats, k),
        _ => None,
    }
}

/// The field `k` that the fast path reads from a file's lines: the YAML
/// between the delimiters, where there is some and `serde_yml` parses it.
pub open spec fn spec_read_frontmatter(lines: Seq<Seq<char>>, floats: Seq<(String, Float)>, k: Seq<char>) -> Option<ValueModel> {
    let yaml = scan_yaml(scan_lines(lines));
    if yaml.len() == 0 {
        None
    } else {
        match spec_yaml_tree(yaml) {
            Some(t) => yaml_field(t, floats, k),
            None => None,
        }
    }
}

/// The texts of the numbers of a node that are not integers, in document
/// order.
pub open spec fn yaml_floats(t: YamlTree) -> Seq<Seq<char>>
    decreases t,
{
    match t {
        YamlTree::Number { integer, text } => if integer is Some {
            Seq::empty()
        } else {
            seq![text@]
        },
        YamlTree::List(items) => list_floats(items@),
        YamlTree::Mapping { entries, text } => entry_floats(entries@),
        YamlTree::Tagged(inner) => yaml_floats(*inner),
        _ => Seq::empty(),
    }
}

pub open spec fn list_floats(s: Seq<YamlTree>) -> Seq<Seq<char>>
    decreases s,
{
    if s.len() == 0 {
        Seq::empty()
    } else {
        list_floats(s.drop_last()) + yaml_floats(s.last())
    }
}

pub open spec fn entry_floats(s: Seq<(String, YamlTree)>) -> Seq<Seq<char>>
    decreases s,
{
    if s.len() == 0 {
        Seq::empty()
    } else {
        entry_floats(s.drop_last()) + yaml_floats(s.last().1)
    }
}

/// The float texts of the front matter that the fast path parses.
pub open spec fn spec_frontmatter_floats(lines: Seq<Seq<char>>) -> Seq<Seq<char>> {
    let yaml = scan_yaml(scan_lines(lines));
    if yaml.len() == 0 {
        Seq::empty()
    } else {
        match spec_yaml_tree(yaml) {
            Some(t) => yaml_floats(t),
            None => Seq::empty(),
        }
    }
}

fn number_node(integer: Option<i64>, text: &String, floats: &Vec<(String, Float)>) -> (r: FrontNode)
    ensures
        spec_from_yaml(r) == match integer {
            Some(i) => ValueModel::Int(i),
            None => float_value(floats@, text@),
        },
{
    match integer {
        Some(i) => FrontNode::Number { integer: Some(i), float: None },
        None => FrontNode::Number { integer: None, float: find_float(floats, text.as_str()) },
    }
}

/// The node handed to `Value::from_yaml` for a `serde_yml` node.
fn yaml_node(t: &YamlTree, floats: &Vec<(String, Float)>) -> (r: FrontNode)
    ensures
        spec_from_yaml(r) == yaml_value(*t, floats@),
    decreases t, 1int,
{
    match t {
        YamlTree::Null => FrontNode::Null,
        YamlTree::Bool(b) => FrontNode::Bool(*b),
        YamlTree::Number { integer, text } => number_node(*integer, text, floats),
        YamlTree::Str(s) => FrontNode::Str(s.clone()),
        YamlTree::List(items) => FrontNode::List(yaml_nodes(items, floats)),
        YamlTree::Mapping { entries, text } => FrontNode::Mapping(text.clone()),
        YamlTree::Tagged(inner) => FrontNode::Tagged(Box::new(yaml_node(inner, floats))),
    }
}

fn yaml_nodes(items: &Vec<YamlTree>, floats: &Vec<(String, Float)>) -> (r: Vec<FrontNode>)
    ensures
        list_from_yaml(r@) == yaml_values(items@, floats@),
    decreases items, 0int,
{
    let mut out: Vec<FrontNode> = Vec::new();
    let mut i: usize = 0;
    assert(items@.take(0) =~= Seq::<YamlTree>::empty());
    while i < items.len()
        invariant
            i <= items.len(),
            list_from_yaml(out@) == yaml_values(items@.take(i as int), floats@),
        decreases items.len() - i,
    {
        proof {
            assert(decreases_to!(items => items[i as int]));
            assert(items@.take(i + 1).drop_last() =~= items@.take(i as int));
            assert(items@.take(i + 1).last() == items@[i as int]);
        }
        let n = yaml_node(&items[i], floats);
        let ghost before = out@;
        out.push(n);
        assert(out@.drop_last() =~= before);
        i = i + 1;
    }
    assert(items@.take(items.len() as int) =~= items@);
    out
}

/// The entries of a front matter node, as keys and nodes for
/// `frontmatter_row`: those of a mapping, in order; none for another node.
pub fn frontmatter_entries(t: &YamlTree, floats: &Vec<(String, Float)>) -> (r: Vec<(FrontNode, FrontNode)>)
    ensures
        match *t {
            YamlTree::Mapping { entries, text } => {
                &&& r.len() == entries.len()
                &&& forall|i: int| 0 <= i < r.len() ==> (#[trigger] r@[i]).0 is Str && r@[i].0->Str_0@ == entries@[i].0@
                    && spec_from_yaml(r@[i].1) == yaml_value(entries@[i].1, floats@)
            },
            _ => r.len() == 0,
        },
        forall|k: Seq<char>| #[trigger] entry_value(r@, k) == yaml_field(*t, floats@, k),
{
    let mut out: Vec<(FrontNode, FrontNode)> = Vec::new();
    match t {
        YamlTree::Mapping { entries, text } => {
            let mut i: usize = 0;
            while i < entries.len()
                invariant
                    i <= entries.len(),
                    out.len() == i,
                    forall|j: int| 0 <= j < i ==> (#[trigger] out@[j]).0 is Str && out@[j].0->Str_0@ == entries@[j].0@
                        && spec_from_yaml(out@[j].1) == yaml_value(entries@[j].1, floats@),
                    forall|k: Seq<char>| #[trigger] entry_value(out@, k) == mapping_field(entries@.take(i as int), floats@, k),
                decreases entries.len() - i,
            {
                let key = FrontNode::Str(entries[i].0.clone());
                let node = yaml_node(&entries[i].1, floats);
                let ghost before = out@;
                out.push((key, node));
                proof {
                    assert(out@.drop_last() =~= before);
                    assert(entries@.take(i + 1).drop_last() =~= entries@.take(i as int));
                    assert(entries@.take(i + 1).last() == entries@[i as int]);
                    assert(out@.last().0 is Str && out@.last().0->Str_0@ == entries@[i as int].0@);
                    assert(spec_from_yaml(out@.last().1) == yaml_value(entries@[i as int].1, floats@));
                    assert forall|k: Seq<char>| #[trigger] entry_value(out@, k) == mapping_field(entries@.take(i + 1), floats@, k) by {
                        if entries@[i as int].0@ != k {
                            assert(entry_value(out@, k) == entry_value(before, k));
                        }
                    }
                }
                i = i + 1;
            }
            assert(entries@.take(entries.len() as int) =~= entries@);
        },
        _ => {},
    }
    out
}

/// The fields of a file's front matter by the fast path: its lines up to
/// the closing delimiter, parsed with `serde_yml` (see
/// `spec_read_frontmatter`).
pub fn read_frontmatter(lines: &Vec<String>, floats: &Vec<(String, Float)>) -> (r: Row)
    ensures
        forall|k: Seq<char>| #[trigger] spec_get(r@, k) == spec_read_frontmatter(line_texts(lines@), floats@, k),
{
    let yaml = frontmatter_yaml(lines);
    if chars_of(yaml.as_str()).len() == 0 {
        return Row::new();
    }
    match yaml_tree(yaml.as_str()) {
        Some(t) => frontmatter_row(&frontmatter_entries(&t, floats)),
        None => Row::new(),
    }
}

fn collect_yaml_floats(t: &YamlTree, out: &mut Vec<String>)
    ensures
        texts(final(out)@) == texts(old(out)@) + yaml_floats(*t),
    decreases t, 1int,
{
    match t {
        YamlTree::Number { integer, text } => {
            if integer.is_none() {
                proof {
                    lemma_texts_push(out@, *text);
                }
                out.push(text.clone());
                assert(texts(out@) =~= texts(old(out)@) + seq![text@]);
            } else {
                assert(texts(out@) =~= texts(old(out)@) + Seq::<Seq<char>>::empty());
            }
        },
        YamlTree::List(items) => collect_list_floats(items, out),
        YamlTree::Mapping { entries, text } => collect_entry_floats(entries, out),
        YamlTree::Tagged(inner) => collect_yaml_floats(inner, out),
        _ => {
            assert(texts(out@) =~= texts(old(out)@) + Seq::<Seq<char>>::empty());
        },
    }
}

fn collect_list_floats(items: &Vec<YamlTree>, out: &mut Vec<String>)
    ensures
        texts(final(out)@) == texts(old(out)@) + list_floats(items@),
    decreases items, 0int,
{
    let ghost start = texts(out@);
    let mut i: usize = 0;
    assert(items@.take(0) =~= Seq::<YamlTree>::empty());
    assert(start + list_floats(items@.take(0)) =~= start);
    while i < items.len()
        invariant
            i <= items.len(),
            texts(out@) == start + list_floats(items@.take(i as int)),
        decreases items.len() - i,
    {
        proof {
            assert(decreases_to!(items => items[i as int]));
            assert(items@.take(i + 1).drop_last() =~= items@.take(i as int));
            assert(items@.take(i + 1).last() == items@[i as int]);
        }
        collect_yaml_floats(&items[i], out);
        assert(texts(out@) =~= start + list_floats(items@.take(i + 1)));
        i = i + 1;
    }
    assert(items@.take(items.len() as int) =~= items@);
}

fn collect_entry_floats(entries: &Vec<(String, YamlTree)>, out: &mut Vec<String>)
    ensures
        texts(final(out)@) == texts(old(out)@) + entry_floats(entries@),
    decreases entries, 0int,
{
    let ghost start = texts(out@);
    let mut i: usize = 0;
    assert(entries@.take(0) =~= Seq::<(String, YamlTree)>::empty());
    assert(start + entry_floats(entries@.take(0)) =~= start);
    while i < entries.len()
        invariant
            i <= entries.len(),
            texts(out@) == start + entry_floats(entries@.take(i as int)),
        decreases entries.len() - i,
    {
        proof {
            assert(decreases_to!(entries => entries[i as int]));
            assert(entries@.take(i + 1).drop_last() =~= entries@.take(i as int));
            assert(entries@.take(i + 1).last() == entries@[i as int]);
        }
        collect_yaml_floats(&entries[i].1, out);
        assert(texts(out@) =~= start + entry_floats(entries@.take(i + 1)));
        i = i + 1;
    }
    assert(entries@.take(entries.len() as int) =~= entries@);
}

/// The texts of the numbers that are not integers in the front matter that
/// the fast path reads from these lines, in document order: what the caller
/// turns into the table of floats.
pub fn frontmatter_float_texts(lines: &Vec<String>) -> (r: Vec<String>)
    ensures
        texts(r@) == spec_frontmatter_floats(line_texts(lines@)),
{
    let mut out: Vec<String> = Vec::new();
    let yaml = frontmatter_yaml(lines);
    if chars_of(yaml.as_str()).len() == 0 {
        assert(texts(out@) =~= Seq::<Seq<char>>::empty());
        return out;
    }
    match yaml_tree(yaml.as_str()) {
        Some(t) => {
            collect_yaml_floats(&t, &mut out);
            assert(texts(out@) =~= yaml_floats(t));
        },
        None => {
            assert(texts(out@) =~= Seq::<Seq<char>>::empty());
        },
    }
    out
}

/// The text of a `gray_matter` hash entry: its key, `": "` and the debug
/// text of its value.
pub open spec fn entry_text(e: (String, PodTree, String)) -> Seq<char> {
    e.0@ + seq![':', ' '] + e.2@
}

pub open spec fn pairs_text(s: Seq<(String, PodTree, String)>) -> Seq<char>
    decreases s.len(),
{
    if s.len() == 0 {
        Seq::empty()
    } else if s.len() == 1 {
        entry_text(s[0])
    } else {
        pairs_text(s.drop_last()) + seq![',', ' '] + entry_text(s.last())
    }
}

/// The text of a nested hash: its entries' texts, joined by `", "`, in
/// braces.
pub open spec fn hash_text(s: Seq<(String, PodTree, String)>) -> Seq<char> {
    seq!['{'] + pairs_text(s) + seq!['}']
}

/// The value of a `gray_matter` node. A hash is its text.
pub open spec fn pod_value(p: PodTree, floats: Seq<(String, Float)>) -> ValueModel
    decreases p,
{
    match p {
        PodTree::Null => ValueModel::Null,
        PodTree::Bool(b) => ValueModel::Bool(b),
        PodTree::Integer(i) => ValueModel::Int(i),
        PodTree::Float(t) => float_value(floats, t@),
        PodTree::Str(s) => text_value(s@),
        PodTree::Array(items) => ValueModel::Array(pod_values(items@, floats)),
        PodTree::Hash(entries) => ValueModel::Str(hash_text(entries@)),
    }
}

pub open spec fn pod_values(s: Seq<PodTree>, floats: Seq<(String, Float)>) -> Seq<ValueModel>
    decreases s,
{
    if s.len() == 0 {
        Seq::empty()
    } else {
        pod_values(s.drop_last(), floats).push(pod_value(s.last(), floats))
    }
}

/// The value that a hash's entries give a key: that of its last entry with
/// the key.
pub open spec fn hash_field(s: Seq<(String, PodTree, String)>, floats: Seq<(String, Float)>, k: Seq<char>) -> Option<ValueModel>
    decreases s.len(),
{
    if s.len() == 0 {
        None
    } else if s.last().0@ == k {
        Some(pod_value(s.last().1, floats))
    } else {
        hash_field(s.drop_last(), floats, k)
    }
}

/// The field `k` of the data that `gray_matter` found: only a hash has
/// fields.
pub open spec fn pod_field(d: Option<PodTree>, floats: Seq<(String, Float)>, k: Seq<char>) -> Option<ValueModel> {
    match d {
        Some(PodTree::Hash(entries)) => hash_field(entries@, floats, k),
        _ => None,
    }
}

/// A full read of a file's text: `d` is data that `gray_matter` may give
/// for it (equal to its parse up to the order of hashes), `fields` the
/// fields that `d` gives, and `content` the body.
pub open spec fn full_read(raw: Seq<char>, floats: Seq<(String, Float)>, d: Option<PodTree>, fields: RowModel, content: Seq<char>) -> bool {
    &&& spec_gray_matter(raw) == (option_pod_model(d), content)
    &&& forall|k: Seq<char>| #[trigger] spec_get(fields, k) == pod_field(d, floats, k)
}

/// The texts of the floats of a `gray_matter` node, in the order it was
/// walked.
pub open spec fn pod_floats(p: PodTree) -> Seq<Seq<char>>
    decreases p,
{
    match p {
        PodTree::Float(t) => seq![t@],
        PodTree::Array(items) => array_floats(items@),
        PodTree::Hash(entries) => hash_floats(entries@),
        _ => Seq::empty(),
    }
}

pub open spec fn array_floats(s: Seq<PodTree>) -> Seq<Seq<char>>
    decreases s,
{
    if s.len() == 0 {
        Seq::empty()
    } else {
        array_floats(s.drop_last()) + pod_floats(s.last())
    }
}

pub open spec fn hash_floats(s: Seq<(String, PodTree, String)>) -> Seq<Seq<char>>
    decreases s,
{
    if s.len() == 0 {
        Seq::empty()
    } else {
        hash_floats(s.drop_last()) + pod_floats(s.last().1)
    }
}

/// `found` are the float texts of data `d` that `gray_matter` may give for
/// a file's text.
pub open spec fn matter_floats(raw: Seq<char>, d: Option<PodTree>, found: Seq<Seq<char>>) -> bool {
    &&& spec_gray_matter(raw).0 == option_pod_model(d)
    &&& found == match d {
        Some(t) => pod_floats(t),
        None => Seq::empty(),
    }
}

fn hash_text_of(entries: &Vec<(String, PodTree, String)>) -> (r: String)
    ensures
        r@ == hash_text(entries@),
{
    let mut out: Vec<char> = Vec::new();
    out.push('{');
    let mut i: usize = 0;
    assert(entries@.take(0) =~= Seq::<(String, PodTree, String)>::empty());
    assert(out@ =~= seq!['{'] + pairs_text(entries@.take(0)));
    while i < entries.len()
        invariant
            i <= entries.len(),
            out@ == seq!['{'] + pairs_text(entries@.take(i as int)),
        decreases entries.len() - i,
    {
        let ghost before = out@;
        let ghost e = entries@[i as int];
        assert(entries@.take(i + 1).drop_last() =~= entries@.take(i as int));
        assert(entries@.take(i + 1).last() == e);
        if i > 0 {
            out.push(',');
            out.push(' ');
        }
        let key = chars_of(entries[i].0.as_str());
        crate::text::push_all(&mut out, &key);
        out.push(':');
        out.push(' ');
        let text = chars_of(entries[i].2.as_str());
        crate::text::push_all(&mut out, &text);
        if i == 0 {
            assert(entries@.take(1)[0] == e);
            assert(out@ =~= seq!['{'] + pairs_text(entries@.take(i + 1)));
        } else {
            assert(out@ =~= seq!['{'] + pairs_text(entries@.take(i + 1)));
        }
        i = i + 1;
    }
    assert(entries@.take(entries.len() as int) =~= entries@);
    out.push('}');
    string_of(&out)
}

/// The node handed to `Value::from_yaml` for a `gray_matter` node.
fn pod_node(p: &PodTree, floats: &Vec<(String, Float)>) -> (r: FrontNode)
    ensures
        spec_from_yaml(r) == pod_value(*p, floats@),
    decreases p, 1int,
{
    match p {
        PodTree::Null => FrontNode::Null,
        PodTree::Bool(b) => FrontNode::Bool(*b),
        PodTree::Integer(i) => FrontNode::Number { integer: Some(*i), float: None },
        PodTree::Float(t) => number_node(None, t, floats),
        PodTree::Str(s) => FrontNode::Str(s.clone()),
        PodTree::Array(items) => FrontNode::List(pod_nodes(items, floats)),
        PodTree::Hash(entries) => FrontNode::Mapping(hash_text_of(entries)),
    }
}

fn pod_nodes(items: &Vec<PodTree>, floats: &Vec<(String, Float)>) -> (r: Vec<FrontNode>)
    ensures
        list_from_yaml(r@) == pod_values(items@, floats@),
    decreases items, 0int,
{
    let mut out: Vec<FrontNode> = Vec::new();
    let mut i: usize = 0;
    assert(items@.take(0) =~= Seq::<PodTree>::empty());
    while i < items.len()
        invariant
            i <= items.len(),
            list_from_yaml(out@) == pod_values(items@.take(i as int), floats@),
        decreases items.len() - i,
    {
        proof {
            assert(decreases_to!(items => items[i as int]));
            assert(items@.take(i + 1).drop_last() =~= items@.take(i as int));
            assert(items@.take(i + 1).last() == items@[i as int]);
        }
        let n = pod_node(&items[i], floats);
        let ghost before = out@;
        out.push(n);
        assert(out@.drop_last() =~= before);
        i = i + 1;
    }
    assert(items@.take(items.len() as int) =~= items@);
    out
}

/// The entries of the data that `gray_matter` found, as keys and nodes for
/// `frontmatter_row`: those of a hash, in order; none otherwise.
pub fn pod_entries(d: &Option<PodTree>, floats: &Vec<(String, Float)>) -> (r: Vec<(FrontNode, FrontNode)>)
    ensures
        match *d {
            Some(PodTree::Hash(entries)) => {
                &&& r.len() == entries.len()
                &&& forall|i: int| 0 <= i < r.len() ==> (#[trigger] r@[i]).0 is Str && r@[i].0->Str_0@ == entries@[i].0@
                    && spec_from_yaml(r@[i].1) == pod_value(entries@[i].1, floats@)
            },
            _ => r.len() == 0,
        },
        forall|k: Seq<char>| #[trigger] entry_value(r@, k) == pod_field(*d, floats@, k),
{
    let mut out: Vec<(FrontNode, FrontNode)> = Vec::new();
    match d {
        Some(PodTree::Hash(entries)) => {
            let mut i: usize = 0;
            while i < entries.len()
                invariant
                    i <= entries.len(),
                    out.len() == i,
                    forall|j: int| 0 <= j < i ==> (#[trigger] out@[j]).0 is Str && out@[j].0->Str_0@ == entries@[j].0@
                        && spec_from_yaml(out@[j].1) == pod_value(entries@[j].1, floats@),
                    forall|k: Seq<char>| #[trigger] entry_value(out@, k) == hash_field(entries@.take(i as int), floats@, k),
                decreases entries.len() - i,
            {
                let key = FrontNode::Str(entries[i].0.clone());
                let node = pod_node(&entries[i].1, floats);
                let ghost before = out@;
                out.push((key, node));
                proof {
                    assert(out@.drop_last() =~= before);
                    assert(entries@.take(i + 1).drop_last() =~= entries@.take(i as int));
                    assert(entries@.take(i + 1).last() == entries@[i as int]);
                    assert(out@.last().0 is Str && out@.last().0->Str_0@ == entries@[i as int].0@);
                    assert(spec_from_yaml(out@.last().1) == pod_value(entries@[i as int].1, floats@));
                    assert forall|k: Seq<char>| #[trigger] entry_value(out@, k) == hash_field(entries@.take(i + 1), floats@, k) by {
                        if entries@[i as int].0@ != k {
                            assert(entry_value(out@, k) == entry_value(before, k));
                        }
                    }
                }
                i = i + 1;
            }
            assert(entries@.take(entries.len() as int) =~= entries@);
        },
        _ => {},
    }
    out
}

/// Reads a file's whole text with `gray_matter`: the fields of its front
/// matter, and its body (see `full_read`).
pub fn read_full_text(raw: &str, floats: &Vec<(String, Float)>) -> (r: (Row, String))
    ensures
        exists|d: Option<PodTree>| #[trigger] full_read(raw@, floats@, d, r.0@, r.1@),
{
    let (data, content) = gray_matter_split(raw);
    let row = frontmatter_row(&pod_entries(&data, floats));
    let r = (row, content);
    assert(full_read(raw@, floats@, data, r.0@, r.1@));
    r
}

fn collect_pod_floats(p: &PodTree, out: &mut Vec<String>)
    ensures
        texts(final(out)@) == texts(old(out)@) + pod_floats(*p),
    decreases p, 1int,
{
    match p {
        PodTree::Float(t) => {
            proof {
                lemma_texts_push(out@, *t);
            }
            out.push(t.clone());
            assert(texts(out@) =~= texts(old(out)@) + seq![t@]);
        },
        PodTree::Array(items) => collect_array_floats(items, out),
        PodTree::Hash(entries) => collect_hash_floats(entries, out),
        _ => {
            assert(texts(out@) =~= texts(old(out)@) + Seq::<Seq<char>>::empty());
        },
    }
}

fn collect_array_floats(items: &Vec<PodTree>, out: &mut Vec<String>)
    ensures
        texts(final(out)@) == texts(old(out)@) + array_floats(items@),
    decreases items, 0int,
{
    let ghost start = texts(out@);
    let mut i: usize = 0;
    assert(items@.take(0) =~= Seq::<PodTree>::empty());
    assert(start + array_floats(items@.take(0)) =~= start);
    while i < items.len()
        invariant
            i <= items.len(),
            texts(out@) == start + array_floats(items@.take(i as int)),
        decreases items.len() - i,
    {
        proof {
            assert(decreases_to!(items => items[i as int]));
            assert(items@.take(i + 1).drop_last() =~= items@.take(i as int));
            assert(items@.take(i + 1).last() == items@[i as int]);
        }
        collect_pod_floats(&items[i], out);
        assert(texts(out@) =~= start + array_floats(items@.take(i + 1)));
        i = i + 1;
    }
    assert(items@.take(items.len() as int) =~= items@);
}

fn collect_hash_floats(entries: &Vec<(String, PodTree, String)>, out: &mut Vec<String>)
    ensures
        texts(final(out)@) == texts(old(out)@) + hash_floats(entries@),
    decreases entries, 0int,
{
    let ghost start = texts(out@);
    let mut i: usize = 0;
    assert(entries@.take(0) =~= Seq::<(String, PodTree, String)>::empty());
    assert(start + hash_floats(entries@.take(0)) =~= start);
    while i < entries.len()
        invariant
            i <= entries.len(),
            texts(out@) == start + hash_floats(entries@.take(i as int)),
        decreases entries.len() - i,
    {
        proof {
            assert(decreases_to!(entries => entries[i as int]));
            assert(entries@.take(i + 1).drop_last() =~= entries@.take(i as int));
            assert(entries@.take(i + 1).last() == entries@[i as int]);
        }
        collect_pod_floats(&entries[i].1, out);
        assert(texts(out@) =~= start + hash_floats(entries@.take(i + 1)));
        i = i + 1;
    }
    assert(entries@.take(entries.len() as int) =~= entries@);
}

/// The texts of the floats in the front matter that `gray_matter` finds in
/// a file's text: what the caller turns into the table of floats for
/// `read_full_text` (see `matter_floats`).
pub fn matter_float_texts(raw: &str) -> (r: Vec<String>)
    ensures
        exists|d: Option<PodTree>| #[trigger] matter_floats(raw@, d, texts(r@)),
{
    let (data, content) = gray_matter_split(raw);
    let mut out: Vec<String> = Vec::new();
    match &data {
        Some(t) => {
            collect_pod_floats(t, &mut out);
            assert(texts(out@) =~= pod_floats(*t));
        },
        None => {
            assert(texts(out@) =~= Seq::<Seq<char>>::empty());
        },
    }
    assert(matter_floats(raw@, data, texts(out@)));
    out
}

/// Whether a node holds no hash, at any depth.
pub open spec fn hash_free(m: PodModel) -> bool
    decreases m,
{
    match m {
        PodModel::Hash(_) => false,
        PodModel::Array(items) => hash_free_all(items),
        _ => true,
    }
}

pub open spec fn hash_free_all(s: Seq<PodModel>) -> bool
    decreases s,
{
    if s.len() == 0 {
        true
    } else {
        hash_free_all(s.drop_last()) && hash_free(s.last())
    }
}

/// The field `k` that `gray_matter` finds in a file's text holds no hash
/// (or there is no such field).
pub open spec fn matter_field_hash_free(raw: Seq<char>, k: Seq<char>) -> bool {
    match spec_gray_matter(raw).0 {
        Some(PodModel::Hash(m)) => m.contains_key(k) ==> hash_free(m[k]),
        _ => true,
    }
}

/// Nodes that hold the same, and no hash, have the same value.
proof fn lemma_pod_value_determined(a: PodTree, b: PodTree, floats: Seq<(String, Float)>)
    requires
        pod_model(a) == pod_model(b),
        hash_free(pod_model(a)),
    ensures
        pod_value(a, floats) == pod_value(b, floats),
    decreases a,
{
    match a {
        PodTree::Array(ia) => match b {
            PodTree::Array(ib) => {
                lemma_pod_values_determined(ia@, ib@, floats);
            },
            _ => {},
        },
        _ => {},
    }
}

proof fn lemma_pod_values_determined(sa: Seq<PodTree>, sb: Seq<PodTree>, floats: Seq<(String, Float)>)
    requires
        pod_models(sa) == pod_models(sb),
        hash_free_all(pod_models(sa)),
    ensures
        pod_values(sa, floats) == pod_values(sb, floats),
    decreases sa,
{
    if sa.len() > 0 {
        if sb.len() == 0 {
            assert(pod_models(sb).len() == 0);
            assert(pod_models(sa).len() > 0);
        }
        assert(pod_models(sa).drop_last() =~= pod_models(sa.drop_last()));
        assert(pod_models(sb).drop_last() =~= pod_models(sb.drop_last()));
        assert(pod_models(sa).last() == pod_model(sa.last()));
        assert(pod_models(sb).last() == pod_model(sb.last()));
        lemma_pod_value_determined(sa.last(), sb.last(), floats);
        lemma_pod_values_determined(sa.drop_last(), sb.drop_last(), floats);
    } else if sb.len() > 0 {
        assert(pod_models(sb).len() > 0);
    }
}

/// A field that a hash's entries give is the value of one of its entries,
/// the one whose node the hash's content holds under that key.
proof fn lemma_hash_field(s: Seq<(String, PodTree, String)>, floats: Seq<(String, Float)>, k: Seq<char>)
    ensures
        hash_field(s, floats, k) is Some <==> hash_model(s).contains_key(k),
        hash_field(s, floats, k) is Some ==> exists|i: int| 0 <= i < s.len()
            && hash_field(s, floats, k) == Some(pod_value((#[trigger] s[i]).1, floats))
            && hash_model(s)[k] == pod_model(s[i].1),
    decreases s.len(),
{
    if s.len() > 0 {
        lemma_hash_field(s.drop_last(), floats, k);
        let n = s.len() - 1;
        if s.last().0@ == k {
            assert(s[n] == s.last());
        } else if hash_field(s, floats, k) is Some {
            let i = choose|i: int| 0 <= i < s.drop_last().len()
                && hash_field(s.drop_last(), floats, k) == Some(pod_value((#[trigger] s.drop_last()[i]).1, floats))
                && hash_model(s.drop_last())[k] == pod_model(s.drop_last()[i].1);
            assert(s[i] == s.drop_last()[i]);
        }
    }
}

/// Law: what a full read gives a field does not depend on the order in
/// which `gray_matter` walked its hashes, unless the field's value holds a
/// hash (whose text follows that order); nor does the body.
pub proof fn law_full_read_determined(
    raw: Seq<char>,
    floats: Seq<(String, Float)>,
    d1: Option<PodTree>,
    fields1: RowModel,
    content1: Seq<char>,
    d2: Option<PodTree>,
    fields2: RowModel,
    content2: Seq<char>,
    k: Seq<char>,
)
    requires
        full_read(raw, floats, d1, fields1, content1),
        full_read(raw, floats, d2, fields2, content2),
        matter_field_hash_free(raw, k),
    ensures
        spec_get(fields1, k) == spec_get(fields2, k),
        content1 == content2,
{
    assert(spec_get(fields1, k) == pod_field(d1, floats, k));
    assert(spec_get(fields2, k) == pod_field(d2, floats, k));
    match (d1, d2) {
        (Some(PodTree::Hash(e1)), Some(PodTree::Hash(e2))) => {
            assert(hash_model(e1@) == hash_model(e2@));
            lemma_hash_field(e1@, floats, k);
            lemma_hash_field(e2@, floats, k);
            if hash_field(e1@, floats, k) is Some {
                let i = choose|i: int| 0 <= i < e1@.len()
                    && hash_field(e1@, floats, k) == Some(pod_value((#[trigger] e1@[i]).1, floats))
                    && hash_model(e1@)[k] == pod_model(e1@[i].1);
                let j = choose|j: int| 0 <= j < e2@.len()
                    && hash_field(e2@, floats, k) == Some(pod_value((#[trigger] e2@[j]).1, floats))
                    && hash_model(e2@)[k] == pod_model(e2@[j].1);
                lemma_pod_value_determined(e1@[i].1, e2@[j].1, floats);
            }
        },
        (Some(PodTree::Hash(e1)), Some(t2)) => {
            assert(pod_model(t2) is Hash);
        },
        (Some(t1), Some(PodTree::Hash(e2))) => {
            assert(pod_model(t1) is Hash);
        },
        _ => {},
    }
}

/// Law: once the closing delimiter is read, the lines after it change no
/// field of the fast path, so the program stops reading there.
pub proof fn law_fast_path_stops(before: Seq<Seq<char>>, after: Seq<Seq<char>>, floats: Seq<(String, Float)>, k: Seq<char>)
    requires
        scan_lines(before) is Done,
    ensures
        spec_read_frontmatter(before + after, floats, k) == spec_read_frontmatter(before, floats, k),
{
    law_scan_stops(before, after);
}

} // verus!
