//! A row: one markdown file's queryable data, its frontmatter fields and
//! virtual columns keyed by column name, kept in ascending key order.
use vstd::prelude::*;
use crate::text::{compare_strs, lex_sign, lemma_lex_sign_basics, lemma_lex_sign_transitive};
use crate::value::{copy_value, model_of, Value, ValueModel};

verus! {

/// The entries of a row: (column name, value) in ascending name order.
pub type RowModel = Seq<(Seq<char>, ValueModel)>;

pub open spec fn entries_of(s: Seq<(String, Value)>) -> RowModel {
    s.map_values(|e: (String, Value)| (e.0@, model_of(e.1)))
}

/// Whether the names strictly ascend (so that each occurs once).
pub open spec fn keys_sorted(e: RowModel) -> bool {
    forall|i: int, j: int| 0 <= i < j < e.len() ==> lex_sign(#[trigger] e[i].0, #[trigger] e[j].0) < 0
}

/// The value under `key`.
pub open spec fn spec_get(e: RowModel, key: Seq<char>) -> Option<ValueModel>
    decreases e.len(),
{
    if e.len() == 0 {
        None
    } else if e.last().0 == key {
        Some(e.last().1)
    } else {
        spec_get(e.drop_last(), key)
    }
}

/// The value under `key`, or null when the row has none (what a column
/// reference evaluates to).
pub open spec fn get_or_null(e: RowModel, key: Seq<char>) -> ValueModel {
    match spec_get(e, key) {
        Some(v) => v,
        None => ValueModel::Null,
    }
}

/// The column names of a row, in order.
pub open spec fn row_keys(e: RowModel) -> Seq<Seq<char>> {
    e.map_values(|x: (Seq<char>, ValueModel)| x.0)
}

/// A single row representing one markdown file's queryable data.
///
/// The fields are kept as a vector of entries sorted by name, each name
/// once (see `keys_sorted`), which iterates as a `BTreeMap<String, Value>`
/// would: a map keyed by `String` leaves Verus unable to follow what a
/// lookup finds after an insert, on which every contract here rests.
#[derive(Debug)]
pub struct Row {
    fields: Vec<(String, Value)>,
}

impl View for Row {
    type V = RowModel;

    closed spec fn view(&self) -> RowModel {
        entries_of(self.fields@)
    }
}

/// `spec_get` finds the entry whose name is `key`, if any.
pub proof fn lemma_spec_get(e: RowModel, key: Seq<char>)
    ensures
        spec_get(e, key) is None <==> forall|i: int| 0 <= i < e.len() ==> #[trigger] e[i].0 != key,
        spec_get(e, key) matches Some(v) ==> exists|i: int| 0 <= i < e.len() && #[trigger] e[i].0 == key && e[i].1 == v,
    decreases e.len(),
{
    if e.len() > 0 {
        lemma_spec_get(e.drop_last(), key);
        if e.last().0 == key {
            assert(e[e.len() - 1].0 == key);
        } else {
            assert forall|i: int| 0 <= i < e.len() - 1 implies #[trigger] e[i] == e.drop_last()[i] by {}
            if spec_get(e, key) is None {
                assert forall|i: int| 0 <= i < e.len() implies #[trigger] e[i].0 != key by {
                    if i < e.len() - 1 {
                        assert(e.drop_last()[i].0 != key);
                    }
                }
            }
            if let Some(v) = spec_get(e, key) {
                let i = choose|i: int| 0 <= i < e.drop_last().len() && #[trigger] e.drop_last()[i].0 == key && e.drop_last()[i].1 == v;
                assert(e[i] == e.drop_last()[i]);
            }
        }
    }
}

/// In a row with distinct names, the entry named `key` is what `spec_get` gives.
pub proof fn lemma_spec_get_at(e: RowModel, key: Seq<char>, i: int)
    requires
        keys_sorted(e),
        0 <= i < e.len(),
        e[i].0 == key,
    ensures
        spec_get(e, key) == Some(e[i].1),
{
    lemma_spec_get(e, key);
    if let Some(v) = spec_get(e, key) {
        let j = choose|j: int| 0 <= j < e.len() && #[trigger] e[j].0 == key && e[j].1 == v;
        if j != i {
            lemma_lex_sign_basics(e[i].0, e[j].0);
            if i < j {
                assert(lex_sign(e[i].0, e[j].0) < 0);
            } else {
                assert(lex_sign(e[j].0, e[i].0) < 0);
            }
        }
    }
}

impl Row {
    #[verifier::type_invariant]
    spec fn wf(self) -> bool {
        keys_sorted(entries_of(self.fields@))
    }

    /// An empty row.
    pub fn new() -> (r: Row)
        ensures
            r@ == Seq::<(Seq<char>, ValueModel)>::empty(),
    {
        let r = Row { fields: Vec::new() };
        assert(r@ =~= Seq::<(Seq<char>, ValueModel)>::empty());
        r
    }

    /// The entries are in strictly ascending name order.
    pub fn well_formed(&self)
        ensures
            keys_sorted(self@),
    {
        proof {
            use_type_invariant(self);
        }
    }

    /// Number of columns.
    pub fn len(&self) -> (n: usize)
        ensures
            n == self@.len(),
    {
        self.fields.len()
    }

    /// The column name and value at position `i` in name order.
    pub fn entry(&self, i: usize) -> (r: (&String, &Value))
        requires
            i < self@.len(),
        ensures
            r.0@ == self@[i as int].0,
            r.1@ == self@[i as int].1,
    {
        let e = &self.fields[i];
        (&e.0, &e.1)
    }

    /// The value stored under `key`.
    pub fn get(&self, key: &str) -> (r: Option<&Value>)
        ensures
            match r {
                Some(v) => spec_get(self@, key@) == Some(v@),
                None => spec_get(self@, key@) is None,
            },
    {
        let mut i = self.fields.len();
        assert(self@.take(i as int) =~= self@);
        while i > 0
            invariant
                i <= self.fields.len(),
                spec_get(self@, key@) == spec_get(self@.take(i as int), key@),
            decreases i,
        {
            let e = &self.fields[i - 1];
            assert(self@.take(i as int).drop_last() =~= self@.take(i - 1));
            if compare_strs(e.0.as_str(), key) == 0 {
                proof {
                    lemma_lex_sign_basics(e.0@, key@);
                }
                return Some(&e.1);
            }
            proof {
                lemma_lex_sign_basics(e.0@, key@);
            }
            i = i - 1;
        }
        None
    }

    /// The value stored under `key`, copied, or null when there is none.
    pub fn get_or_null(&self, key: &str) -> (r: Value)
        ensures
            r@ == get_or_null(self@, key@),
    {
        match self.get(key) {
            Some(v) => copy_value(v),
            None => Value::Null,
        }
    }

    /// Stores `value` under `key`, replacing what was there.
    pub fn insert(&mut self, key: String, value: Value)
        ensures
            keys_sorted(final(self)@),
            forall|k: Seq<char>| #[trigger] spec_get(final(self)@, k) == if k == key@ {
                Some(value@)
            } else {
                spec_get(old(self)@, k)
            },
    {
        proof {
            use_type_invariant(&*self);
        }
        let mut fields: Vec<(String, Value)> = Vec::new();
        std::mem::swap(&mut fields, &mut self.fields);
        let ghost old_e = entries_of(fields@);
        assert(old_e == old(self)@);
        let mut p: usize = 0;
        while p < fields.len() && compare_strs(fields[p].0.as_str(), key.as_str()) < 0
            invariant
                p <= fields.len(),
                entries_of(fields@) == old_e,
                keys_sorted(old_e),
                forall|i: int| 0 <= i < p ==> lex_sign(#[trigger] old_e[i].0, key@) < 0,
            decreases fields.len() - p,
        {
            p = p + 1;
        }
        let c: i8 = if p < fields.len() {
            compare_strs(fields[p].0.as_str(), key.as_str())
        } else {
            1
        };
        assert(p < fields.len() ==> c == lex_sign(old_e[p as int].0, key@) && c >= 0);
        let ghost key_v = key@;
        let ghost value_v = value@;
        proof {
            lemma_lex_sign_basics(key_v, key_v);
        }
        if p < fields.len() && c == 0 {
            fields.set(p, (key, value));
            let ghost new_e = entries_of(fields@);
            proof {
                lemma_lex_sign_basics(old_e[p as int].0, key_v);
                assert(new_e =~= old_e.update(p as int, (key_v, value_v)));
                assert(keys_sorted(new_e)) by {
                    assert forall|i: int, j: int| 0 <= i < j < new_e.len() implies lex_sign(
                        #[trigger] new_e[i].0,
                        #[trigger] new_e[j].0,
                    ) < 0 by {
                        assert(lex_sign(old_e[i].0, old_e[j].0) < 0);
                    }
                }
                assert forall|k: Seq<char>| #[trigger] spec_get(new_e, k) == if k == key_v {
                    Some(value_v)
                } else {
                    spec_get(old_e, k)
                } by {
                    lemma_spec_get(old_e, k);
                    lemma_spec_get(new_e, k);
                    if k == key_v {
                        lemma_spec_get_at(new_e, k, p as int);
                    } else {
                        if let Some(v) = spec_get(old_e, k) {
                            let i = choose|i: int| 0 <= i < old_e.len() && #[trigger] old_e[i].0 == k && old_e[i].1 == v;
                            assert(i != p);
                            lemma_spec_get_at(new_e, k, i);
                        }
                        if let Some(v) = spec_get(new_e, k) {
                            let i = choose|i: int| 0 <= i < new_e.len() && #[trigger] new_e[i].0 == k && new_e[i].1 == v;
                            assert(i != p);
                            lemma_spec_get_at(old_e, k, i);
                        }
                    }
                }
            }
        } else {
            fields.insert(p, (key, value));
            let ghost new_e = entries_of(fields@);
            proof {
                assert(new_e =~= old_e.insert(p as int, (key_v, value_v)));
                assert(forall|j: int| p <= j < old_e.len() ==> lex_sign(key_v, #[trigger] old_e[j].0) < 0) by {
                    assert forall|j: int| p <= j < old_e.len() implies lex_sign(key_v, #[trigger] old_e[j].0) < 0 by {
                        lemma_lex_sign_basics(old_e[p as int].0, key_v);
                        if j > p {
                            assert(lex_sign(old_e[p as int].0, old_e[j].0) < 0);
                            lemma_lex_sign_transitive(key_v, old_e[p as int].0, old_e[j].0);
                        }
                    }
                }
                assert(keys_sorted(new_e)) by {
                    assert forall|i: int, j: int| 0 <= i < j < new_e.len() implies lex_sign(
                        #[trigger] new_e[i].0,
                        #[trigger] new_e[j].0,
                    ) < 0 by {
                        if i < p && j < p {
                            assert(lex_sign(old_e[i].0, old_e[j].0) < 0);
                        } else if i < p && j == p {
                        } else if i < p && j > p {
                            assert(lex_sign(old_e[i].0, old_e[j - 1].0) < 0);
                        } else if i == p {
                        } else {
                            assert(lex_sign(old_e[i - 1].0, old_e[j - 1].0) < 0);
                        }
                    }
                }
                assert forall|k: Seq<char>| #[trigger] spec_get(new_e, k) == if k == key_v {
                    Some(value_v)
                } else {
                    spec_get(old_e, k)
                } by {
                    lemma_spec_get(old_e, k);
                    lemma_spec_get(new_e, k);
                    if k == key_v {
                        lemma_spec_get_at(new_e, k, p as int);
                    } else {
                        if let Some(v) = spec_get(old_e, k) {
                            let i = choose|i: int| 0 <= i < old_e.len() && #[trigger] old_e[i].0 == k && old_e[i].1 == v;
                            if i < p {
                                lemma_spec_get_at(new_e, k, i);
                            } else {
                                assert(new_e[i + 1] == old_e[i]);
                                lemma_spec_get_at(new_e, k, i + 1);
                            }
                        }
                        if let Some(v) = spec_get(new_e, k) {
                            let i = choose|i: int| 0 <= i < new_e.len() && #[trigger] new_e[i].0 == k && new_e[i].1 == v;
                            if i < p {
                                lemma_spec_get_at(old_e, k, i);
                            } else {
                                assert(i != p);
                                lemma_spec_get_at(old_e, k, i - 1);
                            }
                        }
                    }
                }
            }
        }
        self.fields = fields;
    }

    /// A copy of the row with the same entries.
    pub fn copy(&self) -> (r: Row)
        ensures
            r@ == self@,
    {
        proof {
            use_type_invariant(self);
        }
        let mut fields: Vec<(String, Value)> = Vec::new();
        let mut i: usize = 0;
        while i < self.fields.len()
            invariant
                i <= self.fields.len(),
                entries_of(fields@) == entries_of(self.fields@).take(i as int),
            decreases self.fields.len() - i,
        {
            let e = &self.fields[i];
            let ghost before = fields@;
            fields.push((e.0.clone(), copy_value(&e.1)));
            assert(entries_of(fields@) =~= entries_of(self.fields@).take(i + 1)) by {
                assert(entries_of(fields@) =~= entries_of(before).push((e.0@, model_of(e.1))));
            }
            i = i + 1;
        }
        assert(entries_of(self.fields@).take(i as int) =~= entries_of(self.fields@));
        Row { fields }
    }

    /// The column names, in ascending order.
    pub fn keys(&self) -> (r: Vec<String>)
        ensures
            r@.map_values(|s: String| s@) == row_keys(self@),
    {
        let mut r: Vec<String> = Vec::new();
        let mut i: usize = 0;
        while i < self.fields.len()
            invariant
                i <= self.fields.len(),
                r@.map_values(|s: String| s@) == row_keys(self@).take(i as int),
            decreases self.fields.len() - i,
        {
            let ghost before = r@;
            r.push(self.fields[i].0.clone());
            assert(r@ == before.push(self.fields@[i as int].0));
            assert(self@[i as int].0 == self.fields@[i as int].0@);
            assert(r@.map_values(|s: String| s@) =~= row_keys(self@).take(i + 1)) by {
                assert(r@.map_values(|s: String| s@) =~= before.map_values(|s: String| s@).push(
                    self.fields@[i as int].0@,
                ));
            }
            i = i + 1;
        }
        assert(row_keys(self@).take(i as int) =~= row_keys(self@));
        r
    }
}

} // verus!
