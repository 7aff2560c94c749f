//! SQL `LIKE` patterns: `%` stands for any run of characters, `_` for exactly
//! one; the match ignores case.
use vstd::prelude::*;
use crate::text::{chars_of, spec_lowercase, to_lowercase};

verus! {

/// Whether `value[vi..]` matches `pattern[pi..]`.
pub open spec fn spec_like_from(value: Seq<char>, pattern: Seq<char>, vi: int, pi: int) -> bool
    decreases pattern.len() - pi, value.len() + 1 - vi, 1int,
    when 0 <= pi <= pattern.len() && 0 <= vi <= value.len() + 1
{
    if pi >= pattern.len() {
        vi == value.len()
    } else if pattern[pi] == '%' {
        spec_like_any(value, pattern, vi, pi)
    } else if pattern[pi] == '_' {
        vi < value.len() && spec_like_from(value, pattern, vi + 1, pi + 1)
    } else {
        vi < value.len() && value[vi] == pattern[pi] && spec_like_from(value, pattern, vi + 1, pi + 1)
    }
}

/// Whether `value[i..]` matches `pattern[pi + 1..]` for some `i` from `from` on:
/// the choices that a `%` at `pattern[pi]` leaves open.
pub open spec fn spec_like_any(value: Seq<char>, pattern: Seq<char>, from: int, pi: int) -> bool
    decreases pattern.len() - pi, value.len() + 1 - from, 0int,
    when 0 <= pi < pattern.len() && 0 <= from <= value.len() + 1
{
    if from > value.len() {
        false
    } else {
        spec_like_from(value, pattern, from, pi + 1) || spec_like_any(value, pattern, from + 1, pi)
    }
}

/// Whether the whole of `value` matches `pattern`, letter case aside.
pub open spec fn spec_like(value: Seq<char>, pattern: Seq<char>) -> bool {
    spec_like_from(spec_lowercase(value), spec_lowercase(pattern), 0, 0)
}

/// Matches `value[vi..]` against `pattern[pi..]`; a start past the end of
/// the value matches nothing.
pub fn like_match_inner(value: &Vec<char>, pattern: &Vec<char>, vi: usize, pi: usize) -> (r: bool)
    requires
        pi <= pattern.len(),
    ensures
        r == (vi <= value.len() && spec_like_from(value@, pattern@, vi as int, pi as int)),
    decreases pattern.len() - pi,
{
    if pi == pattern.len() {
        return vi == value.len();
    }
    if vi > value.len() {
        return false;
    }
    let ch = pattern[pi];
    if ch == '%' {
        let mut i = vi;
        loop
            invariant
                vi <= i <= value.len(),
                pi < pattern.len(),
                pattern@[pi as int] == '%',
                spec_like_any(value@, pattern@, vi as int, pi as int)
                    == spec_like_any(value@, pattern@, i as int, pi as int),
            decreases value.len() - i,
        {
            if like_match_inner(value, pattern, i, pi + 1) {
                return true;
            }
            if i == value.len() {
                assert(!spec_like_any(value@, pattern@, i + 1, pi as int));
                return false;
            }
            i = i + 1;
        }
    } else if ch == '_' {
        if vi < value.len() {
            like_match_inner(value, pattern, vi + 1, pi + 1)
        } else {
            false
        }
    } else {
        if vi < value.len() && value[vi] == ch {
            like_match_inner(value, pattern, vi + 1, pi + 1)
        } else {
            false
        }
    }
}

/// SQL `LIKE`: whether `value` matches `pattern`, both taken in lowercase.
pub fn like_match(value: &str, pattern: &str) -> (r: bool)
    ensures
        r == spec_like(value@, pattern@),
{
    let value = to_lowercase(value);
    let pattern = to_lowercase(pattern);
    let v = chars_of(value.as_str());
    let p = chars_of(pattern.as_str());
    like_match_inner(&v, &p, 0, 0)
}

/// A `%` at the end of a pattern matches whatever is left of the text.
proof fn lemma_trailing_percent(value: Seq<char>, pattern: Seq<char>, from: int)
    requires
        pattern.len() >= 1,
        pattern[pattern.len() - 1] == '%',
        0 <= from <= value.len(),
    ensures
        spec_like_any(value, pattern, from, pattern.len() - 1),
    decreases value.len() - from,
{
    assert(spec_like_from(value, pattern, value.len() as int, pattern.len() as int));
    if from < value.len() {
        lemma_trailing_percent(value, pattern, from + 1);
    }
}

/// Law: the pattern `%` matches every text.
pub proof fn law_percent_matches_everything(value: Seq<char>)
    ensures
        spec_like_from(value, seq!['%'], 0, 0),
{
    lemma_trailing_percent(value, seq!['%'], 0);
}

/// Law: a pattern without `%` and `_` matches exactly the text equal to it
/// (from positions `vi` and `pi` on).
pub proof fn law_plain_pattern_matches_itself(value: Seq<char>, pattern: Seq<char>, vi: int, pi: int)
    requires
        0 <= vi <= value.len(),
        0 <= pi <= pattern.len(),
        forall|k: int| pi <= k < pattern.len() ==> #[trigger] pattern[k] != '%' && pattern[k] != '_',
    ensures
        spec_like_from(value, pattern, vi, pi) <==> value.skip(vi) == pattern.skip(pi),
    decreases pattern.len() - pi,
{
    if pi < pattern.len() {
        if vi < value.len() {
            law_plain_pattern_matches_itself(value, pattern, vi + 1, pi + 1);
            assert(value.skip(vi) =~= seq![value[vi]] + value.skip(vi + 1));
            assert(pattern.skip(pi) =~= seq![pattern[pi]] + pattern.skip(pi + 1));
            assert(pattern[pi] != '%' && pattern[pi] != '_');
            assert(spec_like_from(value, pattern, vi, pi) == (value[vi] == pattern[pi] && spec_like_from(
                value,
                pattern,
                vi + 1,
                pi + 1,
            )));
            if value.skip(vi) == pattern.skip(pi) {
                assert(value.skip(vi)[0] == pattern.skip(pi)[0]);
                assert(value.skip(vi + 1) =~= value.skip(vi).drop_first());
                assert(pattern.skip(pi + 1) =~= pattern.skip(pi).drop_first());
            }
        } else {
            assert(value.skip(vi).len() == 0);
            assert(pattern.skip(pi).len() > 0);
        }
    } else {
        assert(pattern.skip(pi).len() == 0);
        if vi == value.len() {
            assert(value.skip(vi) =~= pattern.skip(pi));
        }
    }
}

/// Law: `_` matches exactly one character, whichever it is.
pub proof fn law_underscore_matches_one_char(c: char)
    ensures
        spec_like_from(seq![c], seq!['_'], 0, 0),
        !spec_like_from(Seq::<char>::empty(), seq!['_'], 0, 0),
{
    reveal_with_fuel(spec_like_from, 3);
}

/// The `LIKE` relation, pattern character by pattern character: the empty
/// pattern matches the empty text; `%` matches nothing or takes one more
/// character; `_` takes one character, any other character one equal to it.
pub open spec fn like_rel(v: Seq<char>, p: Seq<char>) -> bool
    decreases p.len(), v.len(),
{
    if p.len() == 0 {
        v.len() == 0
    } else if p[0] == '%' {
        like_rel(v, p.skip(1)) || (v.len() >= 1 && like_rel(v.skip(1), p))
    } else if p[0] == '_' {
        v.len() >= 1 && like_rel(v.skip(1), p.skip(1))
    } else {
        v.len() >= 1 && v[0] == p[0] && like_rel(v.skip(1), p.skip(1))
    }
}

proof fn lemma_like_rel(v: Seq<char>, p: Seq<char>, vi: int, pi: int)
    requires
        0 <= vi <= v.len(),
        0 <= pi <= p.len(),
    ensures
        spec_like_from(v, p, vi, pi) == like_rel(v.skip(vi), p.skip(pi)),
    decreases p.len() - pi, v.len() - vi,
{
    let vs = v.skip(vi);
    let ps = p.skip(pi);
    if pi < p.len() {
        assert(ps.skip(1) =~= p.skip(pi + 1));
        assert(ps[0] == p[pi]);
        if vi < v.len() {
            assert(vs.skip(1) =~= v.skip(vi + 1));
            assert(vs[0] == v[vi]);
        }
        if p[pi] == '%' {
            assert(spec_like_from(v, p, vi, pi) == spec_like_any(v, p, vi, pi));
            assert(spec_like_any(v, p, vi, pi) == (spec_like_from(v, p, vi, pi + 1) || spec_like_any(v, p, vi + 1, pi)));
            lemma_like_rel(v, p, vi, pi + 1);
            if vi < v.len() {
                assert(spec_like_from(v, p, vi + 1, pi) == spec_like_any(v, p, vi + 1, pi));
                lemma_like_rel(v, p, vi + 1, pi);
            } else {
                assert(!spec_like_any(v, p, vi + 1, pi));
            }
        } else if vi < v.len() {
            lemma_like_rel(v, p, vi + 1, pi + 1);
        }
    } else {
        assert(ps.len() == 0);
    }
}

/// Law: `LIKE` is the relation `like_rel` between the lowercase value and
/// the lowercase pattern.
pub proof fn law_like_is_the_relation(value: Seq<char>, pattern: Seq<char>)
    ensures
        spec_like(value, pattern) == like_rel(spec_lowercase(value), spec_lowercase(pattern)),
{
    let v = spec_lowercase(value);
    let p = spec_lowercase(pattern);
    lemma_like_rel(v, p, 0, 0);
    assert(v.skip(0) =~= v);
    assert(p.skip(0) =~= p);
}

/// Law: a leading `%` matches a text where the rest of the pattern matches
/// one of its suffixes.
pub proof fn law_percent_takes_any_prefix(v: Seq<char>, p: Seq<char>)
    ensures
        like_rel(v, seq!['%'] + p) <==> exists|k: int| 0 <= k <= v.len() && #[trigger] like_rel(v.skip(k), p),
    decreases v.len(),
{
    let pp = seq!['%'] + p;
    assert(pp.skip(1) =~= p);
    assert(pp[0] == '%');
    assert(v.skip(0) =~= v);
    assert(like_rel(v, pp) == (like_rel(v, p) || (v.len() >= 1 && like_rel(v.skip(1), pp))));
    if like_rel(v, p) {
        assert(like_rel(v.skip(0), p));
    }
    if v.len() >= 1 {
        law_percent_takes_any_prefix(v.skip(1), p);
        assert forall|k: int| 1 <= k <= v.len() implies #[trigger] v.skip(k) == v.skip(1).skip(k - 1) by {
            assert(v.skip(k) =~= v.skip(1).skip(k - 1));
        }
        if like_rel(v.skip(1), pp) {
            let k = choose|k: int| 0 <= k <= v.skip(1).len() && #[trigger] like_rel(v.skip(1).skip(k), p);
            assert(v.skip(k + 1) == v.skip(1).skip(k));
            assert(like_rel(v.skip(k + 1), p));
        }
        if exists|k: int| 0 <= k <= v.len() && #[trigger] like_rel(v.skip(k), p) {
            let k = choose|k: int| 0 <= k <= v.len() && #[trigger] like_rel(v.skip(k), p);
            if k >= 1 {
                assert(v.skip(k) == v.skip(1).skip(k - 1));
                assert(like_rel(v.skip(1).skip(k - 1), p));
            }
        }
    } else {
        if exists|k: int| 0 <= k <= v.len() && #[trigger] like_rel(v.skip(k), p) {
            let k = choose|k: int| 0 <= k <= v.len() && #[trigger] like_rel(v.skip(k), p);
            assert(k == 0);
        }
    }
}

} // verus!
