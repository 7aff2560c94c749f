//! SNIPPET: an excerpt of a text around the first match of a query.
//!
//! The window is measured in bytes of the UTF-8 text; a cut that would fall
//! inside a character moves to a character boundary (the start forward, the
//! end back), so that the excerpt holds whole characters.
use vstd::prelude::*;
use crate::preprocess::{skip_space_back, skip_space_fwd};
use crate::text::{
    char_width, chars_of, find_chars_from, find_first, is_whitespace, lemma_utf8_len_bound, push_all, push_str,
    slice_chars, spec_is_whitespace, spec_lowercase, string_of, to_lowercase, utf8_len, utf8_prefix_len,
};

verus! {

/// The first index at or after `i` holding whitespace.
pub open spec fn first_space_from(s: Seq<char>, i: int) -> Option<int>
    decreases s.len() - i,
{
    if i < 0 || i >= s.len() {
        None
    } else if spec_is_whitespace(s[i]) {
        Some(i)
    } else {
        first_space_from(s, i + 1)
    }
}

/// The last index before `i` holding whitespace.
pub open spec fn last_space_before(s: Seq<char>, i: int) -> Option<int>
    decreases i,
{
    if i <= 0 || i > s.len() {
        None
    } else if spec_is_whitespace(s[i - 1]) {
        Some(i - 1)
    } else {
        last_space_before(s, i - 1)
    }
}

/// `s` without leading and trailing whitespace (`str::trim`).
pub open spec fn trim_chars(s: Seq<char>) -> Seq<char> {
    let a = skip_space_fwd(s, 0);
    let b = skip_space_back(s, s.len() as int);
    if b < a {
        s.subrange(a, a)
    } else {
        s.subrange(a, b)
    }
}

/// The number of characters of `s`, from `from` on, whose UTF-8 bytes end
/// at or before byte `b`: the character boundary at or before `b`.
pub open spec fn char_floor_from(s: Seq<char>, b: int, from: int) -> int
    decreases s.len() - from,
{
    if 0 <= from < s.len() && utf8_len(s.take(from + 1)) <= b {
        char_floor_from(s, b, from + 1)
    } else {
        from
    }
}

/// The character boundary at or before byte `b`.
pub open spec fn char_floor(s: Seq<char>, b: int) -> int {
    char_floor_from(s, b, 0)
}

/// The character boundary at or after byte `b` (the end of the text past it).
pub open spec fn char_ceil(s: Seq<char>, b: int) -> int {
    let f = char_floor(s, b);
    if f >= s.len() || utf8_len(s.take(f)) >= b {
        f
    } else {
        f + 1
    }
}

/// The character index where the excerpt starts, given the raw byte offset
/// `start0`: just past the first whitespace at or after it, unless it is 0.
pub open spec fn snippet_start(text: Seq<char>, start0: int) -> int {
    if start0 <= 0 {
        0
    } else {
        let c = char_ceil(text, start0);
        match first_space_from(text, c) {
            Some(w) => w + 1,
            None => c,
        }
    }
}

/// The character index where the excerpt ends, given the raw byte offset
/// `end0`: at the last whitespace before it, if any.
pub open spec fn cut_back_to_space(text: Seq<char>, end0: int) -> int {
    let c = char_floor(text, end0);
    match last_space_before(text, c) {
        Some(r) => r,
        None => c,
    }
}

/// `text[start..end]` without surrounding whitespace (empty where the
/// window closed on itself).
pub open spec fn slice_trim(text: Seq<char>, start: int, end: int) -> Seq<char> {
    if start <= end {
        trim_chars(text.subrange(start, end))
    } else {
        Seq::empty()
    }
}

/// The excerpt of `text` around the first case-insensitive occurrence of
/// `query`, with about `ctx` bytes of context on either side, cut at
/// whitespace and marked with `...` where text was left out; without an
/// occurrence, the beginning of the text.
pub open spec fn spec_snippet(text: Seq<char>, query: Seq<char>, ctx: int) -> Seq<char> {
    let total = utf8_len(text) as int;
    let lower = spec_lowercase(text);
    match find_first(lower, spec_lowercase(query)) {
        Some(j) => {
            let pos = utf8_len(lower.take(j)) as int;
            let start0 = if pos >= ctx {
                pos - ctx
            } else {
                0
            };
            let end0 = if pos + utf8_len(query) + ctx < total {
                pos + utf8_len(query) + ctx
            } else {
                total
            };
            let start = snippet_start(text, start0);
            let end = if end0 < total {
                cut_back_to_space(text, end0)
            } else {
                text.len() as int
            };
            (if start > 0 {
                "..."@
            } else {
                ""@
            }) + slice_trim(text, start, end) + (if end < text.len() {
                "..."@
            } else {
                ""@
            })
        },
        None => {
            let end0 = if ctx < total {
                ctx
            } else {
                total
            };
            let end = cut_back_to_space(text, end0);
            slice_trim(text, 0, end) + (if end < text.len() {
                "..."@
            } else {
                ""@
            })
        },
    }
}

fn first_space_index(s: &Vec<char>, from: usize) -> (r: Option<usize>)
    requires
        from <= s.len(),
    ensures
        match r {
            Some(w) => first_space_from(s@, from as int) == Some(w as int) && w < s.len(),
            None => first_space_from(s@, from as int) is None,
        },
{
    let mut i = from;
    while i < s.len()
        invariant
            from <= i <= s.len(),
            first_space_from(s@, from as int) == first_space_from(s@, i as int),
        decreases s.len() - i,
    {
        if is_whitespace(s[i]) {
            return Some(i);
        }
        i = i + 1;
    }
    None
}

fn last_space_index(s: &Vec<char>, before: usize) -> (r: Option<usize>)
    requires
        before <= s.len(),
    ensures
        match r {
            Some(w) => last_space_before(s@, before as int) == Some(w as int) && w < before,
            None => last_space_before(s@, before as int) is None,
        },
{
    let mut i = before;
    while i > 0
        invariant
            i <= before <= s.len(),
            last_space_before(s@, before as int) == last_space_before(s@, i as int),
        decreases i,
    {
        if is_whitespace(s[i - 1]) {
            return Some(i - 1);
        }
        i = i - 1;
    }
    None
}

/// `s[a..b]` without leading and trailing whitespace.
pub(crate) fn trimmed_slice(s: &Vec<char>, a: usize, b: usize) -> (r: Vec<char>)
    requires
        a <= b <= s.len(),
    ensures
        r@ == trim_chars(s@.subrange(a as int, b as int)),
{
    let piece = slice_chars(s, a, b);
    let mut x: usize = 0;
    while x < piece.len() && is_whitespace(piece[x])
        invariant
            x <= piece.len(),
            skip_space_fwd(piece@, 0) == skip_space_fwd(piece@, x as int),
        decreases piece.len() - x,
    {
        x = x + 1;
    }
    let mut y: usize = piece.len();
    while y > 0 && is_whitespace(piece[y - 1])
        invariant
            y <= piece.len(),
            skip_space_back(piece@, piece.len() as int) == skip_space_back(piece@, y as int),
        decreases y,
    {
        y = y - 1;
    }
    if y < x {
        slice_chars(&piece, x, x)
    } else {
        slice_chars(&piece, x, y)
    }
}

/// The character boundary at or before byte `b` (see `char_floor`).
fn floor_index(t: &Vec<char>, b: u128) -> (r: usize)
    ensures
        r == char_floor(t@, b as int),
        r <= t.len(),
{
    let mut k: usize = 0;
    let mut bytes: u128 = 0;
    proof {
        lemma_utf8_len_bound(t@);
    }
    while k < t.len()
        invariant
            k <= t.len(),
            bytes == utf8_len(t@.take(k as int)),
            bytes <= 4 * k,
            char_floor(t@, b as int) == char_floor_from(t@, b as int, k as int),
        decreases t.len() - k,
    {
        let w = char_width(t[k]) as u128;
        assert(t@.take(k + 1).drop_last() =~= t@.take(k as int));
        if bytes + w > b {
            return k;
        }
        bytes = bytes + w;
        k = k + 1;
    }
    k
}

/// The character boundary at or after byte `b` (see `char_ceil`).
fn ceil_index(t: &Vec<char>, b: u128) -> (r: usize)
    ensures
        r == char_ceil(t@, b as int),
        r <= t.len(),
{
    let f = floor_index(t, b);
    if f >= t.len() || utf8_prefix_len(t, f) >= b {
        f
    } else {
        f + 1
    }
}

/// The excerpt's end (see `cut_back_to_space`).
fn cut_back(t: &Vec<char>, end0: u128) -> (r: usize)
    ensures
        r == cut_back_to_space(t@, end0 as int),
        r <= t.len(),
{
    let c = floor_index(t, end0);
    match last_space_index(t, c) {
        Some(r) => r,
        None => c,
    }
}

/// `t[start..end].trim()` (see `slice_trim`).
fn slice_trim_exec(t: &Vec<char>, start: usize, end: usize) -> (r: Vec<char>)
    requires
        start <= t.len(),
        end <= t.len(),
    ensures
        r@ == slice_trim(t@, start as int, end as int),
{
    if start <= end {
        trimmed_slice(t, start, end)
    } else {
        Vec::new()
    }
}

/// Extract a snippet of text around a query match (see `spec_snippet`).
pub fn extract_snippet(text: &str, query: &str, context_chars: usize) -> (r: String)
    ensures
        r@ == spec_snippet(text@, query@, context_chars as int),
{
    let t = chars_of(text);
    let q = chars_of(query);
    let lower_text = to_lowercase(text);
    let lower_query = to_lowercase(query);
    let lt = chars_of(lower_text.as_str());
    let lq = chars_of(lower_query.as_str());
    let total = utf8_prefix_len(&t, t.len());
    assert(t@.take(t.len() as int) =~= t@);
    let ctx = context_chars as u128;
    match find_chars_from(&lt, &lq, 0) {
        Some(j) => {
            let pos = utf8_prefix_len(&lt, j);
            let qlen = utf8_prefix_len(&q, q.len());
            assert(q@.take(q.len() as int) =~= q@);
            let start0 = if pos >= ctx {
                pos - ctx
            } else {
                0
            };
            let end0 = if pos + qlen + ctx < total {
                pos + qlen + ctx
            } else {
                total
            };
            let start = if start0 == 0 {
                0
            } else {
                let c = ceil_index(&t, start0);
                match first_space_index(&t, c) {
                    Some(w) => w + 1,
                    None => c,
                }
            };
            let end = if end0 < total {
                cut_back(&t, end0)
            } else {
                t.len()
            };
            let body = slice_trim_exec(&t, start, end);
            let mut out: Vec<char> = Vec::new();
            if start > 0 {
                push_str(&mut out, "...");
            }
            push_all(&mut out, &body);
            if end < t.len() {
                push_str(&mut out, "...");
            }
            proof {
                reveal_strlit("");
                let pre = if start > 0 { "..."@ } else { ""@ };
                let post = if end < t.len() { "..."@ } else { ""@ };
                assert(out@ =~= pre + body@ + post);
            }
            string_of(&out)
        },
        None => {
            let end0 = if ctx < total {
                ctx
            } else {
                total
            };
            let end = cut_back(&t, end0);
            let body = slice_trim_exec(&t, 0, end);
            let mut out: Vec<char> = Vec::new();
            push_all(&mut out, &body);
            if end < t.len() {
                push_str(&mut out, "...");
            }
            proof {
                reveal_strlit("");
                let post = if end < t.len() { "..."@ } else { ""@ };
                assert(out@ =~= body@ + post);
            }
            string_of(&out)
        },
    }
}

} // verus!
