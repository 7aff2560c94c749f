//! Rewrites of the query text that make mdquery's own syntax readable to a
//! standard SQL parser: `a CONTAINS b` becomes `CONTAINS(a, b)`, and the path
//! after `FROM` is quoted.
use vstd::prelude::*;
use crate::text::{
    ascii_upper, chars_equal, chars_of, is_alphanumeric, is_ascii, is_whitespace, push_all, push_str, slice_chars,
    spec_is_alphanumeric, spec_is_whitespace, spec_uppercase, string_of, to_uppercase,
};

verus! {

/// `" CONTAINS "`, the operator form that the rewrite looks for.
pub open spec fn contains_keyword() -> Seq<char> {
    " CONTAINS "@
}

/// Whether `c` may stand in an identifier token.
pub open spec fn is_ident_char(c: char) -> bool {
    spec_is_alphanumeric(c) || c == '_'
}

/// Steps back from `i` over whitespace.
pub open spec fn skip_space_back(s: Seq<char>, i: int) -> int
    decreases i,
{
    if i > 0 && i <= s.len() && spec_is_whitespace(s[i - 1]) {
        skip_space_back(s, i - 1)
    } else {
        i
    }
}

/// Steps back from `i` over characters other than `'`.
pub open spec fn skip_unquoted_back(s: Seq<char>, i: int) -> int
    decreases i,
{
    if i > 0 && i <= s.len() && s[i - 1] != '\'' {
        skip_unquoted_back(s, i - 1)
    } else {
        i
    }
}

/// Steps back from `i` over identifier characters.
pub open spec fn skip_ident_back(s: Seq<char>, i: int) -> int
    decreases i,
{
    if i > 0 && i <= s.len() && is_ident_char(s[i - 1]) {
        skip_ident_back(s, i - 1)
    } else {
        i
    }
}

/// Where the token that ends at `end` starts: a quoted string back to its
/// opening quote, or else a run of identifier characters; whitespace before
/// `end` belongs to the token.
pub open spec fn token_start(s: Seq<char>, end: int) -> int {
    let i = skip_space_back(s, end);
    if i > 0 && i <= s.len() && s[i - 1] == '\'' {
        let j = skip_unquoted_back(s, i - 1);
        if j > 0 { j - 1 } else { 0 }
    } else {
        skip_ident_back(s, i)
    }
}

/// Steps forward from `i` over whitespace.
pub open spec fn skip_space_fwd(s: Seq<char>, i: int) -> int
    decreases s.len() - i,
{
    if 0 <= i < s.len() && spec_is_whitespace(s[i]) {
        skip_space_fwd(s, i + 1)
    } else {
        i
    }
}

/// Steps forward from `i` over characters other than `'`.
pub open spec fn skip_unquoted_fwd(s: Seq<char>, i: int) -> int
    decreases s.len() - i,
{
    if 0 <= i < s.len() && s[i] != '\'' {
        skip_unquoted_fwd(s, i + 1)
    } else {
        i
    }
}

/// Steps forward from `i` over identifier characters.
pub open spec fn skip_ident_fwd(s: Seq<char>, i: int) -> int
    decreases s.len() - i,
{
    if 0 <= i < s.len() && is_ident_char(s[i]) {
        skip_ident_fwd(s, i + 1)
    } else {
        i
    }
}

/// Where the token that starts at `start` ends: leading whitespace, then a
/// quoted string with both quotes, or else a run of identifier characters.
pub open spec fn token_end(s: Seq<char>, start: int) -> int {
    let i = skip_space_fwd(s, start);
    if 0 <= i < s.len() && s[i] == '\'' {
        let j = skip_unquoted_fwd(s, i + 1);
        if j < s.len() { j + 1 } else { j }
    } else {
        skip_ident_fwd(s, i)
    }
}

/// `s` with its last `n` characters cut off (the left operand, which the
/// rewrite replaces), if it has that many.
pub open spec fn drop_chars(s: Seq<char>, n: int) -> Option<Seq<char>> {
    if 0 <= n <= s.len() {
        Some(s.take(s.len() - n))
    } else {
        None
    }
}

/// The text that replaces `left CONTAINS right`.
pub open spec fn contains_call(left: Seq<char>, right: Seq<char>) -> Seq<char> {
    "CONTAINS("@ + left + ", "@ + right + ")"@
}

/// The rewrite of `chars[i..]` appended to `out`; `upper` is the uppercase
/// text in which the operator is looked for. `None` where the rewrite has no
/// result: an uppercase text too short to hold the operator where the query
/// text has it, or a left operand longer than the text written so far.
pub open spec fn rewrite_from(chars: Seq<char>, upper: Seq<char>, i: int, out: Seq<char>) -> Option<
    Seq<char>,
>
    decreases chars.len() - i,
{
    if i < 0 || i >= chars.len() {
        Some(out)
    } else if i + 10 <= chars.len() && i + 10 > upper.len() {
        None
    } else if i + 10 <= chars.len() && upper.subrange(i, i + 10) == contains_keyword() {
        let left_start = token_start(chars, i);
        let right_end = token_end(chars, i + 10);
        proof {
            lemma_token_end(chars, i + 10);
        }
        match drop_chars(out, i - left_start) {
            None => None,
            Some(kept) => rewrite_from(
                chars,
                upper,
                right_end,
                kept + contains_call(
                    chars.subrange(left_start, i),
                    chars.subrange(i + 10, right_end),
                ),
            ),
        }
    } else {
        rewrite_from(chars, upper, i + 1, out.push(chars[i]))
    }
}

/// The query text with every `<token> CONTAINS <token>` replaced by
/// `CONTAINS(<token>, <token>)`; `None` where the uppercase text is too short
/// to hold the operator where the query text has it (see `rewrite_from`).
pub open spec fn spec_rewrite_contains(sql: Seq<char>) -> Option<Seq<char>> {
    rewrite_from(sql, spec_uppercase(sql), 0, Seq::empty())
}

pub proof fn lemma_skip_space_back(s: Seq<char>, i: int)
    requires
        0 <= i <= s.len(),
    ensures
        0 <= skip_space_back(s, i) <= i,
    decreases i,
{
    if i > 0 && spec_is_whitespace(s[i - 1]) {
        lemma_skip_space_back(s, i - 1);
    }
}

pub proof fn lemma_skip_space_fwd(s: Seq<char>, i: int)
    requires
        0 <= i <= s.len(),
    ensures
        i <= skip_space_fwd(s, i) <= s.len(),
    decreases s.len() - i,
{
    if i < s.len() && spec_is_whitespace(s[i]) {
        lemma_skip_space_fwd(s, i + 1);
    }
}

pub proof fn lemma_skip_unquoted_fwd(s: Seq<char>, i: int)
    requires
        0 <= i <= s.len(),
    ensures
        i <= skip_unquoted_fwd(s, i) <= s.len(),
    decreases s.len() - i,
{
    if i < s.len() && s[i] != '\'' {
        lemma_skip_unquoted_fwd(s, i + 1);
    }
}

pub proof fn lemma_skip_ident_fwd(s: Seq<char>, i: int)
    requires
        0 <= i <= s.len(),
    ensures
        i <= skip_ident_fwd(s, i) <= s.len(),
    decreases s.len() - i,
{
    if i < s.len() && is_ident_char(s[i]) {
        lemma_skip_ident_fwd(s, i + 1);
    }
}

pub proof fn lemma_token_end(s: Seq<char>, start: int)
    requires
        0 <= start <= s.len(),
    ensures
        start <= token_end(s, start) <= s.len(),
{
    lemma_skip_space_fwd(s, start);
    let i = skip_space_fwd(s, start);
    if 0 <= i < s.len() && s[i] == '\'' {
        lemma_skip_unquoted_fwd(s, i + 1);
    } else {
        lemma_skip_ident_fwd(s, i);
    }
}

/// Where the token that ends at `end` starts (see `token_start`).
pub fn find_token_start(chars: &[char], end: usize) -> (r: usize)
    requires
        end <= chars@.len(),
    ensures
        r == token_start(chars@, end as int),
        r <= end,
{
    let mut i = end;
    while i > 0 && is_whitespace(chars[i - 1])
        invariant
            i <= end <= chars@.len(),
            skip_space_back(chars@, end as int) == skip_space_back(chars@, i as int),
        decreases i,
    {
        i = i - 1;
    }
    proof {
        lemma_skip_space_back(chars@, end as int);
    }
    if i > 0 && chars[i - 1] == '\'' {
        i = i - 1;
        let ghost start = i;
        while i > 0 && chars[i - 1] != '\''
            invariant
                i <= start < chars@.len(),
                start < end,
                skip_unquoted_back(chars@, start as int) == skip_unquoted_back(chars@, i as int),
            decreases i,
        {
            i = i - 1;
        }
        if i > 0 {
            i - 1
        } else {
            0
        }
    } else {
        let ghost start = i;
        while i > 0 && (is_alphanumeric(chars[i - 1]) || chars[i - 1] == '_')
            invariant
                i <= start <= end <= chars@.len(),
                skip_ident_back(chars@, start as int) == skip_ident_back(chars@, i as int),
            decreases i,
        {
            i = i - 1;
        }
        i
    }
}

/// Where the token that starts at `start` ends (see `token_end`).
pub fn find_token_end(chars: &[char], start: usize) -> (r: usize)
    ensures
        r == token_end(chars@, start as int),
        start <= r,
        start <= chars@.len() ==> r <= chars@.len(),
{
    if start >= chars.len() {
        return start;
    }
    let mut i = start;
    let len = chars.len();
    while i < len && is_whitespace(chars[i])
        invariant
            start <= i <= len,
            len == chars@.len(),
            skip_space_fwd(chars@, start as int) == skip_space_fwd(chars@, i as int),
        decreases len - i,
    {
        i = i + 1;
    }
    if i < len && chars[i] == '\'' {
        i = i + 1;
        let ghost from = i;
        while i < len && chars[i] != '\''
            invariant
                from <= i <= len,
                start < from,
                len == chars@.len(),
                skip_unquoted_fwd(chars@, from as int) == skip_unquoted_fwd(chars@, i as int),
            decreases len - i,
        {
            i = i + 1;
        }
        if i < len {
            i = i + 1;
        }
        i
    } else {
        let ghost from = i;
        while i < len && (is_alphanumeric(chars[i]) || chars[i] == '_')
            invariant
                start <= from <= i <= len,
                len == chars@.len(),
                skip_ident_fwd(chars@, from as int) == skip_ident_fwd(chars@, i as int),
            decreases len - i,
        {
            i = i + 1;
        }
        i
    }
}

/// Steps forward from `i` over characters that are not whitespace.
pub open spec fn skip_nonspace_fwd(s: Seq<char>, i: int) -> int
    decreases s.len() - i,
{
    if 0 <= i < s.len() && !spec_is_whitespace(s[i]) {
        skip_nonspace_fwd(s, i + 1)
    } else {
        i
    }
}

/// `c` is the letter `upper` in either case.
pub open spec fn letter_is(c: char, upper: char, lower: char) -> bool {
    c == upper || c == lower
}

/// The keyword `FROM`, in any letter case, stands at `j` as a word of its
/// own: no identifier character just before or just after it.
pub open spec fn from_keyword_at(s: Seq<char>, j: int) -> bool {
    &&& 0 <= j
    &&& j + 4 <= s.len()
    &&& letter_is(s[j], 'F', 'f')
    &&& letter_is(s[j + 1], 'R', 'r')
    &&& letter_is(s[j + 2], 'O', 'o')
    &&& letter_is(s[j + 3], 'M', 'm')
    &&& (j == 0 || !is_ident_char(s[j - 1]))
    &&& (j + 4 == s.len() || !is_ident_char(s[j + 4]))
}

/// The first position at or after `i` where the keyword `FROM` stands.
pub open spec fn find_from_keyword(s: Seq<char>, i: int) -> Option<int>
    decreases s.len() - i,
{
    if i < 0 || i + 4 > s.len() {
        None
    } else if from_keyword_at(s, i) {
        Some(i)
    } else {
        find_from_keyword(s, i + 1)
    }
}

/// The query text with the path after its first `FROM` keyword put in
/// backquotes, unless that path is already quoted.
pub open spec fn spec_quote_from_path(sql: Seq<char>) -> Seq<char> {
    match find_from_keyword(sql, 0) {
        None => sql,
        Some(j) => {
            let k = j + 4;
            let after = sql.skip(k);
            let w = skip_space_fwd(after, 0);
            let trimmed = after.skip(w);
            if trimmed.len() > 0 && (trimmed[0] == '`' || trimmed[0] == '"') {
                sql
            } else {
                let e = skip_nonspace_fwd(trimmed, 0);
                sql.take(k) + after.take(w) + "`"@ + trimmed.take(e) + "`"@ + trimmed.skip(e)
            }
        },
    }
}

/// The whole preprocessing: the `CONTAINS` rewrite, then the quoting of the
/// `FROM` path.
pub open spec fn spec_preprocess_sql(sql: Seq<char>) -> Option<Seq<char>> {
    match spec_rewrite_contains(sql) {
        None => None,
        Some(r) => Some(spec_quote_from_path(r)),
    }
}

/// Cuts the last `n` characters off `v`; false (and `v` as it was) where
/// it has fewer.
fn drop_trailing_chars(v: &mut Vec<char>, n: usize) -> (ok: bool)
    ensures
        ok == drop_chars(old(v)@, n as int) is Some,
        ok ==> drop_chars(old(v)@, n as int) == Some(final(v)@),
{
    if n > v.len() {
        return false;
    }
    let keep = v.len() - n;
    v.truncate(keep);
    true
}

/// An ASCII text in which ` CONTAINS ` does not occur, letter case aside.
pub open spec fn plain_ascii(sql: Seq<char>) -> bool {
    &&& is_ascii(sql)
    &&& forall|i: int| 0 <= i && i + 10 <= sql.len() ==> #[trigger] ascii_upper(sql).subrange(i, i + 10) != contains_keyword()
}

/// Rewrites `<token> CONTAINS <token>` into `CONTAINS(<token>, <token>)`, so
/// that users can write `WHERE tags CONTAINS 'rust'`. `None` exactly where
/// `spec_rewrite_contains` has no result. An ASCII text in which
/// ` CONTAINS ` does not occur, letter case aside, comes back as it is.
pub fn rewrite_contains(sql: &str) -> (r: Option<String>)
    ensures
        match r {
            Some(t) => spec_rewrite_contains(sql@) == Some(t@),
            None => spec_rewrite_contains(sql@) is None,
        },
        plain_ascii(sql@) ==> r is Some && r->Some_0@ == sql@,
{
    let upper = to_uppercase(sql);
    let ghost plain = plain_ascii(sql@);
    proof {
        if plain {
            assert(spec_uppercase(sql@) == ascii_upper(sql@));
            assert(spec_uppercase(sql@).len() == sql@.len());
            law_rewrite_without_contains(sql@);
            assert(spec_rewrite_contains(sql@) == Some(sql@));
        }
    }
    let chars = chars_of(sql);
    let upper_chars = chars_of(upper.as_str());
    let keyword = chars_of(" CONTAINS ");
    proof {
        reveal_strlit(" CONTAINS ");
    }
    let len = chars.len();
    let mut result: Vec<char> = Vec::new();
    let mut i: usize = 0;
    while i < len
        invariant
            len == chars@.len(),
            chars@ == sql@,
            upper_chars@ == spec_uppercase(sql@),
            keyword@ == contains_keyword(),
            keyword@.len() == 10,
            i <= len,
            rewrite_from(chars@, upper_chars@, i as int, result@) == spec_rewrite_contains(sql@),
            plain == plain_ascii(sql@),
            plain ==> spec_rewrite_contains(sql@) == Some(sql@),
        decreases len - i,
    {
        if len - i >= 10 {
            if upper_chars.len() < i + 10 {
                return None;
            }
            let slice = slice_chars(&upper_chars, i, i + 10);
            if chars_equal(&slice, &keyword) {
                let left_end = i;
                let left_start = find_token_start(chars.as_slice(), left_end);
                let left = slice_chars(&chars, left_start, left_end);
                let right_start = i + 10;
                let right_end = find_token_end(chars.as_slice(), right_start);
                let right = slice_chars(&chars, right_start, right_end);
                proof {
                    lemma_token_end(chars@, i + 10);
                }
                if !drop_trailing_chars(&mut result, left_end - left_start) {
                    return None;
                }
                let mut call: Vec<char> = Vec::new();
                push_str(&mut call, "CONTAINS(");
                push_all(&mut call, &left);
                push_str(&mut call, ", ");
                push_all(&mut call, &right);
                push_str(&mut call, ")");
                assert(call@ =~= contains_call(left@, right@));
                push_all(&mut result, &call);
                i = right_end;
                continue;
            }
        }
        result.push(chars[i]);
        i = i + 1;
    }
    Some(string_of(&result))
}

/// Whether the keyword `FROM` stands at `j` (see `from_keyword_at`).
fn is_from_keyword_at(s: &Vec<char>, j: usize) -> (r: bool)
    ensures
        r == from_keyword_at(s@, j as int),
{
    if j > s.len() || s.len() - j < 4 {
        return false;
    }
    let letters = (s[j] == 'F' || s[j] == 'f') && (s[j + 1] == 'R' || s[j + 1] == 'r') && (s[j + 2] == 'O'
        || s[j + 2] == 'o') && (s[j + 3] == 'M' || s[j + 3] == 'm');
    let before = j == 0 || !(is_alphanumeric(s[j - 1]) || s[j - 1] == '_');
    let after = j + 4 == s.len() || !(is_alphanumeric(s[j + 4]) || s[j + 4] == '_');
    letters && before && after
}

/// Quotes the path after the `FROM` keyword: `FROM ./path` becomes
/// ``FROM `./path` ``.
pub fn quote_from_path(sql: &str) -> (r: String)
    ensures
        r@ == spec_quote_from_path(sql@),
{
    let sc = chars_of(sql);
    let mut j: usize = 0;
    while sc.len() - j >= 4 && !is_from_keyword_at(&sc, j)
        invariant
            j <= sc.len(),
            find_from_keyword(sc@, 0) == find_from_keyword(sc@, j as int),
        decreases sc.len() - j,
    {
        j = j + 1;
    }
    if sc.len() - j < 4 {
        return string_of(&sc);
    }
    assert(find_from_keyword(sc@, 0) == Some(j as int));
    let k = j + 4;
    let after = slice_chars(&sc, k, sc.len());
    let mut w: usize = 0;
    while w < after.len() && is_whitespace(after[w])
        invariant
            w <= after.len(),
            skip_space_fwd(after@, 0) == skip_space_fwd(after@, w as int),
        decreases after.len() - w,
    {
        w = w + 1;
    }
    let trimmed = slice_chars(&after, w, after.len());
    if trimmed.len() > 0 && (trimmed[0] == '`' || trimmed[0] == '"') {
        return string_of(&sc);
    }
    let mut e: usize = 0;
    while e < trimmed.len() && !is_whitespace(trimmed[e])
        invariant
            e <= trimmed.len(),
            skip_nonspace_fwd(trimmed@, 0) == skip_nonspace_fwd(trimmed@, e as int),
        decreases trimmed.len() - e,
    {
        e = e + 1;
    }
    let mut result = slice_chars(&sc, 0, k);
    let lead = slice_chars(&after, 0, w);
    push_all(&mut result, &lead);
    push_str(&mut result, "`");
    let path = slice_chars(&trimmed, 0, e);
    push_all(&mut result, &path);
    push_str(&mut result, "`");
    let rest = slice_chars(&trimmed, e, trimmed.len());
    push_all(&mut result, &rest);
    proof {
        assert(after@ =~= sql@.skip(k as int));
        assert(trimmed@ =~= after@.skip(w as int));
        assert(lead@ =~= after@.take(w as int));
        assert(path@ =~= trimmed@.take(e as int));
        assert(rest@ =~= trimmed@.skip(e as int));
        assert(sc@.subrange(0, k as int) =~= sql@.take(k as int));
    }
    string_of(&result)
}

/// Rewrites mdquery's own syntax into standard SQL: first the `CONTAINS`
/// operator, then the quoting of the `FROM` path. `None` exactly where one of
/// them has no result; the program refuses such a query text.
pub fn preprocess_sql(sql: &str) -> (r: Option<String>)
    ensures
        match r {
            Some(t) => spec_preprocess_sql(sql@) == Some(t@),
            None => spec_preprocess_sql(sql@) is None,
        },
{
    match rewrite_contains(sql) {
        None => None,
        Some(result) => Some(quote_from_path(result.as_str())),
    }
}
proof fn lemma_rewrite_plain(chars: Seq<char>, upper: Seq<char>, i: int)
    requires
        0 <= i <= chars.len(),
        upper.len() >= chars.len(),
        forall|j: int| 0 <= j && j + 10 <= chars.len() ==> #[trigger] upper.subrange(j, j + 10) != contains_keyword(),
    ensures
        rewrite_from(chars, upper, i, chars.take(i)) == Some(chars),
    decreases chars.len() - i,
{
    if i < chars.len() {
        if i + 10 <= chars.len() {
            assert(upper.subrange(i, i + 10) != contains_keyword());
        }
        assert(chars.take(i).push(chars[i]) =~= chars.take(i + 1));
        lemma_rewrite_plain(chars, upper, i + 1);
    } else {
        assert(chars.take(i) =~= chars);
    }
}

/// Law: a query in which ` CONTAINS ` does not occur (in upper case) is
/// left as it is by the `CONTAINS` rewrite.
pub proof fn law_rewrite_without_contains(sql: Seq<char>)
    requires
        spec_uppercase(sql).len() >= sql.len(),
        forall|i: int| 0 <= i && i + 10 <= sql.len() ==> #[trigger] spec_uppercase(sql).subrange(i, i + 10) != contains_keyword(),
    ensures
        spec_rewrite_contains(sql) == Some(sql),
{
    lemma_rewrite_plain(sql, spec_uppercase(sql), 0);
    assert(sql.take(0) =~= Seq::<char>::empty());
}

/// Law: a query without the `FROM` keyword, or whose `FROM` path is
/// already quoted, is left as it is by the quoting of the path.
pub proof fn law_quoted_path_unchanged(sql: Seq<char>)
    requires
        match find_from_keyword(sql, 0) {
            None => true,
            Some(j) => {
                let trimmed = sql.skip(j + 4).skip(skip_space_fwd(sql.skip(j + 4), 0));
                trimmed.len() > 0 && (trimmed[0] == '`' || trimmed[0] == '"')
            },
        },
    ensures
        spec_quote_from_path(sql) == sql,
{
}

/// `s[i..k]` is a run of characters with property `p` that goes as far as it
/// can: `k` is the first index from `i` on without it (or the end).
pub open spec fn run_fwd(s: Seq<char>, i: int, k: int, p: spec_fn(char) -> bool) -> bool {
    &&& i <= k <= s.len()
    &&& forall|j: int| i <= j < k ==> p(#[trigger] s[j])
    &&& k < s.len() ==> !p(s[k])
}

/// `s[k..i]` is a run of characters with property `p` that goes back as far
/// as it can: `k` is 0 or follows a character without it.
pub open spec fn run_back(s: Seq<char>, k: int, i: int, p: spec_fn(char) -> bool) -> bool {
    &&& 0 <= k <= i
    &&& forall|j: int| k <= j < i ==> p(#[trigger] s[j])
    &&& k > 0 ==> !p(s[k - 1])
}

pub open spec fn is_space(c: char) -> bool {
    spec_is_whitespace(c)
}

pub open spec fn not_quote(c: char) -> bool {
    c != '\''
}

proof fn lemma_space_fwd_run(s: Seq<char>, i: int)
    requires
        0 <= i <= s.len(),
    ensures
        run_fwd(s, i, skip_space_fwd(s, i), |c: char| is_space(c)),
    decreases s.len() - i,
{
    if i < s.len() && spec_is_whitespace(s[i]) {
        lemma_space_fwd_run(s, i + 1);
    }
}

proof fn lemma_unquoted_fwd_run(s: Seq<char>, i: int)
    requires
        0 <= i <= s.len(),
    ensures
        run_fwd(s, i, skip_unquoted_fwd(s, i), |c: char| not_quote(c)),
    decreases s.len() - i,
{
    if i < s.len() && s[i] != '\'' {
        lemma_unquoted_fwd_run(s, i + 1);
    }
}

proof fn lemma_ident_fwd_run(s: Seq<char>, i: int)
    requires
        0 <= i <= s.len(),
    ensures
        run_fwd(s, i, skip_ident_fwd(s, i), |c: char| is_ident_char(c)),
    decreases s.len() - i,
{
    if i < s.len() && is_ident_char(s[i]) {
        lemma_ident_fwd_run(s, i + 1);
    }
}

proof fn lemma_space_back_run(s: Seq<char>, i: int)
    requires
        0 <= i <= s.len(),
    ensures
        run_back(s, skip_space_back(s, i), i, |c: char| is_space(c)),
    decreases i,
{
    if i > 0 && spec_is_whitespace(s[i - 1]) {
        lemma_space_back_run(s, i - 1);
    }
}

proof fn lemma_unquoted_back_run(s: Seq<char>, i: int)
    requires
        0 <= i <= s.len(),
    ensures
        run_back(s, skip_unquoted_back(s, i), i, |c: char| not_quote(c)),
    decreases i,
{
    if i > 0 && s[i - 1] != '\'' {
        lemma_unquoted_back_run(s, i - 1);
    }
}

proof fn lemma_ident_back_run(s: Seq<char>, i: int)
    requires
        0 <= i <= s.len(),
    ensures
        run_back(s, skip_ident_back(s, i), i, |c: char| is_ident_char(c)),
    decreases i,
{
    if i > 0 && is_ident_char(s[i - 1]) {
        lemma_ident_back_run(s, i - 1);
    }
}

/// Law: where a token that ends at `end` starts. Whitespace is skipped back
/// to `t`; after a closing quote the token reaches back to the opening
/// quote before the run of other characters (or to the start of the text);
/// else it is the run of identifier characters that ends at `t`.
pub proof fn law_token_start(s: Seq<char>, end: int)
    requires
        0 <= end <= s.len(),
    ensures
        ({
            let t = skip_space_back(s, end);
            let r = token_start(s, end);
            &&& run_back(s, t, end, |c: char| is_space(c))
            &&& if t > 0 && s[t - 1] == '\'' {
                let j = skip_unquoted_back(s, t - 1);
                &&& run_back(s, j, t - 1, |c: char| not_quote(c))
                &&& r == if j > 0 { j - 1 } else { 0 }
            } else {
                run_back(s, r, t, |c: char| is_ident_char(c))
            }
        }),
{
    lemma_space_back_run(s, end);
    let t = skip_space_back(s, end);
    if t > 0 && s[t - 1] == '\'' {
        lemma_unquoted_back_run(s, t - 1);
    } else {
        lemma_ident_back_run(s, t);
    }
}

/// Law: where a token that starts at `start` ends. Whitespace is skipped to
/// `w`; a quote there opens a string that ends after the next quote (or at
/// the end of the text); else the token is the run of identifier characters
/// from `w`. Past the end of the text the token ends where it starts.
pub proof fn law_token_end(s: Seq<char>, start: int)
    requires
        0 <= start,
    ensures
        start > s.len() ==> token_end(s, start) == start,
        start <= s.len() ==> ({
            let w = skip_space_fwd(s, start);
            let r = token_end(s, start);
            &&& run_fwd(s, start, w, |c: char| is_space(c))
            &&& if w < s.len() && s[w] == '\'' {
                let q = skip_unquoted_fwd(s, w + 1);
                &&& run_fwd(s, w + 1, q, |c: char| not_quote(c))
                &&& r == if q < s.len() { q + 1 } else { q }
            } else {
                run_fwd(s, w, r, |c: char| is_ident_char(c))
            }
        }),
{
    if start <= s.len() {
        lemma_space_fwd_run(s, start);
        let w = skip_space_fwd(s, start);
        if w < s.len() && s[w] == '\'' {
            lemma_unquoted_fwd_run(s, w + 1);
        } else {
            lemma_ident_fwd_run(s, w);
        }
    }
}

proof fn lemma_run_fwd_unique(s: Seq<char>, i: int, k1: int, k2: int, p: spec_fn(char) -> bool)
    requires
        run_fwd(s, i, k1, p),
        run_fwd(s, i, k2, p),
    ensures
        k1 == k2,
{
    if k1 < k2 {
        assert(p(s[k1]));
    } else if k2 < k1 {
        assert(p(s[k2]));
    }
}

proof fn lemma_find_from_keyword(s: Seq<char>, i: int)
    requires
        0 <= i,
    ensures
        find_from_keyword(s, i) matches Some(j) ==> i <= j && from_keyword_at(s, j)
            && forall|m: int| i <= m < j ==> !from_keyword_at(s, m),
    decreases s.len() - i,
{
    if i + 4 <= s.len() && !from_keyword_at(s, i) {
        lemma_find_from_keyword(s, i + 1);
    }
}

/// Texts that agree up to the end of a `FROM` keyword at `j` find it first
/// there too.
proof fn lemma_find_from_keyword_agree(s: Seq<char>, t: Seq<char>, i: int, j: int)
    requires
        0 <= i <= j,
        j + 4 <= s.len(),
        j + 4 <= t.len(),
        forall|m: int| 0 <= m < j + 4 ==> s[m] == t[m],
        forall|m: int| i <= m < j ==> !from_keyword_at(s, m),
        from_keyword_at(t, j),
    ensures
        find_from_keyword(t, i) == Some(j),
    decreases j - i,
{
    if i < j {
        assert(!from_keyword_at(s, i));
        assert(s[i] == t[i] && s[i + 1] == t[i + 1] && s[i + 2] == t[i + 2] && s[i + 3] == t[i + 3]
            && s[i + 4] == t[i + 4]);
        if i > 0 {
            assert(s[i - 1] == t[i - 1]);
        }
        assert(!from_keyword_at(t, i));
        lemma_find_from_keyword_agree(s, t, i + 1, j);
    }
}

/// Law: quoting the `FROM` path twice quotes it once: the second time the
/// path is already quoted.
pub proof fn law_quote_idempotent(sql: Seq<char>)
    ensures
        spec_quote_from_path(spec_quote_from_path(sql)) == spec_quote_from_path(sql),
{
    reveal_strlit("`");
    lemma_find_from_keyword(sql, 0);
    match find_from_keyword(sql, 0) {
        None => {},
        Some(j) => {
            let k = j + 4;
            let after = sql.skip(k);
            let w = skip_space_fwd(after, 0);
            let trimmed = after.skip(w);
            if !(trimmed.len() > 0 && (trimmed[0] == '`' || trimmed[0] == '"')) {
                let e = skip_nonspace_fwd(trimmed, 0);
                let q = spec_quote_from_path(sql);
                let rest = seq!['`'] + trimmed.take(e) + seq!['`'] + trimmed.skip(e);
                lemma_space_fwd_run(after, 0);
                assert(q =~= sql.take(k) + after.take(w) + rest);
                let qa = q.skip(k);
                assert(qa =~= after.take(w) + rest);
                assert(forall|m: int| 0 <= m < k ==> q[m] == sql[m]);
                // `FROM` still stands at `j`, and nowhere before it.
                assert(q[k] == if w > 0 { sql[k] } else { '`' });
                assert(!is_ident_char('`'));
                assert(from_keyword_at(q, j));
                lemma_find_from_keyword_agree(sql, q, 0, j);
                // The whitespace after it is the same, and the path now starts
                // with a quote.
                assert(qa[w] == '`');
                assert(!spec_is_whitespace('`'));
                assert forall|m: int| 0 <= m < w implies is_space(#[trigger] qa[m]) by {
                    assert(qa[m] == after[m]);
                    assert(is_space(after[m]));
                }
                assert(run_fwd(qa, 0, w, |c: char| is_space(c)));
                lemma_space_fwd_run(qa, 0);
                lemma_run_fwd_unique(qa, 0, w, skip_space_fwd(qa, 0), |c: char| is_space(c));
                assert(qa.skip(w)[0] == '`');
            }
        },
    }
}

} // verus!
