//! Text helpers: character sequences, UTF-8 widths and the few standard
//! library text functions that the query logic relies on.
use vstd::prelude::*;

verus! {

broadcast use vstd::string::group_string_axioms;

/// Number of bytes that `c` takes in UTF-8.
pub open spec fn utf8_width(c: char) -> nat {
    if (c as u32) < 0x80 {
        1
    } else if (c as u32) < 0x800 {
        2
    } else if (c as u32) < 0x10000 {
        3
    } else {
        4
    }
}

/// Number of bytes that the characters `s` take in UTF-8.
pub open spec fn utf8_len(s: Seq<char>) -> nat
    decreases s.len(),
{
    if s.len() == 0 {
        0
    } else {
        utf8_len(s.drop_last()) + utf8_width(s.last())
    }
}

/// The number of bytes of one character, as `char::len_utf8` gives it.
pub fn char_width(c: char) -> (w: usize)
    ensures
        w == utf8_width(c),
{
    let v = c as u32;
    if v < 0x80 {
        1
    } else if v < 0x800 {
        2
    } else if v < 0x10000 {
        3
    } else {
        4
    }
}

/// The characters of `s`, in order.
pub fn chars_of(s: &str) -> (v: Vec<char>)
    ensures
        v@ == s@,
{
    let mut v: Vec<char> = Vec::new();
    for c in it: s.chars()
        invariant
            v@ == it.seq().take(it.index()),
            it.seq() == s@,
    {
        v.push(c);
    }
    v
}

/// The string made of the characters `v`, as `String: FromIterator<char>` builds it.
#[verifier::external_body]
pub(crate) fn string_of(v: &Vec<char>) -> (s: String)
    ensures
        s@ == v@,
{
    v.iter().collect()
}

/// Whether `c` is whitespace in the sense of `char::is_whitespace`: it has
/// the Unicode `White_Space` property, which these code points have.
pub open spec fn spec_is_whitespace(c: char) -> bool {
    let u = c as u32;
    (0x09 <= u <= 0x0d) || u == 0x20 || u == 0x85 || u == 0xa0 || u == 0x1680 || (0x2000 <= u <= 0x200a)
        || u == 0x2028 || u == 0x2029 || u == 0x202f || u == 0x205f || u == 0x3000
}

/// Whether `c` is one of the ASCII letters or digits.
pub open spec fn is_ascii_alphanumeric(c: char) -> bool {
    ('0' <= c <= '9') || ('a' <= c <= 'z') || ('A' <= c <= 'Z')
}

/// Whether every character of `s` is ASCII.
pub open spec fn is_ascii(s: Seq<char>) -> bool {
    forall|i: int| 0 <= i < s.len() ==> (s[i] as u32) < 0x80
}

/// The ASCII uppercase of a character: `a` to `z` mapped to `A` to `Z`.
pub open spec fn ascii_upper_char(c: char) -> char {
    if 'a' <= c <= 'z' {
        (((c as u32) - 32) as u8) as char
    } else {
        c
    }
}

/// The ASCII lowercase of a character: `A` to `Z` mapped to `a` to `z`.
pub open spec fn ascii_lower_char(c: char) -> char {
    if 'A' <= c <= 'Z' {
        (((c as u32) + 32) as u8) as char
    } else {
        c
    }
}

pub open spec fn ascii_upper(s: Seq<char>) -> Seq<char> {
    s.map_values(|c: char| ascii_upper_char(c))
}

pub open spec fn ascii_lower(s: Seq<char>) -> Seq<char> {
    s.map_values(|c: char| ascii_lower_char(c))
}

/// Whether a character outside ASCII is alphanumeric in the sense of
/// `char::is_alphanumeric` (Unicode's `Alphabetic` or `Numeric`).
pub uninterp spec fn spec_unicode_alphanumeric(c: char) -> bool;

/// Whether `c` is alphanumeric in the sense of `char::is_alphanumeric`: in
/// ASCII the letters and digits.
pub open spec fn spec_is_alphanumeric(c: char) -> bool {
    if (c as u32) < 0x80 {
        is_ascii_alphanumeric(c)
    } else {
        spec_unicode_alphanumeric(c)
    }
}

/// The lowercase mapping of a string, as `str::to_lowercase` computes it.
pub uninterp spec fn spec_lowercase(s: Seq<char>) -> Seq<char>;

/// The uppercase mapping of a string, as `str::to_uppercase` computes it.
pub uninterp spec fn spec_uppercase(s: Seq<char>) -> Seq<char>;

/// Whether `c` is whitespace (see `spec_is_whitespace`).
pub fn is_whitespace(c: char) -> (r: bool)
    ensures
        r == spec_is_whitespace(c),
{
    let u = c as u32;
    (0x09 <= u && u <= 0x0d) || u == 0x20 || u == 0x85 || u == 0xa0 || u == 0x1680 || (0x2000 <= u && u <= 0x200a)
        || u == 0x2028 || u == 0x2029 || u == 0x202f || u == 0x205f || u == 0x3000
}

/// `char::is_alphanumeric`: claimed true of the ASCII letters and digits
/// and of no other ASCII character; outside ASCII the contract names its
/// answer `spec_unicode_alphanumeric(c)`.
#[verifier::external_body]
pub(crate) fn is_alphanumeric(c: char) -> (r: bool)
    ensures
        r == spec_is_alphanumeric(c),
        (c as u32) >= 0x80 ==> (r == spec_unicode_alphanumeric(c)),
{
    c.is_alphanumeric()
}

/// `str::to_lowercase`; the contract names the result `spec_lowercase(s@)`,
/// and says that an ASCII text has its ASCII letters lowered, one for one.
#[verifier::external_body]
pub(crate) fn to_lowercase(s: &str) -> (r: String)
    ensures
        r@ == spec_lowercase(s@),
        is_ascii(s@) ==> r@ == ascii_lower(s@),
{
    s.to_lowercase()
}

/// `str::to_uppercase`; the contract names the result `spec_uppercase(s@)`,
/// and says that an ASCII text has its ASCII letters raised, one for one.
#[verifier::external_body]
pub(crate) fn to_uppercase(s: &str) -> (r: String)
    ensures
        r@ == spec_uppercase(s@),
        is_ascii(s@) ==> r@ == ascii_upper(s@),
{
    s.to_uppercase()
}

/// Whether `a` and `b` hold the same characters.
pub fn chars_equal(a: &Vec<char>, b: &Vec<char>) -> (r: bool)
    ensures
        r == (a@ == b@),
{
    if a.len() != b.len() {
        return false;
    }
    let mut i: usize = 0;
    while i < a.len()
        invariant
            a.len() == b.len(),
            i <= a.len(),
            forall|j: int| 0 <= j < i ==> a@[j] == b@[j],
        decreases a.len() - i,
    {
        if a[i] != b[i] {
            return false;
        }
        i = i + 1;
    }
    assert(a@ =~= b@);
    true
}

/// Whether the strings `a` and `b` are equal.
pub fn str_equal(a: &str, b: &str) -> (r: bool)
    ensures
        r == (a@ == b@),
{
    let va = chars_of(a);
    let vb = chars_of(b);
    chars_equal(&va, &vb)
}

/// `s[from..to]` as a vector of characters.
pub fn slice_chars(s: &Vec<char>, from: usize, to: usize) -> (r: Vec<char>)
    requires
        from <= to <= s.len(),
    ensures
        r@ == s@.subrange(from as int, to as int),
{
    let mut r: Vec<char> = Vec::new();
    let mut i = from;
    while i < to
        invariant
            from <= i <= to <= s.len(),
            r@ == s@.subrange(from as int, i as int),
        decreases to - i,
    {
        r.push(s[i]);
        i = i + 1;
    }
    r
}

/// Appends the characters of `t` to `v`.
pub fn push_all(v: &mut Vec<char>, t: &Vec<char>)
    ensures
        final(v)@ == old(v)@ + t@,
{
    let mut i: usize = 0;
    while i < t.len()
        invariant
            i <= t.len(),
            v@ == old(v)@ + t@.take(i as int),
        decreases t.len() - i,
    {
        v.push(t[i]);
        i = i + 1;
        assert(t@.take(i as int) =~= t@.take(i - 1) + seq![t@[i - 1]]);
    }
    assert(t@.take(t.len() as int) =~= t@);
}

/// Appends the characters of `t` to `v`.
pub fn push_str(v: &mut Vec<char>, t: &str)
    ensures
        final(v)@ == old(v)@ + t@,
{
    let tc = chars_of(t);
    push_all(v, &tc);
}

/// The first index at or after `from` where `needle` occurs in `hay`.
pub open spec fn find_from(hay: Seq<char>, needle: Seq<char>, from: int) -> Option<int>
    decreases hay.len() + 1 - from,
{
    if from < 0 || from + needle.len() > hay.len() {
        None
    } else if hay.subrange(from, from + needle.len()) == needle {
        Some(from)
    } else {
        find_from(hay, needle, from + 1)
    }
}

/// What `find_from` finds lies at or after `from` and is an occurrence.
pub proof fn lemma_find_from(hay: Seq<char>, needle: Seq<char>, from: int)
    ensures
        find_from(hay, needle, from) matches Some(j) ==> from <= j && j + needle.len() <= hay.len()
            && hay.subrange(j, j + needle.len()) == needle,
    decreases hay.len() + 1 - from,
{
    if !(from < 0 || from + needle.len() > hay.len()) && hay.subrange(from, from + needle.len())
        != needle {
        lemma_find_from(hay, needle, from + 1);
    }
}

/// The first index where `needle` occurs in `hay`, as `str::find` reports it
/// in characters.
pub open spec fn find_first(hay: Seq<char>, needle: Seq<char>) -> Option<int> {
    find_from(hay, needle, 0)
}

/// The index of the first occurrence of `needle` in `hay` at or after `from`.
pub fn find_chars_from(hay: &Vec<char>, needle: &Vec<char>, from: usize) -> (r: Option<usize>)
    ensures
        match r {
            Some(j) => find_from(hay@, needle@, from as int) == Some(j as int) && j + needle.len()
                <= hay.len(),
            None => find_from(hay@, needle@, from as int) is None,
        },
    decreases hay.len() + 1 - from,
{
    proof {
        lemma_find_from(hay@, needle@, from as int);
    }
    if needle.len() > hay.len() || from > hay.len() - needle.len() {
        return None;
    }
    if needle.len() == 0 {
        assert(hay@.subrange(from as int, from as int) =~= needle@);
        return Some(from);
    }
    let piece = slice_chars(hay, from, from + needle.len());
    if chars_equal(&piece, needle) {
        Some(from)
    } else {
        find_chars_from(hay, needle, from + 1)
    }
}

/// A run of `n` characters takes at most `4 * n` bytes.
pub proof fn lemma_utf8_len_bound(s: Seq<char>)
    ensures
        utf8_len(s) <= 4 * s.len(),
    decreases s.len(),
{
    if s.len() > 0 {
        lemma_utf8_len_bound(s.drop_last());
    }
}

/// Number of bytes that the first `j` characters of `v` take in UTF-8.
pub fn utf8_prefix_len(v: &Vec<char>, j: usize) -> (n: u128)
    requires
        j <= v.len(),
    ensures
        n == utf8_len(v@.take(j as int)),
        n <= 4 * j,
{
    proof {
        lemma_utf8_len_bound(v@.take(j as int));
    }
    let mut n: u128 = 0;
    let mut k: usize = 0;
    while k < j
        invariant
            k <= j <= v.len(),
            n == utf8_len(v@.take(k as int)),
        decreases j - k,
    {
        proof {
            lemma_utf8_len_bound(v@.take(k as int));
            assert(v@.take(k + 1).drop_last() =~= v@.take(k as int));
        }
        n = n + char_width(v[k]) as u128;
        k = k + 1;
    }
    n
}

/// The decimal digit character for `d < 10`.
pub open spec fn digit_char(d: int) -> char {
    (48 + d) as char
}

/// The decimal digits of `n`, most significant first.
pub open spec fn nat_text(n: nat) -> Seq<char>
    decreases n,
{
    if n < 10 {
        seq![digit_char(n as int)]
    } else {
        nat_text(n / 10).push(digit_char((n % 10) as int))
    }
}

/// An integer in decimal, as `i64::to_string` writes it.
pub open spec fn int_text(i: int) -> Seq<char> {
    if i < 0 {
        seq!['-'] + nat_text((-i) as nat)
    } else {
        nat_text(i as nat)
    }
}

/// The decimal text of `i`, as `i64::to_string` writes it.
pub fn i64_text(i: i64) -> (r: String)
    ensures
        r@ == int_text(i as int),
{
    let neg = i < 0;
    let mut n: u64 = if neg {
        (-(i as i128)) as u64
    } else {
        i as u64
    };
    let ghost full = n as nat;
    let mut digits: Vec<char> = Vec::new();
    loop
        invariant
            n <= full,
            neg == (i < 0),
            full == (if i < 0 { -(i as int) } else { i as int }),
            nat_text(full) == nat_text(n as nat) + digits@,
        decreases n,
    {
        let d = (n % 10) as u8;
        let c = (48u8 + d) as char;
        assert(c == digit_char((n % 10) as int));
        if n < 10 {
            assert(nat_text(n as nat) == seq![c]);
            let mut out: Vec<char> = Vec::new();
            if neg {
                out.push('-');
            }
            out.push(c);
            push_all(&mut out, &digits);
            proof {
                if neg {
                    assert(out@ =~= seq!['-'] + nat_text(full));
                } else {
                    assert(out@ =~= nat_text(full));
                }
            }
            return string_of(&out);
        }
        let ghost old_digits = digits@;
        digits.insert(0, c);
        assert(nat_text(n as nat) == nat_text((n / 10) as nat).push(c));
        assert(nat_text(full) == nat_text((n / 10) as nat) + digits@) by {
            assert(digits@ =~= seq![c] + old_digits);
            assert(nat_text((n / 10) as nat).push(c) + old_digits =~= nat_text((n / 10) as nat) + (seq![c] + old_digits));
        }
        n = n / 10;
    }
}

/// Sign (-1, 0 or 1) of the lexicographic comparison of two character
/// sequences; this is how Rust orders strings, since UTF-8 keeps the order of
/// code points.
pub open spec fn lex_sign(a: Seq<char>, b: Seq<char>) -> int
    decreases a.len(),
{
    if a.len() == 0 && b.len() == 0 {
        0
    } else if a.len() == 0 {
        -1
    } else if b.len() == 0 {
        1
    } else if (a[0] as u32) < (b[0] as u32) {
        -1
    } else if (a[0] as u32) > (b[0] as u32) {
        1
    } else {
        lex_sign(a.drop_first(), b.drop_first())
    }
}

/// The lexicographic comparison of `a` and `b` as -1, 0 or 1.
pub fn compare_chars(a: &Vec<char>, b: &Vec<char>) -> (r: i8)
    ensures
        r == lex_sign(a@, b@),
{
    let mut i: usize = 0;
    assert(a@.skip(0) =~= a@);
    assert(b@.skip(0) =~= b@);
    loop
        invariant
            i <= a.len(),
            i <= b.len(),
            lex_sign(a@, b@) == lex_sign(a@.skip(i as int), b@.skip(i as int)),
        decreases a.len() - i,
    {
        if i == a.len() && i == b.len() {
            return 0;
        }
        if i == a.len() {
            return -1;
        }
        if i == b.len() {
            return 1;
        }
        let x = a[i] as u32;
        let y = b[i] as u32;
        if x < y {
            return -1;
        }
        if x > y {
            return 1;
        }
        assert(a@.skip(i as int).drop_first() =~= a@.skip(i + 1));
        assert(b@.skip(i as int).drop_first() =~= b@.skip(i + 1));
        i = i + 1;
    }
}

/// The lexicographic comparison of two strings as -1, 0 or 1.
pub fn compare_strs(a: &str, b: &str) -> (r: i8)
    ensures
        r == lex_sign(a@, b@),
{
    let va = chars_of(a);
    let vb = chars_of(b);
    compare_chars(&va, &vb)
}

/// `lex_sign` is antisymmetric, and 0 exactly on equal sequences.
pub proof fn lemma_lex_sign_basics(a: Seq<char>, b: Seq<char>)
    ensures
        lex_sign(a, b) == -lex_sign(b, a),
        -1 <= lex_sign(a, b) <= 1,
        (lex_sign(a, b) == 0) == (a == b),
    decreases a.len(),
{
    broadcast use vstd::utf8::char_u32_cast;

    if a.len() > 0 && b.len() > 0 && (a[0] as u32) == (b[0] as u32) {
        vstd::utf8::char_u32_cast(a[0], a[0] as u32);
        vstd::utf8::char_u32_cast(b[0], b[0] as u32);
        assert(a[0] == b[0]);
        lemma_lex_sign_basics(a.drop_first(), b.drop_first());
        if a.drop_first() == b.drop_first() {
            assert(a =~= seq![a[0]] + a.drop_first());
            assert(b =~= seq![b[0]] + b.drop_first());
        }
    }
    if a.len() == 0 && b.len() == 0 {
        assert(a =~= b);
    }
}

/// `lex_sign` orders transitively.
pub proof fn lemma_lex_sign_transitive(a: Seq<char>, b: Seq<char>, c: Seq<char>)
    requires
        lex_sign(a, b) < 0,
        lex_sign(b, c) < 0,
    ensures
        lex_sign(a, c) < 0,
    decreases a.len(),
{
    if a.len() > 0 && b.len() > 0 && c.len() > 0 && (a[0] as u32) == (b[0] as u32) && (b[0] as u32)
        == (c[0] as u32) {
        lemma_lex_sign_transitive(a.drop_first(), b.drop_first(), c.drop_first());
    }
}

/// The texts of a list of strings.
pub open spec fn texts(v: Seq<String>) -> Seq<Seq<char>> {
    v.map_values(|s: String| s@)
}

pub proof fn lemma_texts_push(v: Seq<String>, x: String)
    ensures
        texts(v.push(x)) == texts(v).push(x@),
{
    assert(texts(v.push(x)) =~= texts(v).push(x@));
}

} // verus!
