use vstd::prelude::*;

use crate::text::{
    ascii_lower, chars_of, is_alphanumeric, string_of_range, to_ascii_lowercase,
    unicode_alphanumeric,
};

verus! {

broadcast use vstd::string::group_string_axioms;

/// The longest a branch slug may be, in UTF-8 bytes.
pub const SLUG_MAX_BYTES: usize = 50;

// ---------------------------------------------------------------------------
// Specification
// ---------------------------------------------------------------------------

/// One left-to-right pass over `text`: alphanumeric characters are kept (ASCII letters
/// lower-cased), and each run of other characters becomes a single `-`. The flag records
/// whether the last character written was such a `-`.
pub open spec fn slug_scan(text: Seq<char>) -> (Seq<char>, bool)
    decreases text.len(),
{
    if text.len() == 0 {
        (seq![], false)
    } else {
        let prev = slug_scan(text.drop_last());
        let c = text.last();
        if unicode_alphanumeric(c) {
            (prev.0.push(ascii_lower(c)), false)
        } else if !prev.1 {
            (prev.0.push('-'), true)
        } else {
            prev
        }
    }
}

/// `s` without leading `ch` characters.
pub open spec fn trim_start_char(s: Seq<char>, ch: char) -> Seq<char>
    decreases s.len(),
{
    if s.len() > 0 && s[0] == ch {
        trim_start_char(s.drop_first(), ch)
    } else {
        s
    }
}

/// `s` without trailing `ch` characters.
pub open spec fn trim_end_char(s: Seq<char>, ch: char) -> Seq<char>
    decreases s.len(),
{
    if s.len() > 0 && s.last() == ch {
        trim_end_char(s.drop_last(), ch)
    } else {
        s
    }
}

/// `s` without `ch` at either end (what `str::trim_matches(ch)` returns).
pub open spec fn trim_char(s: Seq<char>, ch: char) -> Seq<char> {
    trim_end_char(trim_start_char(s, ch), ch)
}

/// Bytes of the UTF-8 encoding of `c`.
pub open spec fn utf8_len(c: char) -> nat {
    let u = c as u32;
    if u < 0x80 {
        1
    } else if u < 0x800 {
        2
    } else if u < 0x10000 {
        3
    } else {
        4
    }
}

/// Bytes of the UTF-8 encoding of `s`.
pub open spec fn utf8_size(s: Seq<char>) -> nat
    decreases s.len(),
{
    if s.len() == 0 {
        0
    } else {
        utf8_len(s[0]) + utf8_size(s.drop_first())
    }
}

/// How many leading characters of `s` fit in `n` bytes.
pub open spec fn chars_within(s: Seq<char>, n: int) -> nat
    decreases s.len(),
{
    if s.len() == 0 || utf8_len(s[0]) > n {
        0
    } else {
        1 + chars_within(s.drop_first(), n - utf8_len(s[0]))
    }
}

/// `String::truncate(n)`: no effect when `s` fits in `n` bytes, else the prefix of `n` bytes.
pub open spec fn truncated(s: Seq<char>, n: int) -> Seq<char> {
    if utf8_size(s) <= n {
        s
    } else {
        s.take(chars_within(s, n) as int)
    }
}

/// `String::truncate(n)` does not panic: `n` falls on a character boundary of `s` or
/// past its end.
pub open spec fn truncation_on_boundary(s: Seq<char>, n: int) -> bool {
    utf8_size(s) <= n || utf8_size(s.take(chars_within(s, n) as int)) == n
}

/// The dash-trimmed scan of a title, before truncation.
pub open spec fn slug_body(text: Seq<char>) -> Seq<char> {
    trim_char(slug_scan(text).0, '-')
}

/// The branch slug of a title: the scan, trimmed of dashes, cut to 50 bytes and trimmed
/// of dashes again.
pub open spec fn slug_of(text: Seq<char>) -> Seq<char> {
    trim_char(truncated(slug_body(text), SLUG_MAX_BYTES as int), '-')
}

/// The titles whose slug can be cut at 50 bytes without splitting a character.
pub open spec fn slug_defined(text: Seq<char>) -> bool {
    truncation_on_boundary(slug_body(text), SLUG_MAX_BYTES as int)
}

// ---------------------------------------------------------------------------
// Lemmas
// ---------------------------------------------------------------------------

/// The UTF-8 size of a concatenation is the sum of the sizes.
pub proof fn lemma_utf8_size_concat(a: Seq<char>, b: Seq<char>)
    ensures
        utf8_size(a + b) == utf8_size(a) + utf8_size(b),
    decreases a.len(),
{
    if a.len() > 0 {
        assert((a + b).drop_first() =~= a.drop_first() + b);
        lemma_utf8_size_concat(a.drop_first(), b);
    } else {
        assert(a + b =~= b);
    }
}

proof fn lemma_utf8_size_push(a: Seq<char>, c: char)
    ensures
        utf8_size(a.push(c)) == utf8_size(a) + utf8_len(c),
{
    assert(a.push(c) =~= a + seq![c]);
    lemma_utf8_size_concat(a, seq![c]);
    assert(seq![c].drop_first() =~= Seq::<char>::empty());
    assert(seq![c][0] == c);
    assert(utf8_size(Seq::<char>::empty()) == 0);
    assert(utf8_size(seq![c]) == utf8_len(c) + utf8_size(seq![c].drop_first()));
}

proof fn lemma_utf8_size_split(s: Seq<char>, i: int)
    requires
        0 <= i <= s.len(),
    ensures
        utf8_size(s) == utf8_size(s.take(i)) + utf8_size(s.skip(i)),
{
    assert(s =~= s.take(i) + s.skip(i));
    lemma_utf8_size_concat(s.take(i), s.skip(i));
}

proof fn lemma_chars_within_all(s: Seq<char>, n: int)
    requires
        utf8_size(s) <= n,
    ensures
        chars_within(s, n) == s.len(),
    decreases s.len(),
{
    if s.len() > 0 {
        lemma_chars_within_all(s.drop_first(), n - utf8_len(s[0]));
    }
}

// ---------------------------------------------------------------------------
// Implementation
// ---------------------------------------------------------------------------

fn utf8_width(c: char) -> (r: usize)
    ensures
        r == utf8_len(c),
{
    let u = c as u32;
    if u < 0x80 {
        1
    } else if u < 0x800 {
        2
    } else if u < 0x10000 {
        3
    } else {
        4
    }
}

/// Where `String::truncate(n)` would cut `v`: the number `k` of leading characters that fit
/// in `n` bytes and their byte size; `k < v.len()` exactly when `v` does not fit.
fn truncation_point(v: &Vec<char>, n: usize) -> (r: (usize, usize))
    ensures
        r.0 == chars_within(v@, n as int),
        r.1 == utf8_size(v@.take(r.0 as int)),
        r.0 <= v@.len(),
        r.0 < v@.len() <==> utf8_size(v@) > n,
{
    let mut i: usize = 0;
    let mut bytes: usize = 0;
    proof {
        assert(v@.skip(0) =~= v@);
        assert(v@.take(0) =~= Seq::<char>::empty());
    }
    while i < v.len() && utf8_width(v[i]) <= n - bytes
        invariant
            i <= v@.len(),
            bytes <= n,
            bytes == utf8_size(v@.take(i as int)),
            chars_within(v@, n as int) == i + chars_within(v@.skip(i as int), n - bytes),
        decreases v@.len() - i,
    {
        proof {
            let t = v@.skip(i as int);
            assert(t[0] == v@[i as int]);
            assert(t.drop_first() =~= v@.skip(i + 1));
            assert(v@.take(i + 1) =~= v@.take(i as int).push(v@[i as int]));
            lemma_utf8_size_push(v@.take(i as int), v@[i as int]);
        }
        bytes = bytes + utf8_width(v[i]);
        i += 1;
    }
    proof {
        lemma_utf8_size_split(v@, i as int);
        if i < v@.len() {
            let t = v@.skip(i as int);
            assert(t[0] == v@[i as int]);
            assert(utf8_size(t) >= utf8_len(t[0]));
        } else {
            assert(v@.skip(i as int).len() == 0);
            assert(v@.take(i as int) =~= v@);
        }
    }
    (i, bytes)
}

proof fn lemma_trim_start_char_step(s: Seq<char>, ch: char, i: int)
    requires
        0 <= i < s.len(),
        s[i] == ch,
    ensures
        trim_start_char(s.subrange(i, s.len() as int), ch) == trim_start_char(
            s.subrange(i + 1, s.len() as int),
            ch,
        ),
{
    assert(s.subrange(i, s.len() as int).drop_first() =~= s.subrange(i + 1, s.len() as int));
}

proof fn lemma_trim_end_char_step(s: Seq<char>, ch: char, lo: int, j: int)
    requires
        0 <= lo < j <= s.len(),
        s[j - 1] == ch,
    ensures
        trim_end_char(s.subrange(lo, j), ch) == trim_end_char(s.subrange(lo, j - 1), ch),
{
    assert(s.subrange(lo, j).drop_last() =~= s.subrange(lo, j - 1));
}

/// Indices `(lo, hi)` such that `v[lo..hi]` is `v` with `ch` trimmed from both ends.
fn trim_char_bounds(v: &Vec<char>, ch: char) -> (r: (usize, usize))
    ensures
        r.0 <= r.1 <= v@.len(),
        v@.subrange(r.0 as int, r.1 as int) == trim_char(v@, ch),
{
    let n = v.len();
    let mut lo: usize = 0;
    assert(v@.subrange(0, n as int) =~= v@);
    while lo < n && v[lo] == ch
        invariant
            n == v@.len(),
            lo <= n,
            trim_start_char(v@, ch) == trim_start_char(v@.subrange(lo as int, n as int), ch),
        decreases n - lo,
    {
        proof {
            lemma_trim_start_char_step(v@, ch, lo as int);
        }
        lo += 1;
    }
    let mut hi: usize = n;
    while hi > lo && v[hi - 1] == ch
        invariant
            n == v@.len(),
            lo <= hi <= n,
            trim_start_char(v@, ch) == v@.subrange(lo as int, n as int),
            trim_char(v@, ch) == trim_end_char(v@.subrange(lo as int, hi as int), ch),
        decreases hi - lo,
    {
        proof {
            lemma_trim_end_char_step(v@, ch, lo as int, hi as int);
        }
        hi -= 1;
    }
    (lo, hi)
}

fn trimmed_dashes(v: &Vec<char>) -> (r: Vec<char>)
    ensures
        r@ == trim_char(v@, '-'),
{
    let (lo, hi) = trim_char_bounds(v, '-');
    let mut r: Vec<char> = Vec::new();
    let mut i = lo;
    while i < hi
        invariant
            lo <= i <= hi <= v@.len(),
            r@ == v@.subrange(lo as int, i as int),
        decreases hi - i,
    {
        r.push(v[i]);
        proof {
            assert(v@.subrange(lo as int, i + 1) =~= v@.subrange(lo as int, i as int).push(
                v@[i as int],
            ));
        }
        i += 1;
    }
    r
}

/// The scan of `text`, trimmed of dashes.
fn slug_body_chars(text: &str) -> (r: Vec<char>)
    ensures
        r@ == slug_body(text@),
{
    let chars = chars_of(text);
    let mut slug: Vec<char> = Vec::new();
    let mut last_was_dash = false;
    let mut i: usize = 0;
    assert(chars@.take(0) =~= Seq::<char>::empty());
    while i < chars.len()
        invariant
            i <= chars@.len(),
            chars@ == text@,
            (slug@, last_was_dash) == slug_scan(chars@.take(i as int)),
        decreases chars@.len() - i,
    {
        let c = chars[i];
        proof {
            let t = chars@.take(i + 1);
            assert(t.drop_last() =~= chars@.take(i as int));
            assert(t.last() == c);
        }
        if is_alphanumeric(c) {
            slug.push(to_ascii_lowercase(c));
            last_was_dash = false;
        } else if !last_was_dash {
            slug.push('-');
            last_was_dash = true;
        }
        i += 1;
    }
    proof {
        assert(chars@.take(chars@.len() as int) =~= chars@);
    }
    trimmed_dashes(&slug)
}

/// Whether `slugify(text)` is defined: its 50-byte cut falls between characters.
pub fn slug_is_defined(text: &str) -> (r: bool)
    ensures
        r == slug_defined(text@),
{
    let body = slug_body_chars(text);
    let (k, bytes) = truncation_point(&body, SLUG_MAX_BYTES);
    k == body.len() || bytes == SLUG_MAX_BYTES
}

/// The branch slug of a title: lower-cased alphanumerics, runs of anything else collapsed
/// into one `-`, no `-` at either end, at most 50 bytes.
pub fn slugify(text: &str) -> (r: String)
    requires
        slug_defined(text@),
    ensures
        r@ == slug_of(text@),
        r@.len() > 0 ==> r@[0] != '-' && r@.last() != '-',
        utf8_size(r@) <= SLUG_MAX_BYTES,
        !unicode_alphanumeric('-') ==> crate::laws::no_double_dash(r@),
{
    proof {
        crate::laws::lemma_slug_has_no_double_dash(text@);
    }
    let body = slug_body_chars(text);
    let (k, _bytes) = truncation_point(&body, SLUG_MAX_BYTES);
    proof {
        if utf8_size(body@) <= SLUG_MAX_BYTES {
            lemma_chars_within_all(body@, SLUG_MAX_BYTES as int);
            assert(body@.take(k as int) =~= body@);
        }
    }
    let mut cut: Vec<char> = Vec::new();
    let mut i: usize = 0;
    while i < k
        invariant
            k <= body@.len(),
            i <= k,
            cut@ == body@.take(i as int),
        decreases k - i,
    {
        cut.push(body[i]);
        proof {
            assert(body@.take(i + 1) =~= body@.take(i as int).push(body@[i as int]));
        }
        i += 1;
    }
    let trimmed = trimmed_dashes(&cut);
    let r = string_of_range(&trimmed, 0, trimmed.len());
    proof {
        assert(r@ == slug_of(text@));
        crate::laws::lemma_slug_shape(text@);
    }
    r
}

/// The branch slug of a title when it is defined (see `slug_defined`), else none.
pub fn slugify_checked(text: &str) -> (r: Option<String>)
    ensures
        r is Some <==> slug_defined(text@),
        r matches Some(s) ==> s@ == slug_of(text@),
{
    if slug_is_defined(text) {
        Some(slugify(text))
    } else {
        None
    }
}

/// `s` without trailing `ch` characters (what `str::trim_end_matches(ch)` returns).
pub fn trim_end_matches_char(s: &str, ch: char) -> (r: String)
    ensures
        r@ == trim_end_char(s@, ch),
{
    let v = chars_of(s);
    let mut hi: usize = v.len();
    proof {
        assert(v@.subrange(0, v@.len() as int) =~= v@);
    }
    while hi > 0 && v[hi - 1] == ch
        invariant
            hi <= v@.len(),
            v@ == s@,
            trim_end_char(s@, ch) == trim_end_char(v@.subrange(0, hi as int), ch),
        decreases hi,
    {
        proof {
            lemma_trim_end_char_step(v@, ch, 0, hi as int);
        }
        hi -= 1;
    }
    string_of_range(&v, 0, hi)
}

} // verus!
