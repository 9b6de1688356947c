//! Verified text utilities shared by the parsers and the pipeline.
//!
//! Everything here works on `&str` / `String` values whose views are
//! `Seq<char>`; the specification functions define the text operations
//! (substring search, splitting, tokenising, trimming) directly over those
//! sequences.

use vstd::prelude::*;
use vstd::string::StrSliceExecFns;
use vstd::string::StringExecFns;

verus! {

// ---------------------------------------------------------------------------
// Substring search
// ---------------------------------------------------------------------------

/// Index of the leftmost occurrence of `needle` in `hay` at position `i` or
/// later, if any.
pub open spec fn find_sub_from(hay: Seq<char>, needle: Seq<char>, i: int) -> Option<int>
    decreases hay.len() - i,
{
    if i < 0 || i + needle.len() > hay.len() {
        None
    } else if needle.len() == 0 {
        Some(i)
    } else if hay.subrange(i, i + needle.len() as int) == needle {
        Some(i)
    } else {
        find_sub_from(hay, needle, i + 1)
    }
}

/// `needle` occurs somewhere in `hay`.
pub open spec fn contains_seq(hay: Seq<char>, needle: Seq<char>) -> bool {
    find_sub_from(hay, needle, 0) is Some
}

/// A found occurrence lies at or after the start position and fits inside
/// `hay`, and matches `needle` there.
pub proof fn lemma_find_sub_bounds(hay: Seq<char>, needle: Seq<char>, i: int)
    ensures
        match find_sub_from(hay, needle, i) {
            Some(j) => i <= j && 0 <= j && j + needle.len() <= hay.len() && hay.subrange(
                j,
                j + needle.len() as int,
            ) == needle,
            None => true,
        },
    decreases hay.len() - i,
{
    if !(i < 0 || i + needle.len() > hay.len()) {
        if needle.len() == 0 {
            assert(hay.subrange(i, i) =~= needle);
        } else if hay.subrange(i, i + needle.len() as int) == needle {
        } else {
            lemma_find_sub_bounds(hay, needle, i + 1);
        }
    }
}

/// `needle` matches `hay` exactly at position `i`.
pub fn starts_at(hay: &str, i: usize, needle: &str) -> (r: bool)
    requires
        i + needle@.len() <= hay@.len() <= usize::MAX,
    ensures
        r == (hay@.subrange(i as int, i + needle@.len()) == needle@),
{
    let n = needle.unicode_len();
    let mut k: usize = 0;
    while k < n
        invariant
            i + n <= hay@.len() <= usize::MAX,
            n == needle@.len(),
            k <= n,
            forall|t: int| 0 <= t < k ==> hay@[i + t] == needle@[t],
        decreases n - k,
    {
        if hay.get_char(i + k) != needle.get_char(k) {
            proof {
                assert(hay@.subrange(i as int, i + needle@.len())[k as int] != needle@[k as int]);
            }
            return false;
        }
        k += 1;
    }
    proof {
        assert(hay@.subrange(i as int, i + needle@.len()) =~= needle@);
    }
    true
}

/// Leftmost occurrence of `needle` in `hay` at `from` or later, as
/// `find_sub_from` describes it.
pub fn find_sub_at(hay: &str, needle: &str, from: usize) -> (r: Option<usize>)
    ensures
        match r {
            Some(j) => find_sub_from(hay@, needle@, from as int) == Some(j as int) && from <= j,
            None => find_sub_from(hay@, needle@, from as int) is None,
        },
{
    let hlen = hay.unicode_len();
    let nlen = needle.unicode_len();
    if from > hlen || nlen > hlen - from {
        return None;
    }
    if nlen == 0 {
        proof {
            assert(hay@.subrange(from as int, from as int) =~= needle@);
        }
        return Some(from);
    }
    let mut i: usize = from;
    while i <= hlen - nlen
        invariant
            hlen == hay@.len(),
            nlen == needle@.len(),
            0 < nlen,
            nlen <= hlen - from,
            from <= i <= hlen - nlen + 1,
            find_sub_from(hay@, needle@, from as int) == find_sub_from(hay@, needle@, i as int),
        decreases hlen - i,
    {
        if starts_at(hay, i, needle) {
            return Some(i);
        }
        proof {
            assert(find_sub_from(hay@, needle@, i as int) == find_sub_from(
                hay@,
                needle@,
                i + 1,
            ));
        }
        i += 1;
    }
    proof {
        assert(find_sub_from(hay@, needle@, i as int) is None);
    }
    None
}

/// Leftmost occurrence of `needle` in `hay`, as `find_sub_from` describes it.
pub fn find_sub(hay: &str, needle: &str) -> (r: Option<usize>)
    ensures
        match r {
            Some(j) => find_sub_from(hay@, needle@, 0) == Some(j as int),
            None => find_sub_from(hay@, needle@, 0) is None,
        },
{
    find_sub_at(hay, needle, 0)
}

/// The two strings hold the same characters.
pub fn str_eq(a: &str, b: &str) -> (r: bool)
    ensures
        r == (a@ == b@),
{
    let alen = a.unicode_len();
    let blen = b.unicode_len();
    if alen != blen {
        return false;
    }
    let r = starts_at(a, 0, b);
    proof {
        assert(a@.subrange(0, b@.len() as int) =~= a@);
    }
    r
}

/// `needle` occurs somewhere in `hay`.
pub fn contains_str(hay: &str, needle: &str) -> (r: bool)
    ensures
        r == contains_seq(hay@, needle@),
{
    find_sub(hay, needle).is_some()
}

// ---------------------------------------------------------------------------
// Prefix handling
// ---------------------------------------------------------------------------

/// `s` begins with `prefix`.
pub open spec fn starts_with_seq(s: Seq<char>, prefix: Seq<char>) -> bool {
    prefix.len() <= s.len() && s.take(prefix.len() as int) == prefix
}

/// `s` begins with `prefix`.
pub fn starts_with(s: &str, prefix: &str) -> (r: bool)
    ensures
        r == starts_with_seq(s@, prefix@),
{
    let n = prefix.unicode_len();
    if n > s.unicode_len() {
        return false;
    }
    let r = starts_at(s, 0, prefix);
    proof {
        assert(s@.subrange(0, prefix@.len() as int) == s@.take(prefix@.len() as int));
    }
    r
}

/// What remains of `s` after `prefix`, when `s` begins with it.
pub fn strip_prefix_str<'a>(s: &'a str, prefix: &str) -> (r: Option<&'a str>)
    ensures
        match r {
            Some(rest) => starts_with_seq(s@, prefix@) && rest@ == s@.skip(prefix@.len() as int),
            None => !starts_with_seq(s@, prefix@),
        },
{
    if starts_with(s, prefix) {
        let rest = s.substring_char(prefix.unicode_len(), s.unicode_len());
        Some(rest)
    } else {
        None
    }
}

// ---------------------------------------------------------------------------
// Splitting
// ---------------------------------------------------------------------------

/// The segments of `s` between occurrences of `sep`; always at least one
/// segment, and one more segment than there are separators.
pub open spec fn split_on(s: Seq<char>, sep: char) -> Seq<Seq<char>>
    decreases s.len(),
{
    if s.len() == 0 {
        seq![Seq::<char>::empty()]
    } else if s.last() == sep {
        split_on(s.drop_last(), sep).push(Seq::<char>::empty())
    } else {
        let r = split_on(s.drop_last(), sep);
        r.update(r.len() - 1, r.last().push(s.last()))
    }
}

pub proof fn lemma_split_on_len(s: Seq<char>, sep: char)
    ensures
        1 <= split_on(s, sep).len() <= s.len() + 1,
    decreases s.len(),
{
    if s.len() > 0 {
        lemma_split_on_len(s.drop_last(), sep);
    }
}

/// Element-for-element agreement between a vector of strings and a sequence
/// of character sequences.
pub open spec fn views_match(v: Seq<String>, s: Seq<Seq<char>>) -> bool {
    v.len() == s.len() && forall|i: int| 0 <= i < v.len() ==> #[trigger] v[i]@ == s[i]
}

/// The segments of `s` between occurrences of `sep`, as `split_on` describes
/// them.
pub fn split_str(s: &str, sep: char) -> (r: Vec<String>)
    ensures
        views_match(r@, split_on(s@, sep)),
        r@.len() >= 1,
{
    let n = s.unicode_len();
    let mut parts: Vec<String> = Vec::new();
    parts.push(String::new());
    proof {
        assert(s@.take(0) =~= Seq::<char>::empty());
    }
    let mut i: usize = 0;
    while i < n
        invariant
            n == s@.len(),
            i <= n,
            parts@.len() >= 1,
            views_match(parts@, split_on(s@.take(i as int), sep)),
        decreases n - i,
    {
        proof {
            assert(s@.take(i + 1).drop_last() =~= s@.take(i as int));
            assert(s@.take(i + 1).last() == s@[i as int]);
        }
        let c = s.get_char(i);
        if c == sep {
            parts.push(String::new());
        } else {
            let piece = s.substring_char(i, i + 1);
            let mut last = parts.pop().unwrap();
            last.append(piece);
            proof {
                let prev = split_on(s@.take(i as int), sep);
                assert(last@ =~= prev.last().push(s@[i as int]));
            }
            parts.push(last);
        }
        i += 1;
    }
    proof {
        assert(s@.take(n as int) =~= s@);
    }
    parts
}

/// One trailing carriage return removed.
pub open spec fn strip_cr(l: Seq<char>) -> Seq<char> {
    if l.len() > 0 && l.last() == '\r' {
        l.drop_last()
    } else {
        l
    }
}

/// The lines of `s`: segments between newlines, without a trailing empty
/// segment when `s` ends in a newline, and with one carriage return stripped
/// from every segment that a newline terminated.
pub open spec fn lines_of(s: Seq<char>) -> Seq<Seq<char>> {
    let parts = split_on(s, '\n');
    if s.len() > 0 && s.last() == '\n' {
        parts.drop_last().map_values(|l: Seq<char>| strip_cr(l))
    } else {
        let kept = parts.map_values(|l: Seq<char>| strip_cr(l));
        kept.update(kept.len() - 1, parts.last())
    }
}

pub proof fn lemma_lines_of_len(s: Seq<char>)
    ensures
        lines_of(s).len() <= s.len() + 1,
{
    lemma_split_on_len(s, '\n');
}

/// One trailing carriage return removed.
fn strip_cr_str(l: &String) -> (r: String)
    ensures
        r@ == strip_cr(l@),
{
    let n = l.as_str().unicode_len();
    if n > 0 && l.as_str().get_char(n - 1) == '\r' {
        let r = String::from_str(l.as_str().substring_char(0, n - 1));
        proof {
            assert(r@ =~= strip_cr(l@));
        }
        r
    } else {
        l.clone()
    }
}

/// The lines of `s`, as `lines_of` describes them.
pub fn lines(s: &str) -> (r: Vec<String>)
    ensures
        views_match(r@, lines_of(s@)),
{
    let n = s.unicode_len();
    let ends_nl = n > 0 && s.get_char(n - 1) == '\n';
    let mut parts = split_str(s, '\n');
    if ends_nl {
        let _ = parts.pop();
    }
    let ghost target = lines_of(s@);
    proof {
        assert(target.len() == parts@.len());
    }
    let mut out: Vec<String> = Vec::new();
    let mut i: usize = 0;
    while i < parts.len()
        invariant
            target == lines_of(s@),
            target.len() == parts@.len(),
            ends_nl == (s@.len() > 0 && s@.last() == '\n'),
            views_match(parts@, if s@.len() > 0 && s@.last() == '\n' {
                split_on(s@, '\n').drop_last()
            } else {
                split_on(s@, '\n')
            }),
            i <= parts@.len(),
            out@.len() == i,
            forall|k: int| 0 <= k < i ==> #[trigger] out@[k]@ == target[k],
        decreases parts@.len() - i,
    {
        let keep_raw = !ends_nl && i + 1 == parts.len();
        proof {
            let full = split_on(s@, '\n');
            if s@.len() > 0 && s@.last() == '\n' {
                assert(target[i as int] == strip_cr(full.drop_last()[i as int]));
            } else {
                let kept = full.map_values(|l: Seq<char>| strip_cr(l));
                if i + 1 == parts@.len() {
                    assert(target[i as int] == full.last());
                    assert(full.last() == full[i as int]);
                } else {
                    assert(target[i as int] == kept[i as int]);
                    assert(kept[i as int] == strip_cr(full[i as int]));
                }
            }
        }
        if keep_raw {
            out.push(parts[i].clone());
        } else {
            out.push(strip_cr_str(&parts[i]));
        }
        i += 1;
    }
    out
}

// ---------------------------------------------------------------------------
// Whitespace, tokens, trimming
// ---------------------------------------------------------------------------

/// The characters with the Unicode `White_Space` property.
pub open spec fn is_space_char(c: char) -> bool {
    (0x9 <= c as u32 && c as u32 <= 0xD) || c as u32 == 0x20 || c as u32 == 0x85 || c as u32
        == 0xA0 || c as u32 == 0x1680 || (0x2000 <= c as u32 && c as u32 <= 0x200A) || c as u32
        == 0x2028 || c as u32 == 0x2029 || c as u32 == 0x202F || c as u32 == 0x205F || c as u32
        == 0x3000
}

/// `c` has the Unicode `White_Space` property.
pub fn is_space(c: char) -> (r: bool)
    ensures
        r == is_space_char(c),
{
    let u = c as u32;
    (0x9 <= u && u <= 0xD) || u == 0x20 || u == 0x85 || u == 0xA0 || u == 0x1680 || (0x2000 <= u
        && u <= 0x200A) || u == 0x2028 || u == 0x2029 || u == 0x202F || u == 0x205F || u == 0x3000
}

/// First index at or after `i` holding a non-space character, or the length.
pub open spec fn token_start(l: Seq<char>, i: int) -> int
    decreases l.len() - i,
{
    if i < 0 || i >= l.len() {
        l.len() as int
    } else if !is_space_char(l[i]) {
        i
    } else {
        token_start(l, i + 1)
    }
}

/// First index at or after `i` holding a space character, or the length.
pub open spec fn token_end(l: Seq<char>, i: int) -> int
    decreases l.len() - i,
{
    if i < 0 || i >= l.len() {
        l.len() as int
    } else if is_space_char(l[i]) {
        i
    } else {
        token_end(l, i + 1)
    }
}

/// Every character of `l` is whitespace.
pub open spec fn is_blank(l: Seq<char>) -> bool {
    token_start(l, 0) == l.len()
}

/// The first whitespace-delimited token of `l`; empty when `l` is blank.
pub open spec fn first_token(l: Seq<char>) -> Seq<char> {
    l.subrange(token_start(l, 0), token_end(l, token_start(l, 0)))
}

pub proof fn lemma_token_bounds(l: Seq<char>, i: int)
    requires
        0 <= i <= l.len(),
    ensures
        i <= token_start(l, i) <= l.len(),
        i <= token_end(l, i) <= l.len(),
        token_start(l, i) < l.len() ==> !is_space_char(l[token_start(l, i)]),
        token_end(l, i) < l.len() ==> is_space_char(l[token_end(l, i)]),
    decreases l.len() - i,
{
    if i < l.len() {
        lemma_token_bounds(l, i + 1);
    }
}

/// Whether `l` is blank, together with its first token when it is not.
pub fn first_token_str(l: &str) -> (r: Option<String>)
    ensures
        match r {
            Some(t) => !is_blank(l@) && t@ == first_token(l@),
            None => is_blank(l@),
        },
{
    let n = l.unicode_len();
    let mut b: usize = 0;
    while b < n && is_space(l.get_char(b))
        invariant
            n == l@.len(),
            b <= n,
            token_start(l@, 0) == token_start(l@, b as int),
        decreases n - b,
    {
        b += 1;
    }
    proof {
        assert(token_start(l@, b as int) == b as int || token_start(l@, b as int) == l@.len());
    }
    if b == n {
        return None;
    }
    let mut e: usize = b;
    while e < n && !is_space(l.get_char(e))
        invariant
            n == l@.len(),
            b <= e <= n,
            token_end(l@, b as int) == token_end(l@, e as int),
        decreases n - e,
    {
        e += 1;
    }
    proof {
        lemma_token_bounds(l@, b as int);
        assert(token_end(l@, e as int) == e as int || token_end(l@, e as int) == l@.len());
    }
    Some(String::from_str(l.substring_char(b, e)))
}

/// Last index before whitespace-only trailing characters.
pub open spec fn rtrim_end(l: Seq<char>) -> int
    decreases l.len(),
{
    if l.len() == 0 {
        0
    } else if is_space_char(l.last()) {
        rtrim_end(l.drop_last())
    } else {
        l.len() as int
    }
}

/// `l` without leading and trailing whitespace.
pub open spec fn trim_of(l: Seq<char>) -> Seq<char> {
    let b = token_start(l, 0);
    let e = rtrim_end(l);
    if b >= e {
        Seq::<char>::empty()
    } else {
        l.subrange(b, e)
    }
}

pub proof fn lemma_rtrim_end_bounds(l: Seq<char>)
    ensures
        0 <= rtrim_end(l) <= l.len(),
    decreases l.len(),
{
    if l.len() > 0 && is_space_char(l.last()) {
        lemma_rtrim_end_bounds(l.drop_last());
    }
}

/// `l` without leading and trailing whitespace, as `trim_of` describes it.
pub fn trim_str(l: &str) -> (r: String)
    ensures
        r@ == trim_of(l@),
{
    let n = l.unicode_len();
    let mut b: usize = 0;
    while b < n && is_space(l.get_char(b))
        invariant
            n == l@.len(),
            b <= n,
            token_start(l@, 0) == token_start(l@, b as int),
        decreases n - b,
    {
        b += 1;
    }
    proof {
        assert(token_start(l@, b as int) == b as int || token_start(l@, b as int) == l@.len());
    }
    if b == n {
        proof {
            lemma_rtrim_end_bounds(l@);
            assert(token_start(l@, 0) == l@.len());
            assert(trim_of(l@) == Seq::<char>::empty());
        }
        return String::new();
    }
    let mut e: usize = n;
    proof {
        assert(l@.take(n as int) =~= l@);
    }
    while e > b && is_space(l.get_char(e - 1))
        invariant
            n == l@.len(),
            b < e <= n,
            b < n,
            !is_space_char(l@[b as int]),
            token_start(l@, 0) == b as int,
            rtrim_end(l@) == rtrim_end(l@.take(e as int)),
        decreases e,
    {
        proof {
            assert(l@.take(e as int).drop_last() =~= l@.take(e - 1));
            assert(l@.take(e as int).last() == l@[e - 1]);
        }
        e -= 1;
    }
    proof {
        assert(e > b);
        assert(l@.take(e as int).last() == l@[e - 1]);
        assert(rtrim_end(l@.take(e as int)) == e as int);
        assert(trim_of(l@) == l@.subrange(b as int, e as int));
    }
    String::from_str(l.substring_char(b, e))
}

// ---------------------------------------------------------------------------
// Searching from the end
// ---------------------------------------------------------------------------

/// Greatest index at which `c` occurs in `l`, if any.
pub open spec fn rfind_in(l: Seq<char>, c: char) -> Option<int>
    decreases l.len(),
{
    if l.len() == 0 {
        None
    } else if l.last() == c {
        Some(l.len() - 1)
    } else {
        rfind_in(l.drop_last(), c)
    }
}

/// Greatest index at which `c` occurs in `l`, as `rfind_in` describes it.
pub fn rfind_char(l: &str, c: char) -> (r: Option<usize>)
    ensures
        match r {
            Some(j) => rfind_in(l@, c) == Some(j as int) && j < l@.len(),
            None => rfind_in(l@, c) is None,
        },
{
    let n = l.unicode_len();
    let mut j: usize = n;
    proof {
        assert(l@.take(n as int) =~= l@);
    }
    while j > 0
        invariant
            n == l@.len(),
            j <= n,
            rfind_in(l@, c) == rfind_in(l@.take(j as int), c),
        decreases j,
    {
        proof {
            assert(l@.take(j as int).drop_last() =~= l@.take(j - 1));
            assert(l@.take(j as int).last() == l@[j - 1]);
        }
        if l.get_char(j - 1) == c {
            return Some(j - 1);
        }
        j -= 1;
    }
    None
}

// ---------------------------------------------------------------------------
// Lexicographic order on character sequences
// ---------------------------------------------------------------------------

/// `a` is at or before `b` in the lexicographic order on code points.
pub open spec fn lex_le(a: Seq<char>, b: Seq<char>) -> bool
    decreases a.len(),
{
    if a.len() == 0 {
        true
    } else if b.len() == 0 {
        false
    } else if (a[0] as u32) < (b[0] as u32) {
        true
    } else if (a[0] as u32) > (b[0] as u32) {
        false
    } else {
        lex_le(a.skip(1), b.skip(1))
    }
}

/// The lexicographic order is total.
pub proof fn lemma_lex_le_total(a: Seq<char>, b: Seq<char>)
    ensures
        lex_le(a, b) || lex_le(b, a),
    decreases a.len(),
{
    if a.len() > 0 && b.len() > 0 && a[0] as u32 == b[0] as u32 {
        lemma_lex_le_total(a.skip(1), b.skip(1));
    }
}

/// The lexicographic order is transitive.
pub proof fn lemma_lex_le_trans(a: Seq<char>, b: Seq<char>, c: Seq<char>)
    requires
        lex_le(a, b),
        lex_le(b, c),
    ensures
        lex_le(a, c),
    decreases a.len(),
{
    if a.len() > 0 && b.len() > 0 && c.len() > 0 && a[0] as u32 == b[0] as u32 && b[0] as u32
        == c[0] as u32 {
        lemma_lex_le_trans(a.skip(1), b.skip(1), c.skip(1));
    }
}

/// `a` is at or before `b` in the lexicographic order on code points.
pub fn str_lex_le(a: &str, b: &str) -> (r: bool)
    ensures
        r == lex_le(a@, b@),
{
    let alen = a.unicode_len();
    let blen = b.unicode_len();
    let mut i: usize = 0;
    proof {
        assert(a@.skip(0) =~= a@);
        assert(b@.skip(0) =~= b@);
    }
    while i < alen && i < blen
        invariant
            alen == a@.len(),
            blen == b@.len(),
            i <= alen,
            i <= blen,
            lex_le(a@, b@) == lex_le(a@.skip(i as int), b@.skip(i as int)),
        decreases alen - i,
    {
        let ca = a.get_char(i);
        let cb = b.get_char(i);
        if (ca as u32) < (cb as u32) {
            return true;
        }
        if (ca as u32) > (cb as u32) {
            return false;
        }
        proof {
            assert(a@.skip(i as int)[0] == a@[i as int]);
            assert(b@.skip(i as int)[0] == b@[i as int]);
            assert(a@.skip(i as int).skip(1) =~= a@.skip(i + 1));
            assert(b@.skip(i as int).skip(1) =~= b@.skip(i + 1));
        }
        i += 1;
    }
    i == alen
}

// ---------------------------------------------------------------------------
// Character classes and lowercasing that depend on the Unicode tables
// ---------------------------------------------------------------------------

/// What `str::to_lowercase` returns for a string with these characters.
pub uninterp spec fn lower_of(s: Seq<char>) -> Seq<char>;

/// Relies on str::to_lowercase: the result depends on the characters alone,
/// by the Unicode lowercase mapping.
#[verifier::external_body]
pub fn lowercase(s: &str) -> (r: String)
    ensures
        r@ == lower_of(s@),
{
    s.to_lowercase()
}

/// Whether `char::is_alphanumeric` holds of a character.
pub uninterp spec fn is_alnum_char(c: char) -> bool;

/// Relies on char::is_alphanumeric: a property of the character alone, by the
/// Unicode alphabetic and numeric categories.
#[verifier::external_body]
pub fn is_alnum(c: char) -> (r: bool)
    ensures
        r == is_alnum_char(c),
{
    c.is_alphanumeric()
}

/// Whether `char::is_uppercase` holds of a character.
pub uninterp spec fn is_upper_char(c: char) -> bool;

/// Relies on char::is_uppercase: a property of the character alone, by the
/// Unicode uppercase category.
#[verifier::external_body]
pub fn is_upper(c: char) -> (r: bool)
    ensures
        r == is_upper_char(c),
{
    c.is_uppercase()
}

// ---------------------------------------------------------------------------
// Concatenation helpers
// ---------------------------------------------------------------------------

/// The two pieces joined.
pub fn concat2(a: &str, b: &str) -> (r: String)
    ensures
        r@ == a@ + b@,
{
    let mut s = String::new();
    s.append(a);
    s.append(b);
    proof {
        assert(s@ =~= a@ + b@);
    }
    s
}

/// The three pieces joined.
pub fn concat3(a: &str, b: &str, c: &str) -> (r: String)
    ensures
        r@ == a@ + b@ + c@,
{
    let mut s = String::new();
    s.append(a);
    s.append(b);
    s.append(c);
    proof {
        assert(s@ =~= a@ + b@ + c@);
    }
    s
}

/// The four pieces joined.
pub fn concat4(a: &str, b: &str, c: &str, d: &str) -> (r: String)
    ensures
        r@ == a@ + b@ + c@ + d@,
{
    let mut s = String::new();
    s.append(a);
    s.append(b);
    s.append(c);
    s.append(d);
    proof {
        assert(s@ =~= a@ + b@ + c@ + d@);
    }
    s
}

} // verus!
