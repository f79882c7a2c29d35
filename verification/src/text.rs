//! Byte-string helpers.
//!
//! All text in this crate is handled as UTF-8 bytes: offsets are byte offsets
//! and every helper here is specified over `Seq<u8>`.
//!
//! White space is what Unicode calls so: the six ASCII characters space,
//! tab, line feed, vertical tab, form feed and carriage return, and the other
//! characters with the property `White_Space`, such as the no-break space,
//! each in its UTF-8 form.

use vstd::prelude::*;

verus! {

/// The white space characters of ASCII: space, tab, line feed, vertical
/// tab, form feed, carriage return.
pub open spec fn is_space(b: u8) -> bool {
    b == 0x20 || (0x09 <= b && b <= 0x0d)
}

/// The white space characters of two bytes: next line (U+0085) and no-break
/// space (U+00A0).
pub open spec fn two_byte_space(a: u8, b: u8) -> bool {
    a == 0xc2 && (b == 0x85 || b == 0xa0)
}

/// The white space characters of three bytes: U+1680, U+2000 to U+200A,
/// U+2028, U+2029, U+202F, U+205F and U+3000.
pub open spec fn three_byte_space(a: u8, b: u8, c: u8) -> bool {
    ||| a == 0xe1 && b == 0x9a && c == 0x80
    ||| a == 0xe2 && b == 0x80 && ((0x80 <= c && c <= 0x8a) || c == 0xa8 || c == 0xa9 || c == 0xaf)
    ||| a == 0xe2 && b == 0x81 && c == 0x9f
    ||| a == 0xe3 && b == 0x80 && c == 0x80
}

/// The number of bytes of the white space character that stands in `s` at
/// index `i`; 0 where none stands there.
pub open spec fn space_at(s: Seq<u8>, i: int) -> int {
    if i < 0 || i >= s.len() {
        0
    } else if is_space(s[i]) {
        1
    } else if i + 1 < s.len() && two_byte_space(s[i], s[i + 1]) {
        2
    } else if i + 2 < s.len() && three_byte_space(s[i], s[i + 1], s[i + 2]) {
        3
    } else {
        0
    }
}

/// The number of bytes of the white space character with which `s` ends; 0
/// where it ends with none.
pub open spec fn space_at_end(s: Seq<u8>) -> int {
    let n = s.len() as int;
    if n >= 1 && is_space(s[n - 1]) {
        1
    } else if n >= 2 && two_byte_space(s[n - 2], s[n - 1]) {
        2
    } else if n >= 3 && three_byte_space(s[n - 3], s[n - 2], s[n - 1]) {
        3
    } else {
        0
    }
}

/// Number of bytes of the white space with which `s` begins.
pub open spec fn lead_space(s: Seq<u8>) -> int
    decreases s.len(),
{
    let n = space_at(s, 0);
    if n > 0 {
        n + lead_space(s.skip(n))
    } else {
        0
    }
}

/// Number of bytes of the white space with which `s` ends.
pub open spec fn trail_space(s: Seq<u8>) -> int
    decreases s.len(),
{
    let n = space_at_end(s);
    if n > 0 {
        n + trail_space(s.take(s.len() - n))
    } else {
        0
    }
}

/// `s` without the white space with which it begins.
pub open spec fn trimmed_start(s: Seq<u8>) -> Seq<u8> {
    s.skip(lead_space(s))
}

/// `s` without the white space with which it ends.
pub open spec fn trimmed_end(s: Seq<u8>) -> Seq<u8> {
    s.take(s.len() - trail_space(s))
}

/// Whether white space stands somewhere in `s`.
pub open spec fn holds_space(s: Seq<u8>) -> bool {
    exists|i: int| 0 <= i < s.len() && #[trigger] space_at(s, i) > 0
}

/// Where the white space at the end of a text begins, and that the text
/// without it ends with none.
pub proof fn lemma_trail_space(s: Seq<u8>)
    ensures
        0 <= trail_space(s) <= s.len(),
        trail_space(s) > 0 ==> space_at(s, s.len() - trail_space(s)) > 0,
        trail_space(trimmed_end(s)) == 0,
        space_at_end(trimmed_end(s)) == 0,
    decreases s.len(),
{
    let n = space_at_end(s);
    if n > 0 {
        let t = s.take(s.len() - n);
        lemma_trail_space(t);
        assert(t.take(t.len() - trail_space(t)) =~= s.take(s.len() - trail_space(s)));
        if trail_space(t) > 0 {
            let at = t.len() - trail_space(t);
            assert(t[at] == s[at]);
            if at + 1 < t.len() {
                assert(t[at + 1] == s[at + 1]);
            }
            if at + 2 < t.len() {
                assert(t[at + 2] == s[at + 2]);
            }
        }
    } else {
        assert(s.take(s.len() as int) =~= s);
    }
}

/// `[A-Za-z0-9_]`.
pub open spec fn is_word_byte(b: u8) -> bool {
    (0x30 <= b && b <= 0x39) || (0x41 <= b && b <= 0x5a) || (0x61 <= b && b <= 0x7a) || b == 0x5f
}

/// Lower-case form of an ASCII letter; every other byte is unchanged.
pub open spec fn ascii_lower(b: u8) -> u8 {
    if 0x41 <= b && b <= 0x5a {
        (b + 0x20) as u8
    } else {
        b
    }
}

/// Two byte strings that differ at most in the case of ASCII letters.
pub open spec fn eq_ascii_nocase(a: Seq<u8>, b: Seq<u8>) -> bool {
    &&& a.len() == b.len()
    &&& forall|i: int| 0 <= i < a.len() ==> ascii_lower(#[trigger] a[i]) == ascii_lower(b[i])
}

/// A set of bytes to trim away.
#[derive(Clone, Copy, Debug)]
pub enum ByteSet {
    /// One given byte.
    Only(u8),
    /// The bytes of which words are made: `[A-Za-z0-9_]`.
    Word,
}

impl ByteSet {
    /// Whether the set holds `b`.
    pub open spec fn has(self, b: u8) -> bool {
        match self {
            ByteSet::Only(c) => b == c,
            ByteSet::Word => is_word_byte(b),
        }
    }
}

/// Number of leading bytes of `s` that are in `set`.
pub open spec fn lead(s: Seq<u8>, set: ByteSet) -> int
    decreases s.len(),
{
    if s.len() > 0 && set.has(s[0]) {
        1 + lead(s.drop_first(), set)
    } else {
        0
    }
}

/// Number of trailing bytes of `s` that are in `set`.
pub open spec fn trail(s: Seq<u8>, set: ByteSet) -> int
    decreases s.len(),
{
    if s.len() > 0 && set.has(s.last()) {
        1 + trail(s.drop_last(), set)
    } else {
        0
    }
}

/// `s` without its leading bytes that are in `set`.
pub open spec fn trim_start_by(s: Seq<u8>, set: ByteSet) -> Seq<u8> {
    s.skip(lead(s, set))
}

/// `s` without its trailing bytes that are in `set`.
pub open spec fn trim_end_by(s: Seq<u8>, set: ByteSet) -> Seq<u8> {
    s.take(s.len() - trail(s, set))
}

/// `s` without its leading and trailing bytes that are in `set`.
pub open spec fn trim_by(s: Seq<u8>, set: ByteSet) -> Seq<u8> {
    trim_end_by(trim_start_by(s, set), set)
}

/// `s` without leading and trailing white space.
pub open spec fn trimmed(s: Seq<u8>) -> Seq<u8> {
    trimmed_end(trimmed_start(s))
}

/// `s` without leading and trailing occurrences of the byte `c`.
pub open spec fn trimmed_of(s: Seq<u8>, c: u8) -> Seq<u8> {
    trim_by(s, ByteSet::Only(c))
}

/// Whether `pat` occurs in `s` at index `i`.
pub open spec fn occurs_at(s: Seq<u8>, pat: Seq<u8>, i: int) -> bool {
    0 <= i && i + pat.len() <= s.len() && s.subrange(i, i + pat.len()) == pat
}

/// Whether `pat` occurs in `s` at index `i`, the case of ASCII letters aside.
pub open spec fn occurs_nocase_at(s: Seq<u8>, pat: Seq<u8>, i: int) -> bool {
    0 <= i && i + pat.len() <= s.len() && eq_ascii_nocase(s.subrange(i, i + pat.len()), pat)
}

/// Whether `pat` occurs anywhere in `s`.
pub open spec fn contains_bytes(s: Seq<u8>, pat: Seq<u8>) -> bool {
    exists|i: int| occurs_at(s, pat, i)
}

/// A run of `n` leading bytes that are in `set`, followed by the end or by a
/// byte that is not in it, is the whole lead.
pub proof fn lemma_lead_is(s: Seq<u8>, set: ByteSet, n: int)
    requires
        0 <= n <= s.len(),
        forall|i: int| 0 <= i < n ==> set.has(#[trigger] s[i]),
        n < s.len() ==> !set.has(s[n]),
    ensures
        lead(s, set) == n,
    decreases s.len(),
{
    if n > 0 {
        let t = s.drop_first();
        assert(set.has(s[0]));
        assert forall|i: int| 0 <= i < n - 1 implies set.has(#[trigger] t[i]) by {
            assert(t[i] == s[i + 1]);
        }
        lemma_lead_is(t, set, n - 1);
    }
}

/// A run of `n` trailing bytes that are in `set`, preceded by the start or by
/// a byte that is not in it, is the whole trail.
pub proof fn lemma_trail_is(s: Seq<u8>, set: ByteSet, n: int)
    requires
        0 <= n <= s.len(),
        forall|i: int| s.len() - n <= i < s.len() ==> set.has(#[trigger] s[i]),
        n < s.len() ==> !set.has(s[s.len() - n - 1]),
    ensures
        trail(s, set) == n,
    decreases s.len(),
{
    if n > 0 {
        let t = s.drop_last();
        assert(set.has(s[s.len() - 1]));
        assert forall|i: int| t.len() - (n - 1) <= i < t.len() implies set.has(#[trigger] t[i]) by {
            assert(t[i] == s[i]);
        }
        lemma_trail_is(t, set, n - 1);
    }
}

/// Whether two byte strings are equal.
pub fn bytes_eq(a: &[u8], b: &[u8]) -> (r: bool)
    ensures
        r == (a@ == b@),
{
    if a.len() != b.len() {
        return false;
    }
    let mut i: usize = 0;
    while i < a.len()
        invariant
            i <= a.len(),
            a.len() == b.len(),
            forall|j: int| 0 <= j < i ==> a@[j] == b@[j],
        decreases a.len() - i,
    {
        if a[i] != b[i] {
            return false;
        }
        i += 1;
    }
    assert(a@ =~= b@);
    true
}

/// Lower-case form of an ASCII letter; every other byte is unchanged.
pub fn to_ascii_lower(b: u8) -> (r: u8)
    ensures
        r == ascii_lower(b),
{
    if 0x41 <= b && b <= 0x5a {
        b + 0x20
    } else {
        b
    }
}

/// Whether two byte strings are equal, the case of ASCII letters aside.
pub fn bytes_eq_nocase(a: &[u8], b: &[u8]) -> (r: bool)
    ensures
        r == eq_ascii_nocase(a@, b@),
{
    if a.len() != b.len() {
        return false;
    }
    let mut i: usize = 0;
    while i < a.len()
        invariant
            i <= a.len(),
            a.len() == b.len(),
            forall|j: int| 0 <= j < i ==> ascii_lower(#[trigger] a@[j]) == ascii_lower(b@[j]),
        decreases a.len() - i,
    {
        if to_ascii_lower(a[i]) != to_ascii_lower(b[i]) {
            return false;
        }
        i += 1;
    }
    true
}

/// Whether `s` begins with `prefix`.
pub fn starts_with(s: &[u8], prefix: &[u8]) -> (r: bool)
    ensures
        r == prefix@.is_prefix_of(s@),
{
    if prefix.len() > s.len() {
        return false;
    }
    let head = vstd::slice::slice_subrange(s, 0, prefix.len());
    let r = bytes_eq(head, prefix);
    assert(prefix@.is_prefix_of(s@) == (s@.subrange(0, prefix@.len() as int) == prefix@)) by {
        if prefix@.is_prefix_of(s@) {
            assert(s@.subrange(0, prefix@.len() as int) =~= prefix@);
        }
    }
    r
}

/// Whether `s` ends with `suffix`.
pub fn ends_with(s: &[u8], suffix: &[u8]) -> (r: bool)
    ensures
        r == suffix@.is_suffix_of(s@),
{
    if suffix.len() > s.len() {
        return false;
    }
    let tail = vstd::slice::slice_subrange(s, s.len() - suffix.len(), s.len());
    let r = bytes_eq(tail, suffix);
    assert(suffix@.is_suffix_of(s@) == (s@.subrange(s@.len() - suffix@.len(), s@.len() as int)
        == suffix@)) by {
        if suffix@.is_suffix_of(s@) {
            assert(s@.subrange(s@.len() - suffix@.len(), s@.len() as int) =~= suffix@);
        }
    }
    r
}

/// Whether `s` begins with `prefix`, the case of ASCII letters aside.
pub fn starts_with_nocase(s: &[u8], prefix: &[u8]) -> (r: bool)
    ensures
        r == occurs_nocase_at(s@, prefix@, 0),
{
    if prefix.len() > s.len() {
        return false;
    }
    let head = vstd::slice::slice_subrange(s, 0, prefix.len());
    bytes_eq_nocase(head, prefix)
}

/// Whether a byte is a white space character of ASCII.
pub fn is_space_byte(b: u8) -> (r: bool)
    ensures
        r == is_space(b),
{
    b == 0x20 || (0x09 <= b && b <= 0x0d)
}

/// Whether a byte is one of `[A-Za-z0-9_]`.
pub fn is_word(b: u8) -> (r: bool)
    ensures
        r == is_word_byte(b),
{
    (0x30 <= b && b <= 0x39) || (0x41 <= b && b <= 0x5a) || (0x61 <= b && b <= 0x7a) || b == 0x5f
}

/// The number of bytes of the white space character that stands in `s` at
/// index `i`; 0 where none stands there.
pub fn space_len_at(s: &[u8], i: usize) -> (n: usize)
    ensures
        n == space_at(s@, i as int),
        n <= 3,
        i + n <= s@.len() || n == 0,
{
    if i >= s.len() {
        0
    } else if is_space_byte(s[i]) {
        1
    } else if s.len() - i >= 2 && s[i] == 0xc2 && (s[i + 1] == 0x85 || s[i + 1] == 0xa0) {
        2
    } else if s.len() - i >= 3 && is_wide_space(s[i], s[i + 1], s[i + 2]) {
        3
    } else {
        0
    }
}

/// Whether three bytes are a white space character.
fn is_wide_space(a: u8, b: u8, c: u8) -> (r: bool)
    ensures
        r == three_byte_space(a, b, c),
{
    (a == 0xe1 && b == 0x9a && c == 0x80) || (a == 0xe2 && b == 0x80 && ((0x80 <= c && c <= 0x8a)
        || c == 0xa8 || c == 0xa9 || c == 0xaf)) || (a == 0xe2 && b == 0x81 && c == 0x9f) || (a
        == 0xe3 && b == 0x80 && c == 0x80)
}

/// The number of bytes of the white space character with which the first
/// `end` bytes of `s` end; 0 where they end with none.
pub fn space_len_before(s: &[u8], end: usize) -> (n: usize)
    requires
        end <= s@.len(),
    ensures
        n == space_at_end(s@.take(end as int)),
        n <= end,
{
    if end >= 1 && is_space_byte(s[end - 1]) {
        1
    } else if end >= 2 && s[end - 2] == 0xc2 && (s[end - 1] == 0x85 || s[end - 1] == 0xa0) {
        2
    } else if end >= 3 && is_wide_space(s[end - 3], s[end - 2], s[end - 1]) {
        3
    } else {
        0
    }
}

/// Whether white space stands somewhere in `s`.
pub fn has_space(s: &[u8]) -> (r: bool)
    ensures
        r == holds_space(s@),
{
    let mut i: usize = 0;
    while i < s.len()
        invariant
            i <= s.len(),
            forall|k: int| 0 <= k < i ==> #[trigger] space_at(s@, k) == 0,
        decreases s.len() - i,
    {
        if space_len_at(s, i) > 0 {
            return true;
        }
        i += 1;
    }
    false
}

/// Number of bytes of the white space with which `s` begins.
pub fn leading_space(s: &[u8]) -> (n: usize)
    ensures
        n == lead_space(s@),
        n <= s@.len(),
{
    let mut i: usize = 0;
    assert(s@.skip(0) =~= s@);
    loop
        invariant
            i <= s.len(),
            lead_space(s@) == i + lead_space(s@.skip(i as int)),
        decreases s.len() - i,
    {
        let n = space_len_at(s, i);
        proof {
            let rest = s@.skip(i as int);
            assert(space_at(rest, 0) == space_at(s@, i as int)) by {
                if i < s@.len() {
                    assert(rest[0] == s@[i as int]);
                    if i + 1 < s@.len() {
                        assert(rest[1] == s@[i + 1]);
                    }
                    if i + 2 < s@.len() {
                        assert(rest[2] == s@[i + 2]);
                    }
                }
            }
            assert(rest.skip(n as int) =~= s@.skip(i + n));
        }
        if n == 0 {
            return i;
        }
        i += n;
    }
}

/// Number of bytes of the white space with which `s` ends.
pub fn trailing_space(s: &[u8]) -> (n: usize)
    ensures
        n == trail_space(s@),
        n <= s@.len(),
{
    let mut end: usize = s.len();
    assert(s@.take(end as int) =~= s@);
    loop
        invariant
            end <= s.len(),
            trail_space(s@) == s.len() - end + trail_space(s@.take(end as int)),
        decreases end,
    {
        let n = space_len_before(s, end);
        proof {
            let head = s@.take(end as int);
            assert(head.take(head.len() - n) =~= s@.take(end - n));
        }
        if n == 0 {
            return s.len() - end;
        }
        end -= n;
    }
}

/// Number of leading bytes equal to `c`.
pub fn leading_of(s: &[u8], c: u8) -> (n: usize)
    ensures
        n == lead(s@, ByteSet::Only(c)),
        n <= s@.len(),
{
    let mut i: usize = 0;
    while i < s.len() && s[i] == c
        invariant
            i <= s.len(),
            forall|j: int| 0 <= j < i ==> #[trigger] s@[j] == c,
        decreases s.len() - i,
    {
        i += 1;
    }
    proof {
        lemma_lead_is(s@, ByteSet::Only(c), i as int);
    }
    i
}

/// Number of trailing bytes equal to `c`.
pub fn trailing_of(s: &[u8], c: u8) -> (n: usize)
    ensures
        n == trail(s@, ByteSet::Only(c)),
        n <= s@.len(),
{
    let mut i: usize = 0;
    while i < s.len() && s[s.len() - 1 - i] == c
        invariant
            i <= s.len(),
            forall|j: int| s@.len() - i <= j < s@.len() ==> #[trigger] s@[j] == c,
        decreases s.len() - i,
    {
        i += 1;
    }
    proof {
        lemma_trail_is(s@, ByteSet::Only(c), i as int);
    }
    i
}

/// `s` without leading white space.
pub fn trim_start(s: &[u8]) -> (r: &[u8])
    ensures
        r@ == trimmed_start(s@),
{
    let n = leading_space(s);
    vstd::slice::slice_subrange(s, n, s.len())
}

/// `s` without trailing white space.
pub fn trim_end(s: &[u8]) -> (r: &[u8])
    ensures
        r@ == trimmed_end(s@),
{
    let n = trailing_space(s);
    vstd::slice::slice_subrange(s, 0, s.len() - n)
}

/// `s` without leading and trailing white space.
pub fn trim(s: &[u8]) -> (r: &[u8])
    ensures
        r@ == trimmed(s@),
{
    trim_end(trim_start(s))
}

/// `s` without leading and trailing occurrences of the byte `c`.
pub fn trim_matches(s: &[u8], c: u8) -> (r: &[u8])
    ensures
        r@ == trimmed_of(s@, c),
{
    let n = leading_of(s, c);
    let rest = vstd::slice::slice_subrange(s, n, s.len());
    assert(rest@ =~= s@.skip(n as int));
    let m = trailing_of(rest, c);
    let r = vstd::slice::slice_subrange(rest, 0, rest.len() - m);
    assert(r@ =~= rest@.take(rest@.len() - m));
    r
}

/// `s` without leading occurrences of the byte `c`.
pub fn trim_start_matches(s: &[u8], c: u8) -> (r: &[u8])
    ensures
        r@ == trim_start_by(s@, ByteSet::Only(c)),
{
    let n = leading_of(s, c);
    vstd::slice::slice_subrange(s, n, s.len())
}

/// Appends `s` to `out`.
pub fn append(out: &mut Vec<u8>, s: &[u8])
    ensures
        final(out)@ == old(out)@ + s@,
{
    out.extend_from_slice(s);
    assert(out@ =~= old(out)@ + s@);
}

/// A fresh copy of `s`.
pub fn copy_of(s: &[u8]) -> (r: Vec<u8>)
    ensures
        r@ == s@,
{
    vstd::slice::slice_to_vec(s)
}

/// Index of the first occurrence of `pat` in `s`.
pub fn find(s: &[u8], pat: &[u8]) -> (r: Option<usize>)
    ensures
        match r {
            Some(i) => occurs_at(s@, pat@, i as int) && forall|j: int|
                0 <= j < i ==> !occurs_at(s@, pat@, j),
            None => !contains_bytes(s@, pat@),
        },
{
    if pat.len() > s.len() {
        return None;
    }
    let last: usize = s.len() - pat.len();
    let mut i: usize = 0;
    loop
        invariant
            i <= last,
            last == s.len() - pat.len(),
            pat.len() <= s.len(),
            forall|j: int| 0 <= j < i ==> !occurs_at(s@, pat@, j),
        decreases last - i,
    {
        let window = vstd::slice::slice_subrange(s, i, i + pat.len());
        if bytes_eq(window, pat) {
            return Some(i);
        }
        if i == last {
            return None;
        }
        i += 1;
    }
}

/// Whether `pat` occurs anywhere in `s`.
pub fn contains(s: &[u8], pat: &[u8]) -> (r: bool)
    ensures
        r == contains_bytes(s@, pat@),
{
    find(s, pat).is_some()
}

/// Index of the first line feed of `s` at or after `from`; the length of `s`
/// where there is none.
pub open spec fn newline_at(s: Seq<u8>, from: int) -> int
    decreases s.len() - from,
{
    if from < 0 || from >= s.len() {
        s.len() as int
    } else if s[from] == 0x0a {
        from
    } else {
        newline_at(s, from + 1)
    }
}

/// A line without the carriage return that may end it.
pub open spec fn strip_cr(line: Seq<u8>) -> Seq<u8> {
    if line.len() > 0 && line.last() == 0x0d {
        line.drop_last()
    } else {
        line
    }
}

/// The lines of `s` from byte `from` on.
pub open spec fn lines_from(s: Seq<u8>, from: int) -> Seq<Seq<u8>>
    decreases s.len() - from,
{
    if from < 0 || from >= s.len() {
        Seq::empty()
    } else {
        let k = newline_at(s, from);
        if k < from {
            Seq::empty()
        } else if k >= s.len() {
            seq![s.subrange(from, s.len() as int)]
        } else {
            seq![strip_cr(s.subrange(from, k))] + lines_from(s, k + 1)
        }
    }
}

/// The lines of a text. Lines end at a line feed, or at a carriage return
/// directly followed by one; the last line needs no line ending, and a text
/// that ends in a line ending has no further, empty line after it.
pub open spec fn lines_of(s: Seq<u8>) -> Seq<Seq<u8>> {
    lines_from(s, 0)
}

/// Line `k` of `lines`; empty where there is no such line.
pub open spec fn line_or_empty(lines: Seq<Seq<u8>>, k: int) -> Seq<u8> {
    if 0 <= k < lines.len() {
        lines[k]
    } else {
        Seq::empty()
    }
}

/// Where the search for a line feed ends.
pub proof fn lemma_newline_at(s: Seq<u8>, from: int)
    requires
        0 <= from <= s.len(),
    ensures
        from <= newline_at(s, from) <= s.len(),
        newline_at(s, from) < s.len() ==> s[newline_at(s, from)] == 0x0a,
        forall|j: int| from <= j < newline_at(s, from) ==> #[trigger] s[j] != 0x0a,
    decreases s.len() - from,
{
    if from < s.len() && s[from] != 0x0a {
        lemma_newline_at(s, from + 1);
    }
}

/// The byte ranges of the lines of a text, line endings left out.
pub struct LineIndex {
    pub starts: Vec<usize>,
    pub ends: Vec<usize>,
}

impl LineIndex {
    /// The index describes the lines of `source`.
    pub open spec fn describes(&self, source: Seq<u8>) -> bool {
        &&& self.starts@.len() == lines_of(source).len()
        &&& self.ends@.len() == lines_of(source).len()
        &&& forall|k: int|
            #![trigger self.starts@[k]]
            #![trigger self.ends@[k]]
            0 <= k < self.starts@.len() ==> self.starts@[k] <= self.ends@[k] && self.ends@[k]
                <= source.len() && source.subrange(self.starts@[k] as int, self.ends@[k] as int)
                == lines_of(source)[k]
    }

    /// Number of lines.
    pub fn len(&self) -> (n: usize)
        ensures
            n == self.starts@.len(),
    {
        self.starts.len()
    }

    /// Line `k` of `source`; empty where there is no such line. (Empty, too,
    /// where the index does not fit the text.)
    pub fn line<'a>(&self, source: &'a [u8], k: usize) -> (r: &'a [u8])
        ensures
            self.describes(source@) ==> r@ == line_or_empty(lines_of(source@), k as int),
    {
        if k < self.starts.len() && k < self.ends.len() && self.starts[k] <= self.ends[k]
            && self.ends[k] <= source.len() {
            vstd::slice::slice_subrange(source, self.starts[k], self.ends[k])
        } else {
            vstd::slice::slice_subrange(source, 0, 0)
        }
    }
}

/// Splits a text into its lines.
pub fn index_lines(source: &[u8]) -> (index: LineIndex)
    ensures
        index.describes(source@),
{
    let mut starts: Vec<usize> = Vec::new();
    let mut ends: Vec<usize> = Vec::new();
    let mut start: usize = 0;
    let ghost all = lines_of(source@);
    while start < source.len()
        invariant
            start <= source.len(),
            all == lines_of(source@),
            starts@.len() == ends@.len(),
            all =~= all.take(starts@.len() as int) + lines_from(source@, start as int),
            starts@.len() <= all.len(),
            forall|k: int|
                #![trigger starts@[k]]
                #![trigger ends@[k]]
                0 <= k < starts@.len() ==> starts@[k] <= ends@[k] && ends@[k] <= source@.len()
                    && source@.subrange(starts@[k] as int, ends@[k] as int) == all[k],
        decreases source.len() - start,
    {
        let mut j: usize = start;
        while j < source.len() && source[j] != 0x0a
            invariant
                start <= j <= source.len(),
                newline_at(source@, start as int) == newline_at(source@, j as int),
            decreases source.len() - j,
        {
            j += 1;
        }
        proof {
            lemma_newline_at(source@, start as int);
        }
        let ghost done = starts@.len() as int;
        let ghost rest = lines_from(source@, start as int);
        assert(rest.len() > 0);
        assert(all[done] == rest[0]);
        if j >= source.len() {
            starts.push(start);
            ends.push(j);
            assert(rest =~= seq![source@.subrange(start as int, source@.len() as int)]);
            assert(all.take(done + 1) =~= all);
            start = j;
            assert(lines_from(source@, start as int) =~= Seq::<Seq<u8>>::empty());
        } else {
            let end: usize = if j > start && source[j - 1] == 0x0d {
                (j - 1) as usize
            } else {
                j
            };
            assert(source@.subrange(start as int, end as int) =~= strip_cr(
                source@.subrange(start as int, j as int),
            ));
            starts.push(start);
            ends.push(end);
            assert(rest =~= seq![strip_cr(source@.subrange(start as int, j as int))] + lines_from(
                source@,
                j + 1,
            ));
            assert(all.take(done + 1) =~= all.take(done) + seq![rest[0]]);
            start = j + 1;
        }
    }
    assert(lines_from(source@, start as int) =~= Seq::<Seq<u8>>::empty());
    assert(all.take(starts@.len() as int) =~= all);
    LineIndex { starts, ends }
}

/// The characters that `String::from_utf8_lossy` reads from bytes: those
/// that the bytes encode where they are UTF-8, with a replacement character
/// for what is not.
pub uninterp spec fn lossy_text(bytes: Seq<u8>) -> Seq<char>;

/// The lower-case form of a string, as `str::to_lowercase` gives it.
pub uninterp spec fn lowercase_text(text: Seq<char>) -> Seq<char>;

/// The lower-case form of a text: the text is read as UTF-8, put in lower
/// case, and written as UTF-8 again.
pub open spec fn lowercase_of(text: Seq<u8>) -> Seq<u8> {
    vstd::utf8::encode_utf8(lowercase_text(lossy_text(text)))
}

/// Two names that are equal once both are put in lower case.
pub open spec fn same_name(a: Seq<u8>, b: Seq<u8>) -> bool {
    lowercase_of(a) == lowercase_of(b)
}

/// Calls `String::from_utf8_lossy` of the standard library. What it reads
/// depends on the bytes alone and is named; nothing else is stated of it.
#[verifier::external_body]
fn read_lossy(bytes: &[u8]) -> (text: String)
    ensures
        text@ == lossy_text(bytes@),
{
    String::from_utf8_lossy(bytes).into_owned()
}

/// Calls `str::to_lowercase` of the standard library, which follows the
/// Unicode rules for lower case. Its result depends on the string alone and
/// is named; nothing else is stated of it.
#[verifier::external_body]
fn lower(text: &str) -> (out: String)
    ensures
        out@ == lowercase_text(text@),
{
    text.to_lowercase()
}

/// The lower-case form of a text.
pub(crate) fn lowercase(text: &[u8]) -> (out: Vec<u8>)
    ensures
        out@ == lowercase_of(text@),
{
    let read = read_lossy(text);
    let lowered = lower(read.as_str());
    lowered.as_str().as_bytes_vec()
}

/// Whether `name`, put in lower case, is `key`.
pub fn has_key(name: &[u8], key: &[u8]) -> (r: bool)
    ensures
        r == (lowercase_of(name@) == key@),
{
    let lower = lowercase(name);
    bytes_eq(lower.as_slice(), key)
}

/// Whether two names are equal, case aside.
pub fn names_match(a: &[u8], b: &[u8]) -> (r: bool)
    ensures
        r == same_name(a@, b@),
{
    let key = lowercase(b);
    has_key(a, key.as_slice())
}

/// Whether a byte continues a UTF-8 sequence that an earlier byte began.
pub open spec fn is_continuation(b: u8) -> bool {
    0x80 <= b && b < 0xc0
}

/// Index of the first byte at or after `from` that begins a character; the
/// length of `s` where there is none.
pub open spec fn character_start(s: Seq<u8>, from: int) -> int
    decreases s.len() - from,
{
    if from < 0 || from >= s.len() {
        s.len() as int
    } else if !is_continuation(s[from]) {
        from
    } else {
        character_start(s, from + 1)
    }
}

/// Index just behind the `n` characters that follow index `from`.
pub open spec fn characters_end(s: Seq<u8>, n: nat, from: int) -> int
    decreases n,
{
    if n == 0 || from < 0 || from >= s.len() {
        from
    } else {
        characters_end(s, (n - 1) as nat, character_start(s, from + 1))
    }
}

/// The first `n` characters of a text; the whole text where it has fewer.
pub open spec fn first_characters(s: Seq<u8>, n: nat) -> Seq<u8> {
    s.take(characters_end(s, n, 0))
}

/// The first `n` characters of a text; the whole text where it has fewer.
pub fn take_characters(s: &[u8], n: usize) -> (r: &[u8])
    ensures
        r@ == first_characters(s@, n as nat),
{
    let mut end: usize = 0;
    let mut left: usize = n;
    while left > 0 && end < s.len()
        invariant
            end <= s.len(),
            left <= n,
            characters_end(s@, n as nat, 0) == characters_end(s@, left as nat, end as int),
        decreases left,
    {
        let mut next: usize = end + 1;
        while next < s.len() && 0x80 <= s[next] && s[next] < 0xc0
            invariant
                end < next <= s.len(),
                character_start(s@, end + 1) == character_start(s@, next as int),
            decreases s.len() - next,
        {
            next += 1;
        }
        end = next;
        left -= 1;
    }
    vstd::slice::slice_subrange(s, 0, end)
}

/// Index of the first occurrence of `pat` in `s` at or after `from`, the
/// case of ASCII letters aside.
pub open spec fn first_nocase(s: Seq<u8>, pat: Seq<u8>, from: int) -> Option<int>
    decreases s.len() - from,
{
    if from < 0 || from + pat.len() > s.len() {
        None
    } else if occurs_nocase_at(s, pat, from) {
        Some(from)
    } else {
        first_nocase(s, pat, from + 1)
    }
}

/// Index of the first occurrence of `pat` in `s`, the case of ASCII letters aside.
pub fn find_first_nocase(s: &[u8], pat: &[u8]) -> (r: Option<usize>)
    ensures
        match r {
            Some(i) => first_nocase(s@, pat@, 0) == Some(i as int) && i + pat@.len() <= s@.len(),
            None => first_nocase(s@, pat@, 0) is None,
        },
{
    if pat.len() > s.len() {
        return None;
    }
    let last: usize = s.len() - pat.len();
    let mut i: usize = 0;
    loop
        invariant
            i <= last,
            last == s.len() - pat.len(),
            pat.len() <= s.len(),
            first_nocase(s@, pat@, 0) == first_nocase(s@, pat@, i as int),
        decreases last - i,
    {
        let window = vstd::slice::slice_subrange(s, i, i + pat.len());
        if bytes_eq_nocase(window, pat) {
            return Some(i);
        }
        if i == last {
            return None;
        }
        i += 1;
    }
}

} // verus!
