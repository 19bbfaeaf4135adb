//! Byte-level text predicates shared by the line classifier and the
//! record assembler: whitespace tests, trimming, leading-space counts,
//! and the comment-marker rule.

use vstd::prelude::*;
use vstd::slice::slice_subrange;
use vstd::slice::slice_to_vec;

verus! {

/// ASCII space.
pub const SPACE: u8 = 32;

/// ASCII horizontal tab.
pub const TAB: u8 = 9;

/// ASCII ampersand, the explicit continuation marker.
pub const AMP: u8 = 38;

/// ASCII lower-case `c`, the comment marker.
pub const COMMENT_LOWER: u8 = 99;

/// ASCII upper-case `C`, the comment marker.
pub const COMMENT_UPPER: u8 = 67;

/// A byte that counts as intra-line whitespace: space or horizontal tab.
pub open spec fn is_ws(b: u8) -> bool {
    b == SPACE || b == TAB
}

/// A line is blank when every byte is whitespace; an empty line is blank.
pub open spec fn is_blank(s: Seq<u8>) -> bool {
    forall|i: int| 0 <= i < s.len() ==> is_ws(s[i])
}

/// Well-formed line text: plain ASCII bytes only. Anything else is
/// reported as a malformed line and skipped, never folded into a record.
pub open spec fn is_wellformed(s: Seq<u8>) -> bool {
    forall|i: int| 0 <= i < s.len() ==> s[i] < 128
}

/// The text with its trailing run of whitespace removed.
pub open spec fn trim_trailing(s: Seq<u8>) -> Seq<u8>
    decreases s.len(),
{
    if s.len() > 0 && is_ws(s[s.len() - 1]) {
        trim_trailing(s.drop_last())
    } else {
        s
    }
}

/// The text with its leading run of whitespace removed.
pub open spec fn trim_leading(s: Seq<u8>) -> Seq<u8>
    decreases s.len(),
{
    if s.len() > 0 && is_ws(s[0]) {
        trim_leading(s.skip(1))
    } else {
        s
    }
}

/// The text with whitespace removed at both ends.
pub open spec fn trim(s: Seq<u8>) -> Seq<u8> {
    trim_leading(trim_trailing(s))
}

/// Length of the leading run of space characters. Tabs break the run:
/// only contiguous leading spaces count towards the indentation rule.
pub open spec fn leading_spaces(s: Seq<u8>) -> nat
    decreases s.len(),
{
    if s.len() > 0 && s[0] == SPACE {
        1 + leading_spaces(s.skip(1))
    } else {
        0
    }
}

/// The line's very last byte is an ampersand. An ampersand followed by
/// trailing whitespace does not count: only one immediately before the
/// line break signals an explicit continuation.
pub open spec fn ends_with_amp(s: Seq<u8>) -> bool {
    s.len() > 0 && s[s.len() - 1] == AMP
}

/// The comment rule: ignoring trailing whitespace, the line begins in
/// column one with `c` or `C` followed by a space or by end of content.
pub open spec fn is_comment_text(s: Seq<u8>) -> bool {
    let t = trim_trailing(s);
    t.len() > 0 && (t[0] == COMMENT_LOWER || t[0] == COMMENT_UPPER) && (t.len() == 1 || t[1] == SPACE)
}

/// `trim_trailing` keeps exactly the prefix up to the last non-whitespace
/// byte: if everything from `e` on is whitespace and the byte before `e`
/// is not, the trimmed text is the first `e` bytes.
pub proof fn lemma_trim_trailing_take(s: Seq<u8>, e: int)
    requires
        0 <= e <= s.len(),
        forall|j: int| e <= j < s.len() ==> is_ws(s[j]),
        e == 0 || !is_ws(s[e - 1]),
    ensures
        trim_trailing(s) == s.take(e),
    decreases s.len(),
{
    if s.len() == 0 {
        assert(s.take(e) =~= s);
    } else if e == s.len() {
        assert(!is_ws(s[s.len() - 1]));
        assert(s.take(e) =~= s);
    } else {
        assert(is_ws(s[s.len() - 1]));
        assert(s.drop_last() =~= s.take(s.len() - 1));
        lemma_trim_trailing_take(s.drop_last(), e);
        assert(s.drop_last().take(e) =~= s.take(e));
    }
}

/// `trim_leading` keeps exactly the suffix from the first non-whitespace
/// byte on.
pub proof fn lemma_trim_leading_skip(s: Seq<u8>, k: int)
    requires
        0 <= k <= s.len(),
        forall|j: int| 0 <= j < k ==> is_ws(s[j]),
        k == s.len() || !is_ws(s[k]),
    ensures
        trim_leading(s) == s.skip(k),
    decreases k,
{
    if k == 0 {
        assert(s.skip(0) =~= s);
    } else {
        assert(is_ws(s[0]));
        lemma_trim_leading_skip(s.skip(1), k - 1);
        assert(s.skip(1).skip(k - 1) =~= s.skip(k));
    }
}

/// The leading run of spaces never exceeds the text itself.
pub proof fn lemma_leading_spaces_le(s: Seq<u8>)
    ensures
        leading_spaces(s) <= s.len(),
    decreases s.len(),
{
    if s.len() > 0 && s[0] == SPACE {
        lemma_leading_spaces_le(s.skip(1));
    }
}

/// `leading_spaces` is the index of the first byte that is not a space.
pub proof fn lemma_leading_spaces_at(s: Seq<u8>, k: int)
    requires
        0 <= k <= s.len(),
        forall|j: int| 0 <= j < k ==> s[j] == SPACE,
        k == s.len() || s[k] != SPACE,
    ensures
        leading_spaces(s) == k,
    decreases k,
{
    if k == 0 {
    } else {
        assert(s[0] == SPACE);
        lemma_leading_spaces_at(s.skip(1), k - 1);
    }
}

/// Trailing trimming only shortens: the result is a prefix of the text.
pub proof fn lemma_trim_trailing_prefix(s: Seq<u8>)
    ensures
        trim_trailing(s).len() <= s.len(),
        trim_trailing(s) == s.take(trim_trailing(s).len() as int),
    decreases s.len(),
{
    if s.len() > 0 && is_ws(s[s.len() - 1]) {
        lemma_trim_trailing_prefix(s.drop_last());
        assert(s.drop_last() =~= s.take(s.len() - 1));
        assert(s.take(s.len() - 1).take(trim_trailing(s).len() as int) =~= s.take(
            trim_trailing(s).len() as int,
        ));
    } else {
        assert(s.take(s.len() as int) =~= s);
    }
}

/// A non-blank line stays non-blank when its trailing whitespace goes.
pub proof fn lemma_trim_trailing_nonblank(s: Seq<u8>)
    requires
        !is_blank(s),
    ensures
        trim_trailing(s).len() > 0,
        !is_blank(trim_trailing(s)),
    decreases s.len(),
{
    assert(s.len() > 0);
    if is_ws(s[s.len() - 1]) {
        let w = choose|i: int| 0 <= i < s.len() && !is_ws(s[i]);
        assert(!is_ws(s.drop_last()[w]));
        lemma_trim_trailing_nonblank(s.drop_last());
    }
}

/// Leading trimming of a non-blank line keeps its last byte.
pub proof fn lemma_trim_leading_nonblank(s: Seq<u8>)
    requires
        !is_blank(s),
    ensures
        trim_leading(s).len() > 0,
        trim_leading(s)[trim_leading(s).len() - 1] == s[s.len() - 1],
    decreases s.len(),
{
    assert(s.len() > 0);
    if is_ws(s[0]) {
        let w = choose|i: int| 0 <= i < s.len() && !is_ws(s[i]);
        assert(!is_ws(s.skip(1)[w - 1]));
        lemma_trim_leading_nonblank(s.skip(1));
        assert(s.skip(1)[s.len() - 2] == s[s.len() - 1]);
    }
}

/// Whether the line is blank (whitespace-only).
pub fn blank_line(t: &[u8]) -> (r: bool)
    ensures
        r == is_blank(t@),
{
    let mut i: usize = 0;
    while i < t.len()
        invariant
            0 <= i <= t@.len(),
            forall|j: int| 0 <= j < i ==> is_ws(t@[j]),
        decreases t@.len() - i,
    {
        let b = t[i];
        if !(b == SPACE || b == TAB) {
            assert(!is_ws(t@[i as int]));
            return false;
        }
        i += 1;
    }
    true
}

/// Whether every byte of the line is plain ASCII.
pub fn wellformed_line(t: &[u8]) -> (r: bool)
    ensures
        r == is_wellformed(t@),
{
    let mut i: usize = 0;
    while i < t.len()
        invariant
            0 <= i <= t@.len(),
            forall|j: int| 0 <= j < i ==> t@[j] < 128,
        decreases t@.len() - i,
    {
        if t[i] >= 128 {
            assert(!(t@[i as int] < 128));
            return false;
        }
        i += 1;
    }
    true
}

/// The end of the line's content: the index just past the last byte that
/// is not whitespace.
fn trimmed_end(t: &[u8]) -> (e: usize)
    ensures
        0 <= e <= t@.len(),
        trim_trailing(t@) == t@.take(e as int),
{
    let mut e: usize = t.len();
    while e > 0 && (t[e - 1] == SPACE || t[e - 1] == TAB)
        invariant
            0 <= e <= t@.len(),
            forall|j: int| e <= j < t@.len() ==> is_ws(t@[j]),
        decreases e,
    {
        e -= 1;
    }
    proof {
        lemma_trim_trailing_take(t@, e as int);
    }
    e
}

/// A copy of the line with trailing whitespace removed.
pub fn trim_trailing_slice(t: &[u8]) -> (r: Vec<u8>)
    ensures
        r@ == trim_trailing(t@),
{
    let e = trimmed_end(t);
    proof {
        assert(t@.take(e as int) =~= t@.subrange(0, e as int));
    }
    slice_to_vec(slice_subrange(t, 0, e))
}

/// A copy of the line with whitespace removed at both ends.
pub fn trim_slice(t: &[u8]) -> (r: Vec<u8>)
    ensures
        r@ == trim(t@),
{
    let e = trimmed_end(t);
    let mut i: usize = 0;
    while i < e && (t[i] == SPACE || t[i] == TAB)
        invariant
            0 <= i <= e <= t@.len(),
            forall|j: int| 0 <= j < i ==> is_ws(t@[j]),
        decreases e - i,
    {
        i += 1;
    }
    proof {
        let trimmed = t@.take(e as int);
        assert(forall|j: int| 0 <= j < i ==> is_ws(trimmed[j]));
        lemma_trim_leading_skip(trimmed, i as int);
        assert(trimmed.skip(i as int) =~= t@.subrange(i as int, e as int));
    }
    slice_to_vec(slice_subrange(t, i, e))
}

/// The length of the line's leading run of space characters.
pub fn count_leading_spaces(t: &[u8]) -> (r: usize)
    ensures
        r as nat == leading_spaces(t@),
{
    let mut i: usize = 0;
    while i < t.len() && t[i] == SPACE
        invariant
            0 <= i <= t@.len(),
            forall|j: int| 0 <= j < i ==> t@[j] == SPACE,
        decreases t@.len() - i,
    {
        i += 1;
    }
    proof {
        lemma_leading_spaces_at(t@, i as int);
    }
    i
}

/// Whether the line's last byte is an ampersand.
pub fn line_ends_with_amp(t: &[u8]) -> (r: bool)
    ensures
        r == ends_with_amp(t@),
{
    let n = t.len();
    n > 0 && t[n - 1] == AMP
}

/// Whether the line is a comment under the column-one marker rule.
pub fn comment_text(t: &[u8]) -> (r: bool)
    ensures
        r == is_comment_text(t@),
{
    let e = trimmed_end(t);
    if e == 0 {
        return false;
    }
    let c0 = t[0];
    if !(c0 == COMMENT_LOWER || c0 == COMMENT_UPPER) {
        return false;
    }
    if e == 1 {
        return true;
    }
    t[1] == SPACE
}

} // verus!
