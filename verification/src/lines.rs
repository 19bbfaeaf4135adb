//! Physical lines: splitting the raw input buffer on newline bytes while
//! tracking 1-based line numbers and byte offsets for diagnostics.

use vstd::prelude::*;
use vstd::slice::slice_subrange;
use vstd::slice::slice_to_vec;

verus! {

/// ASCII line feed, the line terminator. A `\r\n` input must be
/// normalized to `\n` by the caller before parsing.
pub const NEWLINE: u8 = 10;

/// One physical line of raw input.
pub struct PhysicalLine {
    /// The raw content of the line, excluding the line terminator.
    pub text: Vec<u8>,
    /// 1-based position of the line in the source.
    pub line_number: usize,
    /// Byte offset of the line's first byte in the source buffer.
    pub byte_offset: usize,
}

/// A single physical line holds no newline byte.
pub open spec fn no_newline(s: Seq<u8>) -> bool {
    forall|j: int| 0 <= j < s.len() ==> s[j] != NEWLINE
}

/// Index of the first newline byte, or the length when there is none.
pub open spec fn first_nl(s: Seq<u8>) -> int
    decreases s.len(),
{
    if s.len() == 0 {
        0
    } else if s[0] == NEWLINE {
        0
    } else {
        1 + first_nl(s.skip(1))
    }
}

/// `first_nl` points at the first newline: nothing before it is one, and
/// it stays within the text.
pub proof fn lemma_first_nl_at(s: Seq<u8>, n: int)
    requires
        0 <= n <= s.len(),
        forall|j: int| 0 <= j < n ==> s[j] != NEWLINE,
        n == s.len() || s[n] == NEWLINE,
    ensures
        first_nl(s) == n,
    decreases n,
{
    if n == 0 {
    } else {
        assert(s[0] != NEWLINE);
        lemma_first_nl_at(s.skip(1), n - 1);
    }
}

/// `first_nl` stays within the text, and nothing before it is a newline.
pub proof fn lemma_first_nl_props(s: Seq<u8>)
    ensures
        0 <= first_nl(s) <= s.len(),
        forall|j: int| 0 <= j < first_nl(s) ==> s[j] != NEWLINE,
    decreases s.len(),
{
    if s.len() == 0 {
    } else if s[0] == NEWLINE {
    } else {
        lemma_first_nl_props(s.skip(1));
        assert forall|j: int| 0 <= j < first_nl(s) implies s[j] != NEWLINE by {
            if j > 0 {
                assert(s.skip(1)[j - 1] != NEWLINE);
            }
        }
    }
}

/// No physical line holds a newline: the terminators all go to the split.
pub proof fn lemma_split_lines_no_newline(s: Seq<u8>)
    ensures
        forall|i: int| 0 <= i < split_lines(s).len() ==> no_newline(#[trigger] split_lines(s)[i]),
    decreases s.len(),
{
    if s.len() > 0 {
        lemma_first_nl_props(s);
        let n = first_nl(s);
        if 0 <= n < s.len() {
            assert(no_newline(s.take(n)));
            lemma_split_lines_no_newline(s.skip(n + 1));
            assert forall|i: int|
                0 <= i < split_lines(s).len() implies no_newline(#[trigger] split_lines(s)[i]) by {
                if i > 0 {
                    assert(split_lines(s)[i] == split_lines(s.skip(n + 1))[i - 1]);
                }
            }
        } else {
            assert(no_newline(s));
        }
    }
}

/// The lines of a buffer: maximal newline-free runs. Each line is closed
/// by a newline or by the end of the buffer; a trailing newline does not
/// open a final empty line.
pub open spec fn split_lines(s: Seq<u8>) -> Seq<Seq<u8>>
    decreases s.len(),
{
    if s.len() == 0 {
        Seq::empty()
    } else {
        let n = first_nl(s);
        if 0 <= n < s.len() {
            seq![s.take(n)] + split_lines(s.skip(n + 1))
        } else {
            seq![s]
        }
    }
}

/// Splitting takes one newline-free line off the front of the buffer.
pub proof fn lemma_split_prepend(a: Seq<u8>, rest: Seq<u8>)
    requires
        forall|j: int| 0 <= j < a.len() ==> a[j] != NEWLINE,
    ensures
        split_lines(a + seq![NEWLINE] + rest) == seq![a] + split_lines(rest),
{
    let s = a + seq![NEWLINE] + rest;
    assert(s[a.len() as int] == NEWLINE);
    assert(forall|j: int| 0 <= j < a.len() ==> s[j] == a[j]);
    lemma_first_nl_at(s, a.len() as int);
    assert(s.take(a.len() as int) =~= a);
    assert(s.skip(a.len() as int + 1) =~= rest);
}

/// A non-empty buffer without a newline is one single line.
pub proof fn lemma_split_whole(a: Seq<u8>)
    requires
        a.len() > 0,
        forall|j: int| 0 <= j < a.len() ==> a[j] != NEWLINE,
    ensures
        split_lines(a) == seq![a],
{
    lemma_first_nl_at(a, a.len() as int);
}

/// Byte offset of the start of line `i`: every earlier line occupies its
/// own bytes plus one newline.
pub open spec fn line_offset(lines: Seq<Seq<u8>>, i: int) -> int
    decreases i,
{
    if i <= 0 {
        0
    } else {
        line_offset(lines, i - 1) + lines[i - 1].len() + 1
    }
}

/// Splits the input buffer into its physical lines, numbering them from
/// one and recording each line's starting byte offset.
pub fn split_physical_lines(input: &[u8]) -> (r: Vec<PhysicalLine>)
    ensures
        r@.map_values(|l: PhysicalLine| l.text@) == split_lines(input@),
        forall|i: int| 0 <= i < r@.len() ==> (#[trigger] r@[i]).line_number == i + 1,
        forall|i: int| 0 <= i < r@.len() ==> (#[trigger] r@[i]).byte_offset == line_offset(
            split_lines(input@),
            i,
        ),
        forall|i: int|
            0 <= i < r@.len() ==> (#[trigger] r@[i]).byte_offset + r@[i].text@.len()
                <= input@.len() && r@[i].text@ == input@.subrange(
                r@[i].byte_offset as int,
                r@[i].byte_offset + r@[i].text@.len(),
            ),
{
    let ghost all = split_lines(input@);
    let mut out: Vec<PhysicalLine> = Vec::new();
    let mut line_start: usize = 0;
    let mut i: usize = 0;
    proof {
        assert(input@.skip(0) =~= input@);
        assert(out@.map_values(|l: PhysicalLine| l.text@) =~= Seq::<Seq<u8>>::empty());
        assert(all =~= out@.map_values(|l: PhysicalLine| l.text@) + split_lines(input@.skip(0)));
    }
    while i < input.len()
        invariant
            0 <= line_start <= i <= input@.len(),
            out@.len() <= line_start,
            all == split_lines(input@),
            all == out@.map_values(|l: PhysicalLine| l.text@) + split_lines(
                input@.skip(line_start as int),
            ),
            forall|j: int| line_start <= j < i ==> input@[j] != NEWLINE,
            forall|k: int| 0 <= k < out@.len() ==> (#[trigger] out@[k]).line_number == k + 1,
            forall|k: int| 0 <= k < out@.len() ==> (#[trigger] out@[k]).byte_offset == line_offset(
                all,
                k,
            ),
            forall|k: int|
                0 <= k < out@.len() ==> (#[trigger] out@[k]).byte_offset + out@[k].text@.len()
                    <= input@.len() && out@[k].text@ == input@.subrange(
                    out@[k].byte_offset as int,
                    out@[k].byte_offset + out@[k].text@.len(),
                ),
            line_start == line_offset(all, out@.len() as int),
        decreases input@.len() - i,
    {
        if input[i] == NEWLINE {
            let ghost old_map = out@.map_values(|l: PhysicalLine| l.text@);
            let text = slice_to_vec(slice_subrange(input, line_start, i));
            proof {
                let cur = input@.subrange(line_start as int, i as int);
                assert(input@.skip(line_start as int) =~= cur + seq![NEWLINE] + input@.skip(
                    i as int + 1,
                ));
                lemma_split_prepend(cur, input@.skip(i as int + 1));
                assert(all == old_map + (seq![cur] + split_lines(input@.skip(i as int + 1))));
                assert(all[out@.len() as int] == cur);
            }
            let num = out.len() + 1;
            out.push(PhysicalLine { text, line_number: num, byte_offset: line_start });
            proof {
                assert(out@.map_values(|l: PhysicalLine| l.text@) =~= old_map + seq![
                    input@.subrange(line_start as int, i as int),
                ]);
                assert(all =~= out@.map_values(|l: PhysicalLine| l.text@) + split_lines(
                    input@.skip(i as int + 1),
                ));
            }
            line_start = i + 1;
        }
        i += 1;
    }
    if line_start < input.len() {
        let ghost old_map = out@.map_values(|l: PhysicalLine| l.text@);
        let text = slice_to_vec(slice_subrange(input, line_start, input.len()));
        proof {
            let cur = input@.subrange(line_start as int, input@.len() as int);
            assert(input@.skip(line_start as int) =~= cur);
            lemma_split_whole(cur);
            assert(all[out@.len() as int] == cur);
        }
        let num = out.len() + 1;
        out.push(PhysicalLine { text, line_number: num, byte_offset: line_start });
        proof {
            assert(out@.map_values(|l: PhysicalLine| l.text@) =~= old_map + seq![
                input@.subrange(line_start as int, input@.len() as int),
            ]);
            assert(all =~= out@.map_values(|l: PhysicalLine| l.text@));
        }
    } else {
        proof {
            assert(input@.skip(line_start as int) =~= Seq::<u8>::empty());
            assert(all =~= out@.map_values(|l: PhysicalLine| l.text@));
        }
    }
    out
}

} // verus!
