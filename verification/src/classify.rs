//! The line classifier: labels one physical line, given the line before
//! it, as a record terminator, a comment, a continuation (explicit or
//! indented), or the start of a new record.
//!
//! Classification is a pure function of the current line and the line
//! immediately before it; no other context matters.

use vstd::prelude::*;
use vstd::slice::slice_subrange;
use vstd::slice::slice_to_vec;

use crate::lines::PhysicalLine;
use crate::text::blank_line;
use crate::text::comment_text;
use crate::text::count_leading_spaces;
use crate::text::ends_with_amp;
use crate::text::is_blank;
use crate::text::is_comment_text;
use crate::text::is_wellformed;
use crate::text::leading_spaces;
use crate::text::line_ends_with_amp;
use crate::text::wellformed_line;

verus! {

/// An indented continuation needs at least this many leading spaces; the
/// marker spaces are consumed, any further indentation stays as content.
pub const INDENT_MARKER_WIDTH: usize = 5;

/// The role a physical line plays in record assembly.
#[derive(Clone, Copy, PartialEq, Eq, Structural, Debug)]
pub enum LineClass {
    /// A blank line: closes the open record, produces none itself.
    Terminator,
    /// A comment line: always a record of its own, never folded.
    Comment,
    /// The line before it ended with an ampersand at the line break.
    ExplicitContinuation,
    /// The line carries the five-space indentation marker.
    IndentedContinuation,
    /// None of the above: the line opens a new record.
    RecordStart,
}

/// Classification rules, in priority order. A blank line is always a
/// terminator, even when indented or after an ampersand; the comment
/// rule comes next; an ampersand ending the previous line wins over
/// indentation; indentation only continues when the previous line was
/// neither a terminator nor a comment.
///
/// A continuation label with no open record to extend — an indented
/// first line, or a line after a comment that ended in an ampersand —
/// is not an error here: the assembler reports it as a dangling
/// continuation and opens a fresh record from its payload.
pub open spec fn class_of(text: Seq<u8>, prev: Option<Seq<u8>>) -> LineClass {
    if is_blank(text) {
        LineClass::Terminator
    } else if is_comment_text(text) {
        LineClass::Comment
    } else if prev matches Some(p) && ends_with_amp(p) {
        LineClass::ExplicitContinuation
    } else if leading_spaces(text) >= INDENT_MARKER_WIDTH && !(prev matches Some(p)
        && (is_blank(p) || is_comment_text(p))) {
        LineClass::IndentedContinuation
    } else {
        LineClass::RecordStart
    }
}

/// The payload a line contributes to its record: an indented continuation
/// loses exactly the five marker spaces, every other class keeps the full
/// text.
pub open spec fn payload_of(text: Seq<u8>, class: LineClass) -> Seq<u8> {
    match class {
        LineClass::IndentedContinuation => text.skip(INDENT_MARKER_WIDTH as int),
        _ => text,
    }
}

/// One slot of the classified stream, in the model: either a classified
/// line or a malformed line reported in its place.
pub enum ItemModel {
    Line { class: LineClass, payload: Seq<u8>, line: nat },
    Malformed { line: nat },
}

/// The classified slot a line yields: a malformed line is reported as
/// such, any other line gets its class and payload.
pub open spec fn item_of(text: Seq<u8>, prev: Option<Seq<u8>>, line: nat) -> ItemModel {
    if !is_wellformed(text) {
        ItemModel::Malformed { line }
    } else {
        let class = class_of(text, prev);
        ItemModel::Line { class, payload: payload_of(text, class), line }
    }
}

/// The classified stream of a whole line sequence: each line is labelled
/// with one line of lookback, the first line with none.
pub open spec fn classify_model(lines: Seq<Seq<u8>>) -> Seq<ItemModel> {
    Seq::new(lines.len(), |i: int| item_of(
        lines[i],
        if i == 0 { None } else { Some(lines[i - 1]) },
        (i + 1) as nat,
    ))
}

/// A classified physical line: its class, its payload (continuation
/// markers already stripped), and where it stood in the source.
pub struct ClassifiedLine {
    /// The role the line plays in record assembly.
    pub class: LineClass,
    /// What the line contributes to its record's content.
    pub payload: Vec<u8>,
    /// 1-based number of the originating physical line.
    pub line_number: usize,
}

/// One slot of the classified stream: a classified line, or the report
/// that the line in this slot was malformed.
pub enum ClassifiedItem {
    /// A well-formed, classified line.
    Line(ClassifiedLine),
    /// The line held bytes outside plain ASCII and was not classified.
    Malformed {
        /// 1-based number of the malformed physical line.
        line_number: usize,
    },
}

impl View for ClassifiedItem {
    type V = ItemModel;

    open spec fn view(&self) -> ItemModel {
        match self {
            ClassifiedItem::Line(l) => ItemModel::Line {
                class: l.class,
                payload: l.payload@,
                line: l.line_number as nat,
            },
            ClassifiedItem::Malformed { line_number } => ItemModel::Malformed {
                line: *line_number as nat,
            },
        }
    }
}

/// The previous line's text in the model, if there was one.
pub open spec fn prev_text_of(prev: Option<&PhysicalLine>) -> Option<Seq<u8>> {
    match prev {
        Some(p) => Some(p.text@),
        None => None,
    }
}

/// Classifies one physical line given the line before it (`None` at
/// stream start). Classification never fails: a malformed line is
/// reported in its slot and the stream goes on.
pub fn classify(line: &PhysicalLine, prev: Option<&PhysicalLine>) -> (r: ClassifiedItem)
    ensures
        r@ == item_of(line.text@, prev_text_of(prev), line.line_number as nat),
{
    let text = line.text.as_slice();
    if !wellformed_line(text) {
        return ClassifiedItem::Malformed { line_number: line.line_number };
    }
    let class: LineClass = if blank_line(text) {
        LineClass::Terminator
    } else if comment_text(text) {
        LineClass::Comment
    } else if match prev {
        Some(p) => line_ends_with_amp(p.text.as_slice()),
        None => false,
    } {
        LineClass::ExplicitContinuation
    } else if count_leading_spaces(text) >= INDENT_MARKER_WIDTH && match prev {
        Some(p) => !(blank_line(p.text.as_slice()) || comment_text(p.text.as_slice())),
        None => true,
    } {
        LineClass::IndentedContinuation
    } else {
        LineClass::RecordStart
    };
    let payload: Vec<u8> = match class {
        LineClass::IndentedContinuation => {
            proof {
                assert(leading_spaces(text@) >= INDENT_MARKER_WIDTH);
                crate::text::lemma_leading_spaces_le(text@);
            }
            slice_to_vec(slice_subrange(text, INDENT_MARKER_WIDTH, text.len()))
        },
        _ => slice_to_vec(text),
    };
    ClassifiedItem::Line(ClassifiedLine { class, payload, line_number: line.line_number })
}

/// Classifies a whole sequence of physical lines, each with one line of
/// lookback.
pub fn classify_lines(lines: &Vec<PhysicalLine>) -> (r: Vec<ClassifiedItem>)
    requires
        forall|i: int| 0 <= i < lines@.len() ==> (#[trigger] lines@[i]).line_number == i + 1,
    ensures
        r@.map_values(|it: ClassifiedItem| it@) == classify_model(
            lines@.map_values(|l: PhysicalLine| l.text@),
        ),
{
    let mut out: Vec<ClassifiedItem> = Vec::new();
    let ghost texts = lines@.map_values(|l: PhysicalLine| l.text@);
    let mut i: usize = 0;
    while i < lines.len()
        invariant
            0 <= i <= lines@.len(),
            out@.len() == i,
            texts == lines@.map_values(|l: PhysicalLine| l.text@),
            forall|k: int| 0 <= k < lines@.len() ==> (#[trigger] lines@[k]).line_number == k + 1,
            forall|k: int| 0 <= k < i ==> (#[trigger] out@[k])@ == classify_model(texts)[k],
        decreases lines@.len() - i,
    {
        let item = if i == 0 {
            classify(&lines[i], None)
        } else {
            classify(&lines[i], Some(&lines[i - 1]))
        };
        out.push(item);
        i += 1;
    }
    proof {
        assert(out@.map_values(|it: ClassifiedItem| it@) =~= classify_model(texts));
    }
    out
}

} // verus!
