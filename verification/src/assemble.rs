//! The record assembler: folds the classified line stream into logical
//! records, joining continuation payloads with single spaces and
//! consuming the continuation markers, and raises the non-fatal
//! diagnostics (malformed line, dangling continuation) along the way.

use vstd::prelude::*;
use vstd::slice::slice_to_vec;

use crate::classify::ClassifiedItem;
use crate::classify::ItemModel;
use crate::classify::LineClass;
use crate::text::AMP;
use crate::text::SPACE;
use crate::text::ends_with_amp;
use crate::text::is_ws;
use crate::text::trim;
use crate::text::trim_trailing;
use crate::text::trim_trailing_slice;
use crate::text::trim_slice;

verus! {

/// What a logical record holds: folded data lines, or one comment line.
#[derive(Clone, Copy, PartialEq, Eq, Structural, Debug)]
pub enum RecordKind {
    /// A data record, possibly folded from several physical lines.
    Data,
    /// A comment line, always a record of its own.
    Comment,
}

/// The non-fatal conditions a parse can report. Neither aborts the parse.
#[derive(Clone, Copy, PartialEq, Eq, Structural, Debug)]
pub enum DiagnosticKind {
    /// A physical line held bytes outside plain ASCII and was skipped.
    MalformedLine,
    /// A continuation line arrived with no open record to extend; its
    /// payload opened a fresh record instead.
    DanglingContinuation,
}

/// A logical record in the model.
pub struct RecordModel {
    /// Data or comment.
    pub kind: RecordKind,
    /// The folded content.
    pub content: Seq<u8>,
    /// 1-based number of the first contributing physical line.
    pub start_line: nat,
    /// 1-based number of the last contributing physical line.
    pub end_line: nat,
}

/// A diagnostic in the model.
pub struct DiagModel {
    /// What went wrong.
    pub kind: DiagnosticKind,
    /// 1-based number of the physical line it originates from.
    pub line: nat,
}

/// The record still being accumulated, in the model.
pub struct OpenModel {
    /// Content folded so far.
    pub content: Seq<u8>,
    /// 1-based number of the line that opened the record.
    pub start_line: nat,
    /// 1-based number of the last line folded in so far.
    pub end_line: nat,
}

/// A record's first segment: the opening line's payload, trimmed of
/// whitespace at both ends.
pub open spec fn seg_first(p: Seq<u8>) -> Seq<u8> {
    trim(p)
}

/// A continuation segment: the payload with trailing whitespace trimmed;
/// leading whitespace beyond the consumed marker stays as content.
pub open spec fn seg_next(p: Seq<u8>) -> Seq<u8> {
    trim_trailing(p)
}

/// Consuming an explicit continuation marker: the ampersand that closed
/// the previous line is dropped from the accumulated content, together
/// with any whitespace newly left trailing.
pub open spec fn strip_amp(c: Seq<u8>) -> Seq<u8> {
    if ends_with_amp(c) {
        trim_trailing(c.drop_last())
    } else {
        c
    }
}

/// Joining policy: segments are concatenated with one single space
/// between them, regardless of the original indentation.
pub open spec fn join_segment(c: Seq<u8>, s: Seq<u8>) -> Seq<u8> {
    if c.len() == 0 {
        s
    } else {
        c + seq![SPACE] + s
    }
}

/// Closing the open record, if any: it is emitted as a data record.
pub open spec fn close_rec(open: Option<OpenModel>) -> Seq<RecordModel> {
    match open {
        None => Seq::empty(),
        Some(o) => seq![
            RecordModel {
                kind: RecordKind::Data,
                content: o.content,
                start_line: o.start_line,
                end_line: o.end_line,
            },
        ],
    }
}

/// What one step of assembly produces: the new open record, the records
/// emitted by this item, and the diagnostics it raised.
pub struct StepModel {
    /// The record left open after the item.
    pub open: Option<OpenModel>,
    /// Records this item caused to be emitted, in order.
    pub recs: Seq<RecordModel>,
    /// Diagnostics this item raised.
    pub diags: Seq<DiagModel>,
}

/// One step of assembly. A terminator closes the open record; a comment
/// closes it and emits itself as a comment record; a record start closes
/// it and opens a new one; a continuation extends it, or — dangling, with
/// nothing to continue — reports the condition and opens a fresh record
/// from its payload; a malformed line is reported and skipped.
pub open spec fn fold_step(open: Option<OpenModel>, item: ItemModel) -> StepModel {
    match item {
        ItemModel::Malformed { line } => StepModel {
            open,
            recs: Seq::empty(),
            diags: seq![DiagModel { kind: DiagnosticKind::MalformedLine, line }],
        },
        ItemModel::Line { class, payload, line } => match class {
            LineClass::Terminator => StepModel {
                open: None,
                recs: close_rec(open),
                diags: Seq::empty(),
            },
            LineClass::Comment => StepModel {
                open: None,
                recs: close_rec(open) + seq![
                    RecordModel {
                        kind: RecordKind::Comment,
                        content: payload,
                        start_line: line,
                        end_line: line,
                    },
                ],
                diags: Seq::empty(),
            },
            LineClass::RecordStart => StepModel {
                open: Some(
                    OpenModel { content: seg_first(payload), start_line: line, end_line: line },
                ),
                recs: close_rec(open),
                diags: Seq::empty(),
            },
            LineClass::ExplicitContinuation => match open {
                Some(o) => StepModel {
                    open: Some(
                        OpenModel {
                            content: join_segment(strip_amp(o.content), seg_next(payload)),
                            start_line: o.start_line,
                            end_line: line,
                        },
                    ),
                    recs: Seq::empty(),
                    diags: Seq::empty(),
                },
                None => StepModel {
                    open: Some(
                        OpenModel { content: seg_first(payload), start_line: line, end_line: line },
                    ),
                    recs: Seq::empty(),
                    diags: seq![
                        DiagModel { kind: DiagnosticKind::DanglingContinuation, line },
                    ],
                },
            },
            LineClass::IndentedContinuation => match open {
                Some(o) => StepModel {
                    open: Some(
                        OpenModel {
                            content: join_segment(o.content, seg_next(payload)),
                            start_line: o.start_line,
                            end_line: line,
                        },
                    ),
                    recs: Seq::empty(),
                    diags: Seq::empty(),
                },
                None => StepModel {
                    open: Some(
                        OpenModel { content: seg_first(payload), start_line: line, end_line: line },
                    ),
                    recs: Seq::empty(),
                    diags: seq![
                        DiagModel { kind: DiagnosticKind::DanglingContinuation, line },
                    ],
                },
            },
        },
    }
}

/// Everything a parse emits: the records and the diagnostics.
pub struct FoldOut {
    /// The logical records, in source order.
    pub recs: Seq<RecordModel>,
    /// The diagnostics, in source order.
    pub diags: Seq<DiagModel>,
}

/// Assembly of the items from position `i` on, starting from the given
/// open record. At the end of the stream the open record, if any, is
/// closed and emitted.
pub open spec fn fold_from(items: Seq<ItemModel>, i: int, open: Option<OpenModel>) -> FoldOut
    decreases items.len() - i,
{
    if i < 0 || i >= items.len() {
        FoldOut { recs: close_rec(open), diags: Seq::empty() }
    } else {
        let step = fold_step(open, items[i]);
        let rest = fold_from(items, i + 1, step.open);
        FoldOut { recs: step.recs + rest.recs, diags: step.diags + rest.diags }
    }
}

/// Assembly of a whole classified stream, starting with no open record.
pub open spec fn fold_model(items: Seq<ItemModel>) -> FoldOut {
    fold_from(items, 0, None)
}

/// One assembled logical record.
pub struct LogicalRecord {
    /// Data or comment.
    pub kind: RecordKind,
    /// The folded content: continuation markers consumed, segments joined
    /// with single spaces, trailing whitespace trimmed per segment.
    pub content: Vec<u8>,
    /// 1-based number of the first contributing physical line.
    pub start_line: usize,
    /// 1-based number of the last contributing physical line.
    pub end_line: usize,
}

impl View for LogicalRecord {
    type V = RecordModel;

    open spec fn view(&self) -> RecordModel {
        RecordModel {
            kind: self.kind,
            content: self.content@,
            start_line: self.start_line as nat,
            end_line: self.end_line as nat,
        }
    }
}

/// One reported diagnostic.
pub struct Diagnostic {
    /// What went wrong.
    pub kind: DiagnosticKind,
    /// 1-based number of the physical line it originates from.
    pub line_number: usize,
}

impl View for Diagnostic {
    type V = DiagModel;

    open spec fn view(&self) -> DiagModel {
        DiagModel { kind: self.kind, line: self.line_number as nat }
    }
}

/// The records and diagnostics of one parse, in source order. Every
/// diagnostic is non-fatal: a parse with errors still yields all the
/// records that could be assembled.
pub struct ParseOutput {
    /// The logical records.
    pub records: Vec<LogicalRecord>,
    /// The diagnostics raised alongside them.
    pub diagnostics: Vec<Diagnostic>,
}

/// The model of a record vector.
pub open spec fn recs_of(v: Seq<LogicalRecord>) -> Seq<RecordModel> {
    v.map_values(|r: LogicalRecord| r@)
}

/// The model of a diagnostic vector.
pub open spec fn diags_of(v: Seq<Diagnostic>) -> Seq<DiagModel> {
    v.map_values(|d: Diagnostic| d@)
}

/// The record being accumulated.
struct OpenRecord {
    content: Vec<u8>,
    start_line: usize,
    end_line: usize,
}

/// The model of the open record, if any.
spec fn open_model(open: &Option<OpenRecord>) -> Option<OpenModel> {
    match open {
        None => None,
        Some(o) => Some(
            OpenModel {
                content: o.content@,
                start_line: o.start_line as nat,
                end_line: o.end_line as nat,
            },
        ),
    }
}

/// Consumes the explicit continuation marker at the end of the
/// accumulated content, when present.
fn strip_amp_in_place(content: &mut Vec<u8>)
    ensures
        final(content)@ == strip_amp(old(content)@),
{
    let n = content.len();
    if n == 0 || content[n - 1] != AMP {
        return;
    }
    content.pop();
    let ghost base = content@;
    proof {
        assert(base == old(content)@.drop_last());
    }
    while content.len() > 0 && (content[content.len() - 1] == SPACE || content[content.len() - 1]
        == crate::text::TAB)
        invariant
            trim_trailing(content@) == trim_trailing(base),
        decreases content@.len(),
    {
        let ghost before = content@;
        content.pop();
        proof {
            assert(content@ == before.drop_last());
            assert(is_ws(before[before.len() - 1]));
        }
    }
    proof {
        assert(trim_trailing(content@) == content@);
    }
}

/// Appends one more segment under the joining policy: a single space
/// between segments, none before the first.
fn push_segment(content: &mut Vec<u8>, seg: &Vec<u8>)
    ensures
        final(content)@ == join_segment(old(content)@, seg@),
{
    let ghost c0 = content@;
    if content.len() > 0 {
        content.push(SPACE);
    }
    let ghost base = content@;
    let mut k: usize = 0;
    while k < seg.len()
        invariant
            0 <= k <= seg@.len(),
            content@ == base + seg@.take(k as int),
        decreases seg@.len() - k,
    {
        let ghost before = content@;
        content.push(seg[k]);
        proof {
            assert(content@ =~= base + seg@.take(k as int + 1));
        }
        k += 1;
    }
    proof {
        assert(seg@.take(seg@.len() as int) =~= seg@);
        if c0.len() == 0 {
            assert(content@ =~= seg@);
        } else {
            assert(content@ =~= c0 + seq![SPACE] + seg@);
        }
    }
}

/// Closes the open record, if any, and emits it as a data record.
fn close_open(open: Option<OpenRecord>, records: &mut Vec<LogicalRecord>)
    ensures
        recs_of(final(records)@) == recs_of(old(records)@) + close_rec(open_model(&open)),
{
    let ghost before = recs_of(records@);
    match open {
        None => {
            proof {
                assert(recs_of(records@) =~= before + close_rec(open_model(&None::<OpenRecord>)));
            }
        },
        Some(o) => {
            records.push(
                LogicalRecord {
                    kind: RecordKind::Data,
                    content: o.content,
                    start_line: o.start_line,
                    end_line: o.end_line,
                },
            );
            proof {
                assert(recs_of(records@) =~= before + close_rec(open_model(&Some(o))));
            }
        },
    }
}

/// Folds a classified line stream into logical records, reporting the
/// non-fatal diagnostics alongside them. Single pass, in source order;
/// a record still open at the end of the stream is closed and emitted.
pub fn fold(items: &[ClassifiedItem]) -> (out: ParseOutput)
    ensures
        recs_of(out.records@) == fold_model(items@.map_values(|it: ClassifiedItem| it@)).recs,
        diags_of(out.diagnostics@) == fold_model(items@.map_values(|it: ClassifiedItem| it@)).diags,
{
    let ghost m = items@.map_values(|it: ClassifiedItem| it@);
    let mut records: Vec<LogicalRecord> = Vec::new();
    let mut diagnostics: Vec<Diagnostic> = Vec::new();
    let mut open: Option<OpenRecord> = None;
    let mut i: usize = 0;
    proof {
        assert(recs_of(records@) =~= Seq::<RecordModel>::empty());
        assert(diags_of(diagnostics@) =~= Seq::<DiagModel>::empty());
        assert(fold_model(m).recs =~= recs_of(records@) + fold_from(m, 0, open_model(&open)).recs);
        assert(fold_model(m).diags =~= diags_of(diagnostics@) + fold_from(
            m,
            0,
            open_model(&open),
        ).diags);
    }
    while i < items.len()
        invariant
            0 <= i <= items@.len(),
            m == items@.map_values(|it: ClassifiedItem| it@),
            fold_model(m).recs == recs_of(records@) + fold_from(m, i as int, open_model(&open)).recs,
            fold_model(m).diags == diags_of(diagnostics@) + fold_from(
                m,
                i as int,
                open_model(&open),
            ).diags,
        decreases items@.len() - i,
    {
        let ghost st0 = open_model(&open);
        let ghost step = fold_step(st0, m[i as int]);
        let ghost recs0 = recs_of(records@);
        let ghost diags0 = diags_of(diagnostics@);
        proof {
            assert(m[i as int] == items@[i as int]@);
            assert(fold_from(m, i as int, st0).recs == step.recs + fold_from(
                m,
                i as int + 1,
                step.open,
            ).recs);
            assert(fold_from(m, i as int, st0).diags == step.diags + fold_from(
                m,
                i as int + 1,
                step.open,
            ).diags);
        }
        match &items[i] {
            ClassifiedItem::Malformed { line_number } => {
                diagnostics.push(
                    Diagnostic { kind: DiagnosticKind::MalformedLine, line_number: *line_number },
                );
                proof {
                    assert(diags_of(diagnostics@) =~= diags0 + step.diags);
                }
            },
            ClassifiedItem::Line(l) => {
                match l.class {
                    LineClass::Terminator => {
                        let prev = open.take();
                        close_open(prev, &mut records);
                        proof {
                            assert(recs_of(records@) =~= recs0 + step.recs);
                        }
                    },
                    LineClass::Comment => {
                        let prev = open.take();
                        close_open(prev, &mut records);
                        proof {
                            assert(open_model(&prev) == st0);
                            assert(recs_of(records@) == recs0 + close_rec(st0));
                        }
                        let ghost mid = recs_of(records@);
                        let content = slice_to_vec(l.payload.as_slice());
                        records.push(
                            LogicalRecord {
                                kind: RecordKind::Comment,
                                content,
                                start_line: l.line_number,
                                end_line: l.line_number,
                            },
                        );
                        proof {
                            let crec = RecordModel {
                                kind: RecordKind::Comment,
                                content: l.payload@,
                                start_line: l.line_number as nat,
                                end_line: l.line_number as nat,
                            };
                            assert(recs_of(records@) =~= mid + seq![crec]);
                            assert(recs_of(records@) =~= recs0 + step.recs);
                        }
                    },
                    LineClass::RecordStart => {
                        let prev = open.take();
                        close_open(prev, &mut records);
                        let content = trim_slice(l.payload.as_slice());
                        open = Some(
                            OpenRecord {
                                content,
                                start_line: l.line_number,
                                end_line: l.line_number,
                            },
                        );
                        proof {
                            assert(recs_of(records@) =~= recs0 + step.recs);
                        }
                    },
                    LineClass::ExplicitContinuation | LineClass::IndentedContinuation => {
                        let explicit = match l.class {
                            LineClass::ExplicitContinuation => true,
                            _ => false,
                        };
                        match open.take() {
                            Some(mut o) => {
                                if explicit {
                                    strip_amp_in_place(&mut o.content);
                                }
                                let seg = trim_trailing_slice(l.payload.as_slice());
                                push_segment(&mut o.content, &seg);
                                o.end_line = l.line_number;
                                open = Some(o);
                            },
                            None => {
                                diagnostics.push(
                                    Diagnostic {
                                        kind: DiagnosticKind::DanglingContinuation,
                                        line_number: l.line_number,
                                    },
                                );
                                let content = trim_slice(l.payload.as_slice());
                                open = Some(
                                    OpenRecord {
                                        content,
                                        start_line: l.line_number,
                                        end_line: l.line_number,
                                    },
                                );
                                proof {
                                    assert(diags_of(diagnostics@) =~= diags0 + step.diags);
                                }
                            },
                        }
                        proof {
                            assert(open_model(&open) == step.open);
                        }
                    },
                }
            },
        }
        proof {
            assert(recs_of(records@) + fold_from(m, i as int + 1, step.open).recs =~= fold_model(
                m,
            ).recs);
            assert(diags_of(diagnostics@) + fold_from(m, i as int + 1, step.open).diags
                =~= fold_model(m).diags);
        }
        i += 1;
    }
    let last = open.take();
    close_open(last, &mut records);
    proof {
        assert(recs_of(records@) =~= fold_model(m).recs);
        assert(diags_of(diagnostics@) =~= fold_model(m).diags);
    }
    ParseOutput { records, diagnostics }
}

} // verus!
