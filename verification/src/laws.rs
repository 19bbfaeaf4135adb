//! The laws of record assembly, stated over the parse model and proved
//! once for all inputs: how continuations fold, what blank lines close,
//! what comments never do, and how folded content behaves when fed back
//! through the pipeline.

use vstd::prelude::*;

use crate::assemble::DiagModel;
use crate::assemble::OpenModel;
use crate::assemble::RecordKind;
use crate::assemble::RecordModel;
use crate::assemble::close_rec;
use crate::assemble::fold_from;
use crate::assemble::fold_model;
use crate::assemble::fold_step;
use crate::assemble::join_segment;
use crate::assemble::seg_first;
use crate::assemble::seg_next;
use crate::assemble::strip_amp;
use crate::classify::ItemModel;
use crate::classify::LineClass;
use crate::classify::class_of;
use crate::classify::classify_model;
use crate::classify::item_of;
use crate::classify::payload_of;
use crate::lines::NEWLINE;
use crate::lines::lemma_split_prepend;
use crate::lines::lemma_split_whole;
use crate::lines::no_newline;
use crate::lines::split_lines;
use crate::parse_model;
use crate::text::ends_with_amp;
use crate::text::is_blank;
use crate::text::is_comment_text;
use crate::text::is_wellformed;
use crate::text::is_ws;
use crate::text::leading_spaces;
use crate::text::lemma_trim_leading_nonblank;
use crate::text::lemma_trim_trailing_nonblank;
use crate::text::lemma_trim_trailing_prefix;
use crate::text::trim;
use crate::text::trim_leading;
use crate::text::trim_trailing;

verus! {

/// Splitting two newline-terminated lines gives exactly those two lines.
proof fn lemma_split_two(a: Seq<u8>, b: Seq<u8>)
    requires
        no_newline(a),
        no_newline(b),
    ensures
        split_lines(a + seq![NEWLINE] + b + seq![NEWLINE]) == seq![a, b],
{
    let rest = b + seq![NEWLINE];
    assert(a + seq![NEWLINE] + b + seq![NEWLINE] =~= a + seq![NEWLINE] + rest);
    lemma_split_prepend(a, rest);
    assert(rest =~= b + seq![NEWLINE] + Seq::<u8>::empty());
    lemma_split_prepend(b, Seq::<u8>::empty());
    assert(seq![a] + (seq![b] + split_lines(Seq::<u8>::empty())) =~= seq![a, b]);
}

/// Splitting three newline-terminated lines gives exactly those three.
proof fn lemma_split_three(a: Seq<u8>, w: Seq<u8>, b: Seq<u8>)
    requires
        no_newline(a),
        no_newline(w),
        no_newline(b),
    ensures
        split_lines(a + seq![NEWLINE] + w + seq![NEWLINE] + b + seq![NEWLINE]) == seq![a, w, b],
{
    let rest = w + seq![NEWLINE] + b + seq![NEWLINE];
    assert(a + seq![NEWLINE] + w + seq![NEWLINE] + b + seq![NEWLINE] =~= a + seq![NEWLINE] + rest);
    lemma_split_prepend(a, rest);
    lemma_split_two(w, b);
    assert(seq![a] + seq![w, b] =~= seq![a, w, b]);
}

/// A one-item stream folds to its step's output plus the close.
proof fn lemma_fold_one(items: Seq<ItemModel>)
    requires
        items.len() == 1,
    ensures
        fold_model(items).recs == fold_step(None, items[0]).recs + close_rec(
            fold_step(None, items[0]).open,
        ),
        fold_model(items).diags == fold_step(None, items[0]).diags,
{
    let st1 = fold_step(None, items[0]);
    assert(fold_from(items, 1, st1.open).recs =~= close_rec(st1.open));
    assert(fold_from(items, 1, st1.open).diags =~= Seq::<DiagModel>::empty());
    assert(fold_model(items).recs =~= st1.recs + close_rec(st1.open));
    assert(fold_model(items).diags =~= st1.diags);
}

/// A two-item stream folds to the two steps' output plus the close.
proof fn lemma_fold_two(items: Seq<ItemModel>)
    requires
        items.len() == 2,
    ensures
        fold_model(items).recs == fold_step(None, items[0]).recs + fold_step(
            fold_step(None, items[0]).open,
            items[1],
        ).recs + close_rec(fold_step(fold_step(None, items[0]).open, items[1]).open),
        fold_model(items).diags == fold_step(None, items[0]).diags + fold_step(
            fold_step(None, items[0]).open,
            items[1],
        ).diags,
{
    let st1 = fold_step(None, items[0]);
    let st2 = fold_step(st1.open, items[1]);
    assert(fold_from(items, 2, st2.open).recs =~= close_rec(st2.open));
    assert(fold_from(items, 2, st2.open).diags =~= Seq::<DiagModel>::empty());
    assert(fold_from(items, 1, st1.open).recs =~= st2.recs + close_rec(st2.open));
    assert(fold_from(items, 1, st1.open).diags =~= st2.diags);
    assert(fold_model(items).recs =~= st1.recs + st2.recs + close_rec(st2.open));
    assert(fold_model(items).diags =~= st1.diags + st2.diags);
}

/// A three-item stream folds to the three steps' output plus the close.
proof fn lemma_fold_three(items: Seq<ItemModel>)
    requires
        items.len() == 3,
    ensures
        ({
            let st1 = fold_step(None, items[0]);
            let st2 = fold_step(st1.open, items[1]);
            let st3 = fold_step(st2.open, items[2]);
            fold_model(items).recs == st1.recs + st2.recs + st3.recs + close_rec(st3.open)
                && fold_model(items).diags == st1.diags + st2.diags + st3.diags
        }),
{
    let st1 = fold_step(None, items[0]);
    let st2 = fold_step(st1.open, items[1]);
    let st3 = fold_step(st2.open, items[2]);
    assert(fold_from(items, 3, st3.open).recs =~= close_rec(st3.open));
    assert(fold_from(items, 3, st3.open).diags =~= Seq::<DiagModel>::empty());
    assert(fold_from(items, 2, st2.open).recs =~= st3.recs + close_rec(st3.open));
    assert(fold_from(items, 2, st2.open).diags =~= st3.diags);
    assert(fold_from(items, 1, st1.open).recs =~= st2.recs + st3.recs + close_rec(st3.open));
    assert(fold_from(items, 1, st1.open).diags =~= st2.diags + st3.diags);
    assert(fold_model(items).recs =~= st1.recs + st2.recs + st3.recs + close_rec(st3.open));
    assert(fold_model(items).diags =~= st1.diags + st2.diags + st3.diags);
}

/// Law: folding is idempotent on already-folded content. A single line
/// with no leading or trailing whitespace — the shape every folded data
/// record's content takes, short of the rare record whose first segment
/// vanished into a consumed ampersand — parses to exactly one record
/// carrying that very content, and to no diagnostics.
pub proof fn lemma_fold_idempotent(c: Seq<u8>)
    requires
        is_wellformed(c),
        no_newline(c),
        c.len() > 0,
        !is_ws(c[0]),
        !is_ws(c[c.len() - 1]),
    ensures
        parse_model(c).recs.len() == 1,
        parse_model(c).recs[0].content == c,
        parse_model(c).diags == Seq::<DiagModel>::empty(),
{
    lemma_split_whole(c);
    let items = classify_model(seq![c]);
    assert(split_lines(c) == seq![c]);
    assert(items[0] == item_of(c, None, 1));
    assert(!is_blank(c));
    lemma_fold_one(items);
    let st1 = fold_step(None, items[0]);
    if is_comment_text(c) {
        assert(class_of(c, None) == LineClass::Comment);
        assert(st1.recs =~= seq![
            RecordModel {
                kind: RecordKind::Comment,
                content: c,
                start_line: 1,
                end_line: 1,
            },
        ] + close_rec(st1.open));
        assert(parse_model(c).recs[0].content == c);
    } else {
        assert(leading_spaces(c) == 0);
        assert(class_of(c, None) == LineClass::RecordStart);
        assert(trim_trailing(c) == c);
        assert(trim(c) == c);
        assert(st1.recs + close_rec(st1.open) =~= seq![
            RecordModel { kind: RecordKind::Data, content: c, start_line: 1, end_line: 1 },
        ]);
    }
}

/// Law: an explicit continuation folds into one record without its
/// ampersand. A record-start line ending in an ampersand immediately
/// before the line break, followed by a record-start-shaped line, yields
/// one data record spanning both lines; the ampersand itself is dropped
/// from the first segment, and the two segments are joined with a single
/// space.
pub proof fn lemma_ampersand_folds(a: Seq<u8>, b: Seq<u8>)
    requires
        is_wellformed(a),
        is_wellformed(b),
        no_newline(a),
        no_newline(b),
        !is_blank(a),
        !is_comment_text(a),
        leading_spaces(a) < 5,
        ends_with_amp(a),
        !is_blank(b),
        !is_comment_text(b),
        leading_spaces(b) < 5,
    ensures
        parse_model(a + seq![NEWLINE] + b + seq![NEWLINE]).recs == seq![
            RecordModel {
                kind: RecordKind::Data,
                content: join_segment(strip_amp(seg_first(a)), seg_next(b)),
                start_line: 1,
                end_line: 2,
            },
        ],
        ends_with_amp(seg_first(a)),
        strip_amp(seg_first(a)) == trim_trailing(seg_first(a).drop_last()),
        parse_model(a + seq![NEWLINE] + b + seq![NEWLINE]).diags == Seq::<DiagModel>::empty(),
{
    lemma_split_two(a, b);
    let items = classify_model(seq![a, b]);
    assert(items.len() == 2);
    assert(items[0] == item_of(a, None, 1));
    assert(items[1] == item_of(b, Some(a), 2));
    assert(class_of(a, None) == LineClass::RecordStart);
    assert(class_of(b, Some(a)) == LineClass::ExplicitContinuation);
    lemma_fold_two(items);
    let st1 = fold_step(None, items[0]);
    let st2 = fold_step(st1.open, items[1]);
    assert(st1.recs + st2.recs + close_rec(st2.open) =~= seq![
        RecordModel {
            kind: RecordKind::Data,
            content: join_segment(strip_amp(seg_first(a)), seg_next(b)),
            start_line: 1,
            end_line: 2,
        },
    ]);
    assert(st1.diags + st2.diags =~= Seq::<DiagModel>::empty());
    assert(trim_trailing(a) == a);
    lemma_trim_leading_nonblank(a);
    assert(ends_with_amp(seg_first(a)));
}

/// Law: five leading spaces fold. A record-start line followed by a line
/// carrying exactly the five-space indentation marker folds into one data
/// record spanning both lines; the five marker spaces are consumed and
/// the segments are joined with a single space.
pub proof fn lemma_indent_five_folds(a: Seq<u8>, b: Seq<u8>)
    requires
        is_wellformed(a),
        is_wellformed(b),
        no_newline(a),
        no_newline(b),
        !is_blank(a),
        !is_comment_text(a),
        leading_spaces(a) < 5,
        !ends_with_amp(a),
        !is_blank(b),
        leading_spaces(b) == 5,
    ensures
        parse_model(a + seq![NEWLINE] + b + seq![NEWLINE]).recs == seq![
            RecordModel {
                kind: RecordKind::Data,
                content: join_segment(seg_first(a), seg_next(b.skip(5))),
                start_line: 1,
                end_line: 2,
            },
        ],
        parse_model(a + seq![NEWLINE] + b + seq![NEWLINE]).diags == Seq::<DiagModel>::empty(),
{
    lemma_split_two(a, b);
    let items = classify_model(seq![a, b]);
    assert(items[0] == item_of(a, None, 1));
    assert(items[1] == item_of(b, Some(a), 2));
    assert(class_of(a, None) == LineClass::RecordStart);
    proof_not_comment_when_indented(b);
    assert(class_of(b, Some(a)) == LineClass::IndentedContinuation);
    assert(payload_of(b, LineClass::IndentedContinuation) == b.skip(5));
    lemma_fold_two(items);
    let st1 = fold_step(None, items[0]);
    let st2 = fold_step(st1.open, items[1]);
    assert(st1.recs + st2.recs + close_rec(st2.open) =~= seq![
        RecordModel {
            kind: RecordKind::Data,
            content: join_segment(seg_first(a), seg_next(b.skip(5))),
            start_line: 1,
            end_line: 2,
        },
    ]);
    assert(st1.diags + st2.diags =~= Seq::<DiagModel>::empty());
}

/// A non-blank line that starts with a space is no comment: the comment
/// marker must stand in column one.
proof fn proof_not_comment_when_indented(b: Seq<u8>)
    requires
        !is_blank(b),
        leading_spaces(b) >= 1,
    ensures
        !is_comment_text(b),
{
    lemma_trim_trailing_nonblank(b);
    lemma_trim_trailing_prefix(b);
    assert(trim_trailing(b)[0] == b[0]);
    assert(b[0] == crate::text::SPACE);
}

/// Law: four leading spaces do not fold. A record-start line followed by
/// a non-blank line with exactly four leading spaces yields two separate
/// data records, one per line.
pub proof fn lemma_indent_four_starts_new(a: Seq<u8>, b: Seq<u8>)
    requires
        is_wellformed(a),
        is_wellformed(b),
        no_newline(a),
        no_newline(b),
        !is_blank(a),
        !is_comment_text(a),
        leading_spaces(a) < 5,
        !ends_with_amp(a),
        !is_blank(b),
        leading_spaces(b) == 4,
    ensures
        parse_model(a + seq![NEWLINE] + b + seq![NEWLINE]).recs == seq![
            RecordModel { kind: RecordKind::Data, content: seg_first(a), start_line: 1, end_line: 1 },
            RecordModel { kind: RecordKind::Data, content: seg_first(b), start_line: 2, end_line: 2 },
        ],
        parse_model(a + seq![NEWLINE] + b + seq![NEWLINE]).diags == Seq::<DiagModel>::empty(),
{
    lemma_split_two(a, b);
    let items = classify_model(seq![a, b]);
    assert(items[0] == item_of(a, None, 1));
    assert(items[1] == item_of(b, Some(a), 2));
    assert(class_of(a, None) == LineClass::RecordStart);
    proof_not_comment_when_indented(b);
    assert(class_of(b, Some(a)) == LineClass::RecordStart);
    lemma_fold_two(items);
    let st1 = fold_step(None, items[0]);
    let st2 = fold_step(st1.open, items[1]);
    assert(st1.recs + st2.recs + close_rec(st2.open) =~= seq![
        RecordModel { kind: RecordKind::Data, content: seg_first(a), start_line: 1, end_line: 1 },
        RecordModel { kind: RecordKind::Data, content: seg_first(b), start_line: 2, end_line: 2 },
    ]);
    assert(st1.diags + st2.diags =~= Seq::<DiagModel>::empty());
}

/// Law: a blank line always closes the open record. Whatever stands
/// around it — the line before may end in an ampersand, the line after
/// may carry any indentation — the two sides never fold across the blank
/// line: each yields its own record, and the blank line is in neither's
/// line range.
pub proof fn lemma_blank_line_closes(a: Seq<u8>, w: Seq<u8>, b: Seq<u8>)
    requires
        is_wellformed(a),
        is_wellformed(w),
        is_wellformed(b),
        no_newline(a),
        no_newline(w),
        no_newline(b),
        !is_blank(a),
        !is_comment_text(a),
        leading_spaces(a) < 5,
        is_blank(w),
        !is_blank(b),
        !is_comment_text(b),
    ensures
        parse_model(a + seq![NEWLINE] + w + seq![NEWLINE] + b + seq![NEWLINE]).recs == seq![
            RecordModel { kind: RecordKind::Data, content: seg_first(a), start_line: 1, end_line: 1 },
            RecordModel { kind: RecordKind::Data, content: seg_first(b), start_line: 3, end_line: 3 },
        ],
        parse_model(a + seq![NEWLINE] + w + seq![NEWLINE] + b + seq![NEWLINE]).diags == Seq::<
            DiagModel,
        >::empty(),
{
    lemma_split_three(a, w, b);
    let items = classify_model(seq![a, w, b]);
    assert(items[0] == item_of(a, None, 1));
    assert(items[1] == item_of(w, Some(a), 2));
    assert(items[2] == item_of(b, Some(w), 3));
    assert(class_of(a, None) == LineClass::RecordStart);
    assert(class_of(w, Some(a)) == LineClass::Terminator);
    assert(!ends_with_amp(w));
    assert(class_of(b, Some(w)) == LineClass::RecordStart);
    lemma_fold_three(items);
    let st1 = fold_step(None, items[0]);
    let st2 = fold_step(st1.open, items[1]);
    let st3 = fold_step(st2.open, items[2]);
    assert(st1.recs + st2.recs + st3.recs + close_rec(st3.open) =~= seq![
        RecordModel { kind: RecordKind::Data, content: seg_first(a), start_line: 1, end_line: 1 },
        RecordModel { kind: RecordKind::Data, content: seg_first(b), start_line: 3, end_line: 3 },
    ]);
    assert(st1.diags + st2.diags + st3.diags =~= Seq::<DiagModel>::empty());
}

/// A record's line range covers the 1-based line number `ln`.
pub open spec fn covers(r: RecordModel, ln: int) -> bool {
    r.start_line <= ln <= r.end_line
}

/// Record line ranges appear in source order and never overlap.
pub open spec fn ranges_disjoint(recs: Seq<RecordModel>) -> bool {
    forall|j1: int, j2: int|
        #![trigger recs[j1], recs[j2]]
        0 <= j1 < j2 < recs.len() ==> recs[j1].end_line < recs[j2].start_line
}

/// The smallest line number a record of the remaining fold can cover:
/// the open record's own start, or the next unprocessed line.
spec fn suffix_lo(open: Option<OpenModel>, i: int) -> int {
    match open {
        Some(o) => o.start_line as int,
        None => i + 1,
    }
}

/// The bookkeeping of one induction step: a short run of records emitted
/// now (`front`), followed by the records of the remaining fold (`rest`),
/// satisfies the suffix invariants whenever the two parts do severally
/// and `front` ends strictly before `rest` begins.
proof fn lemma_suffix_combine(
    lines: Seq<Seq<u8>>,
    i: int,
    open: Option<OpenModel>,
    front: Seq<RecordModel>,
    rest: Seq<RecordModel>,
    lo2: int,
)
    requires
        0 <= i < lines.len(),
        open matches Some(o) ==> 1 <= o.start_line <= o.end_line == i,
        open matches Some(o) ==> forall|k: int|
            o.start_line <= k + 1 <= o.end_line ==> !is_blank(#[trigger] lines[k])
                && !is_comment_text(lines[k]),
        suffix_lo(open, i) <= lo2,
        front.len() <= 2,
        forall|j: int|
            0 <= j < front.len() ==> suffix_lo(open, i) <= (#[trigger] front[j]).start_line
                && front[j].start_line <= front[j].end_line && front[j].end_line <= i + 1
                && front[j].end_line < lo2,
        front.len() == 2 ==> front[0].end_line < front[1].start_line,
        forall|j: int, k: int|
            #![trigger front[j], lines[k]]
            0 <= j < front.len() && front[j].kind == RecordKind::Data && 0 <= k < lines.len()
                && covers(front[j], k + 1) ==> !is_comment_text(lines[k]) && !is_blank(
                lines[k],
            ),
        forall|j: int|
            0 <= j < front.len() && (#[trigger] front[j]).kind == RecordKind::Comment
                ==> front[j].start_line == front[j].end_line && 1 <= front[j].start_line
                <= lines.len() && is_comment_text(lines[front[j].start_line - 1])
                && front[j].content == lines[front[j].start_line - 1],
        open matches Some(o) ==> ((front.len() >= 1 && front[0].start_line == o.start_line
            && front[0].end_line >= o.end_line) || (front.len() == 0 && rest.len() >= 1
            && rest[0].start_line == o.start_line && rest[0].end_line >= o.end_line)),
        ranges_disjoint(rest),
        forall|j: int|
            0 <= j < rest.len() ==> lo2 <= (#[trigger] rest[j]).start_line && rest[j].start_line
                <= rest[j].end_line && rest[j].end_line <= lines.len(),
        forall|k: int|
            i + 1 <= k < lines.len() && !is_blank(#[trigger] lines[k]) && !is_comment_text(
                lines[k],
            ) ==> exists|j: int| 0 <= j < rest.len() && covers(#[trigger] rest[j], k + 1),
        forall|j: int, k: int|
            #![trigger rest[j], lines[k]]
            0 <= j < rest.len() && rest[j].kind == RecordKind::Data && 0 <= k < lines.len()
                && covers(rest[j], k + 1) ==> !is_comment_text(lines[k]) && !is_blank(
                lines[k],
            ),
        forall|j: int|
            0 <= j < rest.len() && (#[trigger] rest[j]).kind == RecordKind::Comment
                ==> rest[j].start_line == rest[j].end_line && 1 <= rest[j].start_line
                <= lines.len() && is_comment_text(lines[rest[j].start_line - 1])
                && rest[j].content == lines[rest[j].start_line - 1],
        !is_blank(lines[i]) && !is_comment_text(lines[i]) ==> rest.len() >= 1 && covers(
            rest[0],
            i + 1,
        ),
    ensures
        ({
            let recs = front + rest;
            &&& ranges_disjoint(recs)
            &&& forall|j: int|
                0 <= j < recs.len() ==> suffix_lo(open, i) <= (#[trigger] recs[j]).start_line
                    && recs[j].start_line <= recs[j].end_line && recs[j].end_line <= lines.len()
            &&& (open matches Some(o) ==> recs.len() >= 1 && recs[0].start_line == o.start_line
                && recs[0].end_line >= o.end_line)
            &&& forall|k: int|
                i <= k < lines.len() && !is_blank(#[trigger] lines[k]) && !is_comment_text(
                    lines[k],
                ) ==> exists|j: int| 0 <= j < recs.len() && covers(#[trigger] recs[j], k + 1)
            &&& forall|j: int, k: int|
                #![trigger recs[j], lines[k]]
                0 <= j < recs.len() && recs[j].kind == RecordKind::Data && 0 <= k < lines.len()
                    && covers(recs[j], k + 1) ==> !is_comment_text(lines[k]) && !is_blank(
                    lines[k],
                )
            &&& forall|j: int|
                0 <= j < recs.len() && (#[trigger] recs[j]).kind == RecordKind::Comment
                    ==> recs[j].start_line == recs[j].end_line && 1 <= recs[j].start_line
                    <= lines.len() && is_comment_text(lines[recs[j].start_line - 1])
                    && recs[j].content == lines[recs[j].start_line - 1]
        }),
{
    let recs = front + rest;
    let fl = front.len() as int;
    assert forall|j1: int, j2: int|
        0 <= j1 < j2 < recs.len() implies (#[trigger] recs[j1]).end_line < (
    #[trigger] recs[j2]).start_line by {
        if j2 < fl {
            assert(recs[j1] == front[j1] && recs[j2] == front[j2]);
        } else if j1 < fl {
            assert(recs[j1] == front[j1] && recs[j2] == rest[j2 - fl]);
            assert(front[j1].end_line < lo2 <= rest[j2 - fl].start_line);
        } else {
            assert(recs[j1] == rest[j1 - fl] && recs[j2] == rest[j2 - fl]);
        }
    };
    assert(ranges_disjoint(recs));
    assert forall|k: int|
        i <= k < lines.len() && !is_blank(#[trigger] lines[k]) && !is_comment_text(
            lines[k],
        ) implies exists|j: int| 0 <= j < recs.len() && covers(#[trigger] recs[j], k + 1) by {
        if k == i {
            assert(recs[fl] == rest[0]);
            assert(covers(recs[fl], k + 1));
        } else {
            let j0 = choose|j0: int| 0 <= j0 < rest.len() && covers(#[trigger] rest[j0], k + 1);
            assert(recs[fl + j0] == rest[j0]);
            assert(covers(recs[fl + j0], k + 1));
        }
    };
    assert forall|j: int, k: int|
        0 <= j < recs.len() && (#[trigger] recs[j]).kind == RecordKind::Data && 0 <= k
            < lines.len() && covers(recs[j], k + 1) implies !is_comment_text(#[trigger] lines[k])
        && !is_blank(lines[k]) by {
        if j < fl {
            assert(recs[j] == front[j]);
        } else {
            assert(recs[j] == rest[j - fl]);
        }
    };
    assert forall|j: int|
        0 <= j < recs.len() && (#[trigger] recs[j]).kind == RecordKind::Comment implies recs[j].start_line
        == recs[j].end_line && 1 <= recs[j].start_line <= lines.len() && is_comment_text(
        lines[recs[j].start_line - 1],
    ) && recs[j].content == lines[recs[j].start_line - 1] by {
        if j < fl {
            assert(recs[j] == front[j]);
        } else {
            assert(recs[j] == rest[j - fl]);
        }
    };
}

/// The heart of the coverage laws, by induction over the classified
/// stream: from any well-formed position, the records still to come have
/// ordered, disjoint line ranges within bounds; an open record is
/// finished first, keeping its start; every remaining non-blank,
/// non-comment line lands in some record's range; and no data record's
/// range ever takes in a comment line.
proof fn lemma_fold_suffix(lines: Seq<Seq<u8>>, i: int, open: Option<OpenModel>)
    requires
        0 <= i <= lines.len(),
        forall|k: int| 0 <= k < lines.len() ==> is_wellformed(#[trigger] lines[k]),
        open matches Some(o) ==> 1 <= o.start_line <= o.end_line == i,
        open matches Some(o) ==> forall|k: int|
            o.start_line <= k + 1 <= o.end_line ==> !is_blank(#[trigger] lines[k])
                && !is_comment_text(lines[k]),
    ensures
        ({
            let recs = fold_from(classify_model(lines), i, open).recs;
            &&& ranges_disjoint(recs)
            &&& forall|j: int|
                0 <= j < recs.len() ==> suffix_lo(open, i) <= (#[trigger] recs[j]).start_line
                    && recs[j].start_line <= recs[j].end_line && recs[j].end_line <= lines.len()
            &&& (open matches Some(o) ==> recs.len() >= 1 && recs[0].start_line == o.start_line
                && recs[0].end_line >= o.end_line)
            &&& forall|k: int|
                i <= k < lines.len() && !is_blank(#[trigger] lines[k]) && !is_comment_text(
                    lines[k],
                ) ==> exists|j: int| 0 <= j < recs.len() && covers(#[trigger] recs[j], k + 1)
            &&& forall|j: int, k: int|
                #![trigger recs[j], lines[k]]
                0 <= j < recs.len() && recs[j].kind == RecordKind::Data && 0 <= k < lines.len()
                    && covers(recs[j], k + 1) ==> !is_comment_text(lines[k]) && !is_blank(
                    lines[k],
                )
            &&& forall|j: int|
                0 <= j < recs.len() && (#[trigger] recs[j]).kind == RecordKind::Comment
                    ==> recs[j].start_line == recs[j].end_line && 1 <= recs[j].start_line
                    <= lines.len() && is_comment_text(lines[recs[j].start_line - 1])
                    && recs[j].content == lines[recs[j].start_line - 1]
        }),
    decreases lines.len() - i,
{
    let items = classify_model(lines);
    let out = fold_from(items, i, open);
    if i == lines.len() {
        match open {
            None => {
                assert(out.recs =~= Seq::<RecordModel>::empty());
            },
            Some(o) => {
                assert(out.recs == seq![
                    RecordModel {
                        kind: RecordKind::Data,
                        content: o.content,
                        start_line: o.start_line,
                        end_line: o.end_line,
                    },
                ]);
            },
        }
    } else {
        let text = lines[i];
        let prev: Option<Seq<u8>> = if i == 0 {
            None
        } else {
            Some(lines[i - 1])
        };
        assert(items[i] == item_of(text, prev, (i + 1) as nat));
        assert(is_wellformed(text));
        let item = items[i];
        let step = fold_step(open, item);
        let class = class_of(text, prev);
        match class {
            LineClass::Terminator => {
                assert(is_blank(text));
                lemma_fold_suffix(lines, i + 1, step.open);
                let rest = fold_from(items, i + 1, step.open);
                assert(step.recs == close_rec(open));
                lemma_suffix_combine(lines, i, open, step.recs, rest.recs, i + 2);
            },
            LineClass::Comment => {
                assert(is_comment_text(text) && !is_blank(text));
                lemma_fold_suffix(lines, i + 1, step.open);
                let rest = fold_from(items, i + 1, step.open);
                let crec = RecordModel {
                    kind: RecordKind::Comment,
                    content: payload_of(text, class),
                    start_line: (i + 1) as nat,
                    end_line: (i + 1) as nat,
                };
                assert(step.recs == close_rec(open) + seq![crec]);
                match open {
                    None => {
                        assert(step.recs =~= seq![crec]);
                    },
                    Some(o) => {
                        assert(step.recs.len() == 2);
                        assert(step.recs[0].end_line == o.end_line);
                        assert(step.recs[1] == crec);
                    },
                }
                lemma_suffix_combine(lines, i, open, step.recs, rest.recs, i + 2);
            },
            LineClass::RecordStart => {
                assert(!is_blank(text) && !is_comment_text(text));
                assert(step.open matches Some(o2) && o2.start_line == i + 1 && o2.end_line == i
                    + 1);
                lemma_fold_suffix(lines, i + 1, step.open);
                let rest = fold_from(items, i + 1, step.open);
                assert(step.recs == close_rec(open));
                assert(rest.recs.len() >= 1 && covers(rest.recs[0], i + 1));
                lemma_suffix_combine(lines, i, open, step.recs, rest.recs, i + 1);
            },
            LineClass::ExplicitContinuation | LineClass::IndentedContinuation => {
                assert(!is_blank(text) && !is_comment_text(text));
                match open {
                    Some(o) => {
                        assert(step.open matches Some(o2) && o2.start_line == o.start_line
                            && o2.end_line == i + 1);
                        assert(step.open matches Some(o2) ==> forall|k: int|
                            o2.start_line <= k + 1 <= o2.end_line ==> !is_blank(
                                #[trigger] lines[k],
                            ) && !is_comment_text(lines[k]));
                        lemma_fold_suffix(lines, i + 1, step.open);
                        let rest = fold_from(items, i + 1, step.open);
                        assert(step.recs == Seq::<RecordModel>::empty());
                        assert(rest.recs.len() >= 1 && covers(rest.recs[0], i + 1));
                        lemma_suffix_combine(
                            lines,
                            i,
                            open,
                            step.recs,
                            rest.recs,
                            o.start_line as int,
                        );
                    },
                    None => {
                        assert(step.open matches Some(o2) && o2.start_line == i + 1 && o2.end_line
                            == i + 1);
                        lemma_fold_suffix(lines, i + 1, step.open);
                        let rest = fold_from(items, i + 1, step.open);
                        assert(step.recs == Seq::<RecordModel>::empty());
                        assert(rest.recs.len() >= 1 && covers(rest.recs[0], i + 1));
                        lemma_suffix_combine(lines, i, open, step.recs, rest.recs, i + 1);
                    },
                }
            },
        }
        let rest = fold_from(items, i + 1, step.open);
        assert(out.recs == step.recs + rest.recs);
    }
}

/// Law: coverage completeness. In a well-formed input, every non-blank,
/// non-comment physical line lies in the line range of exactly one
/// emitted logical record; the ranges of distinct records never overlap.
pub proof fn lemma_coverage_complete(input: Seq<u8>)
    requires
        forall|k: int|
            0 <= k < split_lines(input).len() ==> is_wellformed(#[trigger] split_lines(input)[k]),
    ensures
        ({
            let lines = split_lines(input);
            let recs = parse_model(input).recs;
            &&& ranges_disjoint(recs)
            &&& forall|k: int|
                0 <= k < lines.len() && !is_blank(#[trigger] lines[k]) && !is_comment_text(
                    lines[k],
                ) ==> exists|j: int| 0 <= j < recs.len() && covers(#[trigger] recs[j], k + 1)
            &&& forall|k: int, j1: int, j2: int|
                #![trigger covers(recs[j1], k + 1), covers(recs[j2], k + 1)]
                0 <= k < lines.len() && 0 <= j1 < recs.len() && 0 <= j2 < recs.len() && covers(
                    recs[j1],
                    k + 1,
                ) && covers(recs[j2], k + 1) ==> j1 == j2
        }),
{
    let lines = split_lines(input);
    lemma_fold_suffix(lines, 0, None);
    let recs = parse_model(input).recs;
    assert forall|k: int, j1: int, j2: int|
        #![trigger covers(recs[j1], k + 1), covers(recs[j2], k + 1)]
        0 <= k < lines.len() && 0 <= j1 < recs.len() && 0 <= j2 < recs.len() && covers(
            recs[j1],
            k + 1,
        ) && covers(recs[j2], k + 1) implies j1 == j2 by {
        if j1 < j2 {
            assert(recs[j1].end_line < recs[j2].start_line);
        }
        if j2 < j1 {
            assert(recs[j2].end_line < recs[j1].start_line);
        }
    };
}

/// Trailing trimming keeps no newline that was not already there.
proof fn lemma_trim_trailing_no_newline(s: Seq<u8>)
    requires
        no_newline(s),
    ensures
        no_newline(trim_trailing(s)),
{
    lemma_trim_trailing_prefix(s);
}

/// Leading trimming keeps no newline that was not already there.
proof fn lemma_trim_leading_no_newline(s: Seq<u8>)
    requires
        no_newline(s),
    ensures
        no_newline(trim_leading(s)),
    decreases s.len(),
{
    if s.len() > 0 && is_ws(s[0]) {
        assert(forall|j: int| 0 <= j < s.skip(1).len() ==> s.skip(1)[j] == s[j + 1]);
        lemma_trim_leading_no_newline(s.skip(1));
    }
}

/// The text an explicit continuation strips its ampersand from.
spec fn strip_amp_arg(c: Seq<u8>) -> Seq<u8> {
    if ends_with_amp(c) {
        c.drop_last()
    } else {
        c
    }
}

/// The content the fold accumulates from newline-free lines stays
/// newline-free: payloads are pieces of lines, trimming only shortens,
/// and joining inserts a single space.
proof fn lemma_fold_content_suffix(lines: Seq<Seq<u8>>, i: int, open: Option<OpenModel>)
    requires
        0 <= i <= lines.len(),
        forall|k: int| 0 <= k < lines.len() ==> no_newline(#[trigger] lines[k]),
        open matches Some(o) ==> no_newline(o.content),
    ensures
        forall|j: int|
            0 <= j < fold_from(classify_model(lines), i, open).recs.len() ==> no_newline(
                (#[trigger] fold_from(classify_model(lines), i, open).recs[j]).content,
            ),
    decreases lines.len() - i,
{
    let items = classify_model(lines);
    let out = fold_from(items, i, open);
    if i == lines.len() {
    } else {
        let text = lines[i];
        let prev: Option<Seq<u8>> = if i == 0 {
            None
        } else {
            Some(lines[i - 1])
        };
        assert(items[i] == item_of(text, prev, (i + 1) as nat));
        let item = items[i];
        let step = fold_step(open, item);
        match item {
            ItemModel::Malformed { .. } => {},
            ItemModel::Line { class, payload, line } => {
                assert(no_newline(payload)) by {
                    match class {
                        LineClass::IndentedContinuation => {
                            assert(leading_spaces(text) >= 5);
                            crate::text::lemma_leading_spaces_le(text);
                            assert(text.len() >= 5);
                            assert(forall|j: int|
                                0 <= j < text.skip(5).len() ==> text.skip(5)[j] == text[j + 5]);
                        },
                        _ => {},
                    }
                }
                lemma_trim_trailing_no_newline(payload);
                lemma_trim_leading_no_newline(trim_trailing(payload));
                match open {
                    Some(o) => {
                        assert(no_newline(strip_amp_arg(o.content))) by {
                            if ends_with_amp(o.content) {
                                assert(forall|j: int|
                                    0 <= j < o.content.drop_last().len() ==> o.content.drop_last()[j]
                                        == o.content[j]);
                            }
                        }
                        lemma_trim_trailing_no_newline(strip_amp_arg(o.content));
                        assert(strip_amp(o.content) == trim_trailing(strip_amp_arg(o.content))
                            || strip_amp(o.content) == o.content);
                        assert(step.open matches Some(o2) ==> no_newline(o2.content)) by {
                            match step.open {
                                Some(o2) => {
                                    assert(no_newline(o2.content));
                                },
                                None => {},
                            }
                        }
                    },
                    None => {},
                }
                assert(step.open matches Some(o2) ==> no_newline(o2.content));
                assert(forall|j: int|
                    0 <= j < step.recs.len() ==> no_newline((#[trigger] step.recs[j]).content));
            },
        }
        lemma_fold_content_suffix(lines, i + 1, step.open);
        let rest = fold_from(items, i + 1, step.open);
        assert(out.recs == step.recs + rest.recs);
        assert forall|j: int| 0 <= j < out.recs.len() implies no_newline(
            (#[trigger] out.recs[j]).content,
        ) by {
            if j < step.recs.len() {
                assert(out.recs[j] == step.recs[j]);
            } else {
                assert(out.recs[j] == rest.recs[j - step.recs.len()]);
            }
        }
    }
}

/// Law: the folding consumes every continuation marker. Whatever the
/// input, no emitted record's content holds a newline byte — so in
/// particular the literal ampersand-linebreak pair never survives into
/// a record's content.
pub proof fn lemma_content_holds_no_newline(input: Seq<u8>)
    ensures
        forall|j: int|
            0 <= j < parse_model(input).recs.len() ==> no_newline(
                (#[trigger] parse_model(input).recs[j]).content,
            ),
{
    crate::lines::lemma_split_lines_no_newline(input);
    lemma_fold_content_suffix(split_lines(input), 0, None);
}

/// Law: comment lines never merge into data records. In a well-formed
/// input, no data record's line range takes in a comment line (nor a
/// blank one), whatever the comment's indentation or surroundings; and
/// every comment record stands on a single comment line, carrying that
/// line verbatim.
pub proof fn lemma_comments_never_merged(input: Seq<u8>)
    requires
        forall|k: int|
            0 <= k < split_lines(input).len() ==> is_wellformed(#[trigger] split_lines(input)[k]),
    ensures
        ({
            let lines = split_lines(input);
            let recs = parse_model(input).recs;
            &&& forall|j: int, k: int|
                #![trigger recs[j], lines[k]]
                0 <= j < recs.len() && recs[j].kind == RecordKind::Data && 0 <= k < lines.len()
                    && covers(recs[j], k + 1) ==> !is_comment_text(lines[k]) && !is_blank(
                    lines[k],
                )
            &&& forall|j: int|
                0 <= j < recs.len() && (#[trigger] recs[j]).kind == RecordKind::Comment
                    ==> recs[j].start_line == recs[j].end_line && 1 <= recs[j].start_line
                    <= lines.len() && is_comment_text(lines[recs[j].start_line - 1])
                    && recs[j].content == lines[recs[j].start_line - 1]
        }),
{
    lemma_fold_suffix(split_lines(input), 0, None);
}

/// A comment line is never blank: its marker is not whitespace.
proof fn lemma_comment_not_blank(s: Seq<u8>)
    requires
        is_comment_text(s),
    ensures
        !is_blank(s),
{
    lemma_trim_trailing_prefix(s);
    assert(trim_trailing(s)[0] == s[0]);
    assert(!is_ws(s[0]));
}

/// Law: a blank line belongs to no record. Terminators only close
/// records; no emitted record's line range ever takes one in.
pub proof fn lemma_blank_lines_in_no_record(input: Seq<u8>)
    requires
        forall|k: int|
            0 <= k < split_lines(input).len() ==> is_wellformed(#[trigger] split_lines(input)[k]),
    ensures
        ({
            let lines = split_lines(input);
            let recs = parse_model(input).recs;
            forall|j: int, k: int|
                #![trigger recs[j], lines[k]]
                0 <= j < recs.len() && 0 <= k < lines.len() && is_blank(lines[k]) ==> !covers(
                    recs[j],
                    k + 1,
                )
        }),
{
    lemma_fold_suffix(split_lines(input), 0, None);
    let lines = split_lines(input);
    let recs = parse_model(input).recs;
    assert forall|j: int, k: int|
        #![trigger recs[j], lines[k]]
        0 <= j < recs.len() && 0 <= k < lines.len() && is_blank(lines[k]) implies !covers(
        recs[j],
        k + 1,
    ) by {
        if covers(recs[j], k + 1) {
            match recs[j].kind {
                RecordKind::Data => {},
                RecordKind::Comment => {
                    assert(recs[j].start_line == k + 1);
                    lemma_comment_not_blank(lines[k]);
                },
            }
        }
    };
}

} // verus!
