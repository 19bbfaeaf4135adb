use monteparser::assemble::DiagnosticKind;
use monteparser::assemble::RecordKind;
use monteparser::parse;

#[test]
fn folds_ampersand_and_indent_into_one_record() {
    let out = parse(b"1 0 2 &\n-5 6 \n     imp:n=1 \n");
    assert_eq!(out.records.len(), 1);
    let r = &out.records[0];
    assert_eq!(r.kind, RecordKind::Data);
    assert_eq!(r.content, b"1 0 2 -5 6 imp:n=1".to_vec());
    assert_eq!(r.start_line, 1);
    assert_eq!(r.end_line, 3);
    assert_eq!(out.diagnostics.len(), 0);
}

#[test]
fn comment_then_data_gives_two_records() {
    let out = parse(b"c this is a comment\n1 0\n");
    assert_eq!(out.records.len(), 2);
    assert_eq!(out.records[0].kind, RecordKind::Comment);
    assert_eq!(out.records[0].content, b"c this is a comment".to_vec());
    assert_eq!(out.records[0].start_line, 1);
    assert_eq!(out.records[0].end_line, 1);
    assert_eq!(out.records[1].kind, RecordKind::Data);
    assert_eq!(out.records[1].content, b"1 0".to_vec());
    assert_eq!(out.records[1].start_line, 2);
    assert_eq!(out.diagnostics.len(), 0);
}

#[test]
fn blank_line_separates_two_records() {
    let out = parse(b"1 0\n\n2 0\n");
    assert_eq!(out.records.len(), 2);
    assert_eq!(out.records[0].content, b"1 0".to_vec());
    assert_eq!(out.records[0].start_line, 1);
    assert_eq!(out.records[0].end_line, 1);
    assert_eq!(out.records[1].content, b"2 0".to_vec());
    assert_eq!(out.records[1].start_line, 3);
    assert_eq!(out.records[1].end_line, 3);
    assert_eq!(out.diagnostics.len(), 0);
}

#[test]
fn indented_first_line_is_a_dangling_continuation() {
    let out = parse(b"     imp:n=1\n");
    assert_eq!(out.diagnostics.len(), 1);
    assert_eq!(out.diagnostics[0].kind, DiagnosticKind::DanglingContinuation);
    assert_eq!(out.diagnostics[0].line_number, 1);
    assert_eq!(out.records.len(), 1);
    assert_eq!(out.records[0].kind, RecordKind::Data);
    assert_eq!(out.records[0].content, b"imp:n=1".to_vec());
}

#[test]
fn five_leading_spaces_fold_four_do_not() {
    let folded = parse(b"1 0\n     2 0\n");
    assert_eq!(folded.records.len(), 1);
    assert_eq!(folded.records[0].content, b"1 0 2 0".to_vec());
    assert_eq!(folded.records[0].end_line, 2);

    let split = parse(b"1 0\n    2 0\n");
    assert_eq!(split.records.len(), 2);
    assert_eq!(split.records[0].content, b"1 0".to_vec());
    assert_eq!(split.records[1].content, b"2 0".to_vec());
}

#[test]
fn extra_indentation_beyond_marker_is_kept() {
    let out = parse(b"1 0\n       x\n");
    assert_eq!(out.records.len(), 1);
    assert_eq!(out.records[0].content, b"1 0   x".to_vec());
}

#[test]
fn blank_line_closes_even_between_foldable_lines() {
    let out = parse(b"1 0 &\n\n     2 0\n");
    assert_eq!(out.records.len(), 2);
    assert_eq!(out.records[0].content, b"1 0 &".to_vec());
    assert_eq!(out.records[0].end_line, 1);
    assert_eq!(out.records[1].content, b"2 0".to_vec());
    assert_eq!(out.records[1].start_line, 3);
    assert_eq!(out.diagnostics.len(), 0);
}

#[test]
fn five_space_blank_line_is_still_a_terminator() {
    let out = parse(b"1 0\n     \n2 0\n");
    assert_eq!(out.records.len(), 2);
    assert_eq!(out.records[0].content, b"1 0".to_vec());
    assert_eq!(out.records[1].content, b"2 0".to_vec());
}

#[test]
fn ampersand_before_trailing_whitespace_does_not_continue() {
    let out = parse(b"1 0 & \n2 0\n");
    assert_eq!(out.records.len(), 2);
    assert_eq!(out.records[0].content, b"1 0 &".to_vec());
    assert_eq!(out.records[1].content, b"2 0".to_vec());
}

#[test]
fn comment_never_merges_into_data() {
    let out = parse(b"1 0 &\nc note\n2 0\n");
    assert_eq!(out.records.len(), 3);
    assert_eq!(out.records[0].kind, RecordKind::Data);
    assert_eq!(out.records[0].content, b"1 0 &".to_vec());
    assert_eq!(out.records[1].kind, RecordKind::Comment);
    assert_eq!(out.records[1].content, b"c note".to_vec());
    assert_eq!(out.records[2].kind, RecordKind::Data);
    assert_eq!(out.records[2].content, b"2 0".to_vec());
}

#[test]
fn folding_is_idempotent_on_folded_content() {
    let first = parse(b"1 0 2 &\n-5 6 \n     imp:n=1 \n");
    assert_eq!(first.records.len(), 1);
    let content = first.records[0].content.clone();
    let again = parse(&content);
    assert_eq!(again.records.len(), 1);
    assert_eq!(again.records[0].content, content);
    assert_eq!(again.diagnostics.len(), 0);
}

#[test]
fn tabs_do_not_count_towards_the_indent_marker() {
    let leading_tab = parse(b"1 0\n\t    x\n");
    assert_eq!(leading_tab.records.len(), 2);
    assert_eq!(leading_tab.records[1].content, b"x".to_vec());

    let tab_breaks_run = parse(b"1 0\n    \tx\n");
    assert_eq!(tab_breaks_run.records.len(), 2);
    assert_eq!(tab_breaks_run.records[1].content, b"x".to_vec());
}

#[test]
fn malformed_line_is_reported_and_skipped() {
    let out = parse(b"1 0\n\xffbad\n     2 0\n");
    assert_eq!(out.diagnostics.len(), 1);
    assert_eq!(out.diagnostics[0].kind, DiagnosticKind::MalformedLine);
    assert_eq!(out.diagnostics[0].line_number, 2);
    assert_eq!(out.records.len(), 1);
    assert_eq!(out.records[0].content, b"1 0 2 0".to_vec());
    assert_eq!(out.records[0].start_line, 1);
    assert_eq!(out.records[0].end_line, 3);
}

#[test]
fn comment_marker_needs_column_one_and_a_space() {
    let out = parse(b"c\nC x\ncx\n");
    assert_eq!(out.records.len(), 3);
    assert_eq!(out.records[0].kind, RecordKind::Comment);
    assert_eq!(out.records[0].content, b"c".to_vec());
    assert_eq!(out.records[1].kind, RecordKind::Comment);
    assert_eq!(out.records[1].content, b"C x".to_vec());
    assert_eq!(out.records[2].kind, RecordKind::Data);
    assert_eq!(out.records[2].content, b"cx".to_vec());
}

#[test]
fn record_open_at_end_of_stream_is_emitted() {
    let out = parse(b"1 0 &");
    assert_eq!(out.records.len(), 1);
    assert_eq!(out.records[0].content, b"1 0 &".to_vec());
    assert_eq!(out.records[0].start_line, 1);
    assert_eq!(out.records[0].end_line, 1);
}

#[test]
fn empty_input_yields_nothing() {
    let out = parse(b"");
    assert_eq!(out.records.len(), 0);
    assert_eq!(out.diagnostics.len(), 0);
}

#[test]
fn continuation_after_a_comment_is_dangling() {
    let out = parse(b"c x &\n1 0\n");
    assert_eq!(out.records.len(), 2);
    assert_eq!(out.records[0].kind, RecordKind::Comment);
    assert_eq!(out.records[1].kind, RecordKind::Data);
    assert_eq!(out.records[1].content, b"1 0".to_vec());
    assert_eq!(out.diagnostics.len(), 1);
    assert_eq!(out.diagnostics[0].kind, DiagnosticKind::DanglingContinuation);
    assert_eq!(out.diagnostics[0].line_number, 2);
}

#[test]
fn chained_continuations_keep_one_record() {
    let out = parse(b"a &\nb &\nx\n     d\n");
    assert_eq!(out.records.len(), 1);
    assert_eq!(out.records[0].content, b"a b x d".to_vec());
    assert_eq!(out.records[0].start_line, 1);
    assert_eq!(out.records[0].end_line, 4);
}

#[test]
fn consumed_ampersand_can_leave_leading_spaces_in_content() {
    // The one shape of folded content that does not survive a second
    // pass unchanged: when a record's first segment was nothing but the
    // consumed ampersand, the next segment's leading spaces lead the
    // content, and a re-parse trims them as a fresh record start would.
    let out = parse(b"&\n  x\n");
    assert_eq!(out.records.len(), 1);
    assert_eq!(out.records[0].content, b"  x".to_vec());
    let again = parse(&out.records[0].content);
    assert_eq!(again.records.len(), 1);
    assert_eq!(again.records[0].content, b"x".to_vec());
}

#[test]
fn ampersand_rule_outranks_indentation_and_keeps_leading_spaces() {
    let out = parse(b"a &\n     b\n");
    assert_eq!(out.records.len(), 1);
    assert_eq!(out.records[0].content, b"a      b".to_vec());
}
