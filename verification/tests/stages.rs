use monteparser::assemble::fold;
use monteparser::classify::ClassifiedItem;
use monteparser::classify::LineClass;
use monteparser::classify::classify;
use monteparser::classify::classify_lines;
use monteparser::lines::PhysicalLine;
use monteparser::lines::split_physical_lines;

fn line(text: &[u8], line_number: usize, byte_offset: usize) -> PhysicalLine {
    PhysicalLine { text: text.to_vec(), line_number, byte_offset }
}

fn class_of_item(item: &ClassifiedItem) -> LineClass {
    match item {
        ClassifiedItem::Line(l) => l.class,
        ClassifiedItem::Malformed { .. } => panic!("line was reported malformed"),
    }
}

#[test]
fn split_tracks_numbers_and_offsets() {
    let lines = split_physical_lines(b"ab\ncd\n\nef");
    assert_eq!(lines.len(), 4);
    assert_eq!(lines[0].text, b"ab".to_vec());
    assert_eq!(lines[0].line_number, 1);
    assert_eq!(lines[0].byte_offset, 0);
    assert_eq!(lines[1].text, b"cd".to_vec());
    assert_eq!(lines[1].line_number, 2);
    assert_eq!(lines[1].byte_offset, 3);
    assert_eq!(lines[2].text, b"".to_vec());
    assert_eq!(lines[2].byte_offset, 6);
    assert_eq!(lines[3].text, b"ef".to_vec());
    assert_eq!(lines[3].line_number, 4);
    assert_eq!(lines[3].byte_offset, 7);
}

#[test]
fn split_drops_no_final_empty_line_after_trailing_newline() {
    assert_eq!(split_physical_lines(b"a\n").len(), 1);
    assert_eq!(split_physical_lines(b"a").len(), 1);
    assert_eq!(split_physical_lines(b"a\n\n").len(), 2);
    assert_eq!(split_physical_lines(b"").len(), 0);
}

#[test]
fn classifier_priorities() {
    let prev_data = line(b"1 0", 1, 0);
    let prev_amp = line(b"1 0 &", 1, 0);
    let prev_comment = line(b"c note", 1, 0);
    let prev_blank = line(b"   ", 1, 0);

    // A blank line is a terminator even when indented five spaces or
    // after an ampersand.
    assert_eq!(class_of_item(&classify(&line(b"     ", 2, 6), Some(&prev_amp))), LineClass::Terminator);
    // The comment rule outranks the ampersand rule.
    assert_eq!(class_of_item(&classify(&line(b"c x", 2, 6), Some(&prev_amp))), LineClass::Comment);
    // The ampersand rule outranks indentation.
    assert_eq!(
        class_of_item(&classify(&line(b"     x", 2, 6), Some(&prev_amp))),
        LineClass::ExplicitContinuation
    );
    // Indentation continues only after a data line.
    assert_eq!(
        class_of_item(&classify(&line(b"     x", 2, 4), Some(&prev_data))),
        LineClass::IndentedContinuation
    );
    assert_eq!(
        class_of_item(&classify(&line(b"     x", 2, 7), Some(&prev_comment))),
        LineClass::RecordStart
    );
    assert_eq!(
        class_of_item(&classify(&line(b"     x", 2, 4), Some(&prev_blank))),
        LineClass::RecordStart
    );
    // Four spaces are not a continuation marker.
    assert_eq!(
        class_of_item(&classify(&line(b"    x", 2, 4), Some(&prev_data))),
        LineClass::RecordStart
    );
}

#[test]
fn classifier_payload_strips_exactly_five_spaces() {
    let prev = line(b"1 0", 1, 0);
    let item = classify(&line(b"       x", 2, 4), Some(&prev));
    match item {
        ClassifiedItem::Line(l) => {
            assert_eq!(l.class, LineClass::IndentedContinuation);
            assert_eq!(l.payload, b"  x".to_vec());
        },
        ClassifiedItem::Malformed { .. } => panic!("unexpected malformed report"),
    }
}

#[test]
fn classifier_reports_non_ascii_as_malformed() {
    let item = classify(&line(b"caf\xc3\xa9", 3, 10), None);
    match item {
        ClassifiedItem::Line(_) => panic!("expected a malformed report"),
        ClassifiedItem::Malformed { line_number } => assert_eq!(line_number, 3),
    }
}

#[test]
fn stages_compose_like_parse() {
    let input = b"1 0 2 &\n-5 6 \n     imp:n=1 \n";
    let lines = split_physical_lines(input);
    let items = classify_lines(&lines);
    let out = fold(items.as_slice());
    assert_eq!(out.records.len(), 1);
    assert_eq!(out.records[0].content, b"1 0 2 -5 6 imp:n=1".to_vec());

    let direct = monteparser::parse(input);
    assert_eq!(direct.records.len(), 1);
    assert_eq!(direct.records[0].content, out.records[0].content);
}
