use rlox::text_index::{Position, PositionMapping, Range, TextIndex};
use rlox::{RevisionId, SourceDocument, SourceId, SourceSpan, TextPosition};

fn at(line: u32, character: u32) -> Position {
    Position { line, character }
}

fn range(start: Position, end: Position) -> Range {
    Range { start, end }
}

const SOURCE_ID: SourceId = SourceId(41);
const REVISION: RevisionId = RevisionId(9);

fn indexed(raw: &str) -> (SourceDocument, TextIndex) {
    let source = SourceDocument::new(SOURCE_ID, REVISION, "index.lox", raw);
    let index = TextIndex::new(raw, &source);
    (source, index)
}

#[test]
fn raw_positions_handle_bom_crlf_lone_cr_trailing_lines_and_utf16_edges() {
    let (source, index) = indexed("\u{feff}name\r\n😀x\ry\n");
    assert_eq!(
        index.raw_to_canonical(at(0, 0)),
        Some(PositionMapping::OutsideCompilerText)
    );
    assert_eq!(
        index.raw_to_canonical(at(0, 1)),
        Some(PositionMapping::Offset(0))
    );
    assert_eq!(
        index.raw_to_canonical(at(0, u32::MAX)),
        Some(PositionMapping::Offset(4))
    );
    assert_eq!(
        index.raw_to_canonical(at(1, 0)),
        Some(PositionMapping::Offset(5))
    );
    assert_eq!(index.raw_to_canonical(at(1, 1)), None);
    assert_eq!(
        index.raw_to_canonical(at(1, 2)),
        Some(PositionMapping::Offset(9))
    );
    assert_eq!(
        index.raw_to_canonical(at(1, 3)),
        Some(PositionMapping::Offset(10))
    );
    assert_eq!(
        index.raw_to_canonical(at(3, 0)),
        Some(PositionMapping::Offset(source.text.len()))
    );
    assert_eq!(index.raw_to_canonical(at(4, 0)), None);
}

#[test]
fn canonical_spans_validate_identity_coordinates_boundaries_and_order() {
    let (_, index) = indexed("\u{feff}name\r\nnext");
    let valid = SourceSpan {
        source_id: SOURCE_ID,
        revision: REVISION,
        start: TextPosition {
            byte_offset: 0,
            line: 1,
            column: 1,
        },
        end: TextPosition {
            byte_offset: 4,
            line: 1,
            column: 5,
        },
    };
    assert_eq!(
        index.span_to_range(valid),
        Some(range(
            at(0, 1),
            at(0, 5)
        ))
    );

    let mut invalid = valid;
    invalid.source_id = SourceId(42);
    assert_eq!(index.span_to_range(invalid), None);
    invalid = valid;
    invalid.revision = RevisionId(10);
    assert_eq!(index.span_to_range(invalid), None);
    invalid = valid;
    invalid.start.line = 2;
    assert_eq!(index.span_to_range(invalid), None);
    invalid = valid;
    invalid.start.byte_offset = 2;
    invalid.start.column = 3;
    invalid.end.byte_offset = 1;
    assert_eq!(index.span_to_range(invalid), None);
}

#[test]
fn multiline_segments_exclude_every_raw_line_break_sequence() {
    let (source, index) = indexed("\"a😀\r\nb\r\"\n");
    let span = SourceSpan {
        source_id: SOURCE_ID,
        revision: REVISION,
        start: TextPosition {
            byte_offset: 0,
            line: 1,
            column: 1,
        },
        end: TextPosition {
            byte_offset: source.text.len() - 1,
            line: 3,
            column: 2,
        },
    };
    assert_eq!(
        index.span_segments(span),
        Some(vec![(0, 0, 4), (1, 0, 1), (2, 0, 1)])
    );

    let mut wrong_revision = span;
    wrong_revision.revision = RevisionId(99);
    assert_eq!(index.span_segments(wrong_revision), None);

    let mut inconsistent_coordinates = span;
    inconsistent_coordinates.end.line = 2;
    assert_eq!(index.span_segments(inconsistent_coordinates), None);
}
