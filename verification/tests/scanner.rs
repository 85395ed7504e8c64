use rlox::scanner::{Scanner, TokenType};
use rlox::{RevisionId, SourceId};

#[test]
fn compound_operators_advance_the_following_token_column() {
    let mut scanner = Scanner::new(">>> name");

    assert_eq!(
        scanner.scan_token().token_type,
        TokenType::GreaterGreaterGreater
    );
    let identifier = scanner.scan_token();

    assert_eq!(identifier.column, 5);
}

#[test]
fn comments_and_tabs_preserve_half_open_token_positions() {
    let mut scanner = Scanner::new("// note\n\tprint");
    let token = scanner.scan_token();
    let span = token.span(SourceId(4), RevisionId(2));

    assert_eq!(token.token_type, TokenType::Print);
    assert_eq!(span.start.byte_offset, 9);
    assert_eq!((span.start.line, span.start.column), (2, 2));
    assert_eq!(span.end.byte_offset, 14);
    assert_eq!((span.end.line, span.end.column), (2, 7));
}

#[test]
fn multiline_unicode_strings_use_scalar_columns_and_byte_offsets() {
    let mut scanner = Scanner::new("\"a\nβ\" next");
    let string = scanner.scan_token();
    let identifier = scanner.scan_token();

    assert_eq!(string.token_type, TokenType::String);
    assert_eq!(string.start_position.byte_offset, 0);
    assert_eq!(string.end_position.byte_offset, 6);
    assert_eq!(
        (string.end_position.line, string.end_position.column),
        (2, 3)
    );
    assert_eq!((identifier.line, identifier.column), (2, 4));
}

#[test]
fn normalized_line_endings_produce_consistent_coordinates() {
    let document = rlox::SourceDocument::new(
        SourceId(1),
        RevisionId(1),
        "lines.ox",
        "print 1;\r\nprint 2;\rprint 3;",
    );
    let mut scanner = Scanner::new(document.text.as_str());

    let mut prints = Vec::new();
    loop {
        let token = scanner.scan_token();
        if token.token_type == TokenType::Print {
            prints.push((token.line, token.column));
        }
        if token.token_type == TokenType::Eof {
            break;
        }
    }

    assert_eq!(prints, [(1, 1), (2, 1), (3, 1)]);
}

#[test]
fn malformed_unicode_scalars_retain_the_source_lexeme_and_span() {
    let mut scanner = Scanner::new("β@");
    let first = scanner.scan_token();
    let second = scanner.scan_token();

    assert_eq!(first.token_type, TokenType::Error);
    assert_eq!(first.lexeme(), "β");
    assert_eq!(
        (
            first.start_position.byte_offset,
            first.end_position.byte_offset
        ),
        (0, 2)
    );
    assert_eq!((first.column, first.end_position.column), (1, 2));
    assert_eq!(second.lexeme(), "@");
    assert_eq!(
        (
            second.start_position.byte_offset,
            second.end_position.byte_offset
        ),
        (2, 3)
    );
    assert_eq!((second.column, second.end_position.column), (2, 3));
}

#[test]
fn eof_is_a_zero_width_span_at_the_normalized_end() {
    let mut scanner = Scanner::new("print 1;\n");
    let mut eof = scanner.scan_token();
    while eof.token_type != TokenType::Eof {
        eof = scanner.scan_token();
    }

    assert_eq!(eof.start_position, eof.end_position);
    assert_eq!(eof.start_position.byte_offset, 9);
    assert_eq!((eof.line, eof.column), (2, 1));
}

#[test]
fn unterminated_strings_keep_the_nonempty_source_span() {
    let mut scanner = Scanner::new("\"β");
    let token = scanner.scan_token();

    assert_eq!(token.token_type, TokenType::Error);
    assert_eq!(token.error_message, Some("Unterminated string."));
    assert_eq!(token.lexeme(), "\"β");
    assert_eq!(
        (
            token.start_position.byte_offset,
            token.end_position.byte_offset
        ),
        (0, 3)
    );
}
