use rlox::compiler::number_lexemes;
use rlox::document_store::TextChange;
use rlox::documents::{Location, Published, PublishedDiagnostic, SemanticToken};
use rlox::server::{
    classify_handshake_error, receive_initialized, welcome, Action, ClientCapabilities,
    FirstMessage, InitializeFinish, Params, Reply, Server, ServerError, ServerMessage,
    ServerOutcome, Welcome,
};
use rlox::text_index::{Position, Range};
use rlox::{
    DiagnosticPhase, DiagnosticSeverity, RevisionId, SourceDocument, SourceId,
    MAX_ANALYSIS_DIAGNOSTICS, MAX_ANALYSIS_LEXICAL_ITEMS, MAX_ANALYSIS_NESTING_DEPTH,
    MAX_ANALYSIS_SOURCE_BYTES,
};

fn at(line: u32, character: u32) -> Position {
    Position { line, character }
}

fn range(start: Position, end: Position) -> Range {
    Range { start, end }
}

fn uri(name: &str) -> String {
    format!("file:///workspace/{name}")
}

fn numbers(text: &str) -> Vec<u64> {
    let document = SourceDocument::new(SourceId(0), RevisionId(0), "", text);
    number_lexemes(&document)
        .iter()
        .map(|lexeme| lexeme.parse::<f64>().unwrap().to_bits())
        .collect()
}

fn start(diagnostic_data_support: Option<bool>) -> Server {
    let client = ClientCapabilities {
        position_encodings: None,
        diagnostic_data_support,
    };
    let Welcome::Accept {
        diagnostic_data_support,
    } = welcome(Ok(client))
    else {
        panic!("expected successful initialize response");
    };
    let first = FirstMessage::Notification {
        method: "initialized".to_string(),
    };
    assert_eq!(receive_initialized(&first), InitializeFinish::Initialized);
    Server::new(diagnostic_data_support)
}

fn notify(server: &mut Server, method: &str, params: Params) -> Action {
    server.receive(&ServerMessage::Notification {
        method: method.to_string(),
        params,
    })
}

fn request(server: &mut Server, method: &str, params: Params) -> Reply {
    match server.receive(&ServerMessage::Request {
        method: method.to_string(),
        params,
    }) {
        Action::Respond(reply) => reply,
        other => panic!("expected response, got {other:?}"),
    }
}

fn error_code(reply: Reply) -> i32 {
    match reply {
        Reply::Error { code, .. } => code,
        other => panic!("expected an error, got {other:?}"),
    }
}

fn published(action: Action) -> Published {
    match action {
        Action::Publish(published) => published,
        other => panic!("expected diagnostics, got {other:?}"),
    }
}

fn open_uri(server: &mut Server, uri: &str, version: i32, text: &str) -> Action {
    notify(
        server,
        "textDocument/didOpen",
        Params::Open {
            uri: uri.to_string(),
            version,
            text: text.to_string(),
            numbers: numbers(text),
        },
    )
}

fn open(server: &mut Server, name: &str, version: i32, text: &str) -> Action {
    open_uri(server, &uri(name), version, text)
}

fn change_uri(server: &mut Server, uri: &str, version: i32, changes: Vec<TextChange>) -> Action {
    let numbers = numbers(&changes[0].text);
    notify(
        server,
        "textDocument/didChange",
        Params::Change {
            uri: uri.to_string(),
            version,
            changes,
            numbers,
        },
    )
}

fn change(server: &mut Server, name: &str, version: i32, changes: Vec<TextChange>) -> Action {
    change_uri(server, &uri(name), version, changes)
}

fn close_uri(server: &mut Server, uri: &str) -> Action {
    notify(
        server,
        "textDocument/didClose",
        Params::Close {
            uri: uri.to_string(),
        },
    )
}

fn close(server: &mut Server, name: &str) -> Action {
    close_uri(server, &uri(name))
}

fn full(text: &str) -> TextChange {
    TextChange {
        ranged: false,
        text: text.to_string(),
    }
}

fn has_code(diagnostic: &PublishedDiagnostic, expected: &str) -> bool {
    diagnostic.code == expected
}

fn semantic_tokens(server: &mut Server, name: &str) -> Vec<SemanticToken> {
    match request(
        server,
        "textDocument/semanticTokens/full",
        Params::Tokens { uri: uri(name) },
    ) {
        Reply::Tokens(tokens) => tokens,
        other => panic!("expected full semantic tokens, got {other:?}"),
    }
}

fn definition(server: &mut Server, name: &str, position: Position) -> Vec<Location> {
    match request(
        server,
        "textDocument/definition",
        Params::Definition {
            uri: uri(name),
            position,
        },
    ) {
        Reply::Locations(locations) => locations,
        other => panic!("definition must always return an array, got {other:?}"),
    }
}

fn shutdown(mut server: Server) -> ServerOutcome {
    assert_eq!(
        request(&mut server, "shutdown", Params::Nothing),
        Reply::Null
    );
    match notify(&mut server, "exit", Params::Nothing) {
        Action::Stop(outcome) => outcome,
        other => panic!("expected the end, got {other:?}"),
    }
}

fn token(delta_line: u32, delta_start: u32, length: u32, token_type: u32) -> SemanticToken {
    SemanticToken {
        delta_line,
        delta_start,
        length,
        token_type,
    }
}

fn position_of(source: &str, needle: &str, occurrence: usize) -> Position {
    let mut start = 0usize;
    let mut byte = 0usize;
    for _ in 0..=occurrence {
        let relative = source[start..].find(needle).unwrap();
        byte = start + relative;
        start = byte + needle.len();
    }
    position_at(source, byte)
}

fn position_at(source: &str, target_byte: usize) -> Position {
    let mut byte = 0usize;
    let mut line = 0u32;
    let mut character = 0u32;
    while byte < target_byte {
        let remaining = &source[byte..target_byte];
        if remaining.starts_with("\r\n") {
            byte += 2;
            line += 1;
            character = 0;
        } else if remaining.starts_with('\r') || remaining.starts_with('\n') {
            byte += 1;
            line += 1;
            character = 0;
        } else {
            let scalar = remaining.chars().next().unwrap();
            byte += scalar.len_utf8();
            character += u32::try_from(scalar.len_utf16()).unwrap();
        }
    }
    at(line, character)
}

fn target_range(source: &str, needle: &str, occurrence: usize) -> Range {
    let start = position_of(source, needle, occurrence);
    let length = needle.encode_utf16().count() as u32;
    range(start, at(start.line, start.character + length))
}

#[test]
fn full_sync_is_versioned_and_rejected_events_leave_state_untouched() {
    let mut server = start(None);
    let opened = published(open(&mut server, "sync.lox", 4, "var = 1;"));
    assert_eq!(opened.uri, uri("sync.lox"));
    assert_eq!(opened.version, 4);
    assert!(has_code(&opened.diagnostics[0], "parser.error"));

    let rejected = [
        open(&mut server, "sync.lox", 99, "var duplicate = 1;"),
        change(&mut server, "sync.lox", 4, vec![full("var stale = 1;")]),
        change(
            &mut server,
            "sync.lox",
            5,
            vec![TextChange {
                ranged: true,
                text: "v".to_string(),
            }],
        ),
        change(
            &mut server,
            "sync.lox",
            6,
            vec![full("var one = 1;"), full("var two = 2;")],
        ),
        change(&mut server, "missing.lox", 1, vec![full("var missing = 1;")]),
        close(&mut server, "missing.lox"),
    ];
    for action in rejected {
        assert_eq!(action, Action::Nothing);
    }

    let changed = published(change(
        &mut server,
        "sync.lox",
        5,
        vec![full("var ready = 1;")],
    ));
    assert_eq!(changed.version, 5);
    assert!(changed.diagnostics.is_empty());
    assert_eq!(
        change(&mut server, "sync.lox", 5, vec![full("return;")]),
        Action::Nothing
    );

    let changed = published(change(&mut server, "sync.lox", 6, vec![full("return;")]));
    assert_eq!(changed.version, 6);
    assert!(has_code(&changed.diagnostics[0], "compiler.error"));

    let cleared = published(close(&mut server, "sync.lox"));
    assert_eq!(cleared.version, 6);
    assert!(cleared.diagnostics.is_empty());

    assert!(
        published(open(&mut server, "sync.lox", 1, "var reopened = 1;"))
            .diagnostics
            .is_empty()
    );
    assert_eq!(shutdown(server), ServerOutcome::CleanExit);
}

#[test]
fn open_document_count_is_bounded_and_capacity_recovers_after_close() {
    let mut server = start(None);
    for index in 0..32 {
        assert!(
            published(open(&mut server, &format!("{index}.lox"), 1, "var value = 1;"))
                .diagnostics
                .is_empty()
        );
    }
    assert_eq!(
        open(&mut server, "overflow.lox", 1, "var overflow = 1;"),
        Action::Nothing
    );

    assert!(published(close(&mut server, "0.lox")).diagnostics.is_empty());
    assert!(
        published(open(&mut server, "overflow.lox", 1, "var overflow = 1;"))
            .diagnostics
            .is_empty()
    );
    assert_eq!(shutdown(server), ServerOutcome::CleanExit);
}

#[test]
fn oversized_uris_are_ignored_across_document_and_request_operations() {
    let mut server = start(None);
    let oversized_uri = format!("untitled:{}", "x".repeat(4 * 1024));
    assert!(oversized_uri.len() > 4 * 1024);

    assert_eq!(
        open_uri(&mut server, &oversized_uri, 1, "var ignored = 1;"),
        Action::Nothing
    );
    assert_eq!(
        change_uri(&mut server, &oversized_uri, 2, vec![full("var ignored = 2;")]),
        Action::Nothing
    );
    assert_eq!(close_uri(&mut server, &oversized_uri), Action::Nothing);

    let tokens = request(
        &mut server,
        "textDocument/semanticTokens/full",
        Params::Tokens { uri: oversized_uri },
    );
    assert_eq!(tokens, Reply::Tokens(Vec::new()));
    let definition = request(
        &mut server,
        "textDocument/definition",
        Params::Definition {
            uri: format!("untitled:{}", "y".repeat(4 * 1024)),
            position: at(0, 0),
        },
    );
    assert_eq!(definition, Reply::Locations(Vec::new()));

    assert!(
        published(open_uri(
            &mut server,
            "untitled:oxide-buffer",
            1,
            "var synthetic = 1;"
        ))
        .diagnostics
        .is_empty()
    );
    assert!(
        published(open(&mut server, "bounded-file.lox", 1, "var file = 1;"))
            .diagnostics
            .is_empty()
    );
    assert_eq!(shutdown(server), ServerOutcome::CleanExit);
}

#[test]
fn diagnostics_preserve_phase_severity_code_version_and_raw_utf16_ranges() {
    let mut server = start(Some(true));
    let cases = [
        (
            "scanner.lox",
            "\u{feff}\"😀\" @\r\n",
            DiagnosticPhase::Scanner,
            "scanner.error",
            range(at(0, 6), at(0, 7)),
        ),
        (
            "parser.lox",
            "\u{feff}//😀\r\nvar = 1;",
            DiagnosticPhase::Parser,
            "parser.error",
            range(at(1, 4), at(1, 5)),
        ),
        (
            "compiler.lox",
            "//😀\rreturn;",
            DiagnosticPhase::Compiler,
            "compiler.error",
            range(at(1, 0), at(1, 6)),
        ),
    ];
    for (name, text, phase, code, range) in cases {
        let published = published(open(&mut server, name, 17, text));
        let diagnostic = published
            .diagnostics
            .iter()
            .find(|diagnostic| has_code(diagnostic, code))
            .unwrap_or_else(|| panic!("missing {code}: {:#?}", published.diagnostics));
        assert_eq!(published.version, 17);
        assert_eq!(diagnostic.range, range);
        assert_eq!(diagnostic.severity, DiagnosticSeverity::Error);
        assert_eq!(diagnostic.phase, Some(phase));
    }
    assert_eq!(shutdown(server), ServerOutcome::CleanExit);

    let mut without_data = start(Some(false));
    assert!(
        published(open(&mut without_data, "plain.lox", 1, "var = 1;"))
            .diagnostics
            .iter()
            .all(|diagnostic| diagnostic.phase.is_none())
    );
    assert_eq!(shutdown(without_data), ServerOutcome::CleanExit);
}

#[test]
fn semantic_tokens_use_stable_utf16_deltas_and_omit_punctuation() {
    let mut server = start(None);
    let source = "\u{feff}var greeting = \"😀\";\r\n// note\rprint greeting + 42;";
    published(open(&mut server, "tokens.lox", 1, source));
    let tokens = semantic_tokens(&mut server, "tokens.lox");
    assert_eq!(
        tokens,
        vec![
            token(0, 1, 3, 0),
            token(0, 4, 8, 4),
            token(0, 9, 1, 5),
            token(0, 2, 4, 2),
            token(1, 0, 7, 1),
            token(1, 0, 5, 0),
            token(0, 6, 8, 4),
            token(0, 9, 1, 5),
            token(0, 2, 2, 3),
        ]
    );
    assert_eq!(shutdown(server), ServerOutcome::CleanExit);
}

#[test]
fn multiline_strings_split_at_mixed_line_endings_and_invalid_programs_keep_lexical_tokens() {
    let mut server = start(None);
    published(open(
        &mut server,
        "multiline.lox",
        1,
        "\"a😀\r\nb\r\";",
    ));
    assert_eq!(
        semantic_tokens(&mut server, "multiline.lox"),
        vec![
            token(0, 0, 4, 2),
            token(1, 0, 1, 2),
            token(1, 0, 1, 2),
        ]
    );

    published(change(&mut server, "multiline.lox", 2, vec![full("var = 1;")]));
    assert_eq!(
        semantic_tokens(&mut server, "multiline.lox"),
        vec![
            token(0, 0, 3, 0),
            token(0, 4, 1, 5),
            token(0, 2, 1, 3),
        ]
    );

    published(change(&mut server, "multiline.lox", 3, vec![full("return;")]));
    assert_eq!(
        semantic_tokens(&mut server, "multiline.lox"),
        vec![token(0, 0, 6, 0)]
    );

    published(change(&mut server, "multiline.lox", 4, vec![full("@ var good = 1;\n")]));
    let invalid_scanner_tokens = semantic_tokens(&mut server, "multiline.lox");
    assert_eq!(invalid_scanner_tokens[0].delta_start, 2);
    assert!(invalid_scanner_tokens.iter().all(|token| token.length != 0));
    assert_eq!(shutdown(server), ServerOutcome::CleanExit);
}

#[test]
fn shadowed_locals_resolve_to_the_declaration_visible_at_each_use() {
    let mut server = start(None);
    let source = "var item = 0; { print item; var item = 1; print item; }";
    published(open(&mut server, "shadow.lox", 1, source));
    let outer = definition(&mut server, "shadow.lox", position_of(source, "item", 1));
    let inner = definition(&mut server, "shadow.lox", position_of(source, "item", 3));
    assert_eq!(outer[0].range, target_range(source, "item", 0));
    assert_eq!(inner[0].range, target_range(source, "item", 2));
    assert_eq!(shutdown(server), ServerOutcome::CleanExit);
}

#[test]
fn definitions_follow_exact_local_parameter_capture_and_recursive_resolution() {
    let mut server = start(None);
    let source = "{\n  var captured = 1;\n  fun recurse(n) {\n    if (n > 0) recurse(n - 1);\n    fun middle() { fun inner() { print captured; print n; } inner(); }\n    middle();\n  }\n  recurse(2);\n}\n";
    published(open(&mut server, "locals.lox", 1, source));

    let cases = [
        ("recurse", 1, "recurse", 0, 7),
        ("recurse", 2, "recurse", 0, 7),
        ("captured", 1, "captured", 0, 8),
        ("n;", 0, "n)", 0, 1),
        ("captured", 0, "captured", 0, 8),
    ];
    for (cursor, cursor_occurrence, target, target_occurrence, target_length) in cases {
        let locations = definition(
            &mut server,
            "locals.lox",
            position_of(source, cursor, cursor_occurrence),
        );
        assert_eq!(
            locations.len(),
            1,
            "{cursor} occurrence {cursor_occurrence}"
        );
        assert_eq!(locations[0].uri, uri("locals.lox"));
        let target_start = position_of(source, target, target_occurrence);
        assert_eq!(locations[0].range.start, target_start);
        assert_eq!(
            locations[0].range.end,
            at(target_start.line, target_start.character + target_length)
        );
    }
    assert_eq!(shutdown(server), ServerOutcome::CleanExit);
}

#[test]
fn definitions_cover_forward_and_duplicate_globals_builtins_and_unresolved_names() {
    let mut server = start(None);
    let source = "print future; var future = 1; print future;\nvar duplicate = 1; fun duplicate() {} print duplicate;\nprint clock; print missing;\n";
    published(open(&mut server, "globals.lox", 1, source));

    for occurrence in [0, 2] {
        let locations = definition(
            &mut server,
            "globals.lox",
            position_of(source, "future", occurrence),
        );
        assert_eq!(locations.len(), 1);
        assert_eq!(locations[0].range, target_range(source, "future", 1));
    }

    let duplicate = definition(
        &mut server,
        "globals.lox",
        position_of(source, "duplicate", 2),
    );
    assert_eq!(
        duplicate
            .iter()
            .map(|location| location.range)
            .collect::<Vec<_>>(),
        vec![
            target_range(source, "duplicate", 0),
            target_range(source, "duplicate", 1),
        ]
    );
    for name in ["clock", "missing"] {
        assert!(definition(&mut server, "globals.lox", position_of(source, name, 0)).is_empty());
    }
    assert_eq!(shutdown(server), ServerOutcome::CleanExit);
}

#[test]
fn invalid_positions_programs_limits_and_closed_documents_return_exact_empty_features() {
    let mut server = start(Some(true));
    let source = "\u{feff}\"😀\"; var name = 1; print name;";
    published(open(&mut server, "edges.lox", 1, source));
    assert!(definition(&mut server, "edges.lox", at(0, 0)).is_empty());
    assert!(definition(&mut server, "edges.lox", at(0, 2)).is_empty());
    assert!(definition(&mut server, "edges.lox", at(0, u32::MAX)).is_empty());
    assert!(definition(&mut server, "edges.lox", at(99, 0)).is_empty());
    let valid = definition(&mut server, "edges.lox", position_of(source, "name", 1));
    assert_eq!(valid[0].range, target_range(source, "name", 0));

    published(change(&mut server, "edges.lox", 2, vec![full("var valid = 1; print valid; var = 2;")]));
    assert!(definition(&mut server, "edges.lox", at(0, 21)).is_empty());
    assert!(!semantic_tokens(&mut server, "edges.lox").is_empty());

    published(change(&mut server, "edges.lox", 3, vec![full(&"x".repeat(MAX_ANALYSIS_SOURCE_BYTES + 1))]));
    let limit_tokens = semantic_tokens(&mut server, "edges.lox");
    assert_eq!(
        limit_tokens,
        Vec::new()
    );
    assert!(definition(&mut server, "edges.lox", at(0, 0)).is_empty());
    published(change(&mut server, "edges.lox", 4, vec![full("var recovered = 1;")]));
    assert!(semantic_tokens(&mut server, "edges.lox").len() >= 3);

    assert!(published(close(&mut server, "edges.lox")).diagnostics.is_empty());
    assert_eq!(semantic_tokens(&mut server, "edges.lox"), Vec::new());
    assert!(definition(&mut server, "edges.lox", at(0, 0)).is_empty());
    assert_eq!(shutdown(server), ServerOutcome::CleanExit);
}

#[test]
fn every_analysis_limit_becomes_one_diagnostic_without_stopping_service() {
    let mut server = start(Some(true));
    let cases = [
        (
            "source.lox",
            "x".repeat(MAX_ANALYSIS_SOURCE_BYTES + 1),
            "analysis.limit.source_bytes",
        ),
        (
            "lexical.lox",
            "nil;".repeat(MAX_ANALYSIS_LEXICAL_ITEMS / 2 + 1),
            "analysis.limit.lexical_items",
        ),
        (
            "diagnostics.lox",
            "return;\n".repeat(MAX_ANALYSIS_DIAGNOSTICS + 1),
            "analysis.limit.diagnostics",
        ),
        (
            "nesting.lox",
            format!(
                "{}nil;{}",
                "(".repeat(MAX_ANALYSIS_NESTING_DEPTH + 1),
                ")".repeat(MAX_ANALYSIS_NESTING_DEPTH + 1)
            ),
            "analysis.limit.nesting_depth",
        ),
    ];
    for (name, source, expected_code) in cases {
        let published = published(open(&mut server, name, 1, &source));
        assert_eq!(published.diagnostics.len(), 1);
        let diagnostic = &published.diagnostics[0];
        assert_eq!(
            diagnostic.code,
            expected_code
        );
        assert_eq!(
            diagnostic.range,
            range(at(0, 0), at(0, 0))
        );
        assert_eq!(diagnostic.phase, None);
    }
    assert_eq!(shutdown(server), ServerOutcome::CleanExit);
}

#[test]
fn omission_of_position_encodings_defaults_to_utf16() {
    let client = ClientCapabilities {
        position_encodings: None,
        diagnostic_data_support: None,
    };
    assert_eq!(
        welcome(Ok(client)),
        Welcome::Accept {
            diagnostic_data_support: false
        }
    );
    assert_eq!(shutdown(start(None)), ServerOutcome::CleanExit);
}

#[test]
fn exit_before_shutdown_and_channel_close_are_unsuccessful_outcomes() {
    let mut early_exit = start(None);
    assert_eq!(
        notify(&mut early_exit, "exit", Params::Nothing),
        Action::Stop(ServerOutcome::ExitWithoutShutdown)
    );
    assert_eq!(
        receive_initialized(&FirstMessage::Closed),
        InitializeFinish::Stop(ServerOutcome::ChannelClosed)
    );
}

#[test]
fn exit_during_either_initialization_phase_is_unsuccessful() {
    assert_eq!(
        classify_handshake_error(
            false,
            "expected initialize request, got Notification(Notification { method: \"exit\", params: Null })"
        ),
        Ok(ServerOutcome::ExitWithoutShutdown)
    );
    assert_eq!(
        classify_handshake_error(true, "disconnected"),
        Ok(ServerOutcome::ChannelClosed)
    );
    assert_eq!(
        classify_handshake_error(false, "expected initialize request, got nothing"),
        Err(ServerError::Protocol(
            "expected initialize request, got nothing".to_string()
        ))
    );
    let exit = FirstMessage::Notification {
        method: "exit".to_string(),
    };
    assert_eq!(
        receive_initialized(&exit),
        InitializeFinish::Stop(ServerOutcome::ExitWithoutShutdown)
    );
}

#[test]
fn request_named_exit_during_initialization_is_a_protocol_error() {
    let exit = FirstMessage::Request {
        method: "exit".to_string(),
    };
    assert_eq!(
        receive_initialized(&exit),
        InitializeFinish::Error(ServerError::Protocol(
            "expected initialized notification, got request method: exit".to_string()
        ))
    );
}

#[test]
fn initialization_protocol_errors_escape_request_methods() {
    let strange = FirstMessage::Notification {
        method: "a\t\"b\" \u{7f}β".to_string(),
    };
    assert_eq!(
        receive_initialized(&strange),
        InitializeFinish::Error(ServerError::Protocol(format!(
            "expected initialized notification, got notification method: {}",
            "a\t\"b\" \u{7f}β".escape_default()
        )))
    );
    assert_eq!(
        receive_initialized(&FirstMessage::Response),
        InitializeFinish::Error(ServerError::Protocol(
            "expected initialized notification, got response".to_string()
        ))
    );
}

#[test]
fn explicit_position_encodings_without_utf16_are_rejected() {
    let client = |encodings: Vec<&str>| ClientCapabilities {
        position_encodings: Some(encodings.iter().map(|name| name.to_string()).collect()),
        diagnostic_data_support: Some(true),
    };
    let Welcome::Refuse { message, error } = welcome(Ok(client(vec!["utf-8"]))) else {
        panic!("expected initialize error response");
    };
    assert_eq!(message, "rlox-lsp requires UTF-16 position support");
    assert_eq!(error, ServerError::UnsupportedPositionEncoding);
    assert_eq!(
        error.message(),
        "the client does not advertise UTF-16 position support"
    );
    assert!(matches!(
        welcome(Ok(client(Vec::new()))),
        Welcome::Refuse { .. }
    ));
    assert_eq!(
        welcome(Ok(client(vec!["utf-8", "utf-16"]))),
        Welcome::Accept {
            diagnostic_data_support: true
        }
    );
    let Welcome::Refuse { message, error } = welcome(Err("bad".to_string())) else {
        panic!("expected initialize error response");
    };
    assert_eq!(message, "bad");
    assert_eq!(error.message(), "invalid initialize parameters: bad");
}

#[test]
fn shutdown_is_single_use_and_blocks_all_further_language_work() {
    let mut server = start(None);
    assert_eq!(
        request(&mut server, "shutdown", Params::Nothing),
        Reply::Null
    );
    assert_eq!(
        open(&mut server, "late.lox", 1, "var = 1;"),
        Action::Nothing
    );
    for method in ["shutdown", "textDocument/definition", "unknown/request"] {
        assert_eq!(
            error_code(request(&mut server, method, Params::Nothing)),
            -32600
        );
    }
    assert!(server.documents.documents.is_empty());
    assert_eq!(
        notify(&mut server, "exit", Params::Nothing),
        Action::Stop(ServerOutcome::CleanExit)
    );
}

#[test]
fn malformed_known_and_unknown_requests_return_correlated_errors_and_service_continues() {
    let mut server = start(None);
    let malformed = request(
        &mut server,
        "textDocument/definition",
        Params::Malformed {
            reason: "invalid type".to_string(),
        },
    );
    assert_eq!(
        malformed,
        Reply::Error {
            code: -32602,
            message: "invalid type".to_string()
        }
    );
    assert_eq!(
        notify(&mut server, "unknown/notification", Params::Nothing),
        Action::Nothing
    );
    assert_eq!(
        request(&mut server, "unknown/request", Params::Nothing),
        Reply::Error {
            code: -32601,
            message: "unknown request method: unknown/request".to_string()
        }
    );
    assert_eq!(server.receive(&ServerMessage::Response), Action::Nothing);
    assert_eq!(shutdown(server), ServerOutcome::CleanExit);
}

#[test]
fn malformed_shutdown_does_not_enter_shutdown_state() {
    let mut server = start(None);
    assert_eq!(
        error_code(request(
            &mut server,
            "shutdown",
            Params::Malformed {
                reason: "unexpected".to_string()
            }
        )),
        -32602
    );
    assert_eq!(
        error_code(request(&mut server, "unknown/request", Params::Nothing)),
        -32601
    );
    assert_eq!(shutdown(server), ServerOutcome::CleanExit);
}
