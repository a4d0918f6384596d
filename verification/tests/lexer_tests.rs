use xact::lexer::{tokenize, TokenKind};

#[test]
fn tokenizes_simple_see_command() {
    let tokens = tokenize("£ SEE MY ~/Documents");
    let kinds: Vec<_> = tokens.into_iter().map(|t| t.kind).collect();
    assert_eq!(
        kinds,
        vec![
            TokenKind::Pound,
            TokenKind::Word("SEE".into()),
            TokenKind::Word("MY".into()),
            TokenKind::Word("~/Documents".into()),
            TokenKind::Eof,
        ]
    );
}

#[test]
fn tokenizes_string_literal() {
    let tokens = tokenize("£ THEY are \"alice,bob\"");
    let kinds: Vec<_> = tokens.into_iter().map(|t| t.kind).collect();
    assert_eq!(
        kinds,
        vec![
            TokenKind::Pound,
            TokenKind::Word("THEY".into()),
            TokenKind::Word("are".into()),
            TokenKind::StringLit("alice,bob".into()),
            TokenKind::Eof,
        ]
    );
}

#[test]
fn tokenizes_copy_with_destination() {
    let tokens = tokenize("£ COPY THAT to OUR ~/backup");
    let kinds: Vec<_> = tokens.into_iter().map(|t| t.kind).collect();
    assert_eq!(
        kinds,
        vec![
            TokenKind::Pound,
            TokenKind::Word("COPY".into()),
            TokenKind::Word("THAT".into()),
            TokenKind::Word("to".into()),
            TokenKind::Word("OUR".into()),
            TokenKind::Word("~/backup".into()),
            TokenKind::Eof,
        ]
    );
}

#[test]
fn spans_are_byte_offsets_and_eof_spans_the_end() {
    let tokens = tokenize("£ SEE");
    assert_eq!(tokens.len(), 3);
    assert_eq!((tokens[0].span.start, tokens[0].span.end), (0, 2));
    assert_eq!((tokens[1].span.start, tokens[1].span.end), (3, 6));
    assert_eq!(tokens[2].kind, TokenKind::Eof);
    assert_eq!((tokens[2].span.start, tokens[2].span.end), (6, 6));
}

#[test]
fn empty_input_is_a_single_eof() {
    let tokens = tokenize("");
    assert_eq!(tokens.len(), 1);
    assert_eq!(tokens[0].kind, TokenKind::Eof);
}

#[test]
fn unterminated_string_runs_to_the_end() {
    let tokens = tokenize("£ RUN 'ls -");
    let kinds: Vec<_> = tokens.into_iter().map(|t| t.kind).collect();
    assert_eq!(
        kinds,
        vec![
            TokenKind::Pound,
            TokenKind::Word("RUN".into()),
            TokenKind::StringLit("ls -".into()),
            TokenKind::Eof,
        ]
    );
}

#[test]
fn spans_are_in_order_within_the_line_and_end_at_eof() {
    let input = "£ COPY MY ~/a to 'b c' WHEN THAT SUCCEEDS";
    let tokens = tokenize(input);
    let last = tokens.last().unwrap();
    assert_eq!(last.kind, TokenKind::Eof);
    assert_eq!((last.span.start, last.span.end), (input.len(), input.len()));
    for pair in tokens.windows(2) {
        assert!(pair[0].span.start < pair[0].span.end);
        assert!(pair[0].span.end <= pair[1].span.start);
    }
    assert_eq!((tokens[0].span.start, tokens[0].span.end), (0, 2));
}
