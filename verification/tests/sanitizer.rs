use shikibu::error::SyntaxErrorKind;
use shikibu::keyword::Keyword;
use shikibu::lexeme::Lexeme;
use shikibu::sanitizer::{cosume_empty_lines, generate_offside_tokens, sanitize, Indents};
use shikibu::symbol::Symbol;
use shikibu::token::Token;
use shikibu::tokens::Tokens;
use std::collections::VecDeque;

fn normalised(source: &str) -> Vec<Lexeme> {
    let mut tokens = Tokens::from_str(source).unwrap();
    let mut lexemes = Vec::new();
    while let Some(token) = tokens.shift() {
        lexemes.push(token.lexeme);
    }
    lexemes
}

fn count(lexemes: &[Lexeme], marker: &Lexeme) -> usize {
    lexemes.iter().filter(|lexeme| *lexeme == marker).count()
}

fn name(text: &str) -> Lexeme {
    Lexeme::Identifier(text.to_string())
}

fn number(text: &str) -> Lexeme {
    Lexeme::Number(text.to_string())
}

#[test]
fn a_block_is_bracketed_by_indent_and_dedent() {
    assert_eq!(
        normalised("もし x なら\n    表示 1\n表示 2"),
        vec![
            Lexeme::Keyword(Keyword::If),
            name("x"),
            Lexeme::Keyword(Keyword::Then),
            Lexeme::Newline,
            Lexeme::Indent,
            Lexeme::Keyword(Keyword::Print),
            number("1"),
            Lexeme::Newline,
            Lexeme::Dedent,
            Lexeme::Keyword(Keyword::Print),
            number("2"),
            Lexeme::Newline,
        ]
    );
}

#[test]
fn blocks_left_open_at_the_end_are_closed() {
    let lexemes = normalised("a\n  b\n    c");
    assert_eq!(
        lexemes,
        vec![
            name("a"),
            Lexeme::Newline,
            Lexeme::Indent,
            name("b"),
            Lexeme::Newline,
            Lexeme::Indent,
            name("c"),
            Lexeme::Newline,
            Lexeme::Dedent,
            Lexeme::Dedent,
        ]
    );
}

#[test]
fn one_line_can_close_several_blocks() {
    assert_eq!(
        normalised("a\n  b\n    c\nd"),
        vec![
            name("a"),
            Lexeme::Newline,
            Lexeme::Indent,
            name("b"),
            Lexeme::Newline,
            Lexeme::Indent,
            name("c"),
            Lexeme::Newline,
            Lexeme::Dedent,
            Lexeme::Dedent,
            name("d"),
            Lexeme::Newline,
        ]
    );
}

#[test]
fn blank_lines_and_comments_leave_no_trace() {
    assert_eq!(
        normalised("\n\n  # 先頭\na = 1   # 代入\n\n   \n# 途中\nb\n\n"),
        vec![
            name("a"),
            Lexeme::Symbol(Symbol::Equal),
            number("1"),
            Lexeme::Newline,
            name("b"),
            Lexeme::Newline,
        ]
    );
}

#[test]
fn indents_and_dedents_are_as_many() {
    for source in [
        "a",
        "a\n  b",
        "a\n  b\n      c\n  d\n    e",
        "a\n\tb\n\t\tc\nd\n\te",
        "  a\n    b\nc",
        "a\n　b\n　　c",
    ] {
        let lexemes = normalised(source);
        assert_eq!(count(&lexemes, &Lexeme::Indent), count(&lexemes, &Lexeme::Dedent), "{}", source);
    }
    let lexemes = normalised("a\n  b\n      c\n  d\n    e");
    assert_eq!(count(&lexemes, &Lexeme::Indent), 3);
}

#[test]
fn a_dedent_to_a_width_that_was_never_pushed_is_inconsistent() {
    let error = Tokens::from_str("a\n    b\n  c").unwrap_err();
    assert_eq!(error.kind, SyntaxErrorKind::InconsistentDedent);
    assert_eq!(error.token, Some(Token::spaces(2, 8)));
    assert_eq!(error.message, "Inconsistent dedent");
}

#[test]
fn a_dedent_to_a_width_that_was_popped_before_is_inconsistent() {
    let error = Tokens::from_str("a\n  b\n    c\n  d\n        e\n    f").unwrap_err();
    assert_eq!(error.kind, SyntaxErrorKind::InconsistentDedent);
}

#[test]
fn a_source_of_blank_lines_has_no_tokens() {
    assert_eq!(normalised(""), Vec::<Lexeme>::new());
    assert_eq!(normalised("\n  \n# 何もない\n"), Vec::<Lexeme>::new());
}

#[test]
fn the_indentation_of_the_first_line_is_dropped() {
    assert_eq!(normalised("    a"), vec![name("a"), Lexeme::Newline]);
}

#[test]
fn sanitize_takes_the_tokens_out_of_the_queue() {
    let mut queue = VecDeque::from(vec![
        Token::identifier("a".to_string(), 0),
        Token::newline(),
        Token::spaces(2, 2),
        Token::identifier("b".to_string(), 4),
    ]);
    let tokens: Vec<Lexeme> =
        sanitize(&mut queue).unwrap().into_iter().map(|token| token.lexeme).collect();
    assert!(queue.is_empty());
    assert_eq!(
        tokens,
        vec![
            name("a"),
            Lexeme::Newline,
            Lexeme::Indent,
            name("b"),
            Lexeme::Newline,
            Lexeme::Dedent,
        ]
    );
}

#[test]
fn a_refused_line_stays_in_the_queue() {
    let mut queue = VecDeque::from(vec![
        Token::identifier("a".to_string(), 0),
        Token::newline(),
        Token::spaces(4, 2),
        Token::identifier("b".to_string(), 6),
        Token::newline(),
        Token::spaces(2, 8),
        Token::identifier("c".to_string(), 10),
    ]);
    let error = sanitize(&mut queue).unwrap_err();
    assert_eq!(error.kind, SyntaxErrorKind::InconsistentDedent);
    let left: Vec<Token> = queue.into_iter().collect();
    assert_eq!(
        left,
        vec![Token::spaces(2, 8), Token::identifier("c".to_string(), 10), Token::newline()]
    );
}

#[test]
fn blank_lines_are_taken_up_to_their_last_newline() {
    let mut queue = VecDeque::from(vec![
        Token::spaces(2, 0),
        Token::newline(),
        Token::comment(3),
        Token::newline(),
        Token::spaces(4, 5),
        Token::identifier("a".to_string(), 9),
    ]);
    assert_eq!(cosume_empty_lines(&mut queue), Ok(()));
    let left: Vec<Token> = queue.into_iter().collect();
    assert_eq!(left, vec![Token::spaces(4, 5), Token::identifier("a".to_string(), 9)]);

    let mut queue = VecDeque::from(vec![Token::spaces(2, 0), Token::identifier("a".to_string(), 2)]);
    assert_eq!(cosume_empty_lines(&mut queue), Err(()));
    assert_eq!(queue.len(), 2);
}

#[test]
fn the_indentation_stack_follows_the_lines() {
    let mut indents = Indents::from(0);
    assert!(indents.is_top_level());

    let markers = generate_offside_tokens(&Token::spaces(4, 0), &mut indents).unwrap();
    assert_eq!(markers, vec![Token::indent()]);
    assert_eq!(indents.last(), Some(&4));
    assert_eq!(indents.len(), 2);
    assert!(!indents.is_top_level());

    let markers = generate_offside_tokens(&Token::spaces(4, 0), &mut indents).unwrap();
    assert_eq!(markers, Vec::<Token>::new());

    let markers = generate_offside_tokens(&Token::spaces(8, 0), &mut indents).unwrap();
    assert_eq!(markers, vec![Token::indent()]);

    let markers =
        generate_offside_tokens(&Token::identifier("a".to_string(), 0), &mut indents).unwrap();
    assert_eq!(markers, vec![Token::dedent(), Token::dedent()]);
    assert_eq!(indents.len(), 1);
    assert_eq!(indents.pop(), Some(0));
    assert_eq!(indents.pop(), None);
}

#[test]
fn a_width_that_is_not_on_the_stack_is_refused() {
    let mut indents = Indents::from(0);
    indents.push(&4);
    indents.push(&8);
    let error = generate_offside_tokens(&Token::spaces(6, 20), &mut indents).unwrap_err();
    assert_eq!(error.kind, SyntaxErrorKind::InconsistentDedent);
    assert_eq!(error.token, Some(Token::spaces(6, 20)));
}
