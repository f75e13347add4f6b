use shikibu::error::{SyntaxError, SyntaxErrorKind};
use shikibu::keyword::Keyword;
use shikibu::lexeme::Lexeme;
use shikibu::scanner::Scanner;
use shikibu::symbol::Symbol;
use shikibu::token::Token;

fn scan(source: &str) -> Vec<Token> {
    Scanner::new(source).collect().unwrap().into_iter().collect()
}

fn lexemes(source: &str) -> Vec<Lexeme> {
    scan(source).into_iter().map(|token| token.lexeme).collect()
}

fn scan_error(source: &str) -> SyntaxError {
    Scanner::new(source).collect().unwrap_err()
}

#[test]
fn two_character_symbols_win_over_their_prefix() {
    assert_eq!(
        lexemes("<=<"),
        vec![Lexeme::Symbol(Symbol::LessEqual), Lexeme::Symbol(Symbol::Less)]
    );
    assert_eq!(
        lexemes("==="),
        vec![Lexeme::Symbol(Symbol::EqualEqual), Lexeme::Symbol(Symbol::Equal)]
    );
    assert_eq!(
        lexemes("!=!"),
        vec![Lexeme::Symbol(Symbol::BangEqual), Lexeme::Symbol(Symbol::Bang)]
    );
    assert_eq!(
        lexemes(">=>"),
        vec![Lexeme::Symbol(Symbol::GreaterEqual), Lexeme::Symbol(Symbol::Greater)]
    );
    assert_eq!(
        lexemes("= ="),
        vec![Lexeme::Symbol(Symbol::Equal), Lexeme::Spaces(1), Lexeme::Symbol(Symbol::Equal)]
    );
}

#[test]
fn full_width_glyphs_scan_like_half_width_ones() {
    assert_eq!(
        lexemes("１＋２"),
        vec![
            Lexeme::Number("１".to_string()),
            Lexeme::Symbol(Symbol::Plus),
            Lexeme::Number("２".to_string()),
        ]
    );
    assert_eq!(
        lexemes("（「、」）～×／－＊＜＝"),
        vec![
            Lexeme::Symbol(Symbol::OpenParen),
            Lexeme::Symbol(Symbol::OpenBracket),
            Lexeme::Symbol(Symbol::Comma),
            Lexeme::Symbol(Symbol::CloseBracket),
            Lexeme::Symbol(Symbol::CloseParen),
            Lexeme::Symbol(Symbol::Tilde),
            Lexeme::Symbol(Symbol::Asterisk),
            Lexeme::Symbol(Symbol::Slash),
            Lexeme::Symbol(Symbol::Minus),
            Lexeme::Symbol(Symbol::Asterisk),
            Lexeme::Symbol(Symbol::LessEqual),
        ]
    );
}

#[test]
fn tokens_carry_the_position_of_their_first_character() {
    let tokens = scan("a==b");
    assert_eq!(tokens[0], Token::identifier("a".to_string(), 0));
    assert_eq!(tokens[1], Token::symbol(Symbol::EqualEqual, 1));
    assert_eq!(tokens[2], Token::identifier("b".to_string(), 3));
}

#[test]
fn strings_take_escaped_characters_as_they_are() {
    let tokens = scan("\"a\\\"b\" x");
    assert_eq!(tokens[0], Token::string("a\"b".to_string(), 1));
    assert_eq!(tokens[1].lexeme, Lexeme::Spaces(1));
    assert_eq!(tokens[2], Token::identifier("x".to_string(), 7));
    assert_eq!(lexemes("”あ￥”い”"), vec![Lexeme::String("あ”い".to_string())]);
}

#[test]
fn a_string_cut_off_by_the_end_of_the_source_is_closed_there() {
    assert_eq!(lexemes("\"abc"), vec![Lexeme::String("abc".to_string())]);
    assert_eq!(lexemes("\"ab\\"), vec![Lexeme::String("ab".to_string())]);
    assert_eq!(lexemes("\""), vec![Lexeme::String(String::new())]);
}

#[test]
fn numbers_keep_their_raw_digits_and_one_decimal_point() {
    assert_eq!(lexemes("12.5"), vec![Lexeme::Number("12.5".to_string())]);
    assert_eq!(lexemes("１２．５"), vec![Lexeme::Number("１２．５".to_string())]);
    assert_eq!(lexemes("1."), vec![Lexeme::Number("1.".to_string())]);
    assert_eq!(lexemes("007"), vec![Lexeme::Number("007".to_string())]);
    assert_eq!(
        lexemes("3x"),
        vec![Lexeme::Number("3".to_string()), Lexeme::Identifier("x".to_string())]
    );
}

#[test]
fn a_second_decimal_point_is_an_invalid_character() {
    let error = scan_error("1.2.3");
    assert_eq!(error.kind, SyntaxErrorKind::InvalidCharacter);
    assert_eq!(error.token, Some(Token::invalid('.', 3)));
    assert_eq!(error.message, "Invalid character: .");
}

#[test]
fn a_run_of_spaces_is_one_token_with_its_width() {
    assert_eq!(lexemes("  \t"), vec![Lexeme::Spaces(3)]);
    assert_eq!(lexemes("    x")[0], Lexeme::Spaces(4));
    assert_eq!(scan("a   b")[1], Token::spaces(3, 1));
}

#[test]
fn an_ideographic_space_is_as_wide_as_any_other() {
    assert_eq!(lexemes("　"), vec![Lexeme::Spaces(1)]);
    assert_eq!(lexemes("　 \t　"), vec![Lexeme::Spaces(4)]);
}

#[test]
fn every_line_end_character_is_a_newline_token() {
    assert_eq!(lexemes("\n"), vec![Lexeme::Newline]);
    assert_eq!(lexemes("\r\n"), vec![Lexeme::Newline, Lexeme::Newline]);
    assert_eq!(scan("\n")[0].position, None);
}

#[test]
fn a_comment_runs_to_the_end_of_its_line() {
    assert_eq!(
        lexemes("# 表示 1 + 2\nx"),
        vec![Lexeme::Comment, Lexeme::Newline, Lexeme::Identifier("x".to_string())]
    );
    assert_eq!(lexemes("＃"), vec![Lexeme::Comment]);
    assert_eq!(lexemes("x♯y"), vec![Lexeme::Identifier("x".to_string()), Lexeme::Comment]);
}

#[test]
fn words_are_keywords_where_they_are_spelled_like_one() {
    assert_eq!(
        lexemes("もし 値 なら"),
        vec![
            Lexeme::Keyword(Keyword::If),
            Lexeme::Spaces(1),
            Lexeme::Identifier("値".to_string()),
            Lexeme::Spaces(1),
            Lexeme::Keyword(Keyword::Then),
        ]
    );
    assert_eq!(lexemes("もしも"), vec![Lexeme::Identifier("もしも".to_string())]);
    assert_eq!(
        lexemes("関数 足す(a、b)"),
        vec![
            Lexeme::Keyword(Keyword::Function),
            Lexeme::Spaces(1),
            Lexeme::Identifier("足す".to_string()),
            Lexeme::Symbol(Symbol::OpenParen),
            Lexeme::Identifier("a".to_string()),
            Lexeme::Symbol(Symbol::Comma),
            Lexeme::Identifier("b".to_string()),
            Lexeme::Symbol(Symbol::CloseParen),
        ]
    );
}

#[test]
fn a_symbol_character_ends_a_word() {
    assert_eq!(
        lexemes("カー"),
        vec![Lexeme::Identifier("カ".to_string()), Lexeme::Symbol(Symbol::Minus)]
    );
}

#[test]
fn a_symbol_character_that_spells_no_symbol_is_invalid() {
    let error = scan_error("a & b");
    assert_eq!(error.kind, SyntaxErrorKind::InvalidCharacter);
    assert_eq!(error.token, Some(Token::invalid('&', 2)));
    let error = scan_error("。");
    assert_eq!(error.kind, SyntaxErrorKind::InvalidCharacter);
    assert_eq!(error.token, Some(Token::invalid('。', 0)));
}

#[test]
fn the_scanner_hands_out_one_token_at_a_time() {
    let mut scanner = Scanner::new("x=1");
    assert_eq!(scanner.peek_char(), Some(&'x'));
    assert_eq!(scanner.next().unwrap().unwrap(), Token::identifier("x".to_string(), 0));
    assert_eq!(scanner.next().unwrap().unwrap(), Token::symbol(Symbol::Equal, 1));
    assert_eq!(scanner.next_char(), Some('1'));
    assert_eq!(scanner.next_char(), None);
    assert!(scanner.next().is_none());
}

#[test]
fn an_empty_source_has_no_tokens() {
    assert_eq!(lexemes(""), Vec::<Lexeme>::new());
}
