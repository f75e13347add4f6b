use shikibu::error::{SyntaxError, SyntaxErrorKind};
use shikibu::keyword::Keyword;
use shikibu::lexeme::Lexeme;
use shikibu::symbol::Symbol;
use shikibu::text::{bracket, comma_list, to_decimal};
use shikibu::token::Token;

#[test]
fn symbols_render_in_half_width() {
    assert_eq!(Symbol::Plus.to_string(), "+");
    assert_eq!(Symbol::GreaterEqual.to_string(), ">=");
    assert_eq!(Symbol::OpenBracket.to_string(), "[");
    assert_eq!(Symbol::Tilde.to_string(), "~");
}

#[test]
fn keywords_read_back_from_their_spelling() {
    assert_eq!(Keyword::from_str("もし"), Ok(Keyword::If));
    assert_eq!(Keyword::from_str("くりかえし"), Ok(Keyword::Loop));
    assert_eq!(Keyword::from_str("長さ"), Ok(Keyword::Length));
    assert_eq!(Keyword::from_str("if"), Err(()));
    assert_eq!(Keyword::from_str(""), Err(()));
    assert_eq!(Keyword::Return.to_string(), "かえす");
}

#[test]
fn token_constructors_record_lexeme_and_position() {
    let token = Token::identifier("名前".to_string(), 3);
    assert_eq!(token.lexeme, Lexeme::Identifier("名前".to_string()));
    assert_eq!(token.position, Some(3));
    assert_eq!(Token::newline().position, None);
    assert_eq!(Token::indent().lexeme, Lexeme::Indent);
    assert_eq!(Token::spaces(4, 0).lexeme, Lexeme::Spaces(4));
}

#[test]
fn spaces_render_as_that_many_spaces() {
    assert_eq!(Lexeme::Spaces(3).to_string(), "   ");
    assert_eq!(Lexeme::Newline.to_string(), "");
    assert_eq!(Lexeme::Invalid('?').to_string(), "?");
}

#[test]
fn a_syntax_error_holds_what_it_was_made_of() {
    let error = SyntaxError::new(
        SyntaxErrorKind::UnexpectedToken,
        "stray".to_string(),
        Some(Token::comment(7)),
    );
    assert_eq!(error.kind, SyntaxErrorKind::UnexpectedToken);
    assert_eq!(error.message, "stray");
    assert_eq!(error.token, Some(Token::comment(7)));
    assert_eq!(SyntaxError::unexpected_end().token, None);
    assert_eq!(SyntaxError::invalid_char('＆', 3).message, "Invalid character: ＆");
    assert_eq!(
        SyntaxError::unexpected_token(Token::keyword(Keyword::Then, 0)).message,
        "Unexpected token: Keyword(Then)"
    );
    assert_eq!(SyntaxError::unexpected_token(Token::newline()).message, "Unexpected token: Newline");
}

fn all_symbols() -> Vec<Symbol> {
    vec![
        Symbol::Plus,
        Symbol::Minus,
        Symbol::Asterisk,
        Symbol::Slash,
        Symbol::Equal,
        Symbol::EqualEqual,
        Symbol::Bang,
        Symbol::BangEqual,
        Symbol::Less,
        Symbol::LessEqual,
        Symbol::Greater,
        Symbol::GreaterEqual,
        Symbol::OpenParen,
        Symbol::CloseParen,
        Symbol::OpenBracket,
        Symbol::CloseBracket,
        Symbol::Comma,
        Symbol::Tilde,
    ]
}

fn all_keywords() -> Vec<Keyword> {
    vec![
        Keyword::If,
        Keyword::Then,
        Keyword::Elif,
        Keyword::Else,
        Keyword::Or,
        Keyword::And,
        Keyword::True,
        Keyword::False,
        Keyword::Null,
        Keyword::Function,
        Keyword::Return,
        Keyword::Loop,
        Keyword::Continue,
        Keyword::Break,
        Keyword::Print,
        Keyword::Array,
        Keyword::Length,
    ]
}

#[test]
fn symbols_and_keywords_are_named_by_their_variants() {
    for symbol in all_symbols() {
        assert_eq!(symbol.debug_text(), format!("{:?}", symbol));
    }
    for keyword in all_keywords() {
        assert_eq!(keyword.debug_text(), format!("{:?}", keyword));
        assert_eq!(Keyword::from_str(&keyword.to_string()), Ok(keyword));
    }
    assert_eq!(Symbol::OpenParen.debug_text(), "OpenParen");
    assert_eq!(Keyword::Elif.debug_text(), "Elif");
}

#[test]
fn a_lexeme_writes_its_debug_form() {
    let mut lexemes = vec![
        Lexeme::Identifier("x".to_string()),
        Lexeme::Identifier("名\"前\\".to_string()),
        Lexeme::String("行\n\t'".to_string()),
        Lexeme::String(String::new()),
        Lexeme::Number("１２．５".to_string()),
        Lexeme::Spaces(0),
        Lexeme::Spaces(4),
        Lexeme::Spaces(1234567890),
        Lexeme::Spaces(usize::MAX),
        Lexeme::Newline,
        Lexeme::Comment,
        Lexeme::Indent,
        Lexeme::Dedent,
        Lexeme::Invalid('&'),
        Lexeme::Invalid('\''),
        Lexeme::Invalid('\n'),
        Lexeme::Invalid('。'),
    ];
    lexemes.extend(all_symbols().into_iter().map(Lexeme::Symbol));
    lexemes.extend(all_keywords().into_iter().map(Lexeme::Keyword));
    for lexeme in lexemes {
        assert_eq!(lexeme.debug_text(), format!("{:?}", lexeme));
        let token = Token { lexeme: lexeme.clone(), position: Some(1) };
        assert_eq!(
            SyntaxError::unexpected_token(token).message,
            format!("Unexpected token: {:?}", lexeme)
        );
    }
    assert_eq!(Lexeme::Identifier("x".to_string()).debug_text(), "Identifier(\"x\")");
    assert_eq!(Lexeme::Symbol(Symbol::Plus).debug_text(), "Symbol(Plus)");
    assert_eq!(Lexeme::Spaces(4).debug_text(), "Spaces(4)");
    assert_eq!(Lexeme::Invalid('&').debug_text(), "Invalid('&')");
}

#[test]
fn brackets_and_digits_are_written_as_they_read() {
    assert_eq!(bracket("Name", "payload"), "Name(payload)");
    assert_eq!(bracket("", ""), "()");
    assert_eq!(comma_list(&vec![]), "[]");
    assert_eq!(comma_list(&vec!["a".to_string()]), "[a]");
    assert_eq!(
        comma_list(&vec!["a".to_string(), "".to_string(), "b c".to_string()]),
        "[a, , b c]"
    );
    for n in [0usize, 1, 9, 10, 11, 99, 100, 101, 4096, 65535, 1_000_000, usize::MAX] {
        assert_eq!(to_decimal(n), n.to_string());
        assert_eq!(to_decimal(n), format!("{:?}", n));
    }
}
