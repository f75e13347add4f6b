use crate::keyword::Keyword;
use crate::lexeme::{Lexeme, LexemeView};
use crate::symbol::Symbol;
use vstd::prelude::*;
use vstd::std_specs::cmp::PartialEqSpecImpl;

verus! {

/// A lexeme and the place in the source where it starts, counted in
/// characters. Tokens that stand for no source text carry no position.
#[derive(Debug)]
pub struct Token {
    pub lexeme: Lexeme,
    pub position: Option<usize>,
}

/// The mathematical value of a [`Token`].
pub struct TokenView {
    pub lexeme: LexemeView,
    pub position: Option<usize>,
}

impl TokenView {
    /// A token with lexeme `lexeme` that starts at `position`.
    pub open spec fn at(lexeme: LexemeView, position: usize) -> TokenView {
        TokenView { lexeme, position: Some(position) }
    }

    /// A token with lexeme `lexeme` that stands for no source text.
    pub open spec fn synthetic(lexeme: LexemeView) -> TokenView {
        TokenView { lexeme, position: None }
    }
}

/// The values of the tokens of `tokens`, in order.
pub open spec fn token_views(tokens: Seq<Token>) -> Seq<TokenView> {
    tokens.map_values(|token: Token| token@)
}

impl View for Token {
    type V = TokenView;

    open spec fn view(&self) -> TokenView {
        TokenView { lexeme: self.lexeme@, position: self.position }
    }
}

impl Clone for Token {
    fn clone(&self) -> (copy: Token)
        ensures
            copy@ == self@,
    {
        Token { lexeme: self.lexeme.clone(), position: self.position }
    }
}

impl PartialEq for Token {
    fn eq(&self, other: &Token) -> (same: bool) {
        let same_position = match (self.position, other.position) {
            (Some(a), Some(b)) => a == b,
            (None, None) => true,
            _ => false,
        };
        same_position && self.lexeme == other.lexeme
    }
}

impl PartialEqSpecImpl for Token {
    open spec fn obeys_eq_spec() -> bool {
        true
    }

    open spec fn eq_spec(&self, other: &Token) -> bool {
        self@ == other@
    }
}

impl Token {
    /// The token of the symbol `value` that starts at `position`.
    pub fn symbol(value: Symbol, position: usize) -> (token: Token)
        ensures
            token@ == TokenView::at(LexemeView::Symbol(value), position),
    {
        Token { lexeme: Lexeme::Symbol(value), position: Some(position) }
    }

    /// The token of the keyword `value` that starts at `position`.
    pub fn keyword(value: Keyword, position: usize) -> (token: Token)
        ensures
            token@ == TokenView::at(LexemeView::Keyword(value), position),
    {
        Token { lexeme: Lexeme::Keyword(value), position: Some(position) }
    }

    /// The token of the name `value` that starts at `position`.
    pub fn identifier(value: String, position: usize) -> (token: Token)
        ensures
            token@ == TokenView::at(LexemeView::Identifier(value@), position),
    {
        Token { lexeme: Lexeme::Identifier(value), position: Some(position) }
    }

    /// The token of the string literal with the content `value`, which
    /// starts at `position`.
    pub fn string(value: String, position: usize) -> (token: Token)
        ensures
            token@ == TokenView::at(LexemeView::String(value@), position),
    {
        Token { lexeme: Lexeme::String(value), position: Some(position) }
    }

    /// The token of the number with the digits `value` that starts at
    /// `position`.
    pub fn number(value: String, position: usize) -> (token: Token)
        ensures
            token@ == TokenView::at(LexemeView::Number(value@), position),
    {
        Token { lexeme: Lexeme::Number(value), position: Some(position) }
    }

    /// The token of a run of spaces and tabs that is `len` wide and starts
    /// at `position`.
    pub fn spaces(len: usize, position: usize) -> (token: Token)
        ensures
            token@ == TokenView::at(LexemeView::Spaces(len), position),
    {
        Token { lexeme: Lexeme::Spaces(len), position: Some(position) }
    }

    /// The token of a line end.
    pub fn newline() -> (token: Token)
        ensures
            token@ == TokenView::synthetic(LexemeView::Newline),
    {
        Token { lexeme: Lexeme::Newline, position: None }
    }

    /// The token of the comment that starts at `position`.
    pub fn comment(position: usize) -> (token: Token)
        ensures
            token@ == TokenView::at(LexemeView::Comment, position),
    {
        Token { lexeme: Lexeme::Comment, position: Some(position) }
    }

    /// The marker that opens a block.
    pub fn indent() -> (token: Token)
        ensures
            token@ == TokenView::synthetic(LexemeView::Indent),
    {
        Token { lexeme: Lexeme::Indent, position: None }
    }

    /// The marker that closes a block.
    pub fn dedent() -> (token: Token)
        ensures
            token@ == TokenView::synthetic(LexemeView::Dedent),
    {
        Token { lexeme: Lexeme::Dedent, position: None }
    }

    /// The token of the character `c` at `position`, which belongs to no
    /// token of the language.
    pub fn invalid(c: char, position: usize) -> (token: Token)
        ensures
            token@ == TokenView::at(LexemeView::Invalid(c), position),
    {
        Token { lexeme: Lexeme::Invalid(c), position: Some(position) }
    }
}

} // verus!
