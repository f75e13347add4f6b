use crate::keyword::Keyword;
use crate::symbol::Symbol;
use crate::text::{
    bracket, bracketed, debug_char, debug_of_char, debug_of_str, debug_str, decimal, to_decimal,
};
use vstd::prelude::*;
use vstd::std_specs::cmp::PartialEqSpecImpl;

verus! {

/// The classified content of a token.
#[derive(Debug)]
pub enum Lexeme {
    Symbol(Symbol),
    Keyword(Keyword),
    Identifier(String),
    String(String),
    /// The digits as written, full-width glyphs included.
    Number(String),
    /// A run of spaces and tabs, with its width.
    Spaces(usize),
    Newline,
    Comment,
    Indent,
    Dedent,
    Invalid(char),
}

/// The mathematical value of a [`Lexeme`]: text as a sequence of characters.
pub enum LexemeView {
    Symbol(Symbol),
    Keyword(Keyword),
    Identifier(Seq<char>),
    String(Seq<char>),
    Number(Seq<char>),
    Spaces(usize),
    Newline,
    Comment,
    Indent,
    Dedent,
    Invalid(char),
}

impl LexemeView {
    /// The text that the lexeme stands for: its spelling, its content, or as
    /// many spaces as it is wide. The structural markers have none.
    pub open spec fn text(self) -> Seq<char> {
        match self {
            LexemeView::Symbol(symbol) => symbol.spelling(),
            LexemeView::Keyword(keyword) => keyword.spelling(),
            LexemeView::Identifier(name) => name,
            LexemeView::String(content) => content,
            LexemeView::Number(digits) => digits,
            LexemeView::Spaces(width) => Seq::new(width as nat, |i: int| ' '),
            LexemeView::Invalid(c) => seq![c],
            _ => Seq::empty(),
        }
    }

    /// The `Debug` form of the lexeme: the name of its variant, with the
    /// `Debug` form of what it holds behind it in round brackets.
    pub open spec fn debug_text(self) -> Seq<char> {
        match self {
            LexemeView::Symbol(symbol) => bracketed("Symbol"@, symbol.name()),
            LexemeView::Keyword(keyword) => bracketed("Keyword"@, keyword.name()),
            LexemeView::Identifier(name) => bracketed("Identifier"@, debug_of_str(name)),
            LexemeView::String(content) => bracketed("String"@, debug_of_str(content)),
            LexemeView::Number(digits) => bracketed("Number"@, debug_of_str(digits)),
            LexemeView::Spaces(width) => bracketed("Spaces"@, decimal(width as nat)),
            LexemeView::Newline => "Newline"@,
            LexemeView::Comment => "Comment"@,
            LexemeView::Indent => "Indent"@,
            LexemeView::Dedent => "Dedent"@,
            LexemeView::Invalid(c) => bracketed("Invalid"@, debug_of_char(c)),
        }
    }

    /// Whether the lexeme is absorbed when lines are normalised: spaces and
    /// comments.
    pub open spec fn is_filler(self) -> bool {
        self is Spaces || self is Comment
    }

    /// Whether the lexeme can make up a blank line: filler or a newline.
    pub open spec fn is_blank(self) -> bool {
        self.is_filler() || self is Newline
    }

    /// Whether the lexeme is one of the two block markers.
    pub open spec fn is_offside_marker(self) -> bool {
        self is Indent || self is Dedent
    }
}

impl View for Lexeme {
    type V = LexemeView;

    open spec fn view(&self) -> LexemeView {
        match self {
            Lexeme::Symbol(symbol) => LexemeView::Symbol(*symbol),
            Lexeme::Keyword(keyword) => LexemeView::Keyword(*keyword),
            Lexeme::Identifier(name) => LexemeView::Identifier(name@),
            Lexeme::String(content) => LexemeView::String(content@),
            Lexeme::Number(digits) => LexemeView::Number(digits@),
            Lexeme::Spaces(width) => LexemeView::Spaces(*width),
            Lexeme::Newline => LexemeView::Newline,
            Lexeme::Comment => LexemeView::Comment,
            Lexeme::Indent => LexemeView::Indent,
            Lexeme::Dedent => LexemeView::Dedent,
            Lexeme::Invalid(c) => LexemeView::Invalid(*c),
        }
    }
}

impl Clone for Lexeme {
    fn clone(&self) -> (copy: Lexeme)
        ensures
            copy@ == self@,
    {
        match self {
            Lexeme::Symbol(symbol) => Lexeme::Symbol(*symbol),
            Lexeme::Keyword(keyword) => Lexeme::Keyword(*keyword),
            Lexeme::Identifier(name) => Lexeme::Identifier(name.clone()),
            Lexeme::String(content) => Lexeme::String(content.clone()),
            Lexeme::Number(digits) => Lexeme::Number(digits.clone()),
            Lexeme::Spaces(width) => Lexeme::Spaces(*width),
            Lexeme::Newline => Lexeme::Newline,
            Lexeme::Comment => Lexeme::Comment,
            Lexeme::Indent => Lexeme::Indent,
            Lexeme::Dedent => Lexeme::Dedent,
            Lexeme::Invalid(c) => Lexeme::Invalid(*c),
        }
    }
}

impl PartialEq for Lexeme {
    fn eq(&self, other: &Lexeme) -> (same: bool) {
        match (self, other) {
            (Lexeme::Symbol(a), Lexeme::Symbol(b)) => *a == *b,
            (Lexeme::Keyword(a), Lexeme::Keyword(b)) => *a == *b,
            (Lexeme::Identifier(a), Lexeme::Identifier(b)) => *a == *b,
            (Lexeme::String(a), Lexeme::String(b)) => *a == *b,
            (Lexeme::Number(a), Lexeme::Number(b)) => *a == *b,
            (Lexeme::Spaces(a), Lexeme::Spaces(b)) => *a == *b,
            (Lexeme::Newline, Lexeme::Newline) => true,
            (Lexeme::Comment, Lexeme::Comment) => true,
            (Lexeme::Indent, Lexeme::Indent) => true,
            (Lexeme::Dedent, Lexeme::Dedent) => true,
            (Lexeme::Invalid(a), Lexeme::Invalid(b)) => *a == *b,
            _ => false,
        }
    }
}

impl PartialEqSpecImpl for Lexeme {
    open spec fn obeys_eq_spec() -> bool {
        true
    }

    open spec fn eq_spec(&self, other: &Lexeme) -> bool {
        self@ == other@
    }
}

impl Lexeme {
    /// Writes the `Debug` form of the lexeme.
    pub fn debug_text(&self) -> (text: String)
        ensures
            text@ == self@.debug_text(),
    {
        match self {
            Lexeme::Symbol(symbol) => bracket("Symbol", symbol.debug_text().as_str()),
            Lexeme::Keyword(keyword) => bracket("Keyword", keyword.debug_text().as_str()),
            Lexeme::Identifier(name) => bracket("Identifier", debug_str(name.as_str()).as_str()),
            Lexeme::String(content) => bracket("String", debug_str(content.as_str()).as_str()),
            Lexeme::Number(digits) => bracket("Number", debug_str(digits.as_str()).as_str()),
            Lexeme::Spaces(width) => bracket("Spaces", to_decimal(*width).as_str()),
            Lexeme::Newline => "Newline".to_owned(),
            Lexeme::Comment => "Comment".to_owned(),
            Lexeme::Indent => "Indent".to_owned(),
            Lexeme::Dedent => "Dedent".to_owned(),
            Lexeme::Invalid(c) => bracket("Invalid", debug_char(*c).as_str()),
        }
    }

    /// Renders the lexeme as text.
    pub fn to_string(&self) -> (text: String)
        ensures
            text@ == self@.text(),
    {
        match self {
            Lexeme::Symbol(symbol) => symbol.to_string(),
            Lexeme::Keyword(keyword) => keyword.to_string(),
            Lexeme::Identifier(name) => name.clone(),
            Lexeme::String(content) => content.clone(),
            Lexeme::Number(digits) => digits.clone(),
            Lexeme::Spaces(width) => {
                let mut text = String::new();
                let mut count: usize = 0;
                while count < *width
                    invariant
                        count <= *width,
                        text@ =~= Seq::new(count as nat, |i: int| ' '),
                    decreases *width - count,
                {
                    text.push(' ');
                    count += 1;
                }
                text
            },
            Lexeme::Invalid(c) => {
                let mut text = String::new();
                text.push(*c);
                assert(text@ =~= seq![*c]);
                text
            },
            _ => String::new(),
        }
    }
}

} // verus!
