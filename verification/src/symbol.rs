use vstd::prelude::*;

verus! {

/// An operator or punctuation mark of the language.
#[derive(Debug, Clone, Copy, PartialEq, Eq, Structural)]
pub enum Symbol {
    Plus,
    Minus,
    Asterisk,
    Slash,
    Equal,
    EqualEqual,
    Bang,
    BangEqual,
    Less,
    LessEqual,
    Greater,
    GreaterEqual,
    OpenParen,
    CloseParen,
    OpenBracket,
    CloseBracket,
    Comma,
    Tilde,
}

impl Symbol {
    /// The half-width spelling of the symbol.
    pub open spec fn spelling(self) -> Seq<char> {
        match self {
            Symbol::Plus => "+"@,
            Symbol::Minus => "-"@,
            Symbol::Asterisk => "*"@,
            Symbol::Slash => "/"@,
            Symbol::Equal => "="@,
            Symbol::EqualEqual => "=="@,
            Symbol::Bang => "!"@,
            Symbol::BangEqual => "!="@,
            Symbol::Less => "<"@,
            Symbol::LessEqual => "<="@,
            Symbol::Greater => ">"@,
            Symbol::GreaterEqual => ">="@,
            Symbol::OpenParen => "("@,
            Symbol::CloseParen => ")"@,
            Symbol::OpenBracket => "["@,
            Symbol::CloseBracket => "]"@,
            Symbol::Comma => ","@,
            Symbol::Tilde => "~"@,
        }
    }

    /// The name of the symbol, which is its `Debug` form.
    pub open spec fn name(self) -> Seq<char> {
        match self {
            Symbol::Plus => "Plus"@,
            Symbol::Minus => "Minus"@,
            Symbol::Asterisk => "Asterisk"@,
            Symbol::Slash => "Slash"@,
            Symbol::Equal => "Equal"@,
            Symbol::EqualEqual => "EqualEqual"@,
            Symbol::Bang => "Bang"@,
            Symbol::BangEqual => "BangEqual"@,
            Symbol::Less => "Less"@,
            Symbol::LessEqual => "LessEqual"@,
            Symbol::Greater => "Greater"@,
            Symbol::GreaterEqual => "GreaterEqual"@,
            Symbol::OpenParen => "OpenParen"@,
            Symbol::CloseParen => "CloseParen"@,
            Symbol::OpenBracket => "OpenBracket"@,
            Symbol::CloseBracket => "CloseBracket"@,
            Symbol::Comma => "Comma"@,
            Symbol::Tilde => "Tilde"@,
        }
    }

    /// Writes the name of the symbol.
    pub fn debug_text(&self) -> (text: String)
        ensures
            text@ == self.name(),
    {
        match self {
            Symbol::Plus => "Plus".to_owned(),
            Symbol::Minus => "Minus".to_owned(),
            Symbol::Asterisk => "Asterisk".to_owned(),
            Symbol::Slash => "Slash".to_owned(),
            Symbol::Equal => "Equal".to_owned(),
            Symbol::EqualEqual => "EqualEqual".to_owned(),
            Symbol::Bang => "Bang".to_owned(),
            Symbol::BangEqual => "BangEqual".to_owned(),
            Symbol::Less => "Less".to_owned(),
            Symbol::LessEqual => "LessEqual".to_owned(),
            Symbol::Greater => "Greater".to_owned(),
            Symbol::GreaterEqual => "GreaterEqual".to_owned(),
            Symbol::OpenParen => "OpenParen".to_owned(),
            Symbol::CloseParen => "CloseParen".to_owned(),
            Symbol::OpenBracket => "OpenBracket".to_owned(),
            Symbol::CloseBracket => "CloseBracket".to_owned(),
            Symbol::Comma => "Comma".to_owned(),
            Symbol::Tilde => "Tilde".to_owned(),
        }
    }

    /// Renders the symbol in its half-width spelling.
    pub fn to_string(&self) -> (text: String)
        ensures
            text@ == self.spelling(),
    {
        match self {
            Symbol::Plus => "+".to_owned(),
            Symbol::Minus => "-".to_owned(),
            Symbol::Asterisk => "*".to_owned(),
            Symbol::Slash => "/".to_owned(),
            Symbol::Equal => "=".to_owned(),
            Symbol::EqualEqual => "==".to_owned(),
            Symbol::Bang => "!".to_owned(),
            Symbol::BangEqual => "!=".to_owned(),
            Symbol::Less => "<".to_owned(),
            Symbol::LessEqual => "<=".to_owned(),
            Symbol::Greater => ">".to_owned(),
            Symbol::GreaterEqual => ">=".to_owned(),
            Symbol::OpenParen => "(".to_owned(),
            Symbol::CloseParen => ")".to_owned(),
            Symbol::OpenBracket => "[".to_owned(),
            Symbol::CloseBracket => "]".to_owned(),
            Symbol::Comma => ",".to_owned(),
            Symbol::Tilde => "~".to_owned(),
        }
    }
}

} // verus!
