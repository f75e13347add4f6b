use crate::error::{SyntaxError, SyntaxErrorView};
use crate::keyword::{keyword_of, Keyword};
use crate::lexeme::LexemeView;
use crate::symbol::Symbol;
use crate::text::{to_chars, to_text};
use crate::token::{Token, TokenView};
use std::collections::VecDeque;
use vstd::prelude::*;
use vstd::string::*;

verus! {

/// Characters that may open a symbol. The ones that spell no symbol of the
/// language are refused as invalid.
pub open spec fn is_symbol_char(c: char) -> bool {
    c == '+' || c == '＋' || c == '-' || c == '－' || c == '―' || c == 'ー' || c == '‐' || c == '*'
        || c == '＊' || c == '×' || c == '/' || c == '／' || c == '=' || c == '＝' || c == '!'
        || c == '！' || c == '<' || c == '＜' || c == '>' || c == '＞' || c == '&' || c == '＆'
        || c == '|' || c == '｜' || c == '(' || c == '（' || c == ')' || c == '）' || c == '['
        || c == '［' || c == ']' || c == '］' || c == '「' || c == '」' || c == '・' || c == '\\'
        || c == '￥' || c == '~' || c == '～' || c == ':' || c == '：' || c == ';' || c == '；'
        || c == ',' || c == '，' || c == '、' || c == '@' || c == '＠' || c == '$' || c == '＄'
        || c == '%' || c == '％' || c == '^' || c == '＾' || c == '.' || c == '。' || c == '\''
        || c == '’' || c == '{' || c == '｛' || c == '}' || c == '｝' || c == '`' || c == '‘'
}

pub open spec fn is_space_char(c: char) -> bool {
    c == ' ' || c == '　' || c == '\t'
}

pub open spec fn is_newline_char(c: char) -> bool {
    c == '\r' || c == '\n'
}

pub open spec fn is_quote_char(c: char) -> bool {
    c == '"' || c == '”'
}

pub open spec fn is_comment_char(c: char) -> bool {
    c == '#' || c == '＃' || c == '♯'
}

/// Characters that end a word without being symbols: blanks, line ends,
/// quotes and comment markers.
pub open spec fn is_special_char(c: char) -> bool {
    is_space_char(c) || is_newline_char(c) || is_quote_char(c) || is_comment_char(c)
}

pub open spec fn is_digit_char(c: char) -> bool {
    ('0' <= c && c <= '9') || ('０' <= c && c <= '９')
}

pub open spec fn is_escape_char(c: char) -> bool {
    c == '\\' || c == '￥'
}

pub open spec fn is_point_char(c: char) -> bool {
    c == '.' || c == '．'
}

pub open spec fn is_equal_char(c: char) -> bool {
    c == '=' || c == '＝'
}

pub fn is_symbol(c: char) -> (found: bool)
    ensures
        found == is_symbol_char(c),
{
    c == '+' || c == '＋' || c == '-' || c == '－' || c == '―' || c == 'ー' || c == '‐' || c == '*'
        || c == '＊' || c == '×' || c == '/' || c == '／' || c == '=' || c == '＝' || c == '!'
        || c == '！' || c == '<' || c == '＜' || c == '>' || c == '＞' || c == '&' || c == '＆'
        || c == '|' || c == '｜' || c == '(' || c == '（' || c == ')' || c == '）' || c == '['
        || c == '［' || c == ']' || c == '］' || c == '「' || c == '」' || c == '・' || c == '\\'
        || c == '￥' || c == '~' || c == '～' || c == ':' || c == '：' || c == ';' || c == '；'
        || c == ',' || c == '，' || c == '、' || c == '@' || c == '＠' || c == '$' || c == '＄'
        || c == '%' || c == '％' || c == '^' || c == '＾' || c == '.' || c == '。' || c == '\''
        || c == '’' || c == '{' || c == '｛' || c == '}' || c == '｝' || c == '`' || c == '‘'
}

pub fn is_space(c: char) -> (found: bool)
    ensures
        found == is_space_char(c),
{
    c == ' ' || c == '　' || c == '\t'
}

pub fn is_newline(c: char) -> (found: bool)
    ensures
        found == is_newline_char(c),
{
    c == '\r' || c == '\n'
}

pub fn is_quote(c: char) -> (found: bool)
    ensures
        found == is_quote_char(c),
{
    c == '"' || c == '”'
}

pub fn is_comment(c: char) -> (found: bool)
    ensures
        found == is_comment_char(c),
{
    c == '#' || c == '＃' || c == '♯'
}

pub fn is_special(c: char) -> (found: bool)
    ensures
        found == is_special_char(c),
{
    is_space(c) || is_newline(c) || is_quote(c) || is_comment(c)
}

pub fn is_digit(c: char) -> (found: bool)
    ensures
        found == is_digit_char(c),
{
    ('0' <= c && c <= '9') || ('０' <= c && c <= '９')
}

/// The classes of character that a token takes as a whole run.
#[derive(Debug, Clone, Copy, PartialEq, Eq, Structural)]
pub enum CharClass {
    /// Half- and full-width digits.
    Digit,
    /// Spaces and tabs.
    Space,
    /// Whatever is not a line end: the text of a comment.
    CommentText,
    /// Whatever is neither a symbol nor special: the text of a word.
    Word,
}

impl CharClass {
    pub open spec fn holds(self, c: char) -> bool {
        match self {
            CharClass::Digit => is_digit_char(c),
            CharClass::Space => is_space_char(c),
            CharClass::CommentText => !is_newline_char(c),
            CharClass::Word => !is_symbol_char(c) && !is_special_char(c),
        }
    }

    pub fn contains(self, c: char) -> (found: bool)
        ensures
            found == self.holds(c),
    {
        match self {
            CharClass::Digit => is_digit(c),
            CharClass::Space => is_space(c),
            CharClass::CommentText => !is_newline(c),
            CharClass::Word => !is_symbol(c) && !is_special(c),
        }
    }
}

/// Where the longest run of `class` characters that starts at `pos` ends.
pub open spec fn run_end(chars: Seq<char>, pos: int, class: CharClass) -> int
    decreases chars.len() - pos,
{
    if 0 <= pos < chars.len() && class.holds(chars[pos]) {
        run_end(chars, pos + 1, class)
    } else {
        pos
    }
}

/// The symbol that starts at `pos`, with the number of characters it takes.
/// A comparison sign directly followed by an equals sign makes one symbol of
/// two characters.
pub open spec fn symbol_at(chars: Seq<char>, pos: int) -> Option<(Symbol, int)> {
    let c = chars[pos];
    let paired = pos + 1 < chars.len() && is_equal_char(chars[pos + 1]);
    if c == '+' || c == '＋' {
        Some((Symbol::Plus, 1int))
    } else if c == '-' || c == '－' || c == '―' || c == 'ー' || c == '‐' {
        Some((Symbol::Minus, 1int))
    } else if c == '*' || c == '＊' || c == '×' {
        Some((Symbol::Asterisk, 1int))
    } else if c == '/' || c == '／' {
        Some((Symbol::Slash, 1int))
    } else if c == '=' || c == '＝' {
        if paired {
            Some((Symbol::EqualEqual, 2int))
        } else {
            Some((Symbol::Equal, 1int))
        }
    } else if c == '!' || c == '！' {
        if paired {
            Some((Symbol::BangEqual, 2int))
        } else {
            Some((Symbol::Bang, 1int))
        }
    } else if c == '<' || c == '＜' {
        if paired {
            Some((Symbol::LessEqual, 2int))
        } else {
            Some((Symbol::Less, 1int))
        }
    } else if c == '>' || c == '＞' {
        if paired {
            Some((Symbol::GreaterEqual, 2int))
        } else {
            Some((Symbol::Greater, 1int))
        }
    } else if c == '(' || c == '（' {
        Some((Symbol::OpenParen, 1int))
    } else if c == ')' || c == '）' {
        Some((Symbol::CloseParen, 1int))
    } else if c == '[' || c == '［' || c == '「' {
        Some((Symbol::OpenBracket, 1int))
    } else if c == ']' || c == '］' || c == '」' {
        Some((Symbol::CloseBracket, 1int))
    } else if c == ',' || c == '，' || c == '、' {
        Some((Symbol::Comma, 1int))
    } else if c == '~' || c == '～' {
        Some((Symbol::Tilde, 1int))
    } else {
        None
    }
}

/// A token read from the source, or the error that stopped the reading, and
/// where the reading goes on.
pub struct Scanned {
    pub token: Result<TokenView, SyntaxErrorView>,
    pub next: int,
}

pub open spec fn scan_symbol(chars: Seq<char>, pos: int) -> Scanned {
    match symbol_at(chars, pos) {
        Some((symbol, width)) => Scanned {
            token: Ok(TokenView::at(LexemeView::Symbol(symbol), pos as usize)),
            next: pos + width,
        },
        None => Scanned {
            token: Err(SyntaxErrorView::invalid_char(chars[pos], pos as usize)),
            next: pos + 1,
        },
    }
}

/// Reads on in a string literal from `pos`, with `content` read so far:
/// the whole content and the place after the closing quote. An escape
/// character takes the character after it as it is; a literal that the
/// source ends in is closed by the end.
pub open spec fn string_body(chars: Seq<char>, pos: int, content: Seq<char>) -> (Seq<char>, int)
    decreases chars.len() - pos,
{
    if pos < 0 || pos >= chars.len() {
        (content, pos)
    } else if is_escape_char(chars[pos]) {
        if pos + 1 < chars.len() {
            string_body(chars, pos + 2, content.push(chars[pos + 1]))
        } else {
            (content, pos + 1)
        }
    } else if is_quote_char(chars[pos]) {
        (content, pos + 1)
    } else {
        string_body(chars, pos + 1, content.push(chars[pos]))
    }
}

pub open spec fn scan_string(chars: Seq<char>, pos: int) -> Scanned {
    let (content, next) = string_body(chars, pos + 1, Seq::empty());
    Scanned {
        token: Ok(TokenView::at(LexemeView::String(content), (pos + 1) as usize)),
        next,
    }
}

/// Where the number that starts at `pos` ends: after its digits, and after
/// one decimal point with the digits behind it if one follows.
pub open spec fn number_end(chars: Seq<char>, pos: int) -> int {
    let whole = run_end(chars, pos, CharClass::Digit);
    if 0 <= whole < chars.len() && is_point_char(chars[whole]) {
        run_end(chars, whole + 1, CharClass::Digit)
    } else {
        whole
    }
}

pub open spec fn scan_number(chars: Seq<char>, pos: int) -> Scanned {
    let next = number_end(chars, pos);
    Scanned {
        token: Ok(TokenView::at(LexemeView::Number(chars.subrange(pos, next)), pos as usize)),
        next,
    }
}

/// A run of spaces and tabs is one token that is as wide as the run is
/// long: a tab and an ideographic space count like any other space.
pub open spec fn scan_spaces(chars: Seq<char>, pos: int) -> Scanned {
    let next = run_end(chars, pos, CharClass::Space);
    Scanned {
        token: Ok(TokenView::at(LexemeView::Spaces((next - pos) as usize), pos as usize)),
        next,
    }
}

pub open spec fn scan_newline(chars: Seq<char>, pos: int) -> Scanned {
    Scanned { token: Ok(TokenView::synthetic(LexemeView::Newline)), next: pos + 1 }
}

pub open spec fn scan_comment(chars: Seq<char>, pos: int) -> Scanned {
    Scanned {
        token: Ok(TokenView::at(LexemeView::Comment, pos as usize)),
        next: run_end(chars, pos, CharClass::CommentText),
    }
}

/// A word is a keyword where it is spelled like one; any other word is an
/// identifier.
pub open spec fn word_lexeme(text: Seq<char>) -> LexemeView {
    match keyword_of(text) {
        Some(keyword) => LexemeView::Keyword(keyword),
        None => LexemeView::Identifier(text),
    }
}

pub open spec fn scan_word(chars: Seq<char>, pos: int) -> Scanned {
    if 0 <= pos < chars.len() && is_special_char(chars[pos]) {
        Scanned { token: Err(SyntaxErrorView::invalid_char(chars[pos], pos as usize)), next: pos }
    } else {
        let next = run_end(chars, pos, CharClass::Word);
        Scanned {
            token: Ok(TokenView::at(word_lexeme(chars.subrange(pos, next)), pos as usize)),
            next,
        }
    }
}

/// The token that starts at `pos`, chosen by its first character.
pub open spec fn scan_token(chars: Seq<char>, pos: int) -> Scanned {
    let c = chars[pos];
    if is_symbol_char(c) {
        scan_symbol(chars, pos)
    } else if is_quote_char(c) {
        scan_string(chars, pos)
    } else if is_digit_char(c) {
        scan_number(chars, pos)
    } else if is_space_char(c) {
        scan_spaces(chars, pos)
    } else if is_newline_char(c) {
        scan_newline(chars, pos)
    } else if is_comment_char(c) {
        scan_comment(chars, pos)
    } else {
        scan_word(chars, pos)
    }
}

/// The tokens of `chars` from `pos` to the end, or the first error. (A
/// token that is read takes at least one character and ends within the
/// text, by `lemma_scan_token`, so the reading always goes on behind it.)
pub open spec fn scan_all(chars: Seq<char>, pos: int) -> Result<Seq<TokenView>, SyntaxErrorView>
    decreases chars.len() - pos,
{
    if pos < 0 || pos >= chars.len() {
        Ok(Seq::empty())
    } else {
        let step = scan_token(chars, pos);
        match step.token {
            Err(error) => Err(error),
            Ok(token) => if step.next <= pos || step.next > chars.len() {
                Ok(seq![token])
            } else {
                match scan_all(chars, step.next) {
                    Ok(rest) => Ok(seq![token] + rest),
                    Err(error) => Err(error),
                }
            },
        }
    }
}

/// A run never ends before it starts nor behind the end of the text, holds
/// only characters of its class, and is not followed by one.
pub proof fn lemma_run_end(chars: Seq<char>, pos: int, class: CharClass)
    requires
        0 <= pos <= chars.len(),
    ensures
        pos <= run_end(chars, pos, class) <= chars.len(),
        forall|i: int| pos <= i < run_end(chars, pos, class) ==> class.holds(#[trigger] chars[i]),
        run_end(chars, pos, class) < chars.len() ==> !class.holds(
            chars[run_end(chars, pos, class)],
        ),
    decreases chars.len() - pos,
{
    if pos < chars.len() && class.holds(chars[pos]) {
        lemma_run_end(chars, pos + 1, class);
    }
}

/// A string literal ends behind its opening quote and within the text.
pub proof fn lemma_string_body(chars: Seq<char>, pos: int, content: Seq<char>)
    requires
        0 <= pos <= chars.len(),
    ensures
        pos <= string_body(chars, pos, content).1 <= chars.len(),
    decreases chars.len() - pos,
{
    if pos < chars.len() {
        if is_escape_char(chars[pos]) {
            if pos + 1 < chars.len() {
                lemma_string_body(chars, pos + 2, content.push(chars[pos + 1]));
            }
        } else if !is_quote_char(chars[pos]) {
            lemma_string_body(chars, pos + 1, content.push(chars[pos]));
        }
    }
}

/// Every token that is read takes at least one character and ends within
/// the text, and it is never a block marker.
pub proof fn lemma_scan_token(chars: Seq<char>, pos: int)
    requires
        0 <= pos < chars.len(),
    ensures
        scan_token(chars, pos).token is Ok ==> pos < scan_token(chars, pos).next <= chars.len(),
        scan_token(chars, pos).token matches Ok(token) ==> !token.lexeme.is_offside_marker(),
{
    lemma_run_end(chars, pos, CharClass::Digit);
    let whole = run_end(chars, pos, CharClass::Digit);
    if whole < chars.len() {
        lemma_run_end(chars, whole + 1, CharClass::Digit);
    }
    lemma_run_end(chars, pos, CharClass::Space);
    lemma_run_end(chars, pos, CharClass::CommentText);
    lemma_run_end(chars, pos, CharClass::Word);
    lemma_string_body(chars, pos + 1, Seq::empty());
}

/// Scanning makes no block markers: those come from the indentation alone.
pub proof fn lemma_scan_all_has_no_offside_marker(chars: Seq<char>, pos: int)
    requires
        0 <= pos <= chars.len(),
    ensures
        scan_all(chars, pos) matches Ok(tokens) ==> forall|i: int|
            0 <= i < tokens.len() ==> !(#[trigger] tokens[i]).lexeme.is_offside_marker(),
    decreases chars.len() - pos,
{
    if pos < chars.len() {
        lemma_scan_token(chars, pos);
        let step = scan_token(chars, pos);
        if step.token is Ok && step.next > pos {
            lemma_scan_all_has_no_offside_marker(chars, step.next);
        }
    }
}

/// Reads a source text token by token.
pub struct Scanner {
    chars: Vec<char>,
    cursor: usize,
}

/// The mathematical value of a [`Scanner`]: the characters of the source and
/// how many of them were read.
pub struct ScannerView {
    pub chars: Seq<char>,
    pub cursor: int,
}

impl View for Scanner {
    type V = ScannerView;

    closed spec fn view(&self) -> ScannerView {
        ScannerView { chars: self.chars@, cursor: self.cursor as int }
    }
}

impl Scanner {
    #[verifier::type_invariant]
    spec fn within_source(self) -> bool {
        self.cursor <= self.chars.len()
    }

    /// A scanner at the start of `source`.
    pub fn new(source: &str) -> (scanner: Scanner)
        ensures
            scanner@ == (ScannerView { chars: source@, cursor: 0 }),
    {
        Scanner { chars: to_chars(source), cursor: 0 }
    }

    /// The character under the cursor, if the source goes on.
    pub fn peek_char(&self) -> (c: Option<&char>)
        ensures
            c == if self@.cursor < self@.chars.len() {
                Some(&self@.chars[self@.cursor])
            } else {
                None
            },
    {
        if self.cursor < self.chars.len() {
            Some(&self.chars[self.cursor])
        } else {
            None
        }
    }

    /// Takes the character under the cursor, if the source goes on.
    pub fn next_char(&mut self) -> (c: Option<char>)
        ensures
            final(self)@.chars == old(self)@.chars,
            old(self)@.cursor < old(self)@.chars.len() ==> c == Some(
                old(self)@.chars[old(self)@.cursor],
            ) && final(self)@.cursor == old(self)@.cursor + 1,
            old(self)@.cursor >= old(self)@.chars.len() ==> c.is_none() && final(self)@.cursor
                == old(self)@.cursor,
    {
        if self.cursor < self.chars.len() {
            let c = self.chars[self.cursor];
            self.cursor += 1;
            Some(c)
        } else {
            None
        }
    }

    /// Moves the cursor behind the run of `class` characters that it stands
    /// at.
    fn skip_run(&mut self, class: CharClass)
        ensures
            final(self)@.chars == old(self)@.chars,
            final(self)@.cursor == run_end(old(self)@.chars, old(self)@.cursor, class),
    {
        proof {
            use_type_invariant(&*self);
        }
        while self.cursor < self.chars.len() && class.contains(self.chars[self.cursor])
            invariant
                self.chars == old(self).chars,
                old(self).cursor <= self.cursor <= self.chars.len(),
                run_end(self.chars@, self.cursor as int, class) == run_end(
                    old(self).chars@,
                    old(self).cursor as int,
                    class,
                ),
            decreases self.chars.len() - self.cursor,
        {
            self.cursor += 1;
        }
    }

    fn drain_symbol(&mut self) -> (token: Result<Token, SyntaxError>)
        requires
            old(self).cursor < old(self).chars.len(),
        ensures
            final(self)@.chars == old(self)@.chars,
            final(self)@.cursor == scan_symbol(old(self)@.chars, old(self)@.cursor).next,
            result_view(token) == scan_symbol(old(self)@.chars, old(self)@.cursor).token,
    {
        let position = self.cursor;
        let c = self.chars[self.cursor];
        self.cursor += 1;
        let paired = self.cursor < self.chars.len() && (self.chars[self.cursor] == '='
            || self.chars[self.cursor] == '＝');
        let symbol = if c == '+' || c == '＋' {
            Symbol::Plus
        } else if c == '-' || c == '－' || c == '―' || c == 'ー' || c == '‐' {
            Symbol::Minus
        } else if c == '*' || c == '＊' || c == '×' {
            Symbol::Asterisk
        } else if c == '/' || c == '／' {
            Symbol::Slash
        } else if c == '=' || c == '＝' {
            if paired {
                self.cursor += 1;
                Symbol::EqualEqual
            } else {
                Symbol::Equal
            }
        } else if c == '!' || c == '！' {
            if paired {
                self.cursor += 1;
                Symbol::BangEqual
            } else {
                Symbol::Bang
            }
        } else if c == '<' || c == '＜' {
            if paired {
                self.cursor += 1;
                Symbol::LessEqual
            } else {
                Symbol::Less
            }
        } else if c == '>' || c == '＞' {
            if paired {
                self.cursor += 1;
                Symbol::GreaterEqual
            } else {
                Symbol::Greater
            }
        } else if c == '(' || c == '（' {
            Symbol::OpenParen
        } else if c == ')' || c == '）' {
            Symbol::CloseParen
        } else if c == '[' || c == '［' || c == '「' {
            Symbol::OpenBracket
        } else if c == ']' || c == '］' || c == '」' {
            Symbol::CloseBracket
        } else if c == ',' || c == '，' || c == '、' {
            Symbol::Comma
        } else if c == '~' || c == '～' {
            Symbol::Tilde
        } else {
            return Err(SyntaxError::invalid_char(c, position));
        };
        Ok(Token::symbol(symbol, position))
    }

    fn drain_string(&mut self) -> (token: Result<Token, SyntaxError>)
        requires
            old(self).cursor < old(self).chars.len(),
        ensures
            final(self)@.chars == old(self)@.chars,
            final(self)@.cursor == scan_string(old(self)@.chars, old(self)@.cursor).next,
            result_view(token) == scan_string(old(self)@.chars, old(self)@.cursor).token,
    {
        let mut content = String::new();
        self.cursor += 1;
        let position = self.cursor;
        let ghost start = self.cursor as int;
        loop
            invariant_except_break
                string_body(self.chars@, self.cursor as int, content@) == string_body(
                    self.chars@,
                    start,
                    Seq::empty(),
                ),
            invariant
                self.chars == old(self).chars,
                self.cursor <= self.chars.len(),
            ensures
                (content@, self.cursor as int) == string_body(self.chars@, start, Seq::empty()),
            decreases self.chars.len() - self.cursor,
        {
            if self.cursor >= self.chars.len() {
                break;
            }
            let c = self.chars[self.cursor];
            self.cursor += 1;
            if c == '\\' || c == '￥' {
                if self.cursor < self.chars.len() {
                    content.push(self.chars[self.cursor]);
                    self.cursor += 1;
                } else {
                    break;
                }
            } else if c == '"' || c == '”' {
                break;
            } else {
                content.push(c);
            }
        }
        Ok(Token::string(content, position))
    }

    /// Takes the digits under the cursor.
    fn drain_digits_as_string(&mut self) -> (digits: String)
        ensures
            final(self)@.chars == old(self)@.chars,
            final(self)@.cursor == run_end(old(self)@.chars, old(self)@.cursor, CharClass::Digit),
            digits@ == old(self)@.chars.subrange(old(self)@.cursor, final(self)@.cursor),
    {
        proof {
            use_type_invariant(&*self);
            lemma_run_end(self.chars@, self.cursor as int, CharClass::Digit);
        }
        let start = self.cursor;
        self.skip_run(CharClass::Digit);
        to_text(&self.chars, start, self.cursor)
    }

    fn drain_number(&mut self) -> (token: Token)
        ensures
            final(self)@.chars == old(self)@.chars,
            final(self)@.cursor == scan_number(old(self)@.chars, old(self)@.cursor).next,
            Ok::<TokenView, SyntaxErrorView>(token@) == scan_number(
                old(self)@.chars,
                old(self)@.cursor,
            ).token,
    {
        proof {
            use_type_invariant(&*self);
            lemma_run_end(self.chars@, self.cursor as int, CharClass::Digit);
        }
        let position = self.cursor;
        let mut number = self.drain_digits_as_string();
        if self.cursor < self.chars.len() && (self.chars[self.cursor] == '.'
            || self.chars[self.cursor] == '．') {
            proof {
                lemma_run_end(self.chars@, self.cursor + 1, CharClass::Digit);
            }
            number.push(self.chars[self.cursor]);
            self.cursor += 1;
            let fraction = self.drain_digits_as_string();
            number.append(fraction.as_str());
            assert(number@ =~= self.chars@.subrange(position as int, self.cursor as int));
        }
        Token::number(number, position)
    }

    fn drain_spaces_and_tabs(&mut self) -> (token: Token)
        ensures
            final(self)@.chars == old(self)@.chars,
            final(self)@.cursor == scan_spaces(old(self)@.chars, old(self)@.cursor).next,
            Ok::<TokenView, SyntaxErrorView>(token@) == scan_spaces(
                old(self)@.chars,
                old(self)@.cursor,
            ).token,
    {
        proof {
            use_type_invariant(&*self);
            lemma_run_end(self.chars@, self.cursor as int, CharClass::Space);
        }
        let position = self.cursor;
        self.skip_run(CharClass::Space);
        Token::spaces(self.cursor - position, position)
    }

    fn drain_newline(&mut self) -> (token: Token)
        requires
            old(self).cursor < old(self).chars.len(),
        ensures
            final(self)@.chars == old(self)@.chars,
            final(self)@.cursor == scan_newline(old(self)@.chars, old(self)@.cursor).next,
            Ok::<TokenView, SyntaxErrorView>(token@) == scan_newline(
                old(self)@.chars,
                old(self)@.cursor,
            ).token,
    {
        self.cursor += 1;
        Token::newline()
    }

    fn drain_comment(&mut self) -> (token: Token)
        ensures
            final(self)@.chars == old(self)@.chars,
            final(self)@.cursor == scan_comment(old(self)@.chars, old(self)@.cursor).next,
            Ok::<TokenView, SyntaxErrorView>(token@) == scan_comment(
                old(self)@.chars,
                old(self)@.cursor,
            ).token,
    {
        let position = self.cursor;
        self.skip_run(CharClass::CommentText);
        Token::comment(position)
    }

    fn drain_keyword_or_identifier(&mut self) -> (token: Result<Token, SyntaxError>)
        ensures
            final(self)@.chars == old(self)@.chars,
            final(self)@.cursor == scan_word(old(self)@.chars, old(self)@.cursor).next,
            result_view(token) == scan_word(old(self)@.chars, old(self)@.cursor).token,
    {
        proof {
            use_type_invariant(&*self);
            lemma_run_end(self.chars@, self.cursor as int, CharClass::Word);
        }
        if self.cursor < self.chars.len() && is_special(self.chars[self.cursor]) {
            return Err(SyntaxError::invalid_char(self.chars[self.cursor], self.cursor));
        }
        let position = self.cursor;
        self.skip_run(CharClass::Word);
        let mut word: Vec<char> = Vec::new();
        let mut index: usize = position;
        while index < self.cursor
            invariant
                position <= index <= self.cursor <= self.chars.len(),
                word@ =~= self.chars@.subrange(position as int, index as int),
            decreases self.cursor - index,
        {
            word.push(self.chars[index]);
            index += 1;
        }
        Ok(
            match Keyword::lookup(&word) {
                Some(keyword) => Token::keyword(keyword, position),
                None => Token::identifier(to_text(&self.chars, position, self.cursor), position),
            },
        )
    }

    /// Reads the next token: `None` at the end of the source, else the token
    /// that starts under the cursor, or the error that its first characters
    /// give.
    pub fn next(&mut self) -> (token: Option<Result<Token, SyntaxError>>)
        ensures
            final(self)@.chars == old(self)@.chars,
            old(self)@.cursor >= old(self)@.chars.len() ==> token.is_none() && final(self)@
                == old(self)@,
            old(self)@.cursor < old(self)@.chars.len() ==> token.is_some() && result_view(
                token.unwrap(),
            ) == scan_token(old(self)@.chars, old(self)@.cursor).token && final(self)@.cursor
                == scan_token(old(self)@.chars, old(self)@.cursor).next,
    {
        if self.cursor >= self.chars.len() {
            return None;
        }
        let c = self.chars[self.cursor];
        Some(
            if is_symbol(c) {
                self.drain_symbol()
            } else if is_quote(c) {
                self.drain_string()
            } else if is_digit(c) {
                Ok(self.drain_number())
            } else if is_space(c) {
                Ok(self.drain_spaces_and_tabs())
            } else if is_newline(c) {
                Ok(self.drain_newline())
            } else if is_comment(c) {
                Ok(self.drain_comment())
            } else {
                self.drain_keyword_or_identifier()
            },
        )
    }

    /// Reads all the tokens that are left, up to the first error.
    pub fn collect(self) -> (tokens: Result<VecDeque<Token>, SyntaxError>)
        ensures
            queue_result_view(tokens) == scan_all(self@.chars, self@.cursor),
    {
        let mut scanner = self;
        let mut tokens: VecDeque<Token> = VecDeque::new();
        let ghost chars = self@.chars;
        let ghost start = self@.cursor;
        proof {
            use_type_invariant(&scanner);
        }
        loop
            invariant
                chars == self@.chars,
                start == self@.cursor,
                scanner@.chars == chars,
                0 <= scanner@.cursor <= chars.len(),
                scan_all(chars, start) == prepend(
                    crate::token::token_views(tokens@),
                    scan_all(chars, scanner@.cursor),
                ),
            decreases chars.len() - scanner@.cursor,
        {
            let ghost before = scanner@.cursor;
            match scanner.next() {
                None => {
                    assert(crate::token::token_views(tokens@) + Seq::empty()
                        =~= crate::token::token_views(tokens@));
                    return Ok(tokens);
                },
                Some(Err(error)) => {
                    return Err(error);
                },
                Some(Ok(token)) => {
                    proof {
                        lemma_scan_token(chars, before);
                        let rest = scan_all(chars, scanner@.cursor);
                        let earlier = crate::token::token_views(tokens@);
                        assert(crate::token::token_views(tokens@.push(token)) =~= earlier.push(
                            token@,
                        ));
                        if let Ok(rest) = rest {
                            assert(earlier + (seq![token@] + rest) =~= earlier.push(token@) + rest);
                        }
                    }
                    tokens.push_back(token);
                },
            }
        }
    }
}

/// The value of a result that holds a token.
pub open spec fn result_view(token: Result<Token, SyntaxError>) -> Result<
    TokenView,
    SyntaxErrorView,
> {
    match token {
        Ok(token) => Ok(token@),
        Err(error) => Err(error@),
    }
}

/// The value of a result that holds a queue of tokens.
pub open spec fn queue_result_view(tokens: Result<VecDeque<Token>, SyntaxError>) -> Result<
    Seq<TokenView>,
    SyntaxErrorView,
> {
    match tokens {
        Ok(tokens) => Ok(crate::token::token_views(tokens@)),
        Err(error) => Err(error@),
    }
}

/// `earlier` put in front of the tokens of `rest`, where it holds tokens.
pub open spec fn prepend(
    earlier: Seq<TokenView>,
    rest: Result<Seq<TokenView>, SyntaxErrorView>,
) -> Result<Seq<TokenView>, SyntaxErrorView> {
    match rest {
        Ok(rest) => Ok(earlier + rest),
        Err(error) => Err(error),
    }
}

} // verus!
