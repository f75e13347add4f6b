use crate::error::{SyntaxError, SyntaxErrorView};
use crate::lexeme::{Lexeme, LexemeView};
use crate::sanitizer::{has_no_filler, marker_count, sanitize, sanitized, well_nested};
use crate::scanner::{lemma_scan_all_has_no_offside_marker, scan_all, Scanner};
use crate::token::{token_views, Token, TokenView};
use std::collections::VecDeque;
use vstd::prelude::*;

verus! {

/// The normalised tokens of the source text `source`: what scanning gives,
/// normalised by indentation; or the first error of either.
pub open spec fn tokenized(source: Seq<char>) -> Result<Seq<TokenView>, SyntaxErrorView> {
    match scan_all(source, 0) {
        Ok(raw) => sanitized(raw).0,
        Err(error) => Err(error),
    }
}

/// Whatever the source, its normalised tokens open as many blocks as they
/// close, their block markers nest, and they hold neither spaces nor
/// comments.
pub proof fn lemma_tokenized_balanced(source: Seq<char>)
    ensures
        tokenized(source) matches Ok(tokens) ==> marker_count(tokens, LexemeView::Indent)
            == marker_count(tokens, LexemeView::Dedent) && well_nested(tokens) && has_no_filler(
            tokens,
        ),
{
    lemma_scan_all_has_no_offside_marker(source, 0);
    if let Ok(raw) = scan_all(source, 0) {
        crate::sanitizer::lemma_sanitized_balanced(raw);
        crate::sanitizer::lemma_sanitized_nested(raw);
    }
}

/// Whatever the source, its normalised tokens hold every token that
/// scanning gives, other than spaces, comments and newlines, unchanged and
/// in its order.
pub proof fn lemma_tokenized_keeps_content(source: Seq<char>)
    ensures
        tokenized(source) matches Ok(tokens) ==> scan_all(source, 0) matches Ok(raw)
            && crate::sanitizer::content_of(tokens) == crate::sanitizer::content_of(raw),
{
    if let Ok(raw) = scan_all(source, 0) {
        crate::sanitizer::lemma_sanitized_keeps_content(raw);
    }
}

/// The normalised tokens of a program, read from the front.
#[derive(Debug)]
pub struct Tokens {
    queue: VecDeque<Token>,
}

impl View for Tokens {
    type V = Seq<TokenView>;

    closed spec fn view(&self) -> Seq<TokenView> {
        token_views(self.queue@)
    }
}

impl Tokens {
    /// The cursor over the tokens of `queue`.
    pub fn new(queue: VecDeque<Token>) -> (tokens: Tokens)
        ensures
            tokens@ == token_views(queue@),
    {
        Tokens { queue }
    }

    /// Scans and normalises the source text `s`.
    pub fn from_str(s: &str) -> (tokens: Result<Tokens, SyntaxError>)
        ensures
            match tokenized(s@) {
                Ok(normalised) => tokens is Ok && tokens->Ok_0@ == normalised,
                Err(error) => tokens is Err && tokens->Err_0@ == error,
            },
            tokens matches Ok(normalised) ==> marker_count(normalised@, LexemeView::Indent)
                == marker_count(normalised@, LexemeView::Dedent) && well_nested(normalised@)
                && has_no_filler(normalised@),
    {
        proof {
            lemma_tokenized_balanced(s@);
        }
        let scanner = Scanner::new(s);
        let mut raw = match scanner.collect() {
            Ok(raw) => raw,
            Err(error) => {
                return Err(error);
            },
        };
        match sanitize(&mut raw) {
            Ok(queue) => Ok(Tokens { queue }),
            Err(error) => Err(error),
        }
    }

    pub fn len(&self) -> (len: usize)
        ensures
            len == self@.len(),
    {
        self.queue.len()
    }

    /// The token at the front, if any is left.
    pub fn front(&self) -> (token: Option<&Token>)
        ensures
            self@.len() == 0 ==> token.is_none(),
            self@.len() > 0 ==> token.is_some() && token.unwrap()@ == self@[0],
    {
        if self.queue.len() > 0 {
            Some(&self.queue[0])
        } else {
            None
        }
    }

    /// Takes the token at the front, if any is left.
    pub fn shift(&mut self) -> (token: Option<Token>)
        ensures
            old(self)@.len() == 0 ==> token.is_none() && final(self)@ == old(self)@,
            old(self)@.len() > 0 ==> token.is_some() && token.unwrap()@ == old(self)@[0]
                && final(self)@ == old(self)@.drop_first(),
    {
        let token = self.queue.pop_front();
        proof {
            if old(self)@.len() > 0 {
                assert(token_views(self.queue@) =~= token_views(old(self).queue@).drop_first());
            }
        }
        token
    }

    /// The token `index` places behind the front, if there is one.
    pub fn get(&self, index: usize) -> (token: Option<&Token>)
        ensures
            index >= self@.len() ==> token.is_none(),
            index < self@.len() ==> token.is_some() && token.unwrap()@ == self@[index as int],
    {
        if index < self.queue.len() {
            Some(&self.queue[index])
        } else {
            None
        }
    }

    /// Takes the token at the front if its lexeme is `lexeme`, and leaves
    /// the tokens as they are otherwise.
    pub fn consume(&mut self, lexeme: Lexeme) -> (taken: Result<(), ()>)
        ensures
            taken is Ok <==> starts_with(old(self)@, lexeme@),
            taken is Ok ==> final(self)@ == old(self)@.drop_first(),
            taken is Err ==> final(self)@ == old(self)@,
    {
        if self.queue.len() > 0 && self.queue[0].lexeme == lexeme {
            let _ = self.shift();
            Ok(())
        } else {
            Err(())
        }
    }
}

/// Whether the first of `tokens` has the lexeme `lexeme`.
pub open spec fn starts_with(tokens: Seq<TokenView>, lexeme: LexemeView) -> bool {
    tokens.len() > 0 && tokens[0].lexeme == lexeme
}

} // verus!
