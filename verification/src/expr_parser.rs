use crate::error::{SyntaxError, SyntaxErrorView};
use crate::keyword::Keyword;
use crate::lexeme::{Lexeme, LexemeView};
use crate::node::{all_well_placed, node_views, BinaryOperator, Node, NodeView};
use crate::symbol::Symbol;
use crate::token::{Token, TokenView};
use crate::tokens::{starts_with, Tokens};
use vstd::prelude::*;

verus! {

/// What parsing one node gives: the node or the error, and the tokens that
/// are left.
pub struct Parsed {
    pub node: Result<NodeView, SyntaxErrorView>,
    pub rest: Seq<TokenView>,
}

/// What parsing a list of nodes gives: the nodes or the error, and the
/// tokens that are left.
pub struct ParsedList {
    pub nodes: Result<Seq<NodeView>, SyntaxErrorView>,
    pub rest: Seq<TokenView>,
}

/// `rest`, which is what was left of `tokens`. (Parsing never adds tokens,
/// so this is `rest` itself: see `lemma_parse_level` and the lemmas beside
/// it. Written out, it lets the grammar below be defined by recursion on the
/// number of tokens.)
pub open spec fn within(rest: Seq<TokenView>, tokens: Seq<TokenView>) -> Seq<TokenView> {
    if rest.len() <= tokens.len() {
        rest
    } else {
        tokens
    }
}

/// The number of operator levels. From the loosest to the tightest:
/// or, and, equality, relational, additive, multiplicative.
pub open spec fn operator_levels() -> nat {
    6
}

/// The operator that `lexeme` spells at precedence level `level`, if any.
pub open spec fn level_operator(level: nat, lexeme: LexemeView) -> Option<BinaryOperator> {
    if level == 0 && lexeme == LexemeView::Keyword(Keyword::Or) {
        Some(BinaryOperator::Or)
    } else if level == 1 && lexeme == LexemeView::Keyword(Keyword::And) {
        Some(BinaryOperator::And)
    } else if level == 2 && lexeme == LexemeView::Symbol(Symbol::EqualEqual) {
        Some(BinaryOperator::Equal)
    } else if level == 2 && lexeme == LexemeView::Symbol(Symbol::BangEqual) {
        Some(BinaryOperator::NotEqual)
    } else if level == 3 && lexeme == LexemeView::Symbol(Symbol::Less) {
        Some(BinaryOperator::LessThan)
    } else if level == 3 && lexeme == LexemeView::Symbol(Symbol::LessEqual) {
        Some(BinaryOperator::LessThanOrEqual)
    } else if level == 3 && lexeme == LexemeView::Symbol(Symbol::Greater) {
        Some(BinaryOperator::GreaterThan)
    } else if level == 3 && lexeme == LexemeView::Symbol(Symbol::GreaterEqual) {
        Some(BinaryOperator::GreaterThanOrEqual)
    } else if level == 4 && lexeme == LexemeView::Symbol(Symbol::Plus) {
        Some(BinaryOperator::Add)
    } else if level == 4 && lexeme == LexemeView::Symbol(Symbol::Minus) {
        Some(BinaryOperator::Subtract)
    } else if level == 5 && lexeme == LexemeView::Symbol(Symbol::Asterisk) {
        Some(BinaryOperator::Multiply)
    } else if level == 5 && lexeme == LexemeView::Symbol(Symbol::Slash) {
        Some(BinaryOperator::Divide)
    } else {
        None
    }
}

/// The operator of level `level` at the front of `tokens`, if one is there.
pub open spec fn front_operator(tokens: Seq<TokenView>, level: nat) -> Option<BinaryOperator> {
    if tokens.len() > 0 {
        level_operator(level, tokens[0].lexeme)
    } else {
        None
    }
}

/// How far an expression of level `level` stands above a terminal: what the
/// definitions below descend by where no token is taken.
pub open spec fn level_height(level: nat) -> int {
    if level >= operator_levels() {
        12
    } else {
        30 - 3 * level
    }
}

/// An expression.
pub open spec fn parse_expression_spec(tokens: Seq<TokenView>) -> Parsed {
    parse_level(tokens, 0)
}

/// An expression whose operators are of level `level` or tighter: operands
/// of the next level, joined from the left by operators of this one.
pub open spec fn parse_level(tokens: Seq<TokenView>, level: nat) -> Parsed
    decreases tokens.len(), level_height(level),
{
    if level >= operator_levels() {
        parse_unary_spec(tokens)
    } else {
        let first = parse_level(tokens, level + 1);
        match first.node {
            Ok(left) => parse_level_tail(within(first.rest, tokens), level, left),
            Err(_) => first,
        }
    }
}

/// Goes on behind the operand `left` of an expression of level `level`: as
/// long as an operator of that level follows, it joins what was read with
/// the operand behind it.
pub open spec fn parse_level_tail(tokens: Seq<TokenView>, level: nat, left: NodeView) -> Parsed
    decreases tokens.len(), 0int,
{
    match front_operator(tokens, level) {
        Some(operator) => {
            let operand = parse_level(tokens.drop_first(), level + 1);
            match operand.node {
                Ok(right) => parse_level_tail(
                    within(operand.rest, tokens.drop_first()),
                    level,
                    NodeView::binary(operator, left, right),
                ),
                Err(_) => operand,
            }
        },
        None => Parsed { node: Ok(left), rest: tokens },
    }
}

/// A primary expression, or one behind a sign: `-x` stands for `0 - x`.
pub open spec fn parse_unary_spec(tokens: Seq<TokenView>) -> Parsed
    decreases tokens.len(), 11int,
{
    if starts_with(tokens, LexemeView::Symbol(Symbol::Minus)) {
        let operand = parse_primary_spec(tokens.drop_first());
        match operand.node {
            Ok(node) => Parsed {
                node: Ok(
                    NodeView::binary(BinaryOperator::Subtract, NodeView::Number("0"@), node),
                ),
                rest: operand.rest,
            },
            Err(_) => operand,
        }
    } else if starts_with(tokens, LexemeView::Symbol(Symbol::Bang)) {
        let operand = parse_primary_spec(tokens.drop_first());
        match operand.node {
            Ok(node) => Parsed { node: Ok(NodeView::Not(Box::new(node))), rest: operand.rest },
            Err(_) => operand,
        }
    } else {
        parse_primary_spec(tokens)
    }
}

/// `node` as the result if a closing parenthesis follows, which is taken.
pub open spec fn close_paren(tokens: Seq<TokenView>, node: NodeView) -> Parsed {
    if starts_with(tokens, LexemeView::Symbol(Symbol::CloseParen)) {
        Parsed { node: Ok(node), rest: tokens.drop_first() }
    } else {
        Parsed { node: Err(SyntaxErrorView::unexpected_front(tokens)), rest: tokens }
    }
}

/// An expression in parentheses, or a terminal.
pub open spec fn parse_primary_spec(tokens: Seq<TokenView>) -> Parsed
    decreases tokens.len(), 10int,
{
    if starts_with(tokens, LexemeView::Symbol(Symbol::OpenParen)) {
        let inner = parse_level(tokens.drop_first(), 0);
        match inner.node {
            Ok(node) => close_paren(inner.rest, node),
            Err(_) => inner,
        }
    } else {
        parse_terminal_spec(tokens)
    }
}

/// A literal, a variable, a call, a list, or one of the built-in forms
/// `長さ(operand)` and `配列(list, index)`.
pub open spec fn parse_terminal_spec(tokens: Seq<TokenView>) -> Parsed
    decreases tokens.len(), 9int,
{
    if tokens.len() == 0 {
        Parsed { node: Err(SyntaxErrorView::unexpected_end()), rest: tokens }
    } else {
        let rest = tokens.drop_first();
        match tokens[0].lexeme {
            LexemeView::Identifier(name) => {
                if starts_with(rest, LexemeView::Symbol(Symbol::OpenParen)) {
                    let args = parse_arguments(rest.drop_first(), Symbol::CloseParen, Seq::empty());
                    match args.nodes {
                        Ok(nodes) => Parsed {
                            node: Ok(NodeView::Call { name, args: nodes }),
                            rest: args.rest,
                        },
                        Err(error) => Parsed { node: Err(error), rest: args.rest },
                    }
                } else {
                    Parsed { node: Ok(NodeView::Variable(name)), rest }
                }
            },
            LexemeView::Symbol(Symbol::OpenBracket) => parse_list_spec(rest),
            LexemeView::Number(digits) => Parsed { node: Ok(NodeView::Number(digits)), rest },
            LexemeView::String(content) => Parsed { node: Ok(NodeView::String(content)), rest },
            LexemeView::Keyword(Keyword::Null) => Parsed { node: Ok(NodeView::Null), rest },
            LexemeView::Keyword(Keyword::True) => Parsed { node: Ok(NodeView::Bool(true)), rest },
            LexemeView::Keyword(Keyword::False) => Parsed { node: Ok(NodeView::Bool(false)), rest },
            LexemeView::Keyword(Keyword::Length) => {
                if !starts_with(rest, LexemeView::Symbol(Symbol::OpenParen)) {
                    Parsed { node: Err(SyntaxErrorView::unexpected_front(rest)), rest }
                } else {
                    let operand = parse_level(rest.drop_first(), 0);
                    match operand.node {
                        Ok(node) => close_paren(operand.rest, NodeView::Length(Box::new(node))),
                        Err(_) => operand,
                    }
                }
            },
            LexemeView::Keyword(Keyword::Array) => {
                if !starts_with(rest, LexemeView::Symbol(Symbol::OpenParen)) {
                    Parsed { node: Err(SyntaxErrorView::unexpected_front(rest)), rest }
                } else {
                    let list = parse_level(rest.drop_first(), 0);
                    match list.node {
                        Ok(list_node) => {
                            let behind = within(list.rest, rest.drop_first());
                            if !starts_with(behind, LexemeView::Symbol(Symbol::Comma)) {
                                Parsed {
                                    node: Err(SyntaxErrorView::unexpected_front(behind)),
                                    rest: behind,
                                }
                            } else {
                                let index = parse_level(behind.drop_first(), 0);
                                match index.node {
                                    Ok(index_node) => close_paren(
                                        index.rest,
                                        NodeView::Get {
                                            list: Box::new(list_node),
                                            index: Box::new(index_node),
                                        },
                                    ),
                                    Err(_) => index,
                                }
                            }
                        },
                        Err(_) => list,
                    }
                }
            },
            _ => Parsed { node: Err(SyntaxErrorView::unexpected_token(tokens[0])), rest },
        }
    }
}

/// The elements of a list, behind its opening bracket.
pub open spec fn parse_list_spec(tokens: Seq<TokenView>) -> Parsed
    decreases tokens.len(), 32int,
{
    let elements = parse_arguments(tokens, Symbol::CloseBracket, Seq::empty());
    match elements.nodes {
        Ok(nodes) => Parsed { node: Ok(NodeView::List(nodes)), rest: elements.rest },
        Err(error) => Parsed { node: Err(error), rest: elements.rest },
    }
}

/// The expressions up to the symbol `close`, which is taken, behind the ones
/// in `read`. Commas between them are passed over wherever they stand. (An
/// expression that is read takes at least one token, by
/// `lemma_parse_level`, so the reading always goes on behind it.)
pub open spec fn parse_arguments(tokens: Seq<TokenView>, close: Symbol, read: Seq<NodeView>) -> ParsedList
    decreases tokens.len(), 31int,
{
    if starts_with(tokens, LexemeView::Symbol(close)) {
        ParsedList { nodes: Ok(read), rest: tokens.drop_first() }
    } else if starts_with(tokens, LexemeView::Symbol(Symbol::Comma)) {
        parse_arguments(tokens.drop_first(), close, read)
    } else {
        let argument = parse_level(tokens, 0);
        match argument.node {
            Ok(node) => if argument.rest.len() < tokens.len() {
                parse_arguments(argument.rest, close, read.push(node))
            } else {
                ParsedList { nodes: Ok(read.push(node)), rest: argument.rest }
            },
            Err(error) => ParsedList { nodes: Err(error), rest: argument.rest },
        }
    }
}

/// An expression of any level leaves no more tokens than it was given, and
/// fewer where it is read without error.
pub proof fn lemma_parse_level(tokens: Seq<TokenView>, level: nat)
    ensures
        parse_level(tokens, level).rest.len() <= tokens.len(),
        parse_level(tokens, level).node is Ok ==> parse_level(tokens, level).rest.len()
            < tokens.len(),
    decreases tokens.len(), level_height(level),
{
    if level >= operator_levels() {
        lemma_parse_unary(tokens);
    } else {
        lemma_parse_level(tokens, level + 1);
        let first = parse_level(tokens, level + 1);
        if let Ok(left) = first.node {
            lemma_parse_level_tail(first.rest, level, left);
        }
    }
}

pub proof fn lemma_parse_level_tail(tokens: Seq<TokenView>, level: nat, left: NodeView)
    ensures
        parse_level_tail(tokens, level, left).rest.len() <= tokens.len(),
    decreases tokens.len(), 0int,
{
    if let Some(operator) = front_operator(tokens, level) {
        lemma_parse_level(tokens.drop_first(), level + 1);
        let operand = parse_level(tokens.drop_first(), level + 1);
        if let Ok(right) = operand.node {
            lemma_parse_level_tail(operand.rest, level, NodeView::binary(operator, left, right));
        }
    }
}

pub proof fn lemma_parse_unary(tokens: Seq<TokenView>)
    ensures
        parse_unary_spec(tokens).rest.len() <= tokens.len(),
        parse_unary_spec(tokens).node is Ok ==> parse_unary_spec(tokens).rest.len() < tokens.len(),
    decreases tokens.len(), 11int,
{
    if starts_with(tokens, LexemeView::Symbol(Symbol::Minus)) || starts_with(
        tokens,
        LexemeView::Symbol(Symbol::Bang),
    ) {
        lemma_parse_primary(tokens.drop_first());
    } else {
        lemma_parse_primary(tokens);
    }
}

pub proof fn lemma_parse_primary(tokens: Seq<TokenView>)
    ensures
        parse_primary_spec(tokens).rest.len() <= tokens.len(),
        parse_primary_spec(tokens).node is Ok ==> parse_primary_spec(tokens).rest.len()
            < tokens.len(),
    decreases tokens.len(), 10int,
{
    if starts_with(tokens, LexemeView::Symbol(Symbol::OpenParen)) {
        lemma_parse_level(tokens.drop_first(), 0);
    } else {
        lemma_parse_terminal(tokens);
    }
}

pub proof fn lemma_parse_terminal(tokens: Seq<TokenView>)
    ensures
        parse_terminal_spec(tokens).rest.len() <= tokens.len(),
        parse_terminal_spec(tokens).node is Ok ==> parse_terminal_spec(tokens).rest.len()
            < tokens.len(),
    decreases tokens.len(), 9int,
{
    if tokens.len() > 0 {
        let rest = tokens.drop_first();
        match tokens[0].lexeme {
            LexemeView::Identifier(name) => {
                if starts_with(rest, LexemeView::Symbol(Symbol::OpenParen)) {
                    lemma_parse_arguments(rest.drop_first(), Symbol::CloseParen, Seq::empty());
                }
            },
            LexemeView::Symbol(Symbol::OpenBracket) => {
                lemma_parse_arguments(rest, Symbol::CloseBracket, Seq::empty());
            },
            LexemeView::Keyword(Keyword::Length) => {
                if starts_with(rest, LexemeView::Symbol(Symbol::OpenParen)) {
                    lemma_parse_level(rest.drop_first(), 0);
                }
            },
            LexemeView::Keyword(Keyword::Array) => {
                if starts_with(rest, LexemeView::Symbol(Symbol::OpenParen)) {
                    lemma_parse_level(rest.drop_first(), 0);
                    let list = parse_level(rest.drop_first(), 0);
                    if list.node is Ok && starts_with(
                        list.rest,
                        LexemeView::Symbol(Symbol::Comma),
                    ) {
                        lemma_parse_level(list.rest.drop_first(), 0);
                    }
                }
            },
            _ => {},
        }
    }
}

pub proof fn lemma_parse_arguments(tokens: Seq<TokenView>, close: Symbol, read: Seq<NodeView>)
    ensures
        parse_arguments(tokens, close, read).rest.len() <= tokens.len(),
    decreases tokens.len(), 31int,
{
    if starts_with(tokens, LexemeView::Symbol(close)) {
    } else if starts_with(tokens, LexemeView::Symbol(Symbol::Comma)) {
        lemma_parse_arguments(tokens.drop_first(), close, read);
    } else {
        lemma_parse_level(tokens, 0);
        let argument = parse_level(tokens, 0);
        if let Ok(node) = argument.node {
            lemma_parse_arguments(argument.rest, close, read.push(node));
        }
    }
}

/// No expression holds a function declaration.
pub proof fn lemma_level_placed(tokens: Seq<TokenView>, level: nat)
    ensures
        parse_level(tokens, level).node matches Ok(node) ==> node.well_placed(false),
    decreases tokens.len(), level_height(level),
{
    if level >= operator_levels() {
        lemma_unary_placed(tokens);
    } else {
        lemma_level_placed(tokens, level + 1);
        lemma_parse_level(tokens, level + 1);
        let first = parse_level(tokens, level + 1);
        if let Ok(left) = first.node {
            lemma_level_tail_placed(first.rest, level, left);
        }
    }
}

pub proof fn lemma_level_tail_placed(tokens: Seq<TokenView>, level: nat, left: NodeView)
    requires
        left.well_placed(false),
    ensures
        parse_level_tail(tokens, level, left).node matches Ok(node) ==> node.well_placed(false),
    decreases tokens.len(), 0int,
{
    if let Some(operator) = front_operator(tokens, level) {
        lemma_level_placed(tokens.drop_first(), level + 1);
        lemma_parse_level(tokens.drop_first(), level + 1);
        let operand = parse_level(tokens.drop_first(), level + 1);
        if let Ok(right) = operand.node {
            lemma_level_tail_placed(operand.rest, level, NodeView::binary(operator, left, right));
        }
    }
}

pub proof fn lemma_unary_placed(tokens: Seq<TokenView>)
    ensures
        parse_unary_spec(tokens).node matches Ok(node) ==> node.well_placed(false),
    decreases tokens.len(), 11int,
{
    reveal_with_fuel(NodeView::well_placed, 2);
    if starts_with(tokens, LexemeView::Symbol(Symbol::Minus)) || starts_with(
        tokens,
        LexemeView::Symbol(Symbol::Bang),
    ) {
        lemma_primary_placed(tokens.drop_first());
    } else {
        lemma_primary_placed(tokens);
    }
}

pub proof fn lemma_primary_placed(tokens: Seq<TokenView>)
    ensures
        parse_primary_spec(tokens).node matches Ok(node) ==> node.well_placed(false),
    decreases tokens.len(), 10int,
{
    if starts_with(tokens, LexemeView::Symbol(Symbol::OpenParen)) {
        lemma_level_placed(tokens.drop_first(), 0);
    } else {
        lemma_terminal_placed(tokens);
    }
}

pub proof fn lemma_terminal_placed(tokens: Seq<TokenView>)
    ensures
        parse_terminal_spec(tokens).node matches Ok(node) ==> node.well_placed(false),
    decreases tokens.len(), 9int,
{
    if tokens.len() > 0 {
        let rest = tokens.drop_first();
        match tokens[0].lexeme {
            LexemeView::Identifier(name) => {
                if starts_with(rest, LexemeView::Symbol(Symbol::OpenParen)) {
                    lemma_arguments_placed(rest.drop_first(), Symbol::CloseParen, Seq::empty());
                }
            },
            LexemeView::Symbol(Symbol::OpenBracket) => {
                lemma_arguments_placed(rest, Symbol::CloseBracket, Seq::empty());
            },
            LexemeView::Keyword(Keyword::Length) => {
                if starts_with(rest, LexemeView::Symbol(Symbol::OpenParen)) {
                    lemma_level_placed(rest.drop_first(), 0);
                }
            },
            LexemeView::Keyword(Keyword::Array) => {
                if starts_with(rest, LexemeView::Symbol(Symbol::OpenParen)) {
                    lemma_level_placed(rest.drop_first(), 0);
                    lemma_parse_level(rest.drop_first(), 0);
                    let list = parse_level(rest.drop_first(), 0);
                    if list.node is Ok && starts_with(
                        list.rest,
                        LexemeView::Symbol(Symbol::Comma),
                    ) {
                        lemma_level_placed(list.rest.drop_first(), 0);
                    }
                }
            },
            _ => {},
        }
    }
}

pub proof fn lemma_arguments_placed(tokens: Seq<TokenView>, close: Symbol, read: Seq<NodeView>)
    requires
        all_well_placed(read, false),
    ensures
        parse_arguments(tokens, close, read).nodes matches Ok(nodes) ==> all_well_placed(
            nodes,
            false,
        ),
    decreases tokens.len(), 31int,
{
    if starts_with(tokens, LexemeView::Symbol(close)) {
    } else if starts_with(tokens, LexemeView::Symbol(Symbol::Comma)) {
        lemma_arguments_placed(tokens.drop_first(), close, read);
    } else {
        lemma_level_placed(tokens, 0);
        lemma_parse_level(tokens, 0);
        let argument = parse_level(tokens, 0);
        if let Ok(node) = argument.node {
            lemma_arguments_placed(argument.rest, close, read.push(node));
        }
    }
}

/// The value of a result that holds a node.
pub open spec fn node_result_view(node: Result<Node, SyntaxError>) -> Result<
    NodeView,
    SyntaxErrorView,
> {
    match node {
        Ok(node) => Ok(node@),
        Err(error) => Err(error@),
    }
}

/// The value of a result that holds a list of nodes.
pub open spec fn nodes_result_view(nodes: Result<Vec<Node>, SyntaxError>) -> Result<
    Seq<NodeView>,
    SyntaxErrorView,
> {
    match nodes {
        Ok(nodes) => Ok(node_views(nodes@)),
        Err(error) => Err(error@),
    }
}

/// The error for the front of `tokens` standing where it may not.
pub fn unexpected_front(tokens: &Tokens) -> (error: SyntaxError)
    ensures
        error@ == SyntaxErrorView::unexpected_front(tokens@),
{
    match tokens.front() {
        Some(token) => SyntaxError::unexpected_token(token.clone()),
        None => SyntaxError::unexpected_end(),
    }
}

/// Takes the token at the front, which must have the lexeme `lexeme`.
pub fn expect(tokens: &mut Tokens, lexeme: Lexeme) -> (taken: Result<(), SyntaxError>)
    ensures
        taken is Ok <==> starts_with(old(tokens)@, lexeme@),
        taken is Ok ==> final(tokens)@ == old(tokens)@.drop_first(),
        taken matches Err(error) ==> final(tokens)@ == old(tokens)@ && error@
            == SyntaxErrorView::unexpected_front(old(tokens)@),
{
    match tokens.consume(lexeme) {
        Ok(()) => Ok(()),
        Err(()) => Err(unexpected_front(tokens)),
    }
}

/// The operator of level `level` that `lexeme` spells, if any.
fn operator_for(level: u8, lexeme: &Lexeme) -> (operator: Option<BinaryOperator>)
    ensures
        operator == level_operator(level as nat, lexeme@),
{
    match lexeme {
        Lexeme::Keyword(Keyword::Or) => if level == 0 {
            Some(BinaryOperator::Or)
        } else {
            None
        },
        Lexeme::Keyword(Keyword::And) => if level == 1 {
            Some(BinaryOperator::And)
        } else {
            None
        },
        Lexeme::Symbol(Symbol::EqualEqual) => if level == 2 {
            Some(BinaryOperator::Equal)
        } else {
            None
        },
        Lexeme::Symbol(Symbol::BangEqual) => if level == 2 {
            Some(BinaryOperator::NotEqual)
        } else {
            None
        },
        Lexeme::Symbol(Symbol::Less) => if level == 3 {
            Some(BinaryOperator::LessThan)
        } else {
            None
        },
        Lexeme::Symbol(Symbol::LessEqual) => if level == 3 {
            Some(BinaryOperator::LessThanOrEqual)
        } else {
            None
        },
        Lexeme::Symbol(Symbol::Greater) => if level == 3 {
            Some(BinaryOperator::GreaterThan)
        } else {
            None
        },
        Lexeme::Symbol(Symbol::GreaterEqual) => if level == 3 {
            Some(BinaryOperator::GreaterThanOrEqual)
        } else {
            None
        },
        Lexeme::Symbol(Symbol::Plus) => if level == 4 {
            Some(BinaryOperator::Add)
        } else {
            None
        },
        Lexeme::Symbol(Symbol::Minus) => if level == 4 {
            Some(BinaryOperator::Subtract)
        } else {
            None
        },
        Lexeme::Symbol(Symbol::Asterisk) => if level == 5 {
            Some(BinaryOperator::Multiply)
        } else {
            None
        },
        Lexeme::Symbol(Symbol::Slash) => if level == 5 {
            Some(BinaryOperator::Divide)
        } else {
            None
        },
        _ => None,
    }
}

/// Parses an expression off the front of `tokens`.
pub fn parse_expression(tokens: &mut Tokens) -> (node: Result<Node, SyntaxError>)
    ensures
        node_result_view(node) == parse_expression_spec(old(tokens)@).node,
        final(tokens)@ == parse_expression_spec(old(tokens)@).rest,
        final(tokens)@.len() <= old(tokens)@.len(),
        node is Ok ==> final(tokens)@.len() < old(tokens)@.len(),
        node matches Ok(parsed) ==> parsed@.well_placed(false),
    decreases old(tokens)@.len(), 30int,
{
    proof {
        lemma_parse_level(tokens@, 0);
        lemma_level_placed(tokens@, 0);
    }
    parse_or(tokens)
}

pub fn parse_or(tokens: &mut Tokens) -> (node: Result<Node, SyntaxError>)
    ensures
        node_result_view(node) == parse_level(old(tokens)@, 0).node,
        final(tokens)@ == parse_level(old(tokens)@, 0).rest,
    decreases old(tokens)@.len(), 29int,
{
    climb(tokens, 0)
}

pub fn parse_and(tokens: &mut Tokens) -> (node: Result<Node, SyntaxError>)
    ensures
        node_result_view(node) == parse_level(old(tokens)@, 1).node,
        final(tokens)@ == parse_level(old(tokens)@, 1).rest,
    decreases old(tokens)@.len(), 26int,
{
    climb(tokens, 1)
}

pub fn parse_equality(tokens: &mut Tokens) -> (node: Result<Node, SyntaxError>)
    ensures
        node_result_view(node) == parse_level(old(tokens)@, 2).node,
        final(tokens)@ == parse_level(old(tokens)@, 2).rest,
    decreases old(tokens)@.len(), 23int,
{
    climb(tokens, 2)
}

pub fn parse_relational(tokens: &mut Tokens) -> (node: Result<Node, SyntaxError>)
    ensures
        node_result_view(node) == parse_level(old(tokens)@, 3).node,
        final(tokens)@ == parse_level(old(tokens)@, 3).rest,
    decreases old(tokens)@.len(), 20int,
{
    climb(tokens, 3)
}

pub fn parse_add_or_sub(tokens: &mut Tokens) -> (node: Result<Node, SyntaxError>)
    ensures
        node_result_view(node) == parse_level(old(tokens)@, 4).node,
        final(tokens)@ == parse_level(old(tokens)@, 4).rest,
    decreases old(tokens)@.len(), 17int,
{
    climb(tokens, 4)
}

pub fn parse_mul_or_div(tokens: &mut Tokens) -> (node: Result<Node, SyntaxError>)
    ensures
        node_result_view(node) == parse_level(old(tokens)@, 5).node,
        final(tokens)@ == parse_level(old(tokens)@, 5).rest,
    decreases old(tokens)@.len(), 14int,
{
    climb(tokens, 5)
}

/// Parses an operand of an operator of level `level`: an expression of the
/// next level.
fn operand(tokens: &mut Tokens, level: u8) -> (node: Result<Node, SyntaxError>)
    requires
        level < 6,
    ensures
        node_result_view(node) == parse_level(old(tokens)@, (level + 1) as nat).node,
        final(tokens)@ == parse_level(old(tokens)@, (level + 1) as nat).rest,
    decreases old(tokens)@.len(), 27 - 3 * level,
{
    if level == 0 {
        parse_and(tokens)
    } else if level == 1 {
        parse_equality(tokens)
    } else if level == 2 {
        parse_relational(tokens)
    } else if level == 3 {
        parse_add_or_sub(tokens)
    } else if level == 4 {
        parse_mul_or_div(tokens)
    } else {
        parse_unary(tokens)
    }
}

/// Parses an expression of level `level`: operands of the next level, joined
/// from the left by the operators of this one.
fn climb(tokens: &mut Tokens, level: u8) -> (node: Result<Node, SyntaxError>)
    requires
        level < 6,
    ensures
        node_result_view(node) == parse_level(old(tokens)@, level as nat).node,
        final(tokens)@ == parse_level(old(tokens)@, level as nat).rest,
    decreases old(tokens)@.len(), 28 - 3 * level,
{
    proof {
        lemma_parse_level(tokens@, (level + 1) as nat);
    }
    let mut node = match operand(tokens, level) {
        Ok(node) => node,
        Err(error) => {
            return Err(error);
        },
    };
    loop
        invariant
            level < 6,
            tokens@.len() <= old(tokens)@.len(),
            parse_level(old(tokens)@, level as nat) == parse_level_tail(
                tokens@,
                level as nat,
                node@,
            ),
        decreases tokens@.len(),
    {
        let operator = match tokens.front() {
            Some(token) => operator_for(level, &token.lexeme),
            None => None,
        };
        match operator {
            None => {
                return Ok(node);
            },
            Some(operator) => {
                let _ = tokens.shift();
                proof {
                    lemma_parse_level(tokens@, (level + 1) as nat);
                }
                let right = match operand(tokens, level) {
                    Ok(right) => right,
                    Err(error) => {
                        return Err(error);
                    },
                };
                node = Node::binary(operator, node, right);
            },
        }
    }
}

pub fn parse_unary(tokens: &mut Tokens) -> (node: Result<Node, SyntaxError>)
    ensures
        node_result_view(node) == parse_unary_spec(old(tokens)@).node,
        final(tokens)@ == parse_unary_spec(old(tokens)@).rest,
    decreases old(tokens)@.len(), 11int,
{
    if tokens.consume(Lexeme::Symbol(Symbol::Minus)).is_ok() {
        match parse_primary(tokens) {
            Ok(node) => Ok(
                Node::binary(BinaryOperator::Subtract, Node::Number("0".to_owned()), node),
            ),
            Err(error) => Err(error),
        }
    } else if tokens.consume(Lexeme::Symbol(Symbol::Bang)).is_ok() {
        match parse_primary(tokens) {
            Ok(node) => Ok(Node::Not(Box::new(node))),
            Err(error) => Err(error),
        }
    } else {
        parse_primary(tokens)
    }
}

pub fn parse_primary(tokens: &mut Tokens) -> (node: Result<Node, SyntaxError>)
    ensures
        node_result_view(node) == parse_primary_spec(old(tokens)@).node,
        final(tokens)@ == parse_primary_spec(old(tokens)@).rest,
    decreases old(tokens)@.len(), 10int,
{
    if tokens.consume(Lexeme::Symbol(Symbol::OpenParen)).is_ok() {
        let node = match parse_expression(tokens) {
            Ok(node) => node,
            Err(error) => {
                return Err(error);
            },
        };
        match expect(tokens, Lexeme::Symbol(Symbol::CloseParen)) {
            Ok(()) => Ok(node),
            Err(error) => Err(error),
        }
    } else {
        parse_terminal(tokens)
    }
}

pub fn parse_terminal(tokens: &mut Tokens) -> (node: Result<Node, SyntaxError>)
    ensures
        node_result_view(node) == parse_terminal_spec(old(tokens)@).node,
        final(tokens)@ == parse_terminal_spec(old(tokens)@).rest,
    decreases old(tokens)@.len(), 9int,
{
    let token = match tokens.shift() {
        Some(token) => token,
        None => {
            return Err(SyntaxError::unexpected_end());
        },
    };
    match token.lexeme {
        Lexeme::Identifier(name) => {
            if tokens.consume(Lexeme::Symbol(Symbol::OpenParen)).is_ok() {
                match parse_arguments_until(tokens, Symbol::CloseParen) {
                    Ok(args) => {
                        proof {
                            Node::lemma_models(&args);
                        }
                        Ok(Node::Call { name, args })
                    },
                    Err(error) => Err(error),
                }
            } else {
                Ok(Node::Variable(name))
            }
        },
        Lexeme::Symbol(Symbol::OpenBracket) => parse_list(tokens),
        Lexeme::Number(digits) => Ok(Node::Number(digits)),
        Lexeme::String(content) => Ok(Node::String(content)),
        Lexeme::Keyword(Keyword::Null) => Ok(Node::Null),
        Lexeme::Keyword(Keyword::True) => Ok(Node::Bool(true)),
        Lexeme::Keyword(Keyword::False) => Ok(Node::Bool(false)),
        Lexeme::Keyword(Keyword::Length) => {
            match expect(tokens, Lexeme::Symbol(Symbol::OpenParen)) {
                Ok(()) => {},
                Err(error) => {
                    return Err(error);
                },
            }
            let operand = match parse_expression(tokens) {
                Ok(node) => node,
                Err(error) => {
                    return Err(error);
                },
            };
            match expect(tokens, Lexeme::Symbol(Symbol::CloseParen)) {
                Ok(()) => Ok(Node::Length(Box::new(operand))),
                Err(error) => Err(error),
            }
        },
        Lexeme::Keyword(Keyword::Array) => {
            match expect(tokens, Lexeme::Symbol(Symbol::OpenParen)) {
                Ok(()) => {},
                Err(error) => {
                    return Err(error);
                },
            }
            let list = match parse_expression(tokens) {
                Ok(node) => node,
                Err(error) => {
                    return Err(error);
                },
            };
            match expect(tokens, Lexeme::Symbol(Symbol::Comma)) {
                Ok(()) => {},
                Err(error) => {
                    return Err(error);
                },
            }
            let index = match parse_expression(tokens) {
                Ok(node) => node,
                Err(error) => {
                    return Err(error);
                },
            };
            match expect(tokens, Lexeme::Symbol(Symbol::CloseParen)) {
                Ok(()) => Ok(Node::Get { list: Box::new(list), index: Box::new(index) }),
                Err(error) => Err(error),
            }
        },
        lexeme => Err(SyntaxError::unexpected_token(Token { lexeme, position: token.position })),
    }
}

/// Parses the elements of a list, behind its opening bracket.
pub fn parse_list(tokens: &mut Tokens) -> (node: Result<Node, SyntaxError>)
    ensures
        node_result_view(node) == parse_list_spec(old(tokens)@).node,
        final(tokens)@ == parse_list_spec(old(tokens)@).rest,
    decreases old(tokens)@.len(), 33int,
{
    match parse_arguments_until(tokens, Symbol::CloseBracket) {
        Ok(elements) => {
            proof {
                Node::lemma_models(&elements);
            }
            Ok(Node::List(elements))
        },
        Err(error) => Err(error),
    }
}

/// Parses expressions up to the symbol `close`, which is taken. Commas
/// between them are passed over wherever they stand.
fn parse_arguments_until(tokens: &mut Tokens, close: Symbol) -> (nodes: Result<
    Vec<Node>,
    SyntaxError,
>)
    ensures
        nodes_result_view(nodes) == parse_arguments(old(tokens)@, close, Seq::empty()).nodes,
        final(tokens)@ == parse_arguments(old(tokens)@, close, Seq::empty()).rest,
    decreases old(tokens)@.len(), 32int,
{
    let mut read: Vec<Node> = Vec::new();
    assert(node_views(read@) =~= Seq::empty());
    loop
        invariant
            tokens@.len() <= old(tokens)@.len(),
            parse_arguments(old(tokens)@, close, Seq::empty()) == parse_arguments(
                tokens@,
                close,
                node_views(read@),
            ),
        decreases tokens@.len(),
    {
        if tokens.consume(Lexeme::Symbol(close)).is_ok() {
            return Ok(read);
        }
        if tokens.consume(Lexeme::Symbol(Symbol::Comma)).is_err() {
            let ghost before = node_views(read@);
            match parse_expression(tokens) {
                Ok(node) => {
                    read.push(node);
                    assert(node_views(read@) =~= before.push(node@));
                },
                Err(error) => {
                    return Err(error);
                },
            }
        }
    }
}

} // verus!
