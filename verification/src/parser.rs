use crate::error::{SyntaxError, SyntaxErrorView};
use crate::expr_parser::{
    expect, lemma_level_placed, lemma_parse_level, node_result_view, nodes_result_view,
    parse_expression, parse_expression_spec, unexpected_front, within, Parsed, ParsedList,
};
use crate::keyword::Keyword;
use crate::lexeme::{Lexeme, LexemeView};
use crate::node::{all_well_placed, node_views, Node, NodeView};
use crate::text::text_views;
use crate::symbol::Symbol;
use crate::token::{Token, TokenView};
use crate::tokens::{starts_with, Tokens};
use vstd::prelude::*;

verus! {

/// What parsing a list of names gives: the names or the error, and the
/// tokens that are left.
pub struct ParsedNames {
    pub names: Result<Seq<Seq<char>>, SyntaxErrorView>,
    pub rest: Seq<TokenView>,
}

/// `tokens` without the newline at its front, if one is there.
pub open spec fn skip_newline(tokens: Seq<TokenView>) -> Seq<TokenView> {
    if starts_with(tokens, LexemeView::Newline) {
        tokens.drop_first()
    } else {
        tokens
    }
}

/// Whether the line that `tokens` starts with holds an assignment sign: a
/// `=` before its newline.
pub open spec fn has_assignment_sign(tokens: Seq<TokenView>) -> bool
    decreases tokens.len(),
{
    if tokens.len() == 0 {
        false
    } else if tokens[0].lexeme == LexemeView::Symbol(Symbol::Equal) {
        true
    } else if tokens[0].lexeme is Newline {
        false
    } else {
        has_assignment_sign(tokens.drop_first())
    }
}

/// The error of `parsed`, with the tokens where it was met.
pub open spec fn failure(error: SyntaxErrorView, rest: Seq<TokenView>) -> Parsed {
    Parsed { node: Err(error), rest }
}

/// `name = value`, or `name[index] = value`.
pub open spec fn parse_assignment_spec(tokens: Seq<TokenView>) -> Parsed {
    if tokens.len() == 0 {
        failure(SyntaxErrorView::unexpected_end(), tokens)
    } else {
        let rest = tokens.drop_first();
        match tokens[0].lexeme {
            LexemeView::Identifier(name) => {
                if starts_with(rest, LexemeView::Symbol(Symbol::OpenBracket)) {
                    let index = parse_expression_spec(rest.drop_first());
                    match index.node {
                        Ok(index_node) => {
                            if !starts_with(
                                index.rest,
                                LexemeView::Symbol(Symbol::CloseBracket),
                            ) {
                                failure(SyntaxErrorView::unexpected_front(index.rest), index.rest)
                            } else if !starts_with(
                                index.rest.drop_first(),
                                LexemeView::Symbol(Symbol::Equal),
                            ) {
                                failure(
                                    SyntaxErrorView::unexpected_front(index.rest.drop_first()),
                                    index.rest.drop_first(),
                                )
                            } else {
                                let value = parse_expression_spec(
                                    index.rest.drop_first().drop_first(),
                                );
                                match value.node {
                                    Ok(value_node) => Parsed {
                                        node: Ok(
                                            NodeView::IndexAssignment {
                                                name,
                                                index: Box::new(index_node),
                                                value: Box::new(value_node),
                                            },
                                        ),
                                        rest: value.rest,
                                    },
                                    Err(_) => value,
                                }
                            }
                        },
                        Err(_) => index,
                    }
                } else if !starts_with(rest, LexemeView::Symbol(Symbol::Equal)) {
                    failure(SyntaxErrorView::unexpected_front(rest), rest)
                } else {
                    let value = parse_expression_spec(rest.drop_first());
                    match value.node {
                        Ok(value_node) => Parsed {
                            node: Ok(NodeView::Assignment { name, value: Box::new(value_node) }),
                            rest: value.rest,
                        },
                        Err(_) => value,
                    }
                }
            },
            _ => failure(SyntaxErrorView::unexpected_token(tokens[0]), rest),
        }
    }
}

/// `かえす`, alone on its line or with the expression whose value is
/// returned.
pub open spec fn parse_return_spec(tokens: Seq<TokenView>) -> Parsed {
    if !starts_with(tokens, LexemeView::Keyword(Keyword::Return)) {
        failure(SyntaxErrorView::unexpected_front(tokens), tokens)
    } else if starts_with(tokens.drop_first(), LexemeView::Newline) {
        Parsed { node: Ok(NodeView::Return(Box::new(NodeView::Null))), rest: tokens.drop_first() }
    } else {
        let value = parse_expression_spec(tokens.drop_first());
        match value.node {
            Ok(node) => Parsed { node: Ok(NodeView::Return(Box::new(node))), rest: value.rest },
            Err(_) => value,
        }
    }
}

/// `表示`, alone on its line or with the expression whose value is printed.
pub open spec fn parse_print_spec(tokens: Seq<TokenView>) -> Parsed {
    if !starts_with(tokens, LexemeView::Keyword(Keyword::Print)) {
        failure(SyntaxErrorView::unexpected_front(tokens), tokens)
    } else if starts_with(tokens.drop_first(), LexemeView::Newline) {
        Parsed { node: Ok(NodeView::Print(Box::new(NodeView::Null))), rest: tokens.drop_first() }
    } else {
        let value = parse_expression_spec(tokens.drop_first());
        match value.node {
            Ok(node) => Parsed { node: Ok(NodeView::Print(Box::new(node))), rest: value.rest },
            Err(_) => value,
        }
    }
}

/// `つぎへ`.
pub open spec fn parse_continue_spec(tokens: Seq<TokenView>) -> Parsed {
    if starts_with(tokens, LexemeView::Keyword(Keyword::Continue)) {
        Parsed { node: Ok(NodeView::Continue), rest: tokens.drop_first() }
    } else {
        failure(SyntaxErrorView::unexpected_front(tokens), tokens)
    }
}

/// `ぬける`.
pub open spec fn parse_break_spec(tokens: Seq<TokenView>) -> Parsed {
    if starts_with(tokens, LexemeView::Keyword(Keyword::Break)) {
        Parsed { node: Ok(NodeView::Break), rest: tokens.drop_first() }
    } else {
        failure(SyntaxErrorView::unexpected_front(tokens), tokens)
    }
}

/// The parameter names up to the closing parenthesis, which is taken,
/// behind the ones in `read`. Commas are passed over wherever they stand,
/// and the end of the tokens ends the list as the parenthesis does.
pub open spec fn parse_params(tokens: Seq<TokenView>, read: Seq<Seq<char>>) -> ParsedNames
    decreases tokens.len(),
{
    if tokens.len() == 0 {
        ParsedNames { names: Ok(read), rest: tokens }
    } else {
        match tokens[0].lexeme {
            LexemeView::Symbol(Symbol::Comma) => parse_params(tokens.drop_first(), read),
            LexemeView::Symbol(Symbol::CloseParen) => ParsedNames {
                names: Ok(read),
                rest: tokens.drop_first(),
            },
            LexemeView::Identifier(name) => parse_params(tokens.drop_first(), read.push(name)),
            _ => ParsedNames {
                names: Err(SyntaxErrorView::unexpected_token(tokens[0])),
                rest: tokens.drop_first(),
            },
        }
    }
}

/// One statement, with the newline that ends its line. In a block
/// (`in_block`) a function declaration is refused.
pub open spec fn parse_statement(tokens: Seq<TokenView>, in_block: bool) -> Parsed
    decreases tokens.len(), 5int,
{
    if tokens.len() == 0 {
        failure(SyntaxErrorView::unexpected_end(), tokens)
    } else {
        let parsed = match tokens[0].lexeme {
            LexemeView::Keyword(Keyword::If) => parse_if_spec(tokens),
            LexemeView::Keyword(Keyword::Function) => if in_block {
                failure(SyntaxErrorView::function_declaration_in_block(tokens[0]), tokens)
            } else {
                parse_function_spec(tokens)
            },
            LexemeView::Keyword(Keyword::Return) => parse_return_spec(tokens),
            LexemeView::Keyword(Keyword::Loop) => parse_loop_spec(tokens),
            LexemeView::Keyword(Keyword::Continue) => parse_continue_spec(tokens),
            LexemeView::Keyword(Keyword::Break) => parse_break_spec(tokens),
            LexemeView::Keyword(Keyword::Print) => parse_print_spec(tokens),
            LexemeView::Identifier(_) => if has_assignment_sign(tokens) {
                parse_assignment_spec(tokens)
            } else {
                parse_expression_spec(tokens)
            },
            _ => failure(SyntaxErrorView::unexpected_token(tokens[0]), tokens),
        };
        Parsed { node: parsed.node, rest: skip_newline(parsed.rest) }
    }
}

/// A block: an `Indent`, statements, and the `Dedent` that closes it.
pub open spec fn parse_block_spec(tokens: Seq<TokenView>) -> ParsedList
    decreases tokens.len(), 7int,
{
    if starts_with(tokens, LexemeView::Indent) {
        block_body(tokens.drop_first(), Seq::empty())
    } else {
        ParsedList { nodes: Err(SyntaxErrorView::unexpected_front(tokens)), rest: tokens }
    }
}

/// The statements of a block up to its `Dedent`, which is taken, behind the
/// ones in `read`. A block that the tokens end in is an error. (A statement
/// that is read takes at least one token, by `lemma_parse_statement`, so
/// the reading always goes on behind it.)
pub open spec fn block_body(tokens: Seq<TokenView>, read: Seq<NodeView>) -> ParsedList
    decreases tokens.len(), 6int,
{
    if starts_with(tokens, LexemeView::Dedent) {
        ParsedList { nodes: Ok(read), rest: tokens.drop_first() }
    } else {
        let statement = parse_statement(tokens, true);
        match statement.node {
            Ok(node) => if statement.rest.len() < tokens.len() {
                block_body(statement.rest, read.push(node))
            } else {
                ParsedList { nodes: Ok(read.push(node)), rest: statement.rest }
            },
            Err(error) => ParsedList { nodes: Err(error), rest: statement.rest },
        }
    }
}

/// `くりかえし`, a newline and the block that is repeated.
pub open spec fn parse_loop_spec(tokens: Seq<TokenView>) -> Parsed
    decreases tokens.len(), 4int,
{
    if !starts_with(tokens, LexemeView::Keyword(Keyword::Loop)) {
        failure(SyntaxErrorView::unexpected_front(tokens), tokens)
    } else if !starts_with(tokens.drop_first(), LexemeView::Newline) {
        failure(SyntaxErrorView::unexpected_front(tokens.drop_first()), tokens.drop_first())
    } else {
        let body = parse_block_spec(tokens.drop_first().drop_first());
        match body.nodes {
            Ok(nodes) => Parsed { node: Ok(NodeView::Loop { body: nodes }), rest: body.rest },
            Err(error) => failure(error, body.rest),
        }
    }
}

/// `関数 name(params)`, a newline and the block that is the body.
pub open spec fn parse_function_spec(tokens: Seq<TokenView>) -> Parsed
    decreases tokens.len(), 4int,
{
    if !starts_with(tokens, LexemeView::Keyword(Keyword::Function)) {
        failure(SyntaxErrorView::unexpected_front(tokens), tokens)
    } else if tokens.len() < 2 {
        failure(SyntaxErrorView::unexpected_end(), tokens.drop_first())
    } else {
        let behind_name = tokens.drop_first().drop_first();
        match tokens[1].lexeme {
            LexemeView::Identifier(name) => {
                if !starts_with(behind_name, LexemeView::Symbol(Symbol::OpenParen)) {
                    failure(SyntaxErrorView::unexpected_front(behind_name), behind_name)
                } else {
                    let params = parse_params(behind_name.drop_first(), Seq::empty());
                    match params.names {
                        Ok(names) => {
                            let behind_params = within(params.rest, behind_name.drop_first());
                            if !starts_with(behind_params, LexemeView::Newline) {
                                failure(
                                    SyntaxErrorView::unexpected_front(behind_params),
                                    behind_params,
                                )
                            } else {
                                let body = parse_block_spec(behind_params.drop_first());
                                match body.nodes {
                                    Ok(nodes) => Parsed {
                                        node: Ok(
                                            NodeView::Function { name, params: names, body: nodes },
                                        ),
                                        rest: body.rest,
                                    },
                                    Err(error) => failure(error, body.rest),
                                }
                            }
                        },
                        Err(error) => failure(error, params.rest),
                    }
                }
            },
            _ => failure(SyntaxErrorView::unexpected_token(tokens[1]), behind_name),
        }
    }
}

/// The tokens behind a condition that was read from `tokens`, where the
/// condition stood on an indented line of its own (`indented`): the line's
/// newline and the `Dedent` are taken. `Err` holds the tokens at which the
/// `Dedent` is missing.
pub open spec fn close_condition(tokens: Seq<TokenView>, indented: bool) -> Result<
    Seq<TokenView>,
    Seq<TokenView>,
> {
    if !indented {
        Ok(tokens)
    } else if starts_with(skip_newline(tokens), LexemeView::Dedent) {
        Ok(skip_newline(tokens).drop_first())
    } else {
        Err(skip_newline(tokens))
    }
}

/// `もし condition なら`, a newline and the block to run if the condition
/// holds; then `もしくは` with a further condition, which stands for an
/// `If` as the only statement of the else-block, or `ちがえば` with the
/// else-block, or nothing. The condition may stand on an indented line of
/// its own.
pub open spec fn parse_if_spec(tokens: Seq<TokenView>) -> Parsed
    decreases tokens.len(), 4int,
{
    if tokens.len() == 0 {
        failure(SyntaxErrorView::unexpected_end(), tokens)
    } else {
        let behind_keyword = skip_newline(tokens.drop_first());
        let indented = starts_with(behind_keyword, LexemeView::Indent);
        let at_condition = if indented {
            behind_keyword.drop_first()
        } else {
            behind_keyword
        };
        let condition = parse_expression_spec(at_condition);
        match condition.node {
            Ok(condition_node) => {
                match close_condition(within(condition.rest, at_condition), indented) {
                    Err(rest) => failure(SyntaxErrorView::unexpected_front(rest), rest),
                    Ok(at_then) => {
                        if !starts_with(at_then, LexemeView::Keyword(Keyword::Then)) {
                            failure(SyntaxErrorView::unexpected_front(at_then), at_then)
                        } else if !starts_with(at_then.drop_first(), LexemeView::Newline) {
                            failure(
                                SyntaxErrorView::unexpected_front(at_then.drop_first()),
                                at_then.drop_first(),
                            )
                        } else {
                            let at_block = at_then.drop_first().drop_first();
                            let then_block = parse_block_spec(at_block);
                            match then_block.nodes {
                                Ok(then_part) => parse_else_spec(
                                    within(then_block.rest, at_block),
                                    condition_node,
                                    then_part,
                                ),
                                Err(error) => failure(error, then_block.rest),
                            }
                        }
                    },
                }
            },
            Err(_) => condition,
        }
    }
}

/// What follows the then-block of an `If` with the condition `condition`
/// and the then-block `then_part`, and the `If` that it completes.
pub open spec fn parse_else_spec(
    tokens: Seq<TokenView>,
    condition: NodeView,
    then_part: Seq<NodeView>,
) -> Parsed
    decreases tokens.len(), 5int,
{
    if starts_with(tokens, LexemeView::Keyword(Keyword::Elif)) {
        let nested = parse_if_spec(tokens);
        match nested.node {
            Ok(node) => Parsed {
                node: Ok(
                    NodeView::If {
                        condition: Box::new(condition),
                        then_part,
                        else_part: seq![node],
                    },
                ),
                rest: nested.rest,
            },
            Err(_) => nested,
        }
    } else if starts_with(tokens, LexemeView::Keyword(Keyword::Else)) {
        if !starts_with(tokens.drop_first(), LexemeView::Newline) {
            failure(SyntaxErrorView::unexpected_front(tokens.drop_first()), tokens.drop_first())
        } else {
            let else_block = parse_block_spec(tokens.drop_first().drop_first());
            match else_block.nodes {
                Ok(else_part) => Parsed {
                    node: Ok(
                        NodeView::If { condition: Box::new(condition), then_part, else_part },
                    ),
                    rest: else_block.rest,
                },
                Err(error) => failure(error, else_block.rest),
            }
        }
    } else {
        Parsed {
            node: Ok(
                NodeView::If { condition: Box::new(condition), then_part, else_part: Seq::empty() },
            ),
            rest: tokens,
        }
    }
}

/// The statements of a program, behind the ones in `read`: one statement
/// after the other until no token is left. The first error ends the
/// parsing. (A statement that is read takes at least one token, by
/// `lemma_parse_statement`, so the reading always goes on behind it.)
pub open spec fn parse_program(tokens: Seq<TokenView>, read: Seq<NodeView>) -> Result<
    Seq<NodeView>,
    SyntaxErrorView,
>
    decreases tokens.len(),
{
    if tokens.len() == 0 {
        Ok(read)
    } else {
        let statement = parse_statement(tokens, false);
        match statement.node {
            Ok(node) => if statement.rest.len() < tokens.len() {
                parse_program(statement.rest, read.push(node))
            } else {
                Ok(read.push(node))
            },
            Err(error) => Err(error),
        }
    }
}

pub proof fn lemma_parse_params(tokens: Seq<TokenView>, read: Seq<Seq<char>>)
    ensures
        parse_params(tokens, read).rest.len() <= tokens.len(),
    decreases tokens.len(),
{
    if tokens.len() > 0 {
        match tokens[0].lexeme {
            LexemeView::Symbol(Symbol::Comma) => {
                lemma_parse_params(tokens.drop_first(), read);
            },
            LexemeView::Identifier(name) => {
                lemma_parse_params(tokens.drop_first(), read.push(name));
            },
            _ => {},
        }
    }
}

/// The statements that only hold expressions leave no more tokens than they
/// were given, and fewer where they are read without error.
pub proof fn lemma_parse_simple_statements(tokens: Seq<TokenView>)
    ensures
        parse_assignment_spec(tokens).rest.len() <= tokens.len(),
        parse_assignment_spec(tokens).node is Ok ==> parse_assignment_spec(tokens).rest.len()
            < tokens.len(),
        parse_return_spec(tokens).rest.len() <= tokens.len(),
        parse_return_spec(tokens).node is Ok ==> parse_return_spec(tokens).rest.len()
            < tokens.len(),
        parse_print_spec(tokens).rest.len() <= tokens.len(),
        parse_print_spec(tokens).node is Ok ==> parse_print_spec(tokens).rest.len() < tokens.len(),
        parse_continue_spec(tokens).rest.len() <= tokens.len(),
        parse_continue_spec(tokens).node is Ok ==> parse_continue_spec(tokens).rest.len()
            < tokens.len(),
        parse_break_spec(tokens).rest.len() <= tokens.len(),
        parse_break_spec(tokens).node is Ok ==> parse_break_spec(tokens).rest.len() < tokens.len(),
{
    if tokens.len() > 0 {
        let rest = tokens.drop_first();
        lemma_parse_level(rest, 0);
        if rest.len() > 0 {
            lemma_parse_level(rest.drop_first(), 0);
            let index = parse_expression_spec(rest.drop_first());
            if index.rest.len() >= 2 {
                lemma_parse_level(index.rest.drop_first().drop_first(), 0);
            }
        }
    }
}

/// A statement leaves no more tokens than it was given, and fewer where it
/// is read without error.
pub proof fn lemma_parse_statement(tokens: Seq<TokenView>, in_block: bool)
    ensures
        parse_statement(tokens, in_block).rest.len() <= tokens.len(),
        parse_statement(tokens, in_block).node is Ok ==> parse_statement(tokens, in_block).rest.len()
            < tokens.len(),
    decreases tokens.len(), 5int,
{
    if tokens.len() > 0 {
        lemma_parse_simple_statements(tokens);
        lemma_parse_level(tokens, 0);
        match tokens[0].lexeme {
            LexemeView::Keyword(Keyword::If) => {
                lemma_parse_if(tokens);
            },
            LexemeView::Keyword(Keyword::Function) => {
                if !in_block {
                    lemma_parse_function(tokens);
                }
            },
            LexemeView::Keyword(Keyword::Loop) => {
                lemma_parse_loop(tokens);
            },
            _ => {},
        }
    }
}

pub proof fn lemma_parse_block(tokens: Seq<TokenView>)
    ensures
        parse_block_spec(tokens).rest.len() <= tokens.len(),
        parse_block_spec(tokens).nodes is Ok ==> parse_block_spec(tokens).rest.len()
            < tokens.len(),
    decreases tokens.len(), 7int,
{
    if starts_with(tokens, LexemeView::Indent) {
        lemma_block_body(tokens.drop_first(), Seq::empty());
    }
}

pub proof fn lemma_block_body(tokens: Seq<TokenView>, read: Seq<NodeView>)
    ensures
        block_body(tokens, read).rest.len() <= tokens.len(),
    decreases tokens.len(), 6int,
{
    if !starts_with(tokens, LexemeView::Dedent) {
        lemma_parse_statement(tokens, true);
        let statement = parse_statement(tokens, true);
        if let Ok(node) = statement.node {
            lemma_block_body(statement.rest, read.push(node));
        }
    }
}

pub proof fn lemma_parse_loop(tokens: Seq<TokenView>)
    ensures
        parse_loop_spec(tokens).rest.len() <= tokens.len(),
        parse_loop_spec(tokens).node is Ok ==> parse_loop_spec(tokens).rest.len() < tokens.len(),
    decreases tokens.len(), 4int,
{
    if starts_with(tokens, LexemeView::Keyword(Keyword::Loop)) && starts_with(
        tokens.drop_first(),
        LexemeView::Newline,
    ) {
        lemma_parse_block(tokens.drop_first().drop_first());
    }
}

pub proof fn lemma_parse_function(tokens: Seq<TokenView>)
    ensures
        parse_function_spec(tokens).rest.len() <= tokens.len(),
        parse_function_spec(tokens).node is Ok ==> parse_function_spec(tokens).rest.len()
            < tokens.len(),
    decreases tokens.len(), 4int,
{
    if starts_with(tokens, LexemeView::Keyword(Keyword::Function)) && tokens.len() >= 2 {
        let behind_name = tokens.drop_first().drop_first();
        if starts_with(behind_name, LexemeView::Symbol(Symbol::OpenParen)) {
            lemma_parse_params(behind_name.drop_first(), Seq::empty());
            let params = parse_params(behind_name.drop_first(), Seq::empty());
            if starts_with(params.rest, LexemeView::Newline) {
                lemma_parse_block(params.rest.drop_first());
            }
        }
    }
}

pub proof fn lemma_parse_if(tokens: Seq<TokenView>)
    ensures
        parse_if_spec(tokens).rest.len() <= tokens.len(),
        parse_if_spec(tokens).node is Ok ==> parse_if_spec(tokens).rest.len() < tokens.len(),
    decreases tokens.len(), 4int,
{
    if tokens.len() > 0 {
        let behind_keyword = skip_newline(tokens.drop_first());
        let indented = starts_with(behind_keyword, LexemeView::Indent);
        let at_condition = if indented {
            behind_keyword.drop_first()
        } else {
            behind_keyword
        };
        lemma_parse_level(at_condition, 0);
        let condition = parse_expression_spec(at_condition);
        if let Ok(condition_node) = condition.node {
            if let Ok(at_then) = close_condition(condition.rest, indented) {
                if starts_with(at_then, LexemeView::Keyword(Keyword::Then)) && starts_with(
                    at_then.drop_first(),
                    LexemeView::Newline,
                ) {
                    let at_block = at_then.drop_first().drop_first();
                    lemma_parse_block(at_block);
                    let then_block = parse_block_spec(at_block);
                    if let Ok(then_part) = then_block.nodes {
                        lemma_parse_else(then_block.rest, condition_node, then_part);
                    }
                }
            }
        }
    }
}

pub proof fn lemma_parse_else(
    tokens: Seq<TokenView>,
    condition: NodeView,
    then_part: Seq<NodeView>,
)
    ensures
        parse_else_spec(tokens, condition, then_part).rest.len() <= tokens.len(),
    decreases tokens.len(), 5int,
{
    if starts_with(tokens, LexemeView::Keyword(Keyword::Elif)) {
        lemma_parse_if(tokens);
    } else if starts_with(tokens, LexemeView::Keyword(Keyword::Else)) {
        if starts_with(tokens.drop_first(), LexemeView::Newline) {
            lemma_parse_block(tokens.drop_first().drop_first());
        }
    }
}

/// The statements that only hold expressions hold no function declaration.
pub proof fn lemma_simple_statements_placed(tokens: Seq<TokenView>)
    ensures
        parse_assignment_spec(tokens).node matches Ok(node) ==> node.well_placed(false),
        parse_return_spec(tokens).node matches Ok(node) ==> node.well_placed(false),
        parse_print_spec(tokens).node matches Ok(node) ==> node.well_placed(false),
        parse_continue_spec(tokens).node matches Ok(node) ==> node.well_placed(false),
        parse_break_spec(tokens).node matches Ok(node) ==> node.well_placed(false),
{
    reveal_with_fuel(NodeView::well_placed, 2);
    if tokens.len() > 0 {
        let rest = tokens.drop_first();
        lemma_level_placed(rest, 0);
        if rest.len() > 0 {
            lemma_level_placed(rest.drop_first(), 0);
            let index = parse_expression_spec(rest.drop_first());
            if index.rest.len() >= 2 {
                lemma_level_placed(index.rest.drop_first().drop_first(), 0);
            }
        }
    }
}

/// A statement that is read holds function declarations only where they may
/// stand: in a block none at all, and at the top level none but the
/// statement itself.
pub proof fn lemma_statement_placed(tokens: Seq<TokenView>, in_block: bool)
    ensures
        parse_statement(tokens, in_block).node matches Ok(node) ==> node.well_placed(!in_block),
    decreases tokens.len(), 5int,
{
    if tokens.len() > 0 {
        lemma_simple_statements_placed(tokens);
        lemma_level_placed(tokens, 0);
        match tokens[0].lexeme {
            LexemeView::Keyword(Keyword::If) => {
                lemma_if_placed(tokens);
            },
            LexemeView::Keyword(Keyword::Function) => {
                if !in_block {
                    lemma_function_placed(tokens);
                }
            },
            LexemeView::Keyword(Keyword::Loop) => {
                lemma_loop_placed(tokens);
            },
            _ => {},
        }
        if let Ok(node) = parse_statement(tokens, in_block).node {
            if !(node is Function) {
                crate::node::lemma_placed_at_top(node);
            }
        }
    }
}

pub proof fn lemma_block_placed(tokens: Seq<TokenView>)
    ensures
        parse_block_spec(tokens).nodes matches Ok(nodes) ==> all_well_placed(nodes, false),
    decreases tokens.len(), 7int,
{
    if starts_with(tokens, LexemeView::Indent) {
        lemma_block_body_placed(tokens.drop_first(), Seq::empty());
    }
}

pub proof fn lemma_block_body_placed(tokens: Seq<TokenView>, read: Seq<NodeView>)
    requires
        all_well_placed(read, false),
    ensures
        block_body(tokens, read).nodes matches Ok(nodes) ==> all_well_placed(nodes, false),
    decreases tokens.len(), 6int,
{
    if !starts_with(tokens, LexemeView::Dedent) {
        lemma_statement_placed(tokens, true);
        lemma_parse_statement(tokens, true);
        let statement = parse_statement(tokens, true);
        if let Ok(node) = statement.node {
            lemma_block_body_placed(statement.rest, read.push(node));
        }
    }
}

pub proof fn lemma_loop_placed(tokens: Seq<TokenView>)
    ensures
        parse_loop_spec(tokens).node matches Ok(node) ==> node.well_placed(false),
    decreases tokens.len(), 4int,
{
    if starts_with(tokens, LexemeView::Keyword(Keyword::Loop)) && starts_with(
        tokens.drop_first(),
        LexemeView::Newline,
    ) {
        lemma_block_placed(tokens.drop_first().drop_first());
    }
}

pub proof fn lemma_function_placed(tokens: Seq<TokenView>)
    ensures
        parse_function_spec(tokens).node matches Ok(node) ==> node.well_placed(true),
    decreases tokens.len(), 4int,
{
    if starts_with(tokens, LexemeView::Keyword(Keyword::Function)) && tokens.len() >= 2 {
        let behind_name = tokens.drop_first().drop_first();
        if starts_with(behind_name, LexemeView::Symbol(Symbol::OpenParen)) {
            lemma_parse_params(behind_name.drop_first(), Seq::empty());
            let params = parse_params(behind_name.drop_first(), Seq::empty());
            if starts_with(params.rest, LexemeView::Newline) {
                lemma_block_placed(params.rest.drop_first());
            }
        }
    }
}

pub proof fn lemma_if_placed(tokens: Seq<TokenView>)
    ensures
        parse_if_spec(tokens).node matches Ok(node) ==> node.well_placed(false),
    decreases tokens.len(), 4int,
{
    if tokens.len() > 0 {
        let behind_keyword = skip_newline(tokens.drop_first());
        let indented = starts_with(behind_keyword, LexemeView::Indent);
        let at_condition = if indented {
            behind_keyword.drop_first()
        } else {
            behind_keyword
        };
        lemma_parse_level(at_condition, 0);
        lemma_level_placed(at_condition, 0);
        let condition = parse_expression_spec(at_condition);
        if let Ok(condition_node) = condition.node {
            if let Ok(at_then) = close_condition(condition.rest, indented) {
                if starts_with(at_then, LexemeView::Keyword(Keyword::Then)) && starts_with(
                    at_then.drop_first(),
                    LexemeView::Newline,
                ) {
                    let at_block = at_then.drop_first().drop_first();
                    lemma_parse_block(at_block);
                    lemma_block_placed(at_block);
                    let then_block = parse_block_spec(at_block);
                    if let Ok(then_part) = then_block.nodes {
                        lemma_else_placed(then_block.rest, condition_node, then_part);
                    }
                }
            }
        }
    }
}

pub proof fn lemma_else_placed(
    tokens: Seq<TokenView>,
    condition: NodeView,
    then_part: Seq<NodeView>,
)
    requires
        condition.well_placed(false),
        all_well_placed(then_part, false),
    ensures
        parse_else_spec(tokens, condition, then_part).node matches Ok(node) ==> node.well_placed(
            false,
        ),
    decreases tokens.len(), 5int,
{
    if starts_with(tokens, LexemeView::Keyword(Keyword::Elif)) {
        lemma_if_placed(tokens);
    } else if starts_with(tokens, LexemeView::Keyword(Keyword::Else)) {
        if starts_with(tokens.drop_first(), LexemeView::Newline) {
            lemma_block_placed(tokens.drop_first().drop_first());
        }
    }
}

/// In a program that is read without error a function declaration stands
/// at the top level only: no block and no expression holds one.
pub proof fn lemma_program_placed(tokens: Seq<TokenView>, read: Seq<NodeView>)
    requires
        all_well_placed(read, true),
    ensures
        parse_program(tokens, read) matches Ok(nodes) ==> all_well_placed(nodes, true),
    decreases tokens.len(),
{
    if tokens.len() > 0 {
        lemma_statement_placed(tokens, false);
        let statement = parse_statement(tokens, false);
        if let Ok(node) = statement.node {
            if statement.rest.len() < tokens.len() {
                lemma_program_placed(statement.rest, read.push(node));
            }
        }
    }
}

/// In a block a line that starts with `関数` is always refused, whatever
/// follows it.
pub proof fn lemma_function_in_block_is_refused(tokens: Seq<TokenView>)
    requires
        starts_with(tokens, LexemeView::Keyword(Keyword::Function)),
    ensures
        parse_statement(tokens, true).node == Err::<NodeView, SyntaxErrorView>(
            SyntaxErrorView::function_declaration_in_block(tokens[0]),
        ),
{
}

/// Whether the first of `tokens` has the lexeme `lexeme`.
fn front_is(tokens: &Tokens, lexeme: Lexeme) -> (found: bool)
    ensures
        found == starts_with(tokens@, lexeme@),
{
    match tokens.front() {
        Some(token) => token.lexeme == lexeme,
        None => false,
    }
}

/// Whether the line that `tokens` starts with holds an assignment sign.
pub fn is_assignment(tokens: &Tokens) -> (found: bool)
    ensures
        found == has_assignment_sign(tokens@),
{
    let mut index: usize = 0;
    assert(tokens@.skip(0) =~= tokens@);
    while index < tokens.len()
        invariant
            index <= tokens@.len(),
            has_assignment_sign(tokens@) == has_assignment_sign(tokens@.skip(index as int)),
        decreases tokens@.len() - index,
    {
        proof {
            assert(tokens@.skip(index as int)[0] == tokens@[index as int]);
            assert(tokens@.skip(index as int).drop_first() =~= tokens@.skip(index + 1));
        }
        match tokens.get(index) {
            Some(token) => match token.lexeme {
                Lexeme::Symbol(Symbol::Equal) => {
                    return true;
                },
                Lexeme::Newline => {
                    return false;
                },
                _ => {},
            },
            None => {},
        }
        index += 1;
    }
    false
}

/// Parses one statement of the top level, with the newline that ends its
/// line.
pub fn parse_node(tokens: &mut Tokens) -> (node: Result<Node, SyntaxError>)
    ensures
        node_result_view(node) == parse_statement(old(tokens)@, false).node,
        final(tokens)@ == parse_statement(old(tokens)@, false).rest,
        final(tokens)@.len() <= old(tokens)@.len(),
        node is Ok ==> final(tokens)@.len() < old(tokens)@.len(),
    decreases old(tokens)@.len(), 6int,
{
    parse_statement_at(tokens, false)
}

/// Parses one statement of a block, with the newline that ends its line.
/// A function declaration is refused there.
pub fn parse_node_in_block(tokens: &mut Tokens) -> (node: Result<Node, SyntaxError>)
    ensures
        node_result_view(node) == parse_statement(old(tokens)@, true).node,
        final(tokens)@ == parse_statement(old(tokens)@, true).rest,
        final(tokens)@.len() <= old(tokens)@.len(),
        node is Ok ==> final(tokens)@.len() < old(tokens)@.len(),
    decreases old(tokens)@.len(), 6int,
{
    parse_statement_at(tokens, true)
}

/// Parses one statement, chosen by the token it starts with.
fn parse_statement_at(tokens: &mut Tokens, in_block: bool) -> (node: Result<Node, SyntaxError>)
    ensures
        node_result_view(node) == parse_statement(old(tokens)@, in_block).node,
        final(tokens)@ == parse_statement(old(tokens)@, in_block).rest,
        final(tokens)@.len() <= old(tokens)@.len(),
        node is Ok ==> final(tokens)@.len() < old(tokens)@.len(),
    decreases old(tokens)@.len(), 5int,
{
    proof {
        lemma_parse_statement(tokens@, in_block);
    }
    let front = match tokens.front() {
        Some(token) => token.clone(),
        None => {
            return Err(SyntaxError::unexpected_end());
        },
    };
    let node = match &front.lexeme {
        Lexeme::Keyword(Keyword::If) => parse_if(tokens),
        Lexeme::Keyword(Keyword::Function) => if in_block {
            Err(SyntaxError::function_declaration_in_block(front.clone()))
        } else {
            parse_function(tokens)
        },
        Lexeme::Keyword(Keyword::Return) => parse_return(tokens),
        Lexeme::Keyword(Keyword::Loop) => parse_loop(tokens),
        Lexeme::Keyword(Keyword::Continue) => parse_continue(tokens),
        Lexeme::Keyword(Keyword::Break) => parse_break(tokens),
        Lexeme::Keyword(Keyword::Print) => parse_print(tokens),
        Lexeme::Identifier(_) => if is_assignment(tokens) {
            parse_assignment(tokens)
        } else {
            parse_expression(tokens)
        },
        _ => Err(SyntaxError::unexpected_token(front.clone())),
    };
    let _ = tokens.consume(Lexeme::Newline);
    node
}

/// Parses a block: an `Indent`, statements, and the `Dedent` that closes
/// it.
pub fn parse_block(tokens: &mut Tokens) -> (nodes: Result<Vec<Node>, SyntaxError>)
    ensures
        nodes_result_view(nodes) == parse_block_spec(old(tokens)@).nodes,
        final(tokens)@ == parse_block_spec(old(tokens)@).rest,
        final(tokens)@.len() <= old(tokens)@.len(),
        nodes is Ok ==> final(tokens)@.len() < old(tokens)@.len(),
    decreases old(tokens)@.len(), 7int,
{
    proof {
        lemma_parse_block(tokens@);
    }
    match expect(tokens, Lexeme::Indent) {
        Ok(()) => {},
        Err(error) => {
            return Err(error);
        },
    }
    let mut body: Vec<Node> = Vec::new();
    assert(node_views(body@) =~= Seq::empty());
    loop
        invariant
            tokens@.len() < old(tokens)@.len(),
            parse_block_spec(old(tokens)@) == block_body(tokens@, node_views(body@)),
        decreases tokens@.len(),
    {
        if tokens.consume(Lexeme::Dedent).is_ok() {
            return Ok(body);
        }
        let ghost read = node_views(body@);
        match parse_node_in_block(tokens) {
            Ok(node) => {
                body.push(node);
                assert(node_views(body@) =~= read.push(node@));
            },
            Err(error) => {
                return Err(error);
            },
        }
    }
}

/// Parses `name = value` or `name[index] = value`.
pub fn parse_assignment(tokens: &mut Tokens) -> (node: Result<Node, SyntaxError>)
    ensures
        node_result_view(node) == parse_assignment_spec(old(tokens)@).node,
        final(tokens)@ == parse_assignment_spec(old(tokens)@).rest,
{
    let front = match tokens.shift() {
        Some(token) => token,
        None => {
            return Err(SyntaxError::unexpected_end());
        },
    };
    match front.lexeme {
        Lexeme::Identifier(name) => {
            if tokens.consume(Lexeme::Symbol(Symbol::OpenBracket)).is_ok() {
                let index = match parse_expression(tokens) {
                    Ok(node) => node,
                    Err(error) => {
                        return Err(error);
                    },
                };
                match expect(tokens, Lexeme::Symbol(Symbol::CloseBracket)) {
                    Ok(()) => {},
                    Err(error) => {
                        return Err(error);
                    },
                }
                match expect(tokens, Lexeme::Symbol(Symbol::Equal)) {
                    Ok(()) => {},
                    Err(error) => {
                        return Err(error);
                    },
                }
                match parse_expression(tokens) {
                    Ok(value) => Ok(
                        Node::IndexAssignment {
                            name,
                            index: Box::new(index),
                            value: Box::new(value),
                        },
                    ),
                    Err(error) => Err(error),
                }
            } else {
                match expect(tokens, Lexeme::Symbol(Symbol::Equal)) {
                    Ok(()) => {},
                    Err(error) => {
                        return Err(error);
                    },
                }
                match parse_expression(tokens) {
                    Ok(value) => Ok(Node::Assignment { name, value: Box::new(value) }),
                    Err(error) => Err(error),
                }
            }
        },
        lexeme => Err(SyntaxError::unexpected_token(Token { lexeme, position: front.position })),
    }
}

/// Parses the parameter names of a function declaration, behind the
/// opening parenthesis.
fn parse_parameters(tokens: &mut Tokens) -> (names: Result<Vec<String>, SyntaxError>)
    ensures
        match parse_params(old(tokens)@, Seq::empty()).names {
            Ok(read) => names is Ok && text_views(names->Ok_0@) == read,
            Err(error) => names is Err && names->Err_0@ == error,
        },
        final(tokens)@ == parse_params(old(tokens)@, Seq::empty()).rest,
        final(tokens)@.len() <= old(tokens)@.len(),
{
    proof {
        lemma_parse_params(tokens@, Seq::empty());
    }
    let mut params: Vec<String> = Vec::new();
    assert(text_views(params@) =~= Seq::empty());
    loop
        invariant
            parse_params(old(tokens)@, Seq::empty()).rest.len() <= old(tokens)@.len(),
            parse_params(old(tokens)@, Seq::empty()) == parse_params(
                tokens@,
                text_views(params@),
            ),
        decreases tokens@.len(),
    {
        let token = match tokens.shift() {
            Some(token) => token,
            None => {
                return Ok(params);
            },
        };
        match token.lexeme {
            Lexeme::Symbol(Symbol::Comma) => {},
            Lexeme::Symbol(Symbol::CloseParen) => {
                return Ok(params);
            },
            Lexeme::Identifier(name) => {
                let ghost read = text_views(params@);
                params.push(name);
                assert(text_views(params@) =~= read.push(name@));
            },
            lexeme => {
                return Err(
                    SyntaxError::unexpected_token(Token { lexeme, position: token.position }),
                );
            },
        }
    }
}

/// Parses a function declaration.
pub fn parse_function(tokens: &mut Tokens) -> (node: Result<Node, SyntaxError>)
    ensures
        node_result_view(node) == parse_function_spec(old(tokens)@).node,
        final(tokens)@ == parse_function_spec(old(tokens)@).rest,
    decreases old(tokens)@.len(), 4int,
{
    match expect(tokens, Lexeme::Keyword(Keyword::Function)) {
        Ok(()) => {},
        Err(error) => {
            return Err(error);
        },
    }
    let token = match tokens.shift() {
        Some(token) => token,
        None => {
            return Err(SyntaxError::unexpected_end());
        },
    };
    let name = match token.lexeme {
        Lexeme::Identifier(name) => name,
        lexeme => {
            return Err(SyntaxError::unexpected_token(Token { lexeme, position: token.position }));
        },
    };
    match expect(tokens, Lexeme::Symbol(Symbol::OpenParen)) {
        Ok(()) => {},
        Err(error) => {
            return Err(error);
        },
    }
    let params = match parse_parameters(tokens) {
        Ok(params) => params,
        Err(error) => {
            return Err(error);
        },
    };
    match expect(tokens, Lexeme::Newline) {
        Ok(()) => {},
        Err(error) => {
            return Err(error);
        },
    }
    match parse_block(tokens) {
        Ok(body) => {
            proof {
                Node::lemma_models(&body);
            }
            Ok(Node::Function { name, params, body })
        },
        Err(error) => Err(error),
    }
}

/// Parses an `If`, with the `もしくは` and `ちがえば` parts that follow it.
pub fn parse_if(tokens: &mut Tokens) -> (node: Result<Node, SyntaxError>)
    ensures
        node_result_view(node) == parse_if_spec(old(tokens)@).node,
        final(tokens)@ == parse_if_spec(old(tokens)@).rest,
    decreases old(tokens)@.len(), 4int,
{
    if tokens.shift().is_none() {
        return Err(SyntaxError::unexpected_end());
    }
    let _ = tokens.consume(Lexeme::Newline);
    let is_indented = tokens.consume(Lexeme::Indent).is_ok();
    let condition = match parse_expression(tokens) {
        Ok(node) => node,
        Err(error) => {
            return Err(error);
        },
    };
    if is_indented {
        let _ = tokens.consume(Lexeme::Newline);
        match expect(tokens, Lexeme::Dedent) {
            Ok(()) => {},
            Err(error) => {
                return Err(error);
            },
        }
    }
    match expect(tokens, Lexeme::Keyword(Keyword::Then)) {
        Ok(()) => {},
        Err(error) => {
            return Err(error);
        },
    }
    match expect(tokens, Lexeme::Newline) {
        Ok(()) => {},
        Err(error) => {
            return Err(error);
        },
    }
    let then_part = match parse_block(tokens) {
        Ok(nodes) => nodes,
        Err(error) => {
            return Err(error);
        },
    };
    proof {
        Node::lemma_models(&then_part);
    }
    if front_is(tokens, Lexeme::Keyword(Keyword::Elif)) {
        match parse_if(tokens) {
            Ok(nested) => {
                let mut else_part: Vec<Node> = Vec::new();
                else_part.push(nested);
                proof {
                    Node::lemma_models(&else_part);
                    assert(node_views(else_part@) =~= seq![nested@]);
                }
                Ok(Node::If { condition: Box::new(condition), then_part, else_part })
            },
            Err(error) => Err(error),
        }
    } else if tokens.consume(Lexeme::Keyword(Keyword::Else)).is_ok() {
        match expect(tokens, Lexeme::Newline) {
            Ok(()) => {},
            Err(error) => {
                return Err(error);
            },
        }
        match parse_block(tokens) {
            Ok(else_part) => {
                proof {
                    Node::lemma_models(&else_part);
                }
                Ok(Node::If { condition: Box::new(condition), then_part, else_part })
            },
            Err(error) => Err(error),
        }
    } else {
        let else_part: Vec<Node> = Vec::new();
        proof {
            Node::lemma_models(&else_part);
            assert(node_views(else_part@) =~= Seq::empty());
        }
        Ok(Node::If { condition: Box::new(condition), then_part, else_part })
    }
}

/// Parses `かえす` with the value to return, if the line gives one.
pub fn parse_return(tokens: &mut Tokens) -> (node: Result<Node, SyntaxError>)
    ensures
        node_result_view(node) == parse_return_spec(old(tokens)@).node,
        final(tokens)@ == parse_return_spec(old(tokens)@).rest,
{
    match expect(tokens, Lexeme::Keyword(Keyword::Return)) {
        Ok(()) => {},
        Err(error) => {
            return Err(error);
        },
    }
    if front_is(tokens, Lexeme::Newline) {
        let null = Node::Null;
        assert(null@ == NodeView::Null);
        return Ok(Node::Return(Box::new(null)));
    }
    match parse_expression(tokens) {
        Ok(value) => Ok(Node::Return(Box::new(value))),
        Err(error) => Err(error),
    }
}

/// Parses `くりかえし` with its block.
pub fn parse_loop(tokens: &mut Tokens) -> (node: Result<Node, SyntaxError>)
    ensures
        node_result_view(node) == parse_loop_spec(old(tokens)@).node,
        final(tokens)@ == parse_loop_spec(old(tokens)@).rest,
    decreases old(tokens)@.len(), 4int,
{
    match expect(tokens, Lexeme::Keyword(Keyword::Loop)) {
        Ok(()) => {},
        Err(error) => {
            return Err(error);
        },
    }
    match expect(tokens, Lexeme::Newline) {
        Ok(()) => {},
        Err(error) => {
            return Err(error);
        },
    }
    match parse_block(tokens) {
        Ok(body) => {
            proof {
                Node::lemma_models(&body);
            }
            Ok(Node::Loop { body })
        },
        Err(error) => Err(error),
    }
}

/// Parses `つぎへ`.
pub fn parse_continue(tokens: &mut Tokens) -> (node: Result<Node, SyntaxError>)
    ensures
        node_result_view(node) == parse_continue_spec(old(tokens)@).node,
        final(tokens)@ == parse_continue_spec(old(tokens)@).rest,
{
    match expect(tokens, Lexeme::Keyword(Keyword::Continue)) {
        Ok(()) => Ok(Node::Continue),
        Err(error) => Err(error),
    }
}

/// Parses `ぬける`.
pub fn parse_break(tokens: &mut Tokens) -> (node: Result<Node, SyntaxError>)
    ensures
        node_result_view(node) == parse_break_spec(old(tokens)@).node,
        final(tokens)@ == parse_break_spec(old(tokens)@).rest,
{
    match expect(tokens, Lexeme::Keyword(Keyword::Break)) {
        Ok(()) => Ok(Node::Break),
        Err(error) => Err(error),
    }
}

/// Parses `表示` with the value to print, if the line gives one.
pub fn parse_print(tokens: &mut Tokens) -> (node: Result<Node, SyntaxError>)
    ensures
        node_result_view(node) == parse_print_spec(old(tokens)@).node,
        final(tokens)@ == parse_print_spec(old(tokens)@).rest,
{
    match expect(tokens, Lexeme::Keyword(Keyword::Print)) {
        Ok(()) => {},
        Err(error) => {
            return Err(error);
        },
    }
    if front_is(tokens, Lexeme::Newline) {
        let null = Node::Null;
        assert(null@ == NodeView::Null);
        return Ok(Node::Print(Box::new(null)));
    }
    match parse_expression(tokens) {
        Ok(value) => Ok(Node::Print(Box::new(value))),
        Err(error) => Err(error),
    }
}

/// Parses the statements of a program one after the other.
#[derive(Debug)]
pub struct Parser {
    tokens: Tokens,
}

impl View for Parser {
    type V = Seq<TokenView>;

    closed spec fn view(&self) -> Seq<TokenView> {
        self.tokens@
    }
}

impl Parser {
    /// A parser of the statements that `tokens` holds.
    pub fn new(tokens: Tokens) -> (parser: Parser)
        ensures
            parser@ == tokens@,
    {
        Parser { tokens }
    }

    /// Parses the next statement of the top level: `None` where no token is
    /// left.
    pub fn next(&mut self) -> (node: Option<Result<Node, SyntaxError>>)
        ensures
            old(self)@.len() == 0 ==> node.is_none() && final(self)@ == old(self)@,
            old(self)@.len() > 0 ==> node.is_some() && node_result_view(node.unwrap())
                == parse_statement(old(self)@, false).node && final(self)@ == parse_statement(
                old(self)@,
                false,
            ).rest,
            final(self)@.len() <= old(self)@.len(),
            node matches Some(Ok(_)) ==> final(self)@.len() < old(self)@.len(),
    {
        if self.tokens.front().is_none() {
            return None;
        }
        Some(parse_node(&mut self.tokens))
    }
}

} // verus!
