use shikibu::ast::Ast;
use shikibu::error::{SyntaxError, SyntaxErrorKind};
use shikibu::expr_parser::parse_expression;
use shikibu::keyword::Keyword;
use shikibu::lexeme::Lexeme;
use shikibu::node::Node;
use shikibu::parser::{is_assignment, parse_assignment, Parser};
use shikibu::symbol::Symbol;
use shikibu::token::Token;
use shikibu::tokens::Tokens;

fn parse(source: &str) -> Vec<Node> {
    let mut ast = Ast::try_from(Tokens::from_str(source).unwrap()).unwrap();
    let mut nodes = Vec::new();
    while let Some(node) = ast.pop_front() {
        nodes.push(node);
    }
    nodes
}

fn parse_error(source: &str) -> SyntaxError {
    Ast::try_from(Tokens::from_str(source).unwrap()).unwrap_err()
}

fn expression(source: &str) -> Node {
    let mut tokens = Tokens::from_str(source).unwrap();
    parse_expression(&mut tokens).unwrap()
}

fn number(text: &str) -> Box<Node> {
    Box::new(Node::Number(text.to_string()))
}

fn variable(text: &str) -> Box<Node> {
    Box::new(Node::Variable(text.to_string()))
}

#[test]
fn multiplication_binds_tighter_than_addition() {
    assert_eq!(
        expression("1 + 2 * 3"),
        Node::Add {
            left: number("1"),
            right: Box::new(Node::Multiply { left: number("2"), right: number("3") }),
        }
    );
    assert_eq!(
        expression("1 * 2 + 3"),
        Node::Add {
            left: Box::new(Node::Multiply { left: number("1"), right: number("2") }),
            right: number("3"),
        }
    );
}

#[test]
fn operators_of_one_level_join_from_the_left() {
    assert_eq!(
        expression("1 - 2 - 3"),
        Node::Subtract {
            left: Box::new(Node::Subtract { left: number("1"), right: number("2") }),
            right: number("3"),
        }
    );
    assert_eq!(
        expression("8 / 4 / 2"),
        Node::Divide {
            left: Box::new(Node::Divide { left: number("8"), right: number("4") }),
            right: number("2"),
        }
    );
}

#[test]
fn the_levels_climb_from_or_to_the_multiplicative_operators() {
    assert_eq!(
        expression("a または b かつ c == d < e + f * g"),
        Node::Or {
            left: variable("a"),
            right: Box::new(Node::And {
                left: variable("b"),
                right: Box::new(Node::Equal {
                    left: variable("c"),
                    right: Box::new(Node::LessThan {
                        left: variable("d"),
                        right: Box::new(Node::Add {
                            left: variable("e"),
                            right: Box::new(Node::Multiply {
                                left: variable("f"),
                                right: variable("g"),
                            }),
                        }),
                    }),
                }),
            }),
        }
    );
    assert_eq!(
        expression("a != b"),
        Node::NotEqual { left: variable("a"), right: variable("b") }
    );
    assert_eq!(
        expression("a <= b"),
        Node::LessThanOrEqual { left: variable("a"), right: variable("b") }
    );
    assert_eq!(
        expression("a > b"),
        Node::GreaterThan { left: variable("a"), right: variable("b") }
    );
    assert_eq!(
        expression("a >= b"),
        Node::GreaterThanOrEqual { left: variable("a"), right: variable("b") }
    );
}

#[test]
fn parentheses_override_the_levels() {
    assert_eq!(
        expression("(1 + 2) * 3"),
        Node::Multiply {
            left: Box::new(Node::Add { left: number("1"), right: number("2") }),
            right: number("3"),
        }
    );
}

#[test]
fn a_minus_sign_stands_for_a_subtraction_from_zero() {
    assert_eq!(expression("-x"), Node::Subtract { left: number("0"), right: variable("x") });
    assert_eq!(expression("!x"), Node::Not(variable("x")));
    assert_eq!(
        expression("2 * -3"),
        Node::Multiply {
            left: number("2"),
            right: Box::new(Node::Subtract { left: number("0"), right: number("3") }),
        }
    );
}

#[test]
fn literals_parse_to_their_nodes() {
    assert_eq!(expression("12.5"), Node::Number("12.5".to_string()));
    assert_eq!(expression("\"文字\""), Node::String("文字".to_string()));
    assert_eq!(expression("真"), Node::Bool(true));
    assert_eq!(expression("偽"), Node::Bool(false));
    assert_eq!(expression("無"), Node::Null);
    assert_eq!(expression("x"), Node::Variable("x".to_string()));
}

#[test]
fn a_name_before_parentheses_is_a_call() {
    assert_eq!(
        expression("f(1, x)"),
        Node::Call { name: "f".to_string(), args: vec![*number("1"), *variable("x")] }
    );
    assert_eq!(expression("f()"), Node::Call { name: "f".to_string(), args: vec![] });
}

#[test]
fn stray_commas_between_arguments_are_passed_over() {
    assert_eq!(
        expression("f(,1,,2,)"),
        Node::Call { name: "f".to_string(), args: vec![*number("1"), *number("2")] }
    );
    assert_eq!(expression("[1,,2]"), Node::List(vec![*number("1"), *number("2")]));
}

#[test]
fn brackets_make_a_list() {
    assert_eq!(
        expression("[10, 20, 30]"),
        Node::List(vec![*number("10"), *number("20"), *number("30")])
    );
    assert_eq!(expression("「」"), Node::List(vec![]));
    assert_eq!(
        expression("[[1], x]"),
        Node::List(vec![Node::List(vec![*number("1")]), *variable("x")])
    );
}

#[test]
fn the_built_in_forms_have_nodes_of_their_own() {
    assert_eq!(expression("長さ(x)"), Node::Length(variable("x")));
    assert_eq!(
        expression("配列(xs, 2)"),
        Node::Get { list: variable("xs"), index: number("2") }
    );
}

#[test]
fn a_token_that_opens_no_expression_is_unexpected() {
    let mut tokens = Tokens::from_str(") + 1").unwrap();
    let error = parse_expression(&mut tokens).unwrap_err();
    assert_eq!(error.kind, SyntaxErrorKind::UnexpectedToken);
    assert_eq!(error.token, Some(Token::symbol(Symbol::CloseParen, 0)));
    assert_eq!(error.message, "Unexpected token: Symbol(CloseParen)");
}

#[test]
fn an_expression_cut_off_by_the_end_is_an_error() {
    let mut tokens = Tokens::new(std::collections::VecDeque::from(vec![
        Token::number("1".to_string(), 0),
        Token::symbol(Symbol::Plus, 1),
    ]));
    let error = parse_expression(&mut tokens).unwrap_err();
    assert_eq!(error.kind, SyntaxErrorKind::UnexpectedToken);
    assert_eq!(error.token, None);
    assert_eq!(tokens.len(), 0);
}

#[test]
fn a_missing_closing_parenthesis_is_an_error() {
    let mut tokens = Tokens::from_str("(1 + 2").unwrap();
    let error = parse_expression(&mut tokens).unwrap_err();
    assert_eq!(error.kind, SyntaxErrorKind::UnexpectedToken);
    assert_eq!(error.token.map(|token| token.lexeme), Some(Lexeme::Newline));
}

#[test]
fn parsing_an_expression_leaves_what_follows_it() {
    let mut tokens = Tokens::from_str("1 + 2 なら").unwrap();
    parse_expression(&mut tokens).unwrap();
    assert_eq!(tokens.front().map(|token| token.lexeme.clone()), Some(Lexeme::Keyword(Keyword::Then)));
}

#[test]
fn a_line_with_an_equals_sign_is_an_assignment() {
    assert_eq!(
        parse("x = 1 + 2"),
        vec![Node::Assignment {
            name: "x".to_string(),
            value: Box::new(Node::Add { left: number("1"), right: number("2") }),
        }]
    );
    assert!(is_assignment(&Tokens::from_str("x = 1").unwrap()));
    assert!(!is_assignment(&Tokens::from_str("x == 1").unwrap()));
    assert!(!is_assignment(&Tokens::from_str("f(x)\ny = 1").unwrap()));
}

#[test]
fn an_assignment_to_an_index_has_a_node_of_its_own() {
    assert_eq!(
        parse("xs[0] = 5"),
        vec![Node::IndexAssignment {
            name: "xs".to_string(),
            index: number("0"),
            value: number("5"),
        }]
    );
    let mut tokens = Tokens::from_str("y = 無").unwrap();
    assert_eq!(
        parse_assignment(&mut tokens).unwrap(),
        Node::Assignment { name: "y".to_string(), value: Box::new(Node::Null) }
    );
}

#[test]
fn a_line_without_an_equals_sign_is_an_expression() {
    assert_eq!(
        parse("f(1)\ng()"),
        vec![
            Node::Call { name: "f".to_string(), args: vec![*number("1")] },
            Node::Call { name: "g".to_string(), args: vec![] },
        ]
    );
}

#[test]
fn print_and_return_take_an_expression_or_nothing() {
    assert_eq!(parse("表示 x"), vec![Node::Print(variable("x"))]);
    assert_eq!(parse("表示(x)"), vec![Node::Print(variable("x"))]);
    assert_eq!(parse("表示"), vec![Node::Print(Box::new(Node::Null))]);
    assert_eq!(
        parse("関数 f()\n    かえす\n"),
        vec![Node::Function {
            name: "f".to_string(),
            params: vec![],
            body: vec![Node::Return(Box::new(Node::Null))],
        }]
    );
    assert_eq!(
        parse("関数 f()\n    かえす 1 + 2\n"),
        vec![Node::Function {
            name: "f".to_string(),
            params: vec![],
            body: vec![Node::Return(Box::new(Node::Add { left: number("1"), right: number("2") }))],
        }]
    );
}

#[test]
fn a_function_declaration_has_a_name_parameters_and_a_body() {
    assert_eq!(
        parse("関数 足す(a, b)\n    c = a + b\n    かえす c\n表示 足す(1, 2)"),
        vec![
            Node::Function {
                name: "足す".to_string(),
                params: vec!["a".to_string(), "b".to_string()],
                body: vec![
                    Node::Assignment {
                        name: "c".to_string(),
                        value: Box::new(Node::Add { left: variable("a"), right: variable("b") }),
                    },
                    Node::Return(variable("c")),
                ],
            },
            Node::Print(Box::new(Node::Call {
                name: "足す".to_string(),
                args: vec![*number("1"), *number("2")],
            })),
        ]
    );
}

#[test]
fn stray_commas_between_parameters_are_passed_over() {
    assert_eq!(
        parse("関数 f(,a,,b,)\n    かえす a"),
        vec![Node::Function {
            name: "f".to_string(),
            params: vec!["a".to_string(), "b".to_string()],
            body: vec![Node::Return(variable("a"))],
        }]
    );
}

#[test]
fn an_if_without_else_has_an_empty_else_block() {
    assert_eq!(
        parse("もし x なら\n    表示 1\n表示 2"),
        vec![
            Node::If {
                condition: variable("x"),
                then_part: vec![Node::Print(number("1"))],
                else_part: vec![],
            },
            Node::Print(number("2")),
        ]
    );
}

#[test]
fn an_else_block_follows_its_keyword() {
    assert_eq!(
        parse("もし x なら\n    表示 1\nちがえば\n    表示 2\n"),
        vec![Node::If {
            condition: variable("x"),
            then_part: vec![Node::Print(number("1"))],
            else_part: vec![Node::Print(number("2"))],
        }]
    );
}

#[test]
fn an_elif_chain_nests_in_the_else_blocks() {
    assert_eq!(
        parse("もし a なら\n    表示 1\nもしくは b なら\n    表示 2\nちがえば\n    表示 3\n"),
        vec![Node::If {
            condition: variable("a"),
            then_part: vec![Node::Print(number("1"))],
            else_part: vec![Node::If {
                condition: variable("b"),
                then_part: vec![Node::Print(number("2"))],
                else_part: vec![Node::Print(number("3"))],
            }],
        }]
    );
}

#[test]
fn a_condition_may_stand_on_an_indented_line_of_its_own() {
    assert_eq!(
        parse("もし\n    x == 1\nなら\n    表示 1\n"),
        vec![Node::If {
            condition: Box::new(Node::Equal { left: variable("x"), right: number("1") }),
            then_part: vec![Node::Print(number("1"))],
            else_part: vec![],
        }]
    );
}

#[test]
fn a_loop_has_a_block_and_no_condition() {
    assert_eq!(
        parse("くりかえし\n    つぎへ\n    ぬける\n"),
        vec![Node::Loop { body: vec![Node::Continue, Node::Break] }]
    );
}

#[test]
fn blocks_nest() {
    assert_eq!(
        parse("くりかえし\n    もし x なら\n        ぬける\n    x = 1\n"),
        vec![Node::Loop {
            body: vec![
                Node::If {
                    condition: variable("x"),
                    then_part: vec![Node::Break],
                    else_part: vec![],
                },
                Node::Assignment { name: "x".to_string(), value: number("1") },
            ],
        }]
    );
}

#[test]
fn a_function_declared_in_a_block_is_refused() {
    let error = parse_error("もし x なら\n    関数 f()\n        かえす 1\n");
    assert_eq!(error.kind, SyntaxErrorKind::FunctionDeclarationInBlock);
    assert_eq!(error.token, Some(Token::keyword(Keyword::Function, 12)));
    assert_eq!(error.message, "Cannot declare function in block");

    let error = parse_error("くりかえし\n    関数 f()\n        かえす 1\n");
    assert_eq!(error.kind, SyntaxErrorKind::FunctionDeclarationInBlock);

    let error = parse_error("関数 g()\n    関数 f()\n        かえす 1\n");
    assert_eq!(error.kind, SyntaxErrorKind::FunctionDeclarationInBlock);
}

#[test]
fn a_statement_cannot_start_with_a_stray_token() {
    let error = parse_error("なら x");
    assert_eq!(error.kind, SyntaxErrorKind::UnexpectedToken);
    assert_eq!(error.token, Some(Token::keyword(Keyword::Then, 0)));

    let error = parse_error("x = 1\n    y = 2");
    assert_eq!(error.kind, SyntaxErrorKind::UnexpectedToken);
    assert_eq!(error.token, Some(Token::indent()));
}

#[test]
fn an_if_without_then_is_an_error() {
    let error = parse_error("もし x\n    表示 1\n");
    assert_eq!(error.kind, SyntaxErrorKind::UnexpectedToken);
    assert_eq!(error.token.map(|token| token.lexeme), Some(Lexeme::Newline));
}

#[test]
fn a_loop_without_a_block_is_an_error() {
    let error = parse_error("くりかえし\n表示 1\n");
    assert_eq!(error.kind, SyntaxErrorKind::UnexpectedToken);
    assert_eq!(error.token, Some(Token::keyword(Keyword::Print, 6)));
}

#[test]
fn a_block_that_the_tokens_end_in_is_an_error() {
    let tokens = Tokens::new(std::collections::VecDeque::from(vec![
        Token::keyword(Keyword::Loop, 0),
        Token::newline(),
        Token::indent(),
        Token::keyword(Keyword::Break, 10),
        Token::newline(),
    ]));
    let error = Ast::try_from(tokens).unwrap_err();
    assert_eq!(error.kind, SyntaxErrorKind::UnexpectedToken);
    assert_eq!(error.token, None);
    assert_eq!(error.message, "Unexpected end of input");
}

#[test]
fn the_parser_hands_out_one_statement_at_a_time() {
    let mut parser = Parser::new(Tokens::from_str("x = 1\n表示 x").unwrap());
    assert_eq!(
        parser.next().unwrap().unwrap(),
        Node::Assignment { name: "x".to_string(), value: number("1") }
    );
    assert_eq!(parser.next().unwrap().unwrap(), Node::Print(variable("x")));
    assert!(parser.next().is_none());
}

#[test]
fn the_tree_gives_up_its_function_declarations() {
    let mut ast = Ast::try_from(
        Tokens::from_str("x = 1\n関数 f()\n    かえす 1\n表示 x\n関数 g()\n    かえす 2\n").unwrap(),
    )
    .unwrap();
    let functions = ast.drain_functions();
    assert_eq!(functions.len(), 2);
    assert!(matches!(&functions[0], Node::Function { name, .. } if name == "f"));
    assert!(matches!(&functions[1], Node::Function { name, .. } if name == "g"));
    assert_eq!(
        ast.pop_front(),
        Some(Node::Assignment { name: "x".to_string(), value: number("1") })
    );
    assert_eq!(ast.pop_front(), Some(Node::Print(variable("x"))));
    assert!(ast.is_empty());
    assert_eq!(ast.pop_front(), None);
}

#[test]
fn a_tree_made_of_nodes_keeps_their_order() {
    let mut ast = Ast::new(vec![Node::Break, Node::Continue, Node::Null]);
    assert_eq!(ast.pop_front(), Some(Node::Break));
    assert_eq!(ast.pop_front(), Some(Node::Continue));
    assert_eq!(ast.pop_front(), Some(Node::Null));
    assert!(ast.is_empty());
}

#[test]
fn a_copy_of_a_node_equals_it() {
    for node in parse("関数 f(a)\n    もし a なら\n        かえす [a, 長さ(\"x\"), -1]\n    かえす f(!a)\nくりかえし\n    xs[0] = 配列(xs, 1)\n    ぬける\n") {
        assert_eq!(node.clone(), node);
    }
}

#[test]
fn the_token_cursor_takes_only_what_is_asked_for() {
    let mut tokens = Tokens::from_str("x = 1").unwrap();
    assert_eq!(tokens.len(), 4);
    assert_eq!(tokens.consume(Lexeme::Symbol(Symbol::Equal)), Err(()));
    assert_eq!(tokens.len(), 4);
    assert_eq!(tokens.consume(Lexeme::Identifier("x".to_string())), Ok(()));
    assert_eq!(tokens.len(), 3);
    assert_eq!(tokens.front(), Some(&Token::symbol(Symbol::Equal, 2)));
    assert_eq!(tokens.get(1), Some(&Token::number("1".to_string(), 4)));
    assert_eq!(tokens.get(3), None);
    assert_eq!(tokens.shift(), Some(Token::symbol(Symbol::Equal, 2)));
    assert_eq!(tokens.shift(), Some(Token::number("1".to_string(), 4)));
    assert_eq!(tokens.shift(), Some(Token::newline()));
    assert_eq!(tokens.shift(), None);
    assert_eq!(tokens.front(), None);
}
