use shikibu::ast::Ast;
use shikibu::error::{RuntimeError, RuntimeErrorKind};
use shikibu::node::BinaryOperator;
use shikibu::interpreter::{normalize, Interpreter};
use shikibu::machine::{Action, Calculation, Reply};
use shikibu::node::Node;
use shikibu::tokens::Tokens;
use shikibu::value::{number_is_less, numbers_equal, truncate_to_index, Piece, Value};

fn answer(calculation: &Calculation) -> Reply {
    match calculation {
        Calculation::Parse(digits) => Reply::Number(digits.parse::<f64>().unwrap().to_bits()),
        Calculation::Add(left, right) => {
            Reply::Number((f64::from_bits(*left) + f64::from_bits(*right)).to_bits())
        }
        Calculation::Subtract(left, right) => {
            Reply::Number((f64::from_bits(*left) - f64::from_bits(*right)).to_bits())
        }
        Calculation::Multiply(left, right) => {
            Reply::Number((f64::from_bits(*left) * f64::from_bits(*right)).to_bits())
        }
        Calculation::Divide(left, right) => {
            Reply::Number((f64::from_bits(*left) / f64::from_bits(*right)).to_bits())
        }
        Calculation::Count(count) => Reply::Number((*count as f64).to_bits()),
        Calculation::Render(bits) => Reply::Text(f64::from_bits(*bits).to_string()),
    }
}

struct Outcome {
    lines: Vec<String>,
    error: Option<RuntimeError>,
    finished: bool,
}

fn run_steps(source: &str, limit: usize) -> Outcome {
    let ast = Ast::try_from(Tokens::from_str(source).unwrap()).unwrap();
    let mut lines = Vec::new();
    let mut machine = match Interpreter::new(ast) {
        Ok(machine) => machine,
        Err(error) => return Outcome { lines, error: Some(error), finished: false },
    };
    let mut reply = Reply::Nothing;
    for _ in 0..limit {
        let (next, action) = machine.step(reply);
        machine = next;
        reply = match action {
            Action::Continue => Reply::Nothing,
            Action::Calculate(calculation) => answer(&calculation),
            Action::Print(line) => {
                lines.push(line);
                Reply::Printed
            }
            Action::Finished => return Outcome { lines, error: None, finished: true },
            Action::Failed(error) => return Outcome { lines, error: Some(error), finished: false },
        };
    }
    Outcome { lines, error: None, finished: false }
}

fn output(source: &str) -> Vec<String> {
    let outcome = run_steps(source, 100_000);
    assert!(outcome.error.is_none(), "{:?}", outcome.error);
    assert!(outcome.finished);
    outcome.lines
}

fn failure(source: &str) -> RuntimeError {
    run_steps(source, 100_000).error.unwrap()
}

#[test]
fn a_variable_prints_the_value_it_was_given() {
    assert_eq!(output("x = 1\n表示 x"), vec!["1"]);
}

#[test]
fn a_true_condition_runs_only_the_then_block() {
    assert_eq!(
        output("もし 真 なら\n    表示 \"then\"\nちがえば\n    表示 \"else\"\n"),
        vec!["then"]
    );
    assert_eq!(
        output("もし 偽 なら\n    表示 \"then\"\nちがえば\n    表示 \"else\"\n"),
        vec!["else"]
    );
    assert_eq!(output("もし 偽 なら\n    表示 \"then\"\n表示 \"after\""), vec!["after"]);
}

#[test]
fn a_condition_that_is_no_boolean_runs_the_else_block() {
    assert_eq!(
        output("もし 1 なら\n    表示 \"then\"\nちがえば\n    表示 \"else\"\n"),
        vec!["else"]
    );
}

#[test]
fn a_return_in_an_if_in_a_loop_leaves_the_function() {
    let source = "関数 探す(上限)\n    数 = 0\n    くりかえし\n        数 = 数 + 1\n        もし 数 == 上限 なら\n            かえす 数 * 10\n        表示 数\n表示 探す(3)\n表示 \"おわり\"";
    assert_eq!(output(source), vec!["1", "2", "30", "おわり"]);
}

#[test]
fn length_counts_characters_and_elements() {
    assert_eq!(output("表示 長さ(\"あい\")"), vec!["2"]);
    assert_eq!(output("表示 長さ(\"\")"), vec!["0"]);
    assert_eq!(output("表示 長さ([1, 2, 3])"), vec!["3"]);
    assert_eq!(output("表示 長さ([])"), vec!["0"]);
    assert_eq!(failure("表示 長さ(1)").kind, RuntimeErrorKind::HasNoLength);
    assert_eq!(failure("表示 長さ(真)").kind, RuntimeErrorKind::HasNoLength);
}

#[test]
fn get_takes_the_element_at_the_index() {
    assert_eq!(output("表示 配列([10, 20, 30], 2)"), vec!["30"]);
    assert_eq!(output("表示 配列([10, 20, 30], 0)"), vec!["10"]);
    let error = failure("表示 配列([10, 20, 30], 3)");
    assert_eq!(error.kind, RuntimeErrorKind::IndexOutOfRange);
    assert!(matches!(error.node, Some(Node::Get { .. })));
    assert_eq!(error.message, "Index out of range");
}

#[test]
fn get_cuts_the_index_off_toward_zero() {
    assert_eq!(output("表示 配列([10, 20, 30], 1.9)"), vec!["20"]);
    assert_eq!(output("表示 配列([10, 20, 30], 0 - 0.5)"), vec!["10"]);
    assert_eq!(failure("表示 配列([10, 20, 30], -1)").kind, RuntimeErrorKind::IndexOutOfRange);
    assert_eq!(failure("表示 配列([10, 20, 30], 1 / 0)").kind, RuntimeErrorKind::IndexOutOfRange);
    assert_eq!(failure("表示 配列([], 0)").kind, RuntimeErrorKind::IndexOutOfRange);
}

#[test]
fn get_needs_a_list_and_a_number() {
    assert_eq!(failure("表示 配列(\"abc\", 0)").kind, RuntimeErrorKind::UnexpectedNode);
    assert_eq!(failure("表示 配列([1], \"0\")").kind, RuntimeErrorKind::UnexpectedNode);
}

#[test]
fn a_call_with_the_wrong_number_of_arguments_is_refused() {
    let source = "関数 足す(a, b)\n    表示 \"入った\"\n    かえす a + b\n";
    let error = failure(&format!("{}表示 足す(1)", source));
    assert_eq!(error.kind, RuntimeErrorKind::WrongNumberOfArguments);
    assert!(matches!(error.node, Some(Node::Call { .. })));
    let outcome = run_steps(&format!("{}表示 足す(1, 2, 3)", source), 100_000);
    assert_eq!(outcome.error.unwrap().kind, RuntimeErrorKind::WrongNumberOfArguments);
    assert!(outcome.lines.is_empty());
    assert_eq!(failure(&format!("{}表示 足す()", source)).kind, RuntimeErrorKind::WrongNumberOfArguments);
    assert_eq!(output(&format!("{}表示 足す(1, 2)", source)), vec!["入った", "3"]);
}

#[test]
fn the_arguments_of_a_refused_call_are_not_computed() {
    let source = "関数 f(a)\n    かえす a\n関数 g()\n    表示 \"g\"\n    かえす 1\nf(g(), g())";
    let outcome = run_steps(source, 100_000);
    assert_eq!(outcome.error.unwrap().kind, RuntimeErrorKind::WrongNumberOfArguments);
    assert!(outcome.lines.is_empty());
}

#[test]
fn arithmetic_follows_the_levels_of_the_operators() {
    assert_eq!(output("表示 1 + 2 * 3"), vec!["7"]);
    assert_eq!(output("表示 (1 + 2) * 3"), vec!["9"]);
    assert_eq!(output("表示 10 - 4 - 3"), vec!["3"]);
    assert_eq!(output("表示 7 / 2"), vec!["3.5"]);
    assert_eq!(output("表示 -3 + 1"), vec!["-2"]);
    assert_eq!(output("表示 0.1 + 0.2"), vec!["0.30000000000000004"]);
}

#[test]
fn full_width_digits_are_numbers_too() {
    assert_eq!(output("表示 １２．５ ＋ ０．５"), vec!["13"]);
    assert_eq!(normalize(&"１２．５".to_string()), "12.5");
    assert_eq!(normalize(&"０１２３４５６７８９".to_string()), "0123456789");
    assert_eq!(normalize(&"3.25".to_string()), "3.25");
}

#[test]
fn a_division_by_zero_is_no_error() {
    assert_eq!(output("表示 1 / 0"), vec!["inf"]);
    assert_eq!(output("表示 -1 / 0"), vec!["-inf"]);
    assert_eq!(output("表示 0 / 0"), vec!["NaN"]);
}

#[test]
fn addition_joins_strings_and_numbers() {
    assert_eq!(output("表示 \"a\" + \"b\""), vec!["ab"]);
    assert_eq!(output("表示 \"a\" + 1.5"), vec!["a1.5"]);
    assert_eq!(output("表示 2 + \"b\""), vec!["2b"]);
    assert_eq!(failure("表示 真 + 1").kind, RuntimeErrorKind::TypeMismatchArithmetic);
    assert_eq!(failure("表示 [1] + [2]").kind, RuntimeErrorKind::TypeMismatchArithmetic);
    assert_eq!(failure("表示 無 + \"a\"").kind, RuntimeErrorKind::TypeMismatchArithmetic);
}

#[test]
fn the_other_arithmetic_operators_take_numbers_only() {
    assert_eq!(failure("表示 \"a\" - 1").kind, RuntimeErrorKind::TypeMismatchArithmetic);
    assert_eq!(failure("表示 \"a\" * \"b\"").kind, RuntimeErrorKind::TypeMismatchArithmetic);
    assert_eq!(failure("表示 1 / 真").kind, RuntimeErrorKind::TypeMismatchArithmetic);
    let error = failure("表示 1 - \"a\"");
    assert!(matches!(error.node, Some(Node::Subtract { .. })));
    assert_eq!(error.message, "Cannot add strings");
}

#[test]
fn equality_compares_numbers_or_strings() {
    assert_eq!(output("表示 1 == 1"), vec!["真"]);
    assert_eq!(output("表示 1 == 2"), vec!["偽"]);
    assert_eq!(output("表示 1 != 2"), vec!["真"]);
    assert_eq!(output("表示 \"a\" == \"a\""), vec!["真"]);
    assert_eq!(output("表示 \"a\" != \"a\""), vec!["偽"]);
    assert_eq!(output("表示 \"a\" == \"b\""), vec!["偽"]);
    assert_eq!(output("表示 0 == -0"), vec!["真"]);
    assert_eq!(output("表示 0 / 0 == 0 / 0"), vec!["偽"]);
    assert_eq!(output("表示 0 / 0 != 0 / 0"), vec!["真"]);
    assert_eq!(failure("表示 1 == \"1\"").kind, RuntimeErrorKind::ComparingDifferentTypes);
    assert_eq!(failure("表示 真 == 真").kind, RuntimeErrorKind::ComparingDifferentTypes);
    assert_eq!(failure("表示 無 != 無").kind, RuntimeErrorKind::ComparingDifferentTypes);
}

#[test]
fn the_relational_operators_compare_numbers() {
    assert_eq!(output("表示 1 < 2"), vec!["真"]);
    assert_eq!(output("表示 2 < 1"), vec!["偽"]);
    assert_eq!(output("表示 2 <= 2"), vec!["真"]);
    assert_eq!(output("表示 3 > 2"), vec!["真"]);
    assert_eq!(output("表示 2 >= 3"), vec!["偽"]);
    assert_eq!(output("表示 -2 < -1"), vec!["真"]);
    assert_eq!(output("表示 -1 < 0.5"), vec!["真"]);
    assert_eq!(failure("表示 \"a\" < \"b\"").kind, RuntimeErrorKind::ComparingDifferentTypes);
    assert_eq!(failure("表示 1 >= 真").kind, RuntimeErrorKind::ComparingDifferentTypes);
}

#[test]
fn or_and_and_take_booleans_only() {
    assert_eq!(output("表示 真 または 偽"), vec!["真"]);
    assert_eq!(output("表示 偽 または 偽"), vec!["偽"]);
    assert_eq!(output("表示 真 かつ 偽"), vec!["偽"]);
    assert_eq!(output("表示 真 かつ 真"), vec!["真"]);
    assert_eq!(output("表示 !真"), vec!["偽"]);
    assert_eq!(failure("表示 1 または 真").kind, RuntimeErrorKind::UnexpectedNode);
    assert_eq!(failure("表示 真 かつ \"a\"").kind, RuntimeErrorKind::UnexpectedNode);
    assert_eq!(failure("表示 !1").kind, RuntimeErrorKind::UnexpectedNode);
}

#[test]
fn both_operands_are_computed_even_where_one_decides() {
    let source = "関数 f()\n    表示 \"f\"\n    かえす 真\n表示 真 または f()\n表示 偽 かつ f()";
    assert_eq!(output(source), vec!["f", "真", "f", "偽"]);
}

#[test]
fn values_print_in_the_spellings_of_the_language() {
    assert_eq!(output("表示 真"), vec!["真"]);
    assert_eq!(output("表示 偽"), vec!["偽"]);
    assert_eq!(output("表示 無"), vec!["無"]);
    assert_eq!(output("表示"), vec!["無"]);
    assert_eq!(output("表示 \"文字\""), vec!["文字"]);
    assert_eq!(output("表示 [1, \"a\", 真, 無, [2.5, []]]"), vec!["[1, a, 真, 無, [2.5, []]]"]);
    assert_eq!(output("表示 []"), vec!["[]"]);
}

#[test]
fn a_value_is_shown_piece_by_piece() {
    let list = Value::List(vec![
        Value::Number(1.5f64.to_bits()),
        Value::String("a".to_string()),
        Value::List(vec![Value::Bool(false), Value::Null]),
    ]);
    let pieces: Vec<String> = list
        .pieces()
        .into_iter()
        .map(|piece| match piece {
            Piece::Text(text) => text,
            Piece::Number(bits) => format!("<{}>", f64::from_bits(bits)),
        })
        .collect();
    assert_eq!(pieces, vec!["[", "<1.5>", ", ", "a", ", ", "[", "偽", ", ", "無", "]", "]"]);
    assert_eq!(Value::Bool(true).pieces().len(), 1);
    assert_eq!(Value::List(vec![]).pieces().len(), 2);
}

#[test]
fn a_number_in_a_line_is_rendered_on_request() {
    let ast = Ast::try_from(Tokens::from_str("表示 [\"a\", 2]").unwrap()).unwrap();
    let mut machine = Interpreter::new(ast).unwrap();
    let mut reply = Reply::Nothing;
    let mut asked = Vec::new();
    loop {
        let (next, action) = machine.step(reply);
        machine = next;
        reply = match action {
            Action::Continue => Reply::Nothing,
            Action::Calculate(Calculation::Render(bits)) => {
                asked.push(f64::from_bits(bits));
                Reply::Text("二".to_string())
            }
            Action::Calculate(calculation) => answer(&calculation),
            Action::Print(line) => {
                assert_eq!(line, "[a, 二]");
                break;
            }
            other => panic!("{:?}", other),
        };
    }
    assert_eq!(asked, vec![2.0]);
}

#[test]
fn an_undefined_variable_is_an_error() {
    let error = failure("表示 x");
    assert_eq!(error.kind, RuntimeErrorKind::UndefinedVariable);
    assert_eq!(error.node, Some(Node::Variable("x".to_string())));
    assert_eq!(error.message, "Undefined variable");
}

#[test]
fn an_undefined_function_is_an_error() {
    let error = failure("f(1)");
    assert_eq!(error.kind, RuntimeErrorKind::UndefinedFunction);
    assert_eq!(
        error.node,
        Some(Node::Call { name: "f".to_string(), args: vec![Node::Number("1".to_string())] })
    );
}

#[test]
fn a_function_declared_twice_is_an_error() {
    let error = failure("関数 f()\n    かえす 1\n関数 f(a)\n    かえす 2\n");
    assert_eq!(error.kind, RuntimeErrorKind::RedefiningFunction);
    assert!(matches!(&error.node, Some(Node::Function { params, .. }) if params.len() == 1));
    assert_eq!(error.message, "Redefining function: \"f\"");
}

#[test]
fn functions_can_be_called_before_their_declaration() {
    assert_eq!(output("表示 f()\n関数 f()\n    かえす 5\n"), vec!["5"]);
}

#[test]
fn a_call_sees_its_parameters_only() {
    let source = "x = 1\n関数 f()\n    かえす x\n表示 f()";
    assert_eq!(failure(source).kind, RuntimeErrorKind::UndefinedVariable);
    let source = "x = 1\n関数 f(x)\n    x = x + 1\n    かえす x\n表示 f(10)\n表示 x";
    assert_eq!(output(source), vec!["11", "1"]);
}

#[test]
fn a_function_that_ends_without_return_gives_null() {
    assert_eq!(output("関数 f()\n    x = 1\n表示 f()"), vec!["無"]);
    assert_eq!(output("関数 f()\n    かえす\n表示 f()"), vec!["無"]);
}

#[test]
fn functions_call_themselves() {
    let source = "関数 階乗(n)\n    もし n <= 1 なら\n        かえす 1\n    かえす n * 階乗(n - 1)\n表示 階乗(10)";
    assert_eq!(output(source), vec!["3628800"]);
}

#[test]
fn a_later_parameter_of_the_same_name_wins() {
    assert_eq!(output("関数 f(a, a)\n    かえす a\n表示 f(1, 2)"), vec!["2"]);
}

#[test]
fn break_leaves_the_loop_and_continue_starts_it_again() {
    let source = "数 = 0\nくりかえし\n    数 = 数 + 1\n    もし 数 == 2 なら\n        つぎへ\n    もし 数 > 4 なら\n        ぬける\n    表示 数\n表示 \"おわり\"";
    assert_eq!(output(source), vec!["1", "3", "4", "おわり"]);
}

#[test]
fn break_leaves_the_innermost_loop_only() {
    let source = "外 = 0\nくりかえし\n    外 = 外 + 1\n    くりかえし\n        表示 \"内\"\n        ぬける\n    もし 外 == 2 なら\n        ぬける\n表示 外";
    assert_eq!(output(source), vec!["内", "内", "2"]);
}

#[test]
fn break_continue_and_return_cannot_leave_the_top_level() {
    let error = failure("ぬける");
    assert_eq!(error.kind, RuntimeErrorKind::UnexpectedNode);
    assert_eq!(error.node, Some(Node::Break));
    assert_eq!(failure("つぎへ").node, Some(Node::Continue));
    assert_eq!(failure("もし 真 なら\n    ぬける\n").kind, RuntimeErrorKind::UnexpectedNode);
    let outcome = run_steps("表示 1\nもし 真 なら\n    かえす 2\n表示 3", 100_000);
    let error = outcome.error.unwrap();
    assert_eq!(error.kind, RuntimeErrorKind::UnexpectedNode);
    assert!(matches!(error.node, Some(Node::Return(_))));
    assert_eq!(outcome.lines, vec!["1"]);
}

#[test]
fn a_return_at_the_top_level_stops_before_its_value_is_computed() {
    let error = failure("かえす x");
    assert_eq!(error.kind, RuntimeErrorKind::UnexpectedNode);
    assert_eq!(error.node, Some(Node::Return(Box::new(Node::Variable("x".to_string())))));
    assert_eq!(error.message, "Unexpected node: Return(Variable(\"x\"))");
}

#[test]
fn a_break_does_not_leave_a_function_for_a_loop_of_the_caller() {
    let source = "関数 f()\n    ぬける\nくりかえし\n    f()\n";
    let error = failure(source);
    assert_eq!(error.kind, RuntimeErrorKind::UnexpectedNode);
    assert_eq!(error.node, Some(Node::Break));
}

#[test]
fn an_expression_that_is_no_call_is_no_statement() {
    let ast = Ast::new(vec![Node::Variable("x".to_string())]);
    let machine = Interpreter::new(ast).unwrap();
    let (machine, _) = machine.step(Reply::Nothing);
    let (_, action) = machine.step(Reply::Nothing);
    assert!(
        matches!(action, Action::Failed(error) if error.kind == RuntimeErrorKind::UnexpectedNode)
    );
    assert_eq!(failure("xs = [1]\nxs[0] = 2").kind, RuntimeErrorKind::UnexpectedNode);
}

#[test]
fn no_statement_runs_after_an_error() {
    let outcome = run_steps("表示 1\n表示 x\n表示 2", 100_000);
    assert_eq!(outcome.lines, vec!["1"]);
    assert_eq!(outcome.error.unwrap().kind, RuntimeErrorKind::UndefinedVariable);
}

#[test]
fn a_loop_without_break_never_ends() {
    let outcome = run_steps("くりかえし\n    x = 真\n", 10_000);
    assert!(outcome.error.is_none());
    assert!(!outcome.finished);
}

#[test]
fn an_empty_program_is_finished_at_once() {
    let machine = Interpreter::new(Ast::new(vec![])).unwrap();
    let (machine, action) = machine.step(Reply::Nothing);
    assert!(matches!(action, Action::Continue));
    let (machine, action) = machine.step(Reply::Nothing);
    assert!(matches!(action, Action::Finished));
    let (_, action) = machine.step(Reply::Printed);
    assert!(matches!(action, Action::Finished));
}

#[test]
fn a_waiting_machine_goes_on_only_with_the_answer_it_asked_for() {
    let ast = Ast::try_from(Tokens::from_str("表示 1 + 2").unwrap()).unwrap();
    let mut machine = Interpreter::new(ast).unwrap();
    let mut action = machine.action();
    while matches!(action, Action::Continue) {
        let (next, asked) = machine.step(Reply::Nothing);
        machine = next;
        action = asked;
    }
    assert!(matches!(&action, Action::Calculate(Calculation::Parse(digits)) if digits == "1"));
    let (machine, action) = machine.step(Reply::Nothing);
    assert!(matches!(&action, Action::Calculate(Calculation::Parse(digits)) if digits == "1"));
    let (machine, action) = machine.step(Reply::Printed);
    assert!(matches!(&action, Action::Calculate(Calculation::Parse(digits)) if digits == "1"));
    let (machine, action) = machine.step(Reply::Text("1".to_string()));
    assert!(matches!(&action, Action::Calculate(Calculation::Parse(digits)) if digits == "1"));
    let (_, action) = machine.step(Reply::Number(1.0f64.to_bits()));
    assert!(matches!(action, Action::Continue));
}

#[test]
fn a_stopped_machine_stays_stopped() {
    let ast = Ast::try_from(Tokens::from_str("表示 x").unwrap()).unwrap();
    let mut machine = Interpreter::new(ast).unwrap();
    let mut action = machine.action();
    while matches!(action, Action::Continue) {
        let (next, asked) = machine.step(Reply::Nothing);
        machine = next;
        action = asked;
    }
    assert!(matches!(action, Action::Failed(_)));
    let (machine, action) = machine.step(Reply::Number(1.0f64.to_bits()));
    assert!(matches!(action, Action::Failed(_)));
    assert!(matches!(machine.action(), Action::Failed(_)));
}

#[test]
fn numbers_compare_as_doubles_do() {
    let samples = [
        0.0,
        -0.0,
        1.0,
        -1.0,
        0.5,
        -0.5,
        2.5,
        1e300,
        -1e300,
        5e-324,
        -5e-324,
        f64::MAX,
        f64::MIN,
        f64::INFINITY,
        f64::NEG_INFINITY,
        f64::NAN,
        -f64::NAN,
    ];
    for left in samples {
        for right in samples {
            assert_eq!(numbers_equal(left.to_bits(), right.to_bits()), left == right, "{} == {}", left, right);
            assert_eq!(number_is_less(left.to_bits(), right.to_bits()), left < right, "{} < {}", left, right);
        }
    }
}

#[test]
fn an_index_is_the_whole_part_of_a_double() {
    assert_eq!(truncate_to_index(0.0f64.to_bits()), Some(0));
    assert_eq!(truncate_to_index((-0.0f64).to_bits()), Some(0));
    assert_eq!(truncate_to_index(0.99f64.to_bits()), Some(0));
    assert_eq!(truncate_to_index((-0.99f64).to_bits()), Some(0));
    assert_eq!(truncate_to_index(1.0f64.to_bits()), Some(1));
    assert_eq!(truncate_to_index(2.999f64.to_bits()), Some(2));
    assert_eq!(truncate_to_index(1234567.75f64.to_bits()), Some(1234567));
    assert_eq!(truncate_to_index(4503599627370496.0f64.to_bits()), Some(4503599627370496));
    assert_eq!(truncate_to_index(9007199254740993.0f64.to_bits()), Some(9007199254740992));
    assert_eq!(truncate_to_index(1e19f64.to_bits()), Some(10_000_000_000_000_000_000));
    assert_eq!(truncate_to_index(18446744073709549568.0f64.to_bits()), Some(18446744073709549568));
    assert_eq!(truncate_to_index(18446744073709551616.0f64.to_bits()), None);
    assert_eq!(truncate_to_index((-1.0f64).to_bits()), None);
    assert_eq!(truncate_to_index((-1e10f64).to_bits()), None);
    assert_eq!(truncate_to_index(f64::INFINITY.to_bits()), None);
    assert_eq!(truncate_to_index(f64::NEG_INFINITY.to_bits()), None);
    assert_eq!(truncate_to_index(f64::NAN.to_bits()), None);
    assert_eq!(truncate_to_index(5e-324f64.to_bits()), Some(0));
    for whole in [0u64, 1, 2, 3, 7, 100, 65535, 1 << 40, (1 << 53) - 1] {
        assert_eq!(truncate_to_index((whole as f64).to_bits()), Some(whole));
        assert_eq!(truncate_to_index((whole as f64 + 0.5).to_bits()), Some((whole as f64 + 0.5) as u64));
    }
}

#[test]
fn an_unexpected_node_is_named_in_the_message() {
    for source in [
        "ぬける",
        "つぎへ",
        "かえす [1, \"二\", 真, 無]",
        "xs[0] = f(1, -2) + 長さ(\"a\\\"b\")",
        "表示 !(1 + 2)",
        "表示 配列(\"abc\", 長さ([]))",
        "表示 1 または 真",
    ] {
        let error = failure(source);
        assert_eq!(error.kind, RuntimeErrorKind::UnexpectedNode);
        let node = error.node.unwrap();
        assert_eq!(error.message, format!("Unexpected node: {:?}", node), "{}", source);
    }
}

#[test]
fn a_node_writes_its_debug_form() {
    let source = "関数 f(a, b)\n    もし a < b かつ a != 0 なら\n        かえす [a, \"文字\\n\", 偽]\n    もしくは !a なら\n        x[0] = 配列(b, 1) / 2\n    ちがえば\n        くりかえし\n            表示 長さ(g()) - 1 * 2 >= 3 == 4 <= 5 > 6\n            つぎへ\n            ぬける\n    かえす\n関数 g()\n    かえす 無 または 真\ny = f(1.5, \"\")\n";
    let mut ast = Ast::try_from(Tokens::from_str(source).unwrap()).unwrap();
    let mut count = 0;
    while let Some(node) = ast.pop_front() {
        assert_eq!(node.debug_text(), format!("{:?}", node));
        count += 1;
    }
    assert_eq!(count, 3);
    assert_eq!(Node::Null.debug_text(), "Null");
    assert_eq!(Node::List(vec![]).debug_text(), "List([])");
    assert_eq!(
        Node::Function { name: "f".to_string(), params: vec![], body: vec![] }.debug_text(),
        "Function { name: \"f\", params: [], body: [] }"
    );
    assert_eq!(Node::debug_list(&vec![Node::Break, Node::Continue]), "[Break, Continue]");
    let declaration = Node::Function {
        name: "f".to_string(),
        params: vec!["a".to_string(), "b\"c".to_string(), "".to_string()],
        body: vec![Node::Break],
    };
    assert_eq!(declaration.debug_text(), format!("{:?}", declaration));
}

#[test]
fn an_operator_is_named_like_its_node() {
    for operator in [
        BinaryOperator::Or,
        BinaryOperator::And,
        BinaryOperator::Equal,
        BinaryOperator::NotEqual,
        BinaryOperator::LessThan,
        BinaryOperator::LessThanOrEqual,
        BinaryOperator::GreaterThan,
        BinaryOperator::GreaterThanOrEqual,
        BinaryOperator::Add,
        BinaryOperator::Subtract,
        BinaryOperator::Multiply,
        BinaryOperator::Divide,
    ] {
        assert_eq!(operator.debug_text(), format!("{:?}", operator));
        let node = Node::binary(operator, Node::Null, Node::Bool(true));
        assert_eq!(node.debug_text(), format!("{:?}", node));
        assert_eq!(node.debug_text(), format!("{:?} {{ left: Null, right: Bool(true) }}", operator));
    }
}

#[test]
fn a_runtime_error_holds_its_kind_its_message_and_its_node() {
    let error = RuntimeError::with_detail(RuntimeErrorKind::RedefiningFunction, "\"g\"", Node::Null);
    assert_eq!(error.kind, RuntimeErrorKind::RedefiningFunction);
    assert_eq!(error.message, "Redefining function: \"g\"");
    assert_eq!(error.node, Some(Node::Null));
    let error = RuntimeError::with_detail(RuntimeErrorKind::HasNoLength, "", Node::Break);
    assert_eq!(error.message, "Has no length");
    let declaration =
        Node::Function { name: "名\"前".to_string(), params: vec![], body: vec![] };
    let error = RuntimeError::redefining_function(declaration);
    assert_eq!(error.message, format!("Redefining function: {:?}", "名\"前"));
    assert_eq!(RuntimeError::unexpected_node(Node::Break).message, "Unexpected node: Break");
    assert_eq!(RuntimeError::wrong_number_of_arguments(Node::Null).message, "Wrong number of arguments");
    assert_eq!(RuntimeError::comparing_different_types(Node::Null).message, "Cannot compare different types");
    assert_eq!(RuntimeError::undefined_function(Node::Null).message, "Undefined function");
}
