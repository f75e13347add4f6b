use crate::ast::{functions_of, statements_of, Ast};
use crate::error::{RuntimeError, RuntimeErrorKind, RuntimeErrorView};
use crate::frame::Variables;
use crate::machine::{
    frame_views, function_views, task_views, Action, ActionView, Calculation, CalculationView,
    Control, ControlView, Frame, FrameView, Function, FunctionView, MachineView, Reply, ReplyView,
    State, StateView, Task, TaskView,
};
use crate::node::{node_views, BinaryOperator, Node, NodeView};
use crate::text::text_views;
use crate::text::to_chars;
use crate::value::{
    number_equal, number_is_less, number_less, numbers_equal, piece_views, pieces_of,
    truncate_to_index, truncated_index, value_views, Piece, PieceView, Value, ValueView,
};
use std::collections::VecDeque;
use vstd::prelude::*;
use vstd::string::*;

verus! {

/// The half-width form of a full-width digit or decimal point; any other
/// character as it is.
pub open spec fn half_width(c: char) -> char {
    if c == '０' {
        '0'
    } else if c == '１' {
        '1'
    } else if c == '２' {
        '2'
    } else if c == '３' {
        '3'
    } else if c == '４' {
        '4'
    } else if c == '５' {
        '5'
    } else if c == '６' {
        '6'
    } else if c == '７' {
        '7'
    } else if c == '８' {
        '8'
    } else if c == '９' {
        '9'
    } else if c == '．' {
        '.'
    } else {
        c
    }
}

/// The digits of a number with every glyph in its half-width form.
pub open spec fn normalized(digits: Seq<char>) -> Seq<char> {
    digits.map_values(|c: char| half_width(c))
}

/// The first function of `functions` that is named `name`.
pub open spec fn find_function(functions: Seq<FunctionView>, name: Seq<char>) -> Option<
    FunctionView,
>
    decreases functions.len(),
{
    if functions.len() == 0 {
        None
    } else if functions[0].name == name {
        Some(functions[0])
    } else {
        find_function(functions.drop_first(), name)
    }
}

/// The table of the functions that `nodes` declare, behind those of
/// `table`. A second declaration of a name is an error, and so is a node
/// that declares no function.
pub open spec fn declared(nodes: Seq<NodeView>, table: Seq<FunctionView>) -> Result<
    Seq<FunctionView>,
    RuntimeErrorView,
>
    decreases nodes.len(),
{
    if nodes.len() == 0 {
        Ok(table)
    } else {
        match nodes[0] {
            NodeView::Function { name, params, body } => {
                if find_function(table, name) is Some {
                    Err(RuntimeErrorView::of(RuntimeErrorKind::RedefiningFunction, nodes[0]))
                } else {
                    declared(nodes.drop_first(), table.push(FunctionView { name, params, body }))
                }
            },
            _ => Err(RuntimeErrorView::of(RuntimeErrorKind::UnexpectedNode, nodes[0])),
        }
    }
}

/// The machine at the start of the program `nodes`: its functions are
/// declared, and its other nodes are the block that the top level has to
/// run.
pub open spec fn started(nodes: Seq<NodeView>) -> Result<MachineView, RuntimeErrorView> {
    match declared(functions_of(nodes), Seq::empty()) {
        Ok(functions) => Ok(
            MachineView {
                state: StateView {
                    functions,
                    callers: Seq::empty(),
                    current: FrameView {
                        variables: Map::empty(),
                        tasks: seq![TaskView::Block(statements_of(nodes))],
                    },
                },
                control: ControlView::Deliver(ValueView::Null),
            },
        ),
        Err(error) => Err(error),
    }
}

/// The place of the innermost loop among `tasks`.
pub open spec fn innermost_loop(tasks: Seq<TaskView>) -> Option<int>
    decreases tasks.len(),
{
    if tasks.len() == 0 {
        None
    } else if tasks.last() is Loop {
        Some(tasks.len() - 1)
    } else {
        innermost_loop(tasks.drop_last())
    }
}

/// How many parameters have an argument at their place.
pub open spec fn paired(params: Seq<Seq<char>>, args: Seq<ValueView>) -> nat {
    if params.len() <= args.len() {
        params.len()
    } else {
        args.len()
    }
}

/// The variables of a call: the first `count` parameters, each bound to the
/// argument at its place.
pub open spec fn bind_all(params: Seq<Seq<char>>, args: Seq<ValueView>, count: nat) -> Map<
    Seq<char>,
    ValueView,
>
    decreases count,
{
    if count == 0 || count > params.len() || count > args.len() {
        Map::empty()
    } else {
        bind_all(params, args, (count - 1) as nat).insert(params[count - 1], args[count - 1])
    }
}

/// The machine after `function` was called with the values `args` in
/// `state`. The call has variables of its own, which are its parameters
/// alone, and its body to run.
pub open spec fn called(state: StateView, function: FunctionView, args: Seq<ValueView>) -> MachineView {
    state.enter(
        FrameView {
            variables: bind_all(function.params, args, paired(function.params, args)),
            tasks: seq![TaskView::Block(function.body)],
        },
    ).to(ControlView::Deliver(ValueView::Null))
}

/// The machine that writes a line in `state`, with `written` there so far
/// and `pieces` to follow. Text is put behind what is written. At a number
/// the machine asks for its text, and goes on with the pieces behind it
/// once the text is there. With no piece left the line is shown (`print`)
/// or handed on as a string.
pub open spec fn joined(
    state: StateView,
    pieces: Seq<PieceView>,
    written: Seq<char>,
    print: bool,
) -> MachineView
    decreases pieces.len(),
{
    if pieces.len() == 0 {
        if print {
            state.to(ControlView::Print(written))
        } else {
            state.to(ControlView::Deliver(ValueView::String(written)))
        }
    } else {
        match pieces[0] {
            PieceView::Text(text) => joined(state, pieces.drop_first(), written + text, print),
            PieceView::Number(bits) => state.push(
                TaskView::Join { pieces: pieces.drop_first(), written, print },
            ).to(ControlView::Calculate(CalculationView::Render(bits))),
        }
    }
}

/// The result of a comparison or of a logical operator.
pub open spec fn truth(state: StateView, value: bool) -> MachineView {
    state.to(ControlView::Deliver(ValueView::Bool(value)))
}

/// The machine after `operator` was applied to `left` and `right` in
/// `state`: it has the value, asks for the calculation that gives it, or
/// was stopped by the error for `node`.
pub open spec fn applied(
    state: StateView,
    operator: BinaryOperator,
    left: ValueView,
    right: ValueView,
    node: NodeView,
) -> MachineView {
    match operator {
        BinaryOperator::Or => match (left, right) {
            (ValueView::Bool(a), ValueView::Bool(b)) => truth(state, a || b),
            _ => state.fail(RuntimeErrorKind::UnexpectedNode, node),
        },
        BinaryOperator::And => match (left, right) {
            (ValueView::Bool(a), ValueView::Bool(b)) => truth(state, a && b),
            _ => state.fail(RuntimeErrorKind::UnexpectedNode, node),
        },
        BinaryOperator::Equal => match (left, right) {
            (ValueView::Number(a), ValueView::Number(b)) => truth(state, number_equal(a, b)),
            (ValueView::String(a), ValueView::String(b)) => truth(state, a == b),
            _ => state.fail(RuntimeErrorKind::ComparingDifferentTypes, node),
        },
        BinaryOperator::NotEqual => match (left, right) {
            (ValueView::Number(a), ValueView::Number(b)) => truth(state, !number_equal(a, b)),
            (ValueView::String(a), ValueView::String(b)) => truth(state, a != b),
            _ => state.fail(RuntimeErrorKind::ComparingDifferentTypes, node),
        },
        BinaryOperator::LessThan => match (left, right) {
            (ValueView::Number(a), ValueView::Number(b)) => truth(state, number_less(a, b)),
            _ => state.fail(RuntimeErrorKind::ComparingDifferentTypes, node),
        },
        BinaryOperator::LessThanOrEqual => match (left, right) {
            (ValueView::Number(a), ValueView::Number(b)) => truth(
                state,
                number_less(a, b) || number_equal(a, b),
            ),
            _ => state.fail(RuntimeErrorKind::ComparingDifferentTypes, node),
        },
        BinaryOperator::GreaterThan => match (left, right) {
            (ValueView::Number(a), ValueView::Number(b)) => truth(state, number_less(b, a)),
            _ => state.fail(RuntimeErrorKind::ComparingDifferentTypes, node),
        },
        BinaryOperator::GreaterThanOrEqual => match (left, right) {
            (ValueView::Number(a), ValueView::Number(b)) => truth(
                state,
                number_less(b, a) || number_equal(a, b),
            ),
            _ => state.fail(RuntimeErrorKind::ComparingDifferentTypes, node),
        },
        BinaryOperator::Add => match (left, right) {
            (ValueView::Number(a), ValueView::Number(b)) => state.to(
                ControlView::Calculate(CalculationView::Add(a, b)),
            ),
            (ValueView::String(a), ValueView::String(b)) => state.to(
                ControlView::Deliver(ValueView::String(a + b)),
            ),
            (ValueView::String(a), ValueView::Number(b)) => joined(
                state,
                seq![PieceView::Number(b)],
                a,
                false,
            ),
            (ValueView::Number(a), ValueView::String(b)) => joined(
                state,
                seq![PieceView::Number(a), PieceView::Text(b)],
                Seq::empty(),
                false,
            ),
            _ => state.fail(RuntimeErrorKind::TypeMismatchArithmetic, node),
        },
        BinaryOperator::Subtract => match (left, right) {
            (ValueView::Number(a), ValueView::Number(b)) => state.to(
                ControlView::Calculate(CalculationView::Subtract(a, b)),
            ),
            _ => state.fail(RuntimeErrorKind::TypeMismatchArithmetic, node),
        },
        BinaryOperator::Multiply => match (left, right) {
            (ValueView::Number(a), ValueView::Number(b)) => state.to(
                ControlView::Calculate(CalculationView::Multiply(a, b)),
            ),
            _ => state.fail(RuntimeErrorKind::TypeMismatchArithmetic, node),
        },
        BinaryOperator::Divide => match (left, right) {
            (ValueView::Number(a), ValueView::Number(b)) => state.to(
                ControlView::Calculate(CalculationView::Divide(a, b)),
            ),
            _ => state.fail(RuntimeErrorKind::TypeMismatchArithmetic, node),
        },
    }
}

/// The machine stopped by the error of kind `kind` for `node`.
pub open spec fn failed(kind: RuntimeErrorKind, node: NodeView) -> ControlView {
    ControlView::Failed(RuntimeErrorView::of(kind, node))
}

/// What follows when the element at `index` is taken from `list`: the
/// element at the place that the index is cut off to, or the error for
/// `node`.
pub open spec fn element_at(list: ValueView, index: ValueView, node: NodeView) -> ControlView {
    match (list, index) {
        (ValueView::List(elements), ValueView::Number(bits)) => match truncated_index(bits) {
            Some(place) => if place < elements.len() {
                ControlView::Deliver(elements[place as int])
            } else {
                failed(RuntimeErrorKind::IndexOutOfRange, node)
            },
            None => failed(RuntimeErrorKind::IndexOutOfRange, node),
        },
        _ => failed(RuntimeErrorKind::UnexpectedNode, node),
    }
}

/// The machine after the statement `node` was taken up in `state`. A
/// `Break` or a `Continue` outside every loop of the innermost call, and a
/// `Return` at the top level, stop the machine.
pub open spec fn executed(state: StateView, node: NodeView) -> MachineView {
    match node {
        NodeView::Assignment { name, value } => state.push(TaskView::Assign(name)).to(
            ControlView::Evaluate(*value),
        ),
        NodeView::Call { .. } => state.push(TaskView::Discard).to(ControlView::Evaluate(node)),
        NodeView::If { condition, then_part, else_part } => state.push(
            TaskView::Branch { then_part, else_part },
        ).to(ControlView::Evaluate(*condition)),
        NodeView::Loop { body } => state.push(TaskView::Loop(body)).to(
            ControlView::Deliver(ValueView::Null),
        ),
        NodeView::Return(value) => if state.callers.len() == 0 {
            state.fail(RuntimeErrorKind::UnexpectedNode, node)
        } else {
            state.push(TaskView::Return(node)).to(ControlView::Evaluate(*value))
        },
        NodeView::Break => match innermost_loop(state.current.tasks) {
            Some(place) => state.with_tasks(state.current.tasks.take(place)).to(
                ControlView::Deliver(ValueView::Null),
            ),
            None => state.fail(RuntimeErrorKind::UnexpectedNode, node),
        },
        NodeView::Continue => match innermost_loop(state.current.tasks) {
            Some(place) => state.with_tasks(state.current.tasks.take(place + 1)).to(
                ControlView::Deliver(ValueView::Null),
            ),
            None => state.fail(RuntimeErrorKind::UnexpectedNode, node),
        },
        NodeView::Print(value) => state.push(TaskView::Print).to(ControlView::Evaluate(*value)),
        _ => state.fail(RuntimeErrorKind::UnexpectedNode, node),
    }
}

/// The machine after the expression `node` was taken up in `state`.
pub open spec fn evaluated(state: StateView, node: NodeView) -> MachineView {
    match node {
        NodeView::Number(digits) => state.to(
            ControlView::Calculate(CalculationView::Parse(normalized(digits))),
        ),
        NodeView::String(content) => state.to(ControlView::Deliver(ValueView::String(content))),
        NodeView::Bool(value) => state.to(ControlView::Deliver(ValueView::Bool(value))),
        NodeView::Null => state.to(ControlView::Deliver(ValueView::Null)),
        NodeView::List(elements) => if elements.len() == 0 {
            state.to(ControlView::Deliver(ValueView::List(Seq::empty())))
        } else {
            state.push(TaskView::Elements { nodes: elements, done: Seq::empty() }).to(
                ControlView::Evaluate(elements[0]),
            )
        },
        NodeView::Variable(name) => if state.current.variables.contains_key(name) {
            state.to(ControlView::Deliver(state.current.variables[name]))
        } else {
            state.fail(RuntimeErrorKind::UndefinedVariable, node)
        },
        NodeView::Call { name, args } => match find_function(state.functions, name) {
            None => state.fail(RuntimeErrorKind::UndefinedFunction, node),
            Some(function) => if function.params.len() != args.len() {
                state.fail(RuntimeErrorKind::WrongNumberOfArguments, node)
            } else if args.len() == 0 {
                called(state, function, Seq::empty())
            } else {
                state.push(TaskView::Arguments { nodes: args, done: Seq::empty(), function }).to(
                    ControlView::Evaluate(args[0]),
                )
            },
        },
        NodeView::Binary { operator, left, right } => state.push(
            TaskView::BinaryLeft { operator, right: *right, node },
        ).to(ControlView::Evaluate(*left)),
        NodeView::Not(operand) => state.push(TaskView::Not(*operand)).to(
            ControlView::Evaluate(*operand),
        ),
        NodeView::Length(operand) => state.push(TaskView::Length(*operand)).to(
            ControlView::Evaluate(*operand),
        ),
        NodeView::Get { list, index } => state.push(TaskView::GetList { index: *index, node }).to(
            ControlView::Evaluate(*list),
        ),
        _ => state.fail(RuntimeErrorKind::UnexpectedNode, node),
    }
}

/// The machine after `value` was handed to the next task of `state`. With
/// no task left the innermost call is over: its caller goes on with the
/// value, and at the top level the program has run to its end.
pub open spec fn delivered(state: StateView, value: ValueView) -> MachineView {
    if state.current.tasks.len() == 0 {
        if state.callers.len() == 0 {
            state.to(ControlView::Finished)
        } else {
            state.leave().to(ControlView::Deliver(value))
        }
    } else {
        let rest = state.pop();
        match state.current.tasks.last() {
            TaskView::Block(statements) => if statements.len() == 0 {
                rest.to(ControlView::Deliver(ValueView::Null))
            } else {
                rest.push(TaskView::Block(statements.drop_first())).to(
                    ControlView::Execute(statements[0]),
                )
            },
            TaskView::Loop(body) => rest.push(TaskView::Loop(body)).push(TaskView::Block(body)).to(
                ControlView::Deliver(ValueView::Null),
            ),
            TaskView::Assign(name) => rest.assign(name, value).to(
                ControlView::Deliver(ValueView::Null),
            ),
            TaskView::Discard => rest.to(ControlView::Deliver(ValueView::Null)),
            TaskView::Branch { then_part, else_part } => rest.push(
                TaskView::Block(
                    if value == ValueView::Bool(true) {
                        then_part
                    } else {
                        else_part
                    },
                ),
            ).to(ControlView::Deliver(ValueView::Null)),
            TaskView::Return(node) => if state.callers.len() == 0 {
                rest.fail(RuntimeErrorKind::UnexpectedNode, node)
            } else {
                state.leave().to(ControlView::Deliver(value))
            },
            TaskView::Print => joined(rest, pieces_of(value), Seq::empty(), true),
            TaskView::Join { pieces, written, print } => match value {
                ValueView::String(text) => joined(rest, pieces, written + text, print),
                _ => joined(rest, pieces, written, print),
            },
            TaskView::BinaryLeft { operator, right, node } => rest.push(
                TaskView::BinaryRight { operator, left: value, node },
            ).to(ControlView::Evaluate(right)),
            TaskView::BinaryRight { operator, left, node } => applied(
                rest,
                operator,
                left,
                value,
                node,
            ),
            TaskView::Not(node) => match value {
                ValueView::Bool(truth) => rest.to(ControlView::Deliver(ValueView::Bool(!truth))),
                _ => rest.fail(RuntimeErrorKind::UnexpectedNode, node),
            },
            TaskView::Length(node) => match value {
                ValueView::String(content) => rest.to(
                    ControlView::Calculate(CalculationView::Count(content.len())),
                ),
                ValueView::List(elements) => rest.to(
                    ControlView::Calculate(CalculationView::Count(elements.len())),
                ),
                _ => rest.fail(RuntimeErrorKind::HasNoLength, node),
            },
            TaskView::GetList { index, node } => rest.push(
                TaskView::GetIndex { list: value, node },
            ).to(ControlView::Evaluate(index)),
            TaskView::GetIndex { list, node } => rest.to(element_at(list, value, node)),
            TaskView::Elements { nodes, done } => if done.len() + 1 >= nodes.len() {
                rest.to(ControlView::Deliver(ValueView::List(done.push(value))))
            } else {
                rest.push(TaskView::Elements { nodes, done: done.push(value) }).to(
                    ControlView::Evaluate(nodes[done.len() as int + 1]),
                )
            },
            TaskView::Arguments { nodes, done, function } => if done.len() + 1 >= nodes.len() {
                called(rest, function, done.push(value))
            } else {
                rest.push(TaskView::Arguments { nodes, done: done.push(value), function }).to(
                    ControlView::Evaluate(nodes[done.len() as int + 1]),
                )
            },
        }
    }
}

/// The machine one step after `machine`, where `reply` answers what
/// `machine` asked. A machine that waits goes on only with the answer to
/// what it asked: the text of a number that was to be rendered, the number
/// that any other calculation gives, the word that the line was shown. A
/// machine that has stopped stays as it is.
pub open spec fn stepped(machine: MachineView, reply: ReplyView) -> MachineView {
    match machine.control {
        ControlView::Execute(node) => executed(machine.state, node),
        ControlView::Evaluate(node) => evaluated(machine.state, node),
        ControlView::Deliver(value) => delivered(machine.state, value),
        ControlView::Calculate(calculation) => match (calculation, reply) {
            (CalculationView::Render(_), ReplyView::Text(text)) => machine.state.to(
                ControlView::Deliver(ValueView::String(text)),
            ),
            (CalculationView::Render(_), _) => machine,
            (_, ReplyView::Number(bits)) => machine.state.to(
                ControlView::Deliver(ValueView::Number(bits)),
            ),
            _ => machine,
        },
        ControlView::Print(_) => match reply {
            ReplyView::Printed => machine.state.to(ControlView::Deliver(ValueView::Null)),
            _ => machine,
        },
        ControlView::Finished => machine,
        ControlView::Failed(_) => machine,
    }
}

/// What a machine that does `control` next asks of the one who runs it.
pub open spec fn action_of(control: ControlView) -> ActionView {
    match control {
        ControlView::Calculate(calculation) => ActionView::Calculate(calculation),
        ControlView::Print(line) => ActionView::Print(line),
        ControlView::Finished => ActionView::Finished,
        ControlView::Failed(error) => ActionView::Failed(error),
        _ => ActionView::Continue,
    }
}

/// A call with more or fewer arguments than the function has parameters is
/// stopped with `WrongNumberOfArguments` before any argument is computed:
/// the state stays as it is, and no call is entered.
pub proof fn lemma_wrong_number_of_arguments(
    state: StateView,
    name: Seq<char>,
    args: Seq<NodeView>,
    reply: ReplyView,
)
    requires
        find_function(state.functions, name) is Some,
        find_function(state.functions, name)->Some_0.params.len() != args.len(),
    ensures
        stepped(state.to(ControlView::Evaluate(NodeView::Call { name, args })), reply)
            == state.fail(
            RuntimeErrorKind::WrongNumberOfArguments,
            NodeView::Call { name, args },
        ),
{
}

/// A call that is entered binds every parameter: it has as many arguments
/// as the function has parameters.
pub proof fn lemma_call_binds_all_parameters(
    state: StateView,
    name: Seq<char>,
    args: Seq<NodeView>,
)
    ensures
        !(evaluated(state, NodeView::Call { name, args }).control is Failed) ==> find_function(
            state.functions,
            name,
        ) is Some && find_function(state.functions, name)->Some_0.params.len() == args.len(),
{
}

/// Whether no two functions of `functions` have the same name.
pub open spec fn has_distinct_names(functions: Seq<FunctionView>) -> bool {
    forall|i: int, j: int|
        0 <= i < j < functions.len() ==> (#[trigger] functions[i]).name != (
        #[trigger] functions[j]).name
}

/// A function is found by its name if and only if the table holds one of
/// that name, and what is found has that name.
pub proof fn lemma_find_function(functions: Seq<FunctionView>, name: Seq<char>)
    ensures
        find_function(functions, name) is None <==> forall|i: int|
            0 <= i < functions.len() ==> (#[trigger] functions[i]).name != name,
        find_function(functions, name) matches Some(function) ==> function.name == name
            && functions.contains(function),
    decreases functions.len(),
{
    if functions.len() > 0 {
        let rest = functions.drop_first();
        lemma_find_function(rest, name);
        if functions[0].name != name {
            assert forall|i: int| 0 <= i < rest.len() implies rest[i] == functions[i + 1] by {}
            if find_function(rest, name) is None {
                assert forall|i: int| 0 <= i < functions.len() implies (
                #[trigger] functions[i]).name != name by {
                    if i > 0 {
                        assert(functions[i] == rest[i - 1]);
                    }
                }
            } else {
                let function = find_function(rest, name)->Some_0;
                let i = choose|i: int| 0 <= i < rest.len() && rest[i] == function;
                assert(functions[i + 1] == function);
            }
        } else {
            assert(functions[0] == functions[0]);
        }
    }
}

/// The table of a program never holds two functions of one name.
pub proof fn lemma_declared_distinct(nodes: Seq<NodeView>, table: Seq<FunctionView>)
    requires
        has_distinct_names(table),
    ensures
        declared(nodes, table) matches Ok(functions) ==> has_distinct_names(functions),
    decreases nodes.len(),
{
    if nodes.len() > 0 {
        if let NodeView::Function { name, params, body } = nodes[0] {
            lemma_find_function(table, name);
            if find_function(table, name) is None {
                lemma_declared_distinct(
                    nodes.drop_first(),
                    table.push(FunctionView { name, params, body }),
                );
            }
        }
    }
}

/// A program starts with a table of functions of distinct names, at the
/// top level, with no variable.
pub proof fn lemma_started(nodes: Seq<NodeView>)
    ensures
        started(nodes) matches Ok(machine) ==> has_distinct_names(machine.state.functions)
            && machine.state.callers.len() == 0 && machine.state.current.variables
            == Map::<Seq<char>, ValueView>::empty(),
{
    lemma_declared_distinct(functions_of(nodes), Seq::empty());
}

/// Writing a line changes neither the functions nor the callers.
pub proof fn lemma_joined(
    state: StateView,
    pieces: Seq<PieceView>,
    written: Seq<char>,
    print: bool,
)
    ensures
        joined(state, pieces, written, print).state.functions == state.functions,
        joined(state, pieces, written, print).state.callers == state.callers,
        joined(state, pieces, written, print).state.current.variables == state.current.variables,
        ({
            let tasks = joined(state, pieces, written, print).state.current.tasks;
            ||| tasks == state.current.tasks
            ||| tasks.len() > 0 && tasks.drop_last() == state.current.tasks && (
            tasks.last() matches TaskView::Join { print: shown, .. } && shown == print)
        }),
        ({
            let control = joined(state, pieces, written, print).control;
            ||| control is Calculate
            ||| print && control is Print
            ||| !print && control is Deliver
        }),
    decreases pieces.len(),
{
    if pieces.len() > 0 {
        if let PieceView::Number(bits) = pieces[0] {
            let task = TaskView::Join { pieces: pieces.drop_first(), written, print };
            assert(state.push(task).current.tasks.drop_last() =~= state.current.tasks);
        }
    }
    if pieces.len() > 0 {
        if let PieceView::Text(text) = pieces[0] {
            lemma_joined(state, pieces.drop_first(), written + text, print);
        }
    }
}

/// No step changes the functions of the program.
pub proof fn lemma_functions_never_change(machine: MachineView, reply: ReplyView)
    ensures
        stepped(machine, reply).state.functions == machine.state.functions,
{
    if let ControlView::Deliver(value) = machine.control {
        lemma_delivered_joins(machine.state, value);
    }
}

/// Where handing a value on writes a line, it changes neither the
/// functions nor the callers.
pub proof fn lemma_delivered_joins(state: StateView, value: ValueView)
    ensures
        state.current.tasks.len() > 0 && (state.current.tasks.last() is Print
            || state.current.tasks.last() is Join || state.current.tasks.last() is BinaryRight)
            ==> delivered(state, value).state.functions == state.functions && delivered(
            state,
            value,
        ).state.callers == state.callers,
{
    if state.current.tasks.len() > 0 {
        let rest = state.pop();
        match state.current.tasks.last() {
            TaskView::Print => {
                lemma_joined(rest, pieces_of(value), Seq::empty(), true);
            },
            TaskView::Join { pieces, written, print } => {
                lemma_joined(rest, pieces, written, print);
                if let ValueView::String(text) = value {
                    lemma_joined(rest, pieces, written + text, print);
                }
            },
            TaskView::BinaryRight { operator, left, node } => {
                if let ValueView::Number(bits) = left {
                    if let ValueView::String(text) = value {
                        lemma_joined(
                            rest,
                            seq![PieceView::Number(bits), PieceView::Text(text)],
                            Seq::empty(),
                            false,
                        );
                    }
                }
                if let ValueView::String(text) = left {
                    if let ValueView::Number(bits) = value {
                        lemma_joined(rest, seq![PieceView::Number(bits)], text, false);
                    }
                }
            },
            _ => {},
        }
    }
}

/// The variables of a call are its parameters alone: it sees no variable of
/// its caller.
pub proof fn lemma_call_is_isolated(
    params: Seq<Seq<char>>,
    args: Seq<ValueView>,
    count: nat,
    name: Seq<char>,
)
    requires
        bind_all(params, args, count).contains_key(name),
    ensures
        params.contains(name),
    decreases count,
{
    if count == 0 || count > params.len() || count > args.len() {
    } else if params[count - 1] == name {
    } else {
        lemma_call_is_isolated(params, args, (count - 1) as nat, name);
    }
}

/// A step leaves the callers of the innermost call as they are, unless it
/// enters a call or leaves one: no step changes a variable or a task of
/// a caller.
pub proof fn lemma_callers_are_untouched(machine: MachineView, reply: ReplyView)
    ensures
        ({
            let before = machine.state.callers;
            let after = stepped(machine, reply).state.callers;
            ||| after == before
            ||| after.len() > 0 && after.drop_last() == before
            ||| before.len() > 0 && after == before.drop_last()
        }),
{
    let before = machine.state.callers;
    let after = stepped(machine, reply).state.callers;
    if let ControlView::Deliver(value) = machine.control {
        lemma_delivered_joins(machine.state, value);
    }
    if after != before && !(before.len() > 0 && after == before.drop_last()) {
        assert(after.len() > 0 && after.drop_last() =~= before);
    }
}

/// The calls in progress, the outermost first and the innermost last.
pub open spec fn frames_of(state: StateView) -> Seq<FrameView> {
    state.callers.push(state.current)
}

/// Whether `task` belongs to the computing of an expression.
pub open spec fn is_expression_task(task: TaskView) -> bool {
    match task {
        TaskView::BinaryLeft { .. } => true,
        TaskView::BinaryRight { .. } => true,
        TaskView::Not(_) => true,
        TaskView::Length(_) => true,
        TaskView::GetList { .. } => true,
        TaskView::GetIndex { .. } => true,
        TaskView::Elements { .. } => true,
        TaskView::Arguments { .. } => true,
        TaskView::Join { print, .. } => !print,
        _ => false,
    }
}

/// Whether `frame` has the variables `variables`, the tasks `below` at the
/// bottom, and above them tasks of an expression alone.
pub open spec fn holds_expression(
    frame: FrameView,
    variables: Map<Seq<char>, ValueView>,
    below: Seq<TaskView>,
) -> bool {
    &&& frame.variables == variables
    &&& below.len() <= frame.tasks.len()
    &&& frame.tasks.take(below.len() as int) == below
    &&& forall|i: int|
        below.len() <= i < frame.tasks.len() ==> is_expression_task(#[trigger] frame.tasks[i])
}

/// Whether `machine` is computing an expression for the call at `depth`:
/// that call has the variables `variables` and, below what the expression
/// has put there, the tasks `below`.
pub open spec fn computing(
    machine: MachineView,
    depth: int,
    variables: Map<Seq<char>, ValueView>,
    below: Seq<TaskView>,
) -> bool {
    let frames = frames_of(machine.state);
    &&& 0 <= depth < frames.len()
    &&& holds_expression(frames[depth], variables, below)
    &&& depth == frames.len() - 1 ==> (machine.control is Evaluate || machine.control is Deliver
        || machine.control is Calculate || machine.control is Failed)
}

/// Whether the value of the expression that `machine` computed for the call
/// at `depth` is there: the call is the innermost again, with the tasks
/// `below` and the value to hand to them.
pub open spec fn computed(machine: MachineView, depth: int, below: Seq<TaskView>) -> bool {
    machine.state.callers.len() == depth && machine.control is Deliver
        && machine.state.current.tasks == below
}

/// The machine after it took the steps that `replies` answer, or as many of
/// them as it takes until the value of the expression for the call at
/// `depth` is there.
pub open spec fn computed_run(
    machine: MachineView,
    replies: Seq<ReplyView>,
    depth: int,
    below: Seq<TaskView>,
) -> MachineView
    decreases replies.len(),
{
    if replies.len() == 0 || computed(machine, depth, below) {
        machine
    } else {
        computed_run(stepped(machine, replies[0]), replies.drop_first(), depth, below)
    }
}

/// A machine that takes up an expression computes it for the innermost
/// call.
pub proof fn lemma_computing_starts(state: StateView, node: NodeView)
    ensures
        computing(
            state.to(ControlView::Evaluate(node)),
            state.callers.len() as int,
            state.current.variables,
            state.current.tasks,
        ),
{
    assert(state.current.tasks.take(state.current.tasks.len() as int) =~= state.current.tasks);
}

/// A step enters a call, leaves one, or stays in the innermost call. The
/// callers stay as they are; a call that is left hands its caller a value.
pub proof fn lemma_step_frames(machine: MachineView, reply: ReplyView)
    ensures
        ({
            let before = machine.state.callers;
            let next = stepped(machine, reply);
            ||| next.state.callers == before
            ||| next.state.callers.len() == before.len() + 1 && next.state.callers.drop_last()
                == before
            ||| before.len() > 0 && next.state.callers == before.drop_last() && next.state.current
                == before.last() && next.control is Deliver
        }),
{
    let before = machine.state.callers;
    let next = stepped(machine, reply);
    if let ControlView::Deliver(value) = machine.control {
        lemma_delivered_joins(machine.state, value);
    }
    if next.state.callers != before && !(before.len() > 0 && next.state.callers
        == before.drop_last()) {
        assert(next.state.callers.drop_last() =~= before);
    }
}

/// While an expression is computed for a call, every step leaves the
/// variables of that call as they were, and the tasks below the expression
/// too.
pub proof fn lemma_computing_goes_on(
    machine: MachineView,
    reply: ReplyView,
    depth: int,
    variables: Map<Seq<char>, ValueView>,
    below: Seq<TaskView>,
)
    requires
        computing(machine, depth, variables, below),
        !computed(machine, depth, below),
    ensures
        computing(stepped(machine, reply), depth, variables, below),
{
    let next = stepped(machine, reply);
    let frames = frames_of(machine.state);
    let after = frames_of(next.state);
    let state = machine.state;
    lemma_step_frames(machine, reply);
    if depth < state.callers.len() {
        assert(frames[depth] == state.callers[depth]);
        if next.state.callers == state.callers {
            assert(after[depth] == state.callers[depth]);
        } else if next.state.callers.len() == state.callers.len() + 1 {
            assert(next.state.callers[depth] == next.state.callers.drop_last()[depth]);
            assert(after[depth] == state.callers[depth]);
        } else {
            assert(after =~= state.callers);
        }
    } else {
        let tasks = state.current.tasks;
        assert(frames[depth] == state.current);
        match machine.control {
            ControlView::Evaluate(node) => {
                lemma_evaluated_computes(state, node, below);
            },
            ControlView::Deliver(value) => {
                assert(tasks.len() > below.len()) by {
                    if tasks.len() == below.len() {
                        assert(tasks.take(below.len() as int) =~= tasks);
                    }
                }
                lemma_delivered_computes(state, value, below);
            },
            _ => {},
        }
        if next.state.callers == state.callers {
            assert(after[depth] == next.state.current);
        } else {
            assert(next.state.callers[depth] == next.state.callers.last());
            assert(after[depth] == next.state.callers.last());
        }
    }
    let frame = after[depth];
    assert forall|i: int| below.len() <= i < frame.tasks.len() implies is_expression_task(
        #[trigger] frame.tasks[i],
    ) by {
        if frame == frames[depth] {
            assert(is_expression_task(frames[depth].tasks[i]));
        } else if next.state.callers == state.callers {
            assert(is_expression_task(next.state.current.tasks[i]));
        } else {
            assert(is_expression_task(next.state.callers.last().tasks[i]));
        }
    }
}

/// The tasks `tasks` with `task` on top still have `below` at the bottom
/// and tasks of the expression above it.
pub proof fn lemma_expression_task_pushed(
    tasks: Seq<TaskView>,
    task: TaskView,
    below: Seq<TaskView>,
)
    requires
        below.len() <= tasks.len(),
        tasks.take(below.len() as int) == below,
        forall|i: int| below.len() <= i < tasks.len() ==> is_expression_task(#[trigger] tasks[i]),
        is_expression_task(task),
    ensures
        tasks.push(task).take(below.len() as int) == below,
        forall|i: int|
            below.len() <= i < tasks.push(task).len() ==> is_expression_task(
                #[trigger] tasks.push(task)[i],
            ),
{
    assert(tasks.push(task).take(below.len() as int) =~= tasks.take(below.len() as int));
}

/// The tasks `tasks` without the one on top, which belongs to the
/// expression, still have `below` at the bottom and tasks of the expression
/// above it.
pub proof fn lemma_expression_task_popped(tasks: Seq<TaskView>, below: Seq<TaskView>)
    requires
        below.len() < tasks.len(),
        tasks.take(below.len() as int) == below,
        forall|i: int| below.len() <= i < tasks.len() ==> is_expression_task(#[trigger] tasks[i]),
    ensures
        tasks.drop_last().take(below.len() as int) == below,
        forall|i: int|
            below.len() <= i < tasks.drop_last().len() ==> is_expression_task(
                #[trigger] tasks.drop_last()[i],
            ),
        is_expression_task(tasks.last()),
{
    assert(tasks.drop_last().take(below.len() as int) =~= tasks.take(below.len() as int));
    assert forall|i: int| below.len() <= i < tasks.drop_last().len() implies is_expression_task(
        #[trigger] tasks.drop_last()[i],
    ) by {
        assert(tasks.drop_last()[i] == tasks[i]);
    }
    assert(tasks.last() == tasks[tasks.len() - 1]);
}

/// What the call that computes an expression looks like after a step: it
/// is the innermost call with its variables, the tasks `below` and tasks
/// of the expression, or it has entered a call and waits as its caller.
pub open spec fn computes(before: StateView, next: MachineView, below: Seq<TaskView>) -> bool {
    if next.state.callers == before.callers {
        holds_expression(next.state.current, before.current.variables, below) && (
        next.control is Evaluate || next.control is Deliver || next.control is Calculate
            || next.control is Failed)
    } else {
        next.state.callers.len() > 0 && next.state.callers.drop_last() == before.callers
            && holds_expression(next.state.callers.last(), before.current.variables, below)
    }
}

/// Taking up an expression goes on with the computing.
pub proof fn lemma_evaluated_computes(state: StateView, node: NodeView, below: Seq<TaskView>)
    requires
        below.len() <= state.current.tasks.len(),
        state.current.tasks.take(below.len() as int) == below,
        forall|i: int|
            below.len() <= i < state.current.tasks.len() ==> is_expression_task(
                #[trigger] state.current.tasks[i],
            ),
    ensures
        computes(state, evaluated(state, node), below),
{
    let tasks = state.current.tasks;
    let next = evaluated(state, node);
    match node {
        NodeView::List(elements) => {
            if elements.len() > 0 {
                lemma_expression_task_pushed(
                    tasks,
                    TaskView::Elements { nodes: elements, done: Seq::empty() },
                    below,
                );
            }
        },
        NodeView::Call { name, args } => {
            if let Some(function) = find_function(state.functions, name) {
                if function.params.len() == args.len() {
                    if args.len() == 0 {
                        assert(next.state.callers.drop_last() =~= state.callers);
                        assert(next.state.callers.last() == state.current);
                    } else {
                        lemma_expression_task_pushed(
                            tasks,
                            TaskView::Arguments { nodes: args, done: Seq::empty(), function },
                            below,
                        );
                    }
                }
            }
        },
        NodeView::Binary { operator, left, right } => {
            lemma_expression_task_pushed(
                tasks,
                TaskView::BinaryLeft { operator, right: *right, node },
                below,
            );
        },
        NodeView::Not(operand) => {
            lemma_expression_task_pushed(tasks, TaskView::Not(*operand), below);
        },
        NodeView::Length(operand) => {
            lemma_expression_task_pushed(tasks, TaskView::Length(*operand), below);
        },
        NodeView::Get { list, index } => {
            lemma_expression_task_pushed(tasks, TaskView::GetList { index: *index, node }, below);
        },
        _ => {},
    }
}

/// Handing a value to a task of the expression goes on with the computing.
pub proof fn lemma_delivered_computes(state: StateView, value: ValueView, below: Seq<TaskView>)
    requires
        below.len() < state.current.tasks.len(),
        state.current.tasks.take(below.len() as int) == below,
        forall|i: int|
            below.len() <= i < state.current.tasks.len() ==> is_expression_task(
                #[trigger] state.current.tasks[i],
            ),
    ensures
        computes(state, delivered(state, value), below),
{
    let tasks = state.current.tasks;
    let rest = state.pop();
    let next = delivered(state, value);
    lemma_expression_task_popped(tasks, below);
    match tasks.last() {
        TaskView::BinaryLeft { operator, right, node } => {
            lemma_expression_task_pushed(
                rest.current.tasks,
                TaskView::BinaryRight { operator, left: value, node },
                below,
            );
        },
        TaskView::BinaryRight { operator, left, node } => {
            lemma_applied_computes(rest, operator, left, value, node, below);
        },
        TaskView::GetList { index, node } => {
            lemma_expression_task_pushed(
                rest.current.tasks,
                TaskView::GetIndex { list: value, node },
                below,
            );
        },
        TaskView::Elements { nodes, done } => {
            lemma_expression_task_pushed(
                rest.current.tasks,
                TaskView::Elements { nodes, done: done.push(value) },
                below,
            );
        },
        TaskView::Arguments { nodes, done, function } => {
            if done.len() + 1 >= nodes.len() {
                assert(next.state.callers.drop_last() =~= state.callers);
                assert(next.state.callers.last() == rest.current);
            } else {
                lemma_expression_task_pushed(
                    rest.current.tasks,
                    TaskView::Arguments { nodes, done: done.push(value), function },
                    below,
                );
            }
        },
        TaskView::Join { pieces, written, print } => {
            let text = match value {
                ValueView::String(text) => written + text,
                _ => written,
            };
            lemma_joined_computes(rest, pieces, text, below);
        },
        _ => {},
    }
}

/// Writing a string for an expression goes on with the computing.
pub proof fn lemma_joined_computes(
    state: StateView,
    pieces: Seq<PieceView>,
    written: Seq<char>,
    below: Seq<TaskView>,
)
    requires
        below.len() <= state.current.tasks.len(),
        state.current.tasks.take(below.len() as int) == below,
        forall|i: int|
            below.len() <= i < state.current.tasks.len() ==> is_expression_task(
                #[trigger] state.current.tasks[i],
            ),
    ensures
        ({
            let next = joined(state, pieces, written, false);
            &&& next.state.callers == state.callers
            &&& next.state.current.variables == state.current.variables
            &&& below.len() <= next.state.current.tasks.len()
            &&& next.state.current.tasks.take(below.len() as int) == below
            &&& forall|i: int|
                below.len() <= i < next.state.current.tasks.len() ==> is_expression_task(
                    #[trigger] next.state.current.tasks[i],
                )
            &&& (next.control is Deliver || next.control is Calculate)
        }),
{
    lemma_joined(state, pieces, written, false);
    let next = joined(state, pieces, written, false);
    if next.state.current.tasks != state.current.tasks {
        let task = next.state.current.tasks.last();
        assert(next.state.current.tasks =~= state.current.tasks.push(task));
        lemma_expression_task_pushed(state.current.tasks, task, below);
    }
}

/// Applying an operator goes on with the computing.
pub proof fn lemma_applied_computes(
    state: StateView,
    operator: BinaryOperator,
    left: ValueView,
    right: ValueView,
    node: NodeView,
    below: Seq<TaskView>,
)
    requires
        below.len() <= state.current.tasks.len(),
        state.current.tasks.take(below.len() as int) == below,
        forall|i: int|
            below.len() <= i < state.current.tasks.len() ==> is_expression_task(
                #[trigger] state.current.tasks[i],
            ),
    ensures
        ({
            let next = applied(state, operator, left, right, node);
            &&& next.state.callers == state.callers
            &&& next.state.current.variables == state.current.variables
            &&& below.len() <= next.state.current.tasks.len()
            &&& next.state.current.tasks.take(below.len() as int) == below
            &&& forall|i: int|
                below.len() <= i < next.state.current.tasks.len() ==> is_expression_task(
                    #[trigger] next.state.current.tasks[i],
                )
            &&& (next.control is Deliver || next.control is Calculate || next.control is Failed)
        }),
{
    if operator == BinaryOperator::Add {
        match (left, right) {
            (ValueView::String(a), ValueView::Number(b)) => {
                lemma_joined_computes(state, seq![PieceView::Number(b)], a, below);
            },
            (ValueView::Number(a), ValueView::String(b)) => {
                lemma_joined_computes(
                    state,
                    seq![PieceView::Number(a), PieceView::Text(b)],
                    Seq::empty(),
                    below,
                );
            },
            _ => {},
        }
    }
}

/// Computing an expression leaves the variables of its call as they were:
/// however many steps the machine takes, up to the step at which the value
/// of the expression is there, the call has the variables that it had when
/// the expression was taken up, and below the expression the tasks that it
/// had. Calls that the expression makes have variables of their own.
pub proof fn lemma_expression_keeps_variables(
    machine: MachineView,
    replies: Seq<ReplyView>,
    depth: int,
    variables: Map<Seq<char>, ValueView>,
    below: Seq<TaskView>,
)
    requires
        computing(machine, depth, variables, below),
    ensures
        computing(computed_run(machine, replies, depth, below), depth, variables, below),
    decreases replies.len(),
{
    if replies.len() > 0 && !computed(machine, depth, below) {
        lemma_computing_goes_on(machine, replies[0], depth, variables, below);
        lemma_expression_keeps_variables(
            stepped(machine, replies[0]),
            replies.drop_first(),
            depth,
            variables,
            below,
        );
    }
}

/// A condition that is the true boolean runs the then-block, and any other
/// value runs the else-block: the block that is not chosen is dropped.
pub proof fn lemma_condition_chooses_one_block(
    state: StateView,
    value: ValueView,
    then_part: Seq<NodeView>,
    else_part: Seq<NodeView>,
)
    ensures
        delivered(state.push(TaskView::Branch { then_part, else_part }), value) == state.push(
            TaskView::Block(
                if value == ValueView::Bool(true) {
                    then_part
                } else {
                    else_part
                },
            ),
        ).to(ControlView::Deliver(ValueView::Null)),
{
    let waiting = state.push(TaskView::Branch { then_part, else_part });
    assert(waiting.pop() == state) by {
        assert(waiting.current.tasks.drop_last() =~= state.current.tasks);
    }
}

/// A `Return` whose value is there leaves the call at once, whatever loops
/// and blocks of the call were still open: the caller goes on as it was,
/// with the value.
pub proof fn lemma_return_leaves_the_call(state: StateView, node: NodeView, value: ValueView)
    requires
        state.callers.len() > 0,
    ensures
        delivered(state.push(TaskView::Return(node)), value) == (MachineView {
            state: StateView {
                functions: state.functions,
                callers: state.callers.drop_last(),
                current: state.callers.last(),
            },
            control: ControlView::Deliver(value),
        }),
{
}

/// A `Break` drops the innermost loop of the call with everything that was
/// open in it, and a `Continue` drops what was open in it and starts it
/// again. Neither touches what stands below the loop.
pub proof fn lemma_loop_control(state: StateView, place: int)
    requires
        innermost_loop(state.current.tasks) == Some(place),
    ensures
        0 <= place < state.current.tasks.len(),
        state.current.tasks[place] is Loop,
        forall|i: int| place < i < state.current.tasks.len() ==> !(state.current.tasks[i] is Loop),
        executed(state, NodeView::Break).state.current.tasks == state.current.tasks.take(place),
        executed(state, NodeView::Continue).state.current.tasks == state.current.tasks.take(
            place + 1,
        ),
        executed(state, NodeView::Break).control == ControlView::Deliver(ValueView::Null),
        executed(state, NodeView::Continue).control == ControlView::Deliver(ValueView::Null),
{
    lemma_innermost_loop(state.current.tasks);
}

/// The innermost loop is a loop, and no loop stands above it.
pub proof fn lemma_innermost_loop(tasks: Seq<TaskView>)
    ensures
        innermost_loop(tasks) matches Some(place) ==> 0 <= place < tasks.len()
            && tasks[place] is Loop && forall|i: int|
            place < i < tasks.len() ==> !(tasks[i] is Loop),
        innermost_loop(tasks) is None ==> forall|i: int|
            0 <= i < tasks.len() ==> !(tasks[i] is Loop),
    decreases tasks.len(),
{
    if tasks.len() > 0 && !(tasks.last() is Loop) {
        let below = tasks.drop_last();
        lemma_innermost_loop(below);
        match innermost_loop(tasks) {
            Some(place) => {
                assert(tasks[place] == below[place]);
                assert forall|i: int| place < i < tasks.len() implies !(tasks[i] is Loop) by {
                    if i < below.len() {
                        assert(tasks[i] == below[i]);
                    }
                }
            },
            None => {
                assert forall|i: int| 0 <= i < tasks.len() implies !(tasks[i] is Loop) by {
                    if i < below.len() {
                        assert(tasks[i] == below[i]);
                    }
                }
            },
        }
    }
}

/// A machine that has stopped, at its end or by an error, stays as it is
/// whatever it is told.
pub proof fn lemma_stopped_stays(machine: MachineView, reply: ReplyView)
    requires
        machine.control is Finished || machine.control is Failed,
    ensures
        stepped(machine, reply) == machine,
{
}

/// The half-width form of a full-width digit or decimal point.
fn to_half_width(c: char) -> (half: char)
    ensures
        half == half_width(c),
{
    if c == '０' {
        '0'
    } else if c == '１' {
        '1'
    } else if c == '２' {
        '2'
    } else if c == '３' {
        '3'
    } else if c == '４' {
        '4'
    } else if c == '５' {
        '5'
    } else if c == '６' {
        '6'
    } else if c == '７' {
        '7'
    } else if c == '８' {
        '8'
    } else if c == '９' {
        '9'
    } else if c == '．' {
        '.'
    } else {
        c
    }
}

/// The digits of a number with every glyph in its half-width form.
pub fn normalize(digits: &String) -> (text: String)
    ensures
        text@ == normalized(digits@),
{
    let chars = to_chars(digits.as_str());
    let mut text = String::new();
    let mut index: usize = 0;
    while index < chars.len()
        invariant
            index <= chars.len(),
            chars@ == digits@,
            text@ =~= normalized(chars@).take(index as int),
        decreases chars.len() - index,
    {
        text.push(to_half_width(chars[index]));
        index += 1;
    }
    assert(normalized(chars@).take(index as int) =~= normalized(chars@));
    text
}

/// Where the first function named `name` stands in `functions`.
fn lookup(functions: &Vec<Function>, name: &String) -> (found: Option<usize>)
    ensures
        match found {
            Some(place) => place < functions.len() && find_function(
                function_views(functions@),
                name@,
            ) == Some(functions[place as int]@),
            None => find_function(function_views(functions@), name@) is None,
        },
{
    let ghost views = function_views(functions@);
    let mut index: usize = 0;
    assert(views.skip(0) =~= views);
    while index < functions.len()
        invariant
            index <= functions.len(),
            views == function_views(functions@),
            find_function(views, name@) == find_function(views.skip(index as int), name@),
        decreases functions.len() - index,
    {
        proof {
            assert(views.skip(index as int)[0] == views[index as int]);
            assert(views.skip(index as int).drop_first() =~= views.skip(index + 1));
        }
        if functions[index].name == *name {
            return Some(index);
        }
        index += 1;
    }
    None
}

/// Makes the table of the functions that `nodes` declare.
fn declare(nodes: &Vec<Node>) -> (table: Result<Vec<Function>, RuntimeError>)
    ensures
        match declared(node_views(nodes@), Seq::empty()) {
            Ok(functions) => table is Ok && function_views(table->Ok_0@) == functions,
            Err(error) => table is Err && table->Err_0@ == error,
        },
{
    let mut table: Vec<Function> = Vec::new();
    let mut index: usize = 0;
    let ghost views = node_views(nodes@);
    assert(views.skip(0) =~= views);
    assert(function_views(table@) =~= Seq::empty());
    while index < nodes.len()
        invariant
            index <= nodes.len(),
            views == node_views(nodes@),
            declared(views, Seq::empty()) == declared(
                views.skip(index as int),
                function_views(table@),
            ),
        decreases nodes.len() - index,
    {
        proof {
            assert(views.skip(index as int)[0] == views[index as int]);
            assert(views.skip(index as int).drop_first() =~= views.skip(index + 1));
        }
        match &nodes[index] {
            Node::Function { name, params, body } => {
                proof {
                    Node::lemma_models(body);
                }
                if lookup(&table, name).is_some() {
                    return Err(RuntimeError::redefining_function(nodes[index].clone()));
                }
                let function = Function {
                    name: name.clone(),
                    params: crate::node::clone_texts(params),
                    body: Node::clone_all(body),
                };
                let ghost before = function_views(table@);
                table.push(function);
                assert(function_views(table@) =~= before.push(function@));
            },
            _ => {
                return Err(RuntimeError::unexpected_node(nodes[index].clone()));
            },
        }
        index += 1;
    }
    Ok(table)
}

/// Puts `task` on top of what is left for the innermost call.
fn push_task(state: State, task: Task) -> (next: State)
    ensures
        next@ == state@.push(task@),
{
    let mut state = state;
    let ghost before = task_views(state.current.tasks@);
    state.current.tasks.push(task);
    assert(task_views(state.current.tasks@) =~= before.push(task@));
    state
}

/// Takes the next task of the innermost call, if one is left.
fn pop_task(state: State) -> (popped: (State, Option<Task>))
    ensures
        state@.current.tasks.len() == 0 ==> popped.1.is_none() && popped.0@ == state@,
        state@.current.tasks.len() > 0 ==> popped.1.is_some() && popped.1.unwrap()@
            == state@.current.tasks.last() && popped.0@ == state@.pop(),
{
    let mut state = state;
    let ghost before = task_views(state.current.tasks@);
    let task = state.current.tasks.pop();
    proof {
        if before.len() > 0 {
            assert(task_views(state.current.tasks@) =~= before.drop_last());
        }
    }
    (state, task)
}

/// Leaves the innermost call, if it has a caller.
fn leave(state: State) -> (left: (State, bool))
    ensures
        left.1 == (state@.callers.len() > 0),
        left.1 ==> left.0@ == state@.leave(),
        !left.1 ==> left.0@ == state@,
{
    let mut state = state;
    let ghost before = frame_views(state.callers@);
    match state.callers.pop() {
        Some(caller) => {
            assert(frame_views(state.callers@) =~= before.drop_last());
            state.current = caller;
            (state, true)
        },
        None => (state, false),
    }
}

/// Enters a call whose frame is `frame`.
fn enter(state: State, frame: Frame) -> (next: State)
    ensures
        next@ == state@.enter(frame@),
{
    let State { functions, callers, current } = state;
    let mut callers = callers;
    let ghost before = frame_views(callers@);
    callers.push(current);
    assert(frame_views(callers@) =~= before.push(current@));
    State { functions, callers, current: frame }
}

/// The machine in `state` that was stopped by `error`.
fn stop(state: State, error: RuntimeError) -> (next: Interpreter)
    ensures
        next@ == state@.to(ControlView::Failed(error@)),
{
    Interpreter { state, control: Control::Failed(error) }
}

/// Calls `function` with the values `args`.
fn call(state: State, function: Function, args: Vec<Value>) -> (next: Interpreter)
    ensures
        next@ == called(state@, function@, value_views(args@)),
{
    let mut variables = Variables::new();
    let mut index: usize = 0;
    while index < function.params.len() && index < args.len()
        invariant
            index <= function.params.len(),
            index <= args.len(),
            variables@ == bind_all(
                text_views(function.params@),
                value_views(args@),
                index as nat,
            ),
        decreases function.params.len() - index,
    {
        variables.insert(function.params[index].clone(), args[index].clone());
        index += 1;
    }
    let mut tasks: Vec<Task> = Vec::new();
    tasks.push(Task::Block(Ast::new(function.body)));
    assert(task_views(tasks@) =~= seq![TaskView::Block(function@.body)]);
    Interpreter { state: enter(state, Frame { variables, tasks }), control: Control::Deliver(Value::Null) }
}

/// Where the innermost loop stands among `tasks`.
fn find_loop(tasks: &Vec<Task>) -> (place: Option<usize>)
    ensures
        match place {
            Some(index) => index < tasks.len() && innermost_loop(task_views(tasks@)) == Some(
                index as int,
            ),
            None => innermost_loop(task_views(tasks@)) is None,
        },
{
    let ghost views = task_views(tasks@);
    let mut index = tasks.len();
    assert(views.take(index as int) =~= views);
    while index > 0
        invariant
            index <= tasks.len(),
            views == task_views(tasks@),
            innermost_loop(views) == innermost_loop(views.take(index as int)),
        decreases index,
    {
        proof {
            assert(views.take(index as int).last() == views[index - 1]);
            assert(views.take(index as int).drop_last() =~= views.take(index - 1));
        }
        index -= 1;
        if let Task::Loop(_) = tasks[index] {
            return Some(index);
        }
    }
    None
}

/// Leaves the innermost loop (`through`), or goes back to its start, for
/// the statement `node`.
fn unwind(state: State, node: Node, through: bool) -> (next: Interpreter)
    requires
        through ==> node@ is Break,
        !through ==> node@ is Continue,
    ensures
        next@ == executed(state@, node@),
{
    let mut state = state;
    match find_loop(&state.current.tasks) {
        Some(place) => {
            let ghost before = task_views(state.current.tasks@);
            let keep = if through {
                place
            } else {
                place + 1
            };
            state.current.tasks.truncate(keep);
            assert(task_views(state.current.tasks@) =~= before.take(keep as int));
            Interpreter { state, control: Control::Deliver(Value::Null) }
        },
        None => stop(state, RuntimeError::unexpected_node(node)),
    }
}

/// Takes up the statement `node`.
fn execute(state: State, node: Node) -> (next: Interpreter)
    ensures
        next@ == executed(state@, node@),
{
    match node {
        Node::Assignment { name, value } => Interpreter {
            state: push_task(state, Task::Assign(name)),
            control: Control::Evaluate(*value),
        },
        Node::Call { name, args } => Interpreter {
            state: push_task(state, Task::Discard),
            control: Control::Evaluate(Node::Call { name, args }),
        },
        Node::If { condition, then_part, else_part } => {
            proof {
                Node::lemma_models(&then_part);
                Node::lemma_models(&else_part);
            }
            Interpreter {
                state: push_task(state, Task::Branch { then_part, else_part }),
                control: Control::Evaluate(*condition),
            }
        },
        Node::Loop { body } => {
            proof {
                Node::lemma_models(&body);
            }
            Interpreter {
                state: push_task(state, Task::Loop(body)),
                control: Control::Deliver(Value::Null),
            }
        },
        Node::Return(value) => {
            if state.callers.len() == 0 {
                stop(state, RuntimeError::unexpected_node(Node::Return(value)))
            } else {
                let result = (*value).clone();
                Interpreter {
                    state: push_task(state, Task::Return(Node::Return(value))),
                    control: Control::Evaluate(result),
                }
            }
        },
        Node::Break => unwind(state, Node::Break, true),
        Node::Continue => unwind(state, Node::Continue, false),
        Node::Print(value) => Interpreter {
            state: push_task(state, Task::Print),
            control: Control::Evaluate(*value),
        },
        other => stop(state, RuntimeError::unexpected_node(other)),
    }
}

/// Takes up the expression `node`.
fn evaluate(state: State, node: Node) -> (next: Interpreter)
    ensures
        next@ == evaluated(state@, node@),
{
    match node.operands() {
        Some((operator, left, right)) => {
            let left = left.clone();
            let right = right.clone();
            return Interpreter {
                state: push_task(state, Task::BinaryLeft { operator, right, node }),
                control: Control::Evaluate(left),
            };
        },
        None => {},
    }
    match node {
        Node::Number(digits) => Interpreter {
            state,
            control: Control::Calculate(Calculation::Parse(normalize(&digits))),
        },
        Node::String(content) => Interpreter {
            state,
            control: Control::Deliver(Value::String(content)),
        },
        Node::Bool(value) => Interpreter { state, control: Control::Deliver(Value::Bool(value)) },
        Node::Null => Interpreter { state, control: Control::Deliver(Value::Null) },
        Node::List(elements) => {
            proof {
                Node::lemma_models(&elements);
            }
            let done: Vec<Value> = Vec::new();
            proof {
                Value::lemma_models(&done);
                assert(value_views(done@) =~= Seq::empty());
            }
            if elements.len() == 0 {
                Interpreter { state, control: Control::Deliver(Value::List(done)) }
            } else {
                let first = elements[0].clone();
                Interpreter {
                    state: push_task(state, Task::Elements { nodes: elements, done }),
                    control: Control::Evaluate(first),
                }
            }
        },
        Node::Variable(name) => {
            let found = match state.current.variables.get(&name) {
                Some(value) => Some(value.clone()),
                None => None,
            };
            match found {
                Some(value) => Interpreter { state, control: Control::Deliver(value) },
                None => stop(state, RuntimeError::undefined_variable(Node::Variable(name))),
            }
        },
        Node::Call { name, args } => {
            proof {
                Node::lemma_models(&args);
            }
            match lookup(&state.functions, &name) {
                None => stop(state, RuntimeError::undefined_function(Node::Call { name, args })),
                Some(place) => {
                    if state.functions[place].params.len() != args.len() {
                        stop(
                            state,
                            RuntimeError::wrong_number_of_arguments(Node::Call { name, args }),
                        )
                    } else {
                        let function = state.functions[place].clone();
                        let done: Vec<Value> = Vec::new();
                        assert(value_views(done@) =~= Seq::empty());
                        if args.len() == 0 {
                            call(state, function, done)
                        } else {
                            let first = args[0].clone();
                            Interpreter {
                                state: push_task(
                                    state,
                                    Task::Arguments { nodes: args, done, function },
                                ),
                                control: Control::Evaluate(first),
                            }
                        }
                    }
                },
            }
        },
        Node::Not(operand) => {
            let copy = (*operand).clone();
            Interpreter {
                state: push_task(state, Task::Not(*operand)),
                control: Control::Evaluate(copy),
            }
        },
        Node::Length(operand) => {
            let copy = (*operand).clone();
            Interpreter {
                state: push_task(state, Task::Length(*operand)),
                control: Control::Evaluate(copy),
            }
        },
        Node::Get { list, index } => {
            let list_copy = (*list).clone();
            let index_copy = (*index).clone();
            Interpreter {
                state: push_task(
                    state,
                    Task::GetList { index: index_copy, node: Node::Get { list, index } },
                ),
                control: Control::Evaluate(list_copy),
            }
        },
        other => stop(state, RuntimeError::unexpected_node(other)),
    }
}

/// Writes a line: puts the text pieces at the front of `pieces` behind
/// `written`, up to the first number, whose text it asks for.
fn join(state: State, pieces: VecDeque<Piece>, written: String, print: bool) -> (next: Interpreter)
    ensures
        next@ == joined(state@, piece_views(pieces@), written@, print),
{
    let mut rest = pieces;
    let mut line = written;
    loop
        invariant
            joined(state@, piece_views(rest@), line@, print) == joined(
                state@,
                piece_views(pieces@),
                written@,
                print,
            ),
        decreases rest@.len(),
    {
        let ghost before = piece_views(rest@);
        match rest.pop_front() {
            None => {
                return if print {
                    Interpreter { state, control: Control::Print(line) }
                } else {
                    Interpreter { state, control: Control::Deliver(Value::String(line)) }
                };
            },
            Some(Piece::Text(text)) => {
                assert(piece_views(rest@) =~= before.drop_first());
                line.append(text.as_str());
            },
            Some(Piece::Number(bits)) => {
                assert(piece_views(rest@) =~= before.drop_first());
                return Interpreter {
                    state: push_task(state, Task::Join { pieces: rest, written: line, print }),
                    control: Control::Calculate(Calculation::Render(bits)),
                };
            },
        }
    }
}

/// The machine in `state` that has the boolean `value`.
fn deliver_truth(state: State, value: bool) -> (next: Interpreter)
    ensures
        next@ == truth(state@, value),
{
    Interpreter { state, control: Control::Deliver(Value::Bool(value)) }
}

/// The machine in `state` that asks for `calculation`.
fn ask(state: State, calculation: Calculation) -> (next: Interpreter)
    ensures
        next@ == state@.to(ControlView::Calculate(calculation@)),
{
    Interpreter { state, control: Control::Calculate(calculation) }
}

/// Applies `operator` to `left` and `right`.
fn apply(state: State, operator: BinaryOperator, left: Value, right: Value, node: Node) -> (next:
    Interpreter)
    ensures
        next@ == applied(state@, operator, left@, right@, node@),
{
    match operator {
        BinaryOperator::Or => match (left, right) {
            (Value::Bool(a), Value::Bool(b)) => deliver_truth(state, a || b),
            _ => stop(state, RuntimeError::unexpected_node(node)),
        },
        BinaryOperator::And => match (left, right) {
            (Value::Bool(a), Value::Bool(b)) => deliver_truth(state, a && b),
            _ => stop(state, RuntimeError::unexpected_node(node)),
        },
        BinaryOperator::Equal => match (left, right) {
            (Value::Number(a), Value::Number(b)) => deliver_truth(state, numbers_equal(a, b)),
            (Value::String(a), Value::String(b)) => deliver_truth(state, a == b),
            _ => stop(state, RuntimeError::comparing_different_types(node)),
        },
        BinaryOperator::NotEqual => match (left, right) {
            (Value::Number(a), Value::Number(b)) => deliver_truth(state, !numbers_equal(a, b)),
            (Value::String(a), Value::String(b)) => deliver_truth(state, !(a == b)),
            _ => stop(state, RuntimeError::comparing_different_types(node)),
        },
        BinaryOperator::LessThan => match (left, right) {
            (Value::Number(a), Value::Number(b)) => deliver_truth(state, number_is_less(a, b)),
            _ => stop(state, RuntimeError::comparing_different_types(node)),
        },
        BinaryOperator::LessThanOrEqual => match (left, right) {
            (Value::Number(a), Value::Number(b)) => deliver_truth(
                state,
                number_is_less(a, b) || numbers_equal(a, b),
            ),
            _ => stop(state, RuntimeError::comparing_different_types(node)),
        },
        BinaryOperator::GreaterThan => match (left, right) {
            (Value::Number(a), Value::Number(b)) => deliver_truth(state, number_is_less(b, a)),
            _ => stop(state, RuntimeError::comparing_different_types(node)),
        },
        BinaryOperator::GreaterThanOrEqual => match (left, right) {
            (Value::Number(a), Value::Number(b)) => deliver_truth(
                state,
                number_is_less(b, a) || numbers_equal(a, b),
            ),
            _ => stop(state, RuntimeError::comparing_different_types(node)),
        },
        BinaryOperator::Add => match (left, right) {
            (Value::Number(a), Value::Number(b)) => ask(state, Calculation::Add(a, b)),
            (Value::String(a), Value::String(b)) => {
                let mut text = a;
                text.append(b.as_str());
                Interpreter { state, control: Control::Deliver(Value::String(text)) }
            },
            (Value::String(a), Value::Number(b)) => {
                let mut pieces: VecDeque<Piece> = VecDeque::new();
                pieces.push_back(Piece::Number(b));
                assert(piece_views(pieces@) =~= seq![PieceView::Number(b)]);
                join(state, pieces, a, false)
            },
            (Value::Number(a), Value::String(b)) => {
                let mut pieces: VecDeque<Piece> = VecDeque::new();
                pieces.push_back(Piece::Number(a));
                pieces.push_back(Piece::Text(b));
                assert(piece_views(pieces@) =~= seq![PieceView::Number(a), PieceView::Text(b@)]);
                join(state, pieces, String::new(), false)
            },
            _ => stop(state, RuntimeError::string_addition(node)),
        },
        BinaryOperator::Subtract => match (left, right) {
            (Value::Number(a), Value::Number(b)) => ask(state, Calculation::Subtract(a, b)),
            _ => stop(state, RuntimeError::string_addition(node)),
        },
        BinaryOperator::Multiply => match (left, right) {
            (Value::Number(a), Value::Number(b)) => ask(state, Calculation::Multiply(a, b)),
            _ => stop(state, RuntimeError::string_addition(node)),
        },
        BinaryOperator::Divide => match (left, right) {
            (Value::Number(a), Value::Number(b)) => ask(state, Calculation::Divide(a, b)),
            _ => stop(state, RuntimeError::string_addition(node)),
        },
    }
}

/// Takes the element at `index` from `list`.
fn get_element(list: Value, index: Value, node: Node) -> (control: Control)
    ensures
        control@ == element_at(list@, index@, node@),
{
    match (list, index) {
        (Value::List(elements), Value::Number(bits)) => {
            proof {
                Value::lemma_models(&elements);
            }
            match truncate_to_index(bits) {
                Some(place) => {
                    if place < elements.len() as u64 {
                        Control::Deliver(elements[place as usize].clone())
                    } else {
                        Control::Failed(RuntimeError::index_out_of_range(node))
                    }
                },
                None => Control::Failed(RuntimeError::index_out_of_range(node)),
            }
        },
        _ => Control::Failed(RuntimeError::unexpected_node(node)),
    }
}

/// Hands `value` to the next task of the innermost call.
fn deliver(state: State, value: Value) -> (next: Interpreter)
    ensures
        next@ == delivered(state@, value@),
{
    let (state, task) = pop_task(state);
    let task = match task {
        Some(task) => task,
        None => {
            let (state, left) = leave(state);
            return if left {
                Interpreter { state, control: Control::Deliver(value) }
            } else {
                Interpreter { state, control: Control::Finished }
            };
        },
    };
    match task {
        Task::Block(statements) => {
            let mut statements = statements;
            match statements.pop_front() {
                Some(statement) => Interpreter {
                    state: push_task(state, Task::Block(statements)),
                    control: Control::Execute(statement),
                },
                None => Interpreter { state, control: Control::Deliver(Value::Null) },
            }
        },
        Task::Loop(body) => {
            let block = Ast::new(Node::clone_all(&body));
            let state = push_task(state, Task::Loop(body));
            Interpreter {
                state: push_task(state, Task::Block(block)),
                control: Control::Deliver(Value::Null),
            }
        },
        Task::Assign(name) => {
            let mut state = state;
            state.current.variables.insert(name, value);
            Interpreter { state, control: Control::Deliver(Value::Null) }
        },
        Task::Discard => Interpreter { state, control: Control::Deliver(Value::Null) },
        Task::Branch { then_part, else_part } => {
            let holds = match value {
                Value::Bool(true) => true,
                _ => false,
            };
            let block = if holds {
                Ast::new(then_part)
            } else {
                Ast::new(else_part)
            };
            Interpreter {
                state: push_task(state, Task::Block(block)),
                control: Control::Deliver(Value::Null),
            }
        },
        Task::Return(node) => {
            let (state, left) = leave(state);
            if left {
                Interpreter { state, control: Control::Deliver(value) }
            } else {
                stop(state, RuntimeError::unexpected_node(node))
            }
        },
        Task::Print => join(state, value.pieces(), String::new(), true),
        Task::Join { pieces, written, print } => match value {
            Value::String(text) => {
                let mut written = written;
                written.append(text.as_str());
                join(state, pieces, written, print)
            },
            _ => join(state, pieces, written, print),
        },
        Task::BinaryLeft { operator, right, node } => Interpreter {
            state: push_task(state, Task::BinaryRight { operator, left: value, node }),
            control: Control::Evaluate(right),
        },
        Task::BinaryRight { operator, left, node } => apply(state, operator, left, value, node),
        Task::Not(node) => match value {
            Value::Bool(truth) => Interpreter {
                state,
                control: Control::Deliver(Value::Bool(!truth)),
            },
            _ => stop(state, RuntimeError::unexpected_node(node)),
        },
        Task::Length(node) => match value {
            Value::String(content) => Interpreter {
                state,
                control: Control::Calculate(Calculation::Count(content.as_str().unicode_len())),
            },
            Value::List(elements) => {
                proof {
                    Value::lemma_models(&elements);
                }
                Interpreter {
                    state,
                    control: Control::Calculate(Calculation::Count(elements.len())),
                }
            },
            _ => stop(state, RuntimeError::has_no_length(node)),
        },
        Task::GetList { index, node } => Interpreter {
            state: push_task(state, Task::GetIndex { list: value, node }),
            control: Control::Evaluate(index),
        },
        Task::GetIndex { list, node } => Interpreter {
            state,
            control: get_element(list, value, node),
        },
        Task::Elements { nodes, done } => {
            let mut done = done;
            let ghost before = value_views(done@);
            done.push(value);
            assert(value_views(done@) =~= before.push(value@));
            if done.len() >= nodes.len() {
                proof {
                    Value::lemma_models(&done);
                }
                Interpreter { state, control: Control::Deliver(Value::List(done)) }
            } else {
                let following = nodes[done.len()].clone();
                Interpreter {
                    state: push_task(state, Task::Elements { nodes, done }),
                    control: Control::Evaluate(following),
                }
            }
        },
        Task::Arguments { nodes, done, function } => {
            let mut done = done;
            let ghost before = value_views(done@);
            done.push(value);
            assert(value_views(done@) =~= before.push(value@));
            if done.len() >= nodes.len() {
                call(state, function, done)
            } else {
                let following = nodes[done.len()].clone();
                Interpreter {
                    state: push_task(state, Task::Arguments { nodes, done, function }),
                    control: Control::Evaluate(following),
                }
            }
        },
    }
}

/// The evaluator: a machine that runs a program one step at a time. It
/// does no arithmetic on numbers, does not turn them into text and shows
/// nothing itself: where the program needs any of these, the machine asks
/// for it and waits for the answer.
#[derive(Debug)]
pub struct Interpreter {
    state: State,
    control: Control,
}

impl View for Interpreter {
    type V = MachineView;

    closed spec fn view(&self) -> MachineView {
        MachineView { state: self.state@, control: self.control@ }
    }
}

impl Interpreter {
    /// The machine at the start of the program `ast`. A function that is
    /// declared twice is an error.
    pub fn new(ast: Ast) -> (machine: Result<Interpreter, RuntimeError>)
        ensures
            match started(ast@) {
                Ok(start) => machine is Ok && machine->Ok_0@ == start,
                Err(error) => machine is Err && machine->Err_0@ == error,
            },
            machine matches Ok(start) ==> has_distinct_names(start@.state.functions),
    {
        proof {
            lemma_started(ast@);
        }
        let mut ast = ast;
        let declarations = ast.drain_functions();
        let functions = match declare(&declarations) {
            Ok(functions) => functions,
            Err(error) => {
                return Err(error);
            },
        };
        let mut tasks: Vec<Task> = Vec::new();
        tasks.push(Task::Block(ast));
        assert(task_views(tasks@) =~= seq![TaskView::Block(ast@)]);
        let callers: Vec<Frame> = Vec::new();
        assert(frame_views(callers@) =~= Seq::empty());
        Ok(
            Interpreter {
                state: State {
                    functions,
                    callers,
                    current: Frame { variables: Variables::new(), tasks },
                },
                control: Control::Deliver(Value::Null),
            },
        )
    }

    /// What the machine asks of the one who runs it.
    pub fn action(&self) -> (action: Action)
        ensures
            action@ == action_of(self@.control),
    {
        match &self.control {
            Control::Calculate(calculation) => Action::Calculate(calculation.clone()),
            Control::Print(line) => Action::Print(line.clone()),
            Control::Finished => Action::Finished,
            Control::Failed(error) => Action::Failed(error.clone()),
            _ => Action::Continue,
        }
    }

    /// Takes one step, with `reply` as the answer to what the machine
    /// asked, and hands back the machine after the step with what it asks
    /// next.
    pub fn step(self, reply: Reply) -> (next: (Interpreter, Action))
        ensures
            next.0@ == stepped(self@, reply@),
            next.1@ == action_of(next.0@.control),
    {
        let Interpreter { state, control } = self;
        let machine = match control {
            Control::Execute(node) => execute(state, node),
            Control::Evaluate(node) => evaluate(state, node),
            Control::Deliver(value) => deliver(state, value),
            Control::Calculate(calculation) => match (calculation, reply) {
                (Calculation::Render(_), Reply::Text(text)) => Interpreter {
                    state,
                    control: Control::Deliver(Value::String(text)),
                },
                (Calculation::Render(bits), _) => Interpreter {
                    state,
                    control: Control::Calculate(Calculation::Render(bits)),
                },
                (_, Reply::Number(bits)) => Interpreter {
                    state,
                    control: Control::Deliver(Value::Number(bits)),
                },
                (calculation, _) => Interpreter { state, control: Control::Calculate(calculation) },
            },
            Control::Print(line) => match reply {
                Reply::Printed => Interpreter { state, control: Control::Deliver(Value::Null) },
                _ => Interpreter { state, control: Control::Print(line) },
            },
            Control::Finished => Interpreter { state, control: Control::Finished },
            Control::Failed(error) => Interpreter { state, control: Control::Failed(error) },
        };
        let action = machine.action();
        (machine, action)
    }
}

} // verus!
