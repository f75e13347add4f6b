use crate::ast::Ast;
use crate::error::{RuntimeError, RuntimeErrorKind, RuntimeErrorView};
use crate::frame::Variables;
use crate::node::{node_views, BinaryOperator, Node, NodeView};
use crate::text::text_views;
use crate::value::{piece_views, Piece, PieceView, Value, ValueView};
use std::collections::VecDeque;
use vstd::prelude::*;

verus! {

/// A function that the program declares.
#[derive(Debug)]
pub struct Function {
    pub name: String,
    pub params: Vec<String>,
    pub body: Vec<Node>,
}

/// The mathematical value of a [`Function`].
pub struct FunctionView {
    pub name: Seq<char>,
    pub params: Seq<Seq<char>>,
    pub body: Seq<NodeView>,
}

impl View for Function {
    type V = FunctionView;

    open spec fn view(&self) -> FunctionView {
        FunctionView {
            name: self.name@,
            params: text_views(self.params@),
            body: node_views(self.body@),
        }
    }
}

impl Clone for Function {
    fn clone(&self) -> (copy: Function)
        ensures
            copy@ == self@,
    {
        Function {
            name: self.name.clone(),
            params: crate::node::clone_texts(&self.params),
            body: Node::clone_all(&self.body),
        }
    }
}

/// The values of the functions of `functions`, in order.
pub open spec fn function_views(functions: Seq<Function>) -> Seq<FunctionView> {
    functions.map_values(|function: Function| function@)
}

/// A calculation on numbers that the machine hands out, to be answered with
/// the number that it gives, or for `Render` with the text.
#[derive(Debug)]
pub enum Calculation {
    /// The number that the digits stand for. The digits are half-width.
    Parse(String),
    /// The sum of two doubles, given by their bits.
    Add(u64, u64),
    /// The first double less the second.
    Subtract(u64, u64),
    /// The product of two doubles.
    Multiply(u64, u64),
    /// The first double divided by the second, as IEEE 754 has it.
    Divide(u64, u64),
    /// The double nearest to a count.
    Count(usize),
    /// The decimal text of a double.
    Render(u64),
}

/// The mathematical value of a [`Calculation`].
pub enum CalculationView {
    Parse(Seq<char>),
    Add(u64, u64),
    Subtract(u64, u64),
    Multiply(u64, u64),
    Divide(u64, u64),
    Count(nat),
    Render(u64),
}

impl View for Calculation {
    type V = CalculationView;

    open spec fn view(&self) -> CalculationView {
        match self {
            Calculation::Parse(digits) => CalculationView::Parse(digits@),
            Calculation::Add(left, right) => CalculationView::Add(*left, *right),
            Calculation::Subtract(left, right) => CalculationView::Subtract(*left, *right),
            Calculation::Multiply(left, right) => CalculationView::Multiply(*left, *right),
            Calculation::Divide(left, right) => CalculationView::Divide(*left, *right),
            Calculation::Count(count) => CalculationView::Count(*count as nat),
            Calculation::Render(bits) => CalculationView::Render(*bits),
        }
    }
}

impl Clone for Calculation {
    fn clone(&self) -> (copy: Calculation)
        ensures
            copy@ == self@,
    {
        match self {
            Calculation::Parse(digits) => Calculation::Parse(digits.clone()),
            Calculation::Add(left, right) => Calculation::Add(*left, *right),
            Calculation::Subtract(left, right) => Calculation::Subtract(*left, *right),
            Calculation::Multiply(left, right) => Calculation::Multiply(*left, *right),
            Calculation::Divide(left, right) => Calculation::Divide(*left, *right),
            Calculation::Count(count) => Calculation::Count(*count),
            Calculation::Render(bits) => Calculation::Render(*bits),
        }
    }
}

/// What is left to do once a value is there: one entry of a call's
/// continuation.
#[derive(Debug)]
pub enum Task {
    /// Run the statements that are left of a block.
    Block(Ast),
    /// Run the body once more.
    Loop(Vec<Node>),
    /// Give the value to the variable.
    Assign(String),
    /// Drop the value.
    Discard,
    /// Run one of the two blocks, as the value says.
    Branch { then_part: Vec<Node>, else_part: Vec<Node> },
    /// Leave the call with the value. The node is the `Return`.
    Return(Node),
    /// Show the value.
    Print,
    /// The value is the text of a number: put it behind what is written,
    /// with the pieces that follow, and show the line (`print`) or hand it
    /// on as a string.
    Join { pieces: VecDeque<Piece>, written: String, print: bool },
    /// The value is the left operand: compute the right one.
    BinaryLeft { operator: BinaryOperator, right: Node, node: Node },
    /// The value is the right operand: apply the operator.
    BinaryRight { operator: BinaryOperator, left: Value, node: Node },
    /// Negate the value. The node is the operand.
    Not(Node),
    /// Take the length of the value. The node is the operand.
    Length(Node),
    /// The value is the list: compute the index.
    GetList { index: Node, node: Node },
    /// The value is the index: take the element.
    GetIndex { list: Value, node: Node },
    /// The value is the next element of a list literal.
    Elements { nodes: Vec<Node>, done: Vec<Value> },
    /// The value is the next argument of a call.
    Arguments { nodes: Vec<Node>, done: Vec<Value>, function: Function },
}

/// The mathematical value of a [`Task`].
pub enum TaskView {
    Block(Seq<NodeView>),
    Loop(Seq<NodeView>),
    Assign(Seq<char>),
    Discard,
    Branch { then_part: Seq<NodeView>, else_part: Seq<NodeView> },
    Return(NodeView),
    Print,
    Join { pieces: Seq<PieceView>, written: Seq<char>, print: bool },
    BinaryLeft { operator: BinaryOperator, right: NodeView, node: NodeView },
    BinaryRight { operator: BinaryOperator, left: ValueView, node: NodeView },
    Not(NodeView),
    Length(NodeView),
    GetList { index: NodeView, node: NodeView },
    GetIndex { list: ValueView, node: NodeView },
    Elements { nodes: Seq<NodeView>, done: Seq<ValueView> },
    Arguments { nodes: Seq<NodeView>, done: Seq<ValueView>, function: FunctionView },
}

impl View for Task {
    type V = TaskView;

    open spec fn view(&self) -> TaskView {
        match self {
            Task::Block(statements) => TaskView::Block(statements@),
            Task::Loop(body) => TaskView::Loop(node_views(body@)),
            Task::Assign(name) => TaskView::Assign(name@),
            Task::Discard => TaskView::Discard,
            Task::Branch { then_part, else_part } => TaskView::Branch {
                then_part: node_views(then_part@),
                else_part: node_views(else_part@),
            },
            Task::Return(node) => TaskView::Return(node@),
            Task::Print => TaskView::Print,
            Task::Join { pieces, written, print } => TaskView::Join {
                pieces: piece_views(pieces@),
                written: written@,
                print: *print,
            },
            Task::BinaryLeft { operator, right, node } => TaskView::BinaryLeft {
                operator: *operator,
                right: right@,
                node: node@,
            },
            Task::BinaryRight { operator, left, node } => TaskView::BinaryRight {
                operator: *operator,
                left: left@,
                node: node@,
            },
            Task::Not(node) => TaskView::Not(node@),
            Task::Length(node) => TaskView::Length(node@),
            Task::GetList { index, node } => TaskView::GetList { index: index@, node: node@ },
            Task::GetIndex { list, node } => TaskView::GetIndex { list: list@, node: node@ },
            Task::Elements { nodes, done } => TaskView::Elements {
                nodes: node_views(nodes@),
                done: crate::value::value_views(done@),
            },
            Task::Arguments { nodes, done, function } => TaskView::Arguments {
                nodes: node_views(nodes@),
                done: crate::value::value_views(done@),
                function: function@,
            },
        }
    }
}

/// The values of the tasks of `tasks`, in order.
pub open spec fn task_views(tasks: Seq<Task>) -> Seq<TaskView> {
    tasks.map_values(|task: Task| task@)
}

/// One call in progress, or the top level: its variables, and what is left
/// for it to do, the next task last.
#[derive(Debug)]
pub struct Frame {
    pub variables: Variables,
    pub tasks: Vec<Task>,
}

/// The mathematical value of a [`Frame`].
pub struct FrameView {
    pub variables: Map<Seq<char>, ValueView>,
    pub tasks: Seq<TaskView>,
}

impl View for Frame {
    type V = FrameView;

    open spec fn view(&self) -> FrameView {
        FrameView { variables: self.variables@, tasks: task_views(self.tasks@) }
    }
}

/// The values of the frames of `frames`, in order.
pub open spec fn frame_views(frames: Seq<Frame>) -> Seq<FrameView> {
    frames.map_values(|frame: Frame| frame@)
}

/// What the machine does next.
#[derive(Debug)]
pub enum Control {
    /// Run the statement.
    Execute(Node),
    /// Compute the value of the expression.
    Evaluate(Node),
    /// Hand the value to the task that waits for it.
    Deliver(Value),
    /// Wait for what the calculation gives.
    Calculate(Calculation),
    /// Wait until the line was shown.
    Print(String),
    /// The program has run to its end.
    Finished,
    /// The program was stopped by the error.
    Failed(RuntimeError),
}

/// The mathematical value of a [`Control`].
pub enum ControlView {
    Execute(NodeView),
    Evaluate(NodeView),
    Deliver(ValueView),
    Calculate(CalculationView),
    Print(Seq<char>),
    Finished,
    Failed(RuntimeErrorView),
}

impl View for Control {
    type V = ControlView;

    open spec fn view(&self) -> ControlView {
        match self {
            Control::Execute(node) => ControlView::Execute(node@),
            Control::Evaluate(node) => ControlView::Evaluate(node@),
            Control::Deliver(value) => ControlView::Deliver(value@),
            Control::Calculate(calculation) => ControlView::Calculate(calculation@),
            Control::Print(line) => ControlView::Print(line@),
            Control::Finished => ControlView::Finished,
            Control::Failed(error) => ControlView::Failed(error@),
        }
    }
}

/// What the machine asks of the one who runs it.
#[derive(Debug)]
pub enum Action {
    /// Nothing: take the next step.
    Continue,
    /// Do the calculation and answer with what it gives: the text for
    /// `Render`, and the number for every other calculation.
    Calculate(Calculation),
    /// Show the line, end it with a line break, and answer that it was
    /// shown.
    Print(String),
    /// Stop: the program has run to its end.
    Finished,
    /// Stop: the program was stopped by the error.
    Failed(RuntimeError),
}

/// The mathematical value of an [`Action`].
pub enum ActionView {
    Continue,
    Calculate(CalculationView),
    Print(Seq<char>),
    Finished,
    Failed(RuntimeErrorView),
}

impl View for Action {
    type V = ActionView;

    open spec fn view(&self) -> ActionView {
        match self {
            Action::Continue => ActionView::Continue,
            Action::Calculate(calculation) => ActionView::Calculate(calculation@),
            Action::Print(line) => ActionView::Print(line@),
            Action::Finished => ActionView::Finished,
            Action::Failed(error) => ActionView::Failed(error@),
        }
    }
}

/// The answer to what the machine asked.
#[derive(Debug)]
pub enum Reply {
    /// Nothing was asked.
    Nothing,
    /// The number that the calculation gave: a double, as its 64 bits.
    Number(u64),
    /// The text that the calculation gave.
    Text(String),
    /// The line was shown.
    Printed,
}

/// The mathematical value of a [`Reply`].
pub enum ReplyView {
    Nothing,
    Number(u64),
    Text(Seq<char>),
    Printed,
}

impl View for Reply {
    type V = ReplyView;

    open spec fn view(&self) -> ReplyView {
        match self {
            Reply::Nothing => ReplyView::Nothing,
            Reply::Number(bits) => ReplyView::Number(*bits),
            Reply::Text(text) => ReplyView::Text(text@),
            Reply::Printed => ReplyView::Printed,
        }
    }
}

/// The functions of the program and the calls in progress: the innermost
/// call, and below it its callers, the outermost first. The functions are
/// held as a list in which no name stands twice, and a function is found in
/// it by its name.
#[derive(Debug)]
pub struct State {
    pub functions: Vec<Function>,
    pub callers: Vec<Frame>,
    pub current: Frame,
}

/// The mathematical value of a [`State`].
pub struct StateView {
    pub functions: Seq<FunctionView>,
    pub callers: Seq<FrameView>,
    pub current: FrameView,
}

impl View for State {
    type V = StateView;

    open spec fn view(&self) -> StateView {
        StateView {
            functions: function_views(self.functions@),
            callers: frame_views(self.callers@),
            current: self.current@,
        }
    }
}

/// The machine: a state, and what to do next in it.
pub struct MachineView {
    pub state: StateView,
    pub control: ControlView,
}

impl StateView {
    /// The state with `tasks` as what is left for the innermost call.
    pub open spec fn with_tasks(self, tasks: Seq<TaskView>) -> StateView {
        StateView {
            functions: self.functions,
            callers: self.callers,
            current: FrameView { variables: self.current.variables, tasks },
        }
    }

    /// The state with `task` as the next task of the innermost call.
    pub open spec fn push(self, task: TaskView) -> StateView {
        self.with_tasks(self.current.tasks.push(task))
    }

    /// The state without the next task of the innermost call.
    pub open spec fn pop(self) -> StateView {
        self.with_tasks(self.current.tasks.drop_last())
    }

    /// The state in which the variable `name` of the innermost call has the
    /// value `value`.
    pub open spec fn assign(self, name: Seq<char>, value: ValueView) -> StateView {
        StateView {
            functions: self.functions,
            callers: self.callers,
            current: FrameView {
                variables: self.current.variables.insert(name, value),
                tasks: self.current.tasks,
            },
        }
    }

    /// The state after the innermost call was left: its caller is the
    /// innermost call.
    pub open spec fn leave(self) -> StateView {
        StateView {
            functions: self.functions,
            callers: self.callers.drop_last(),
            current: self.callers.last(),
        }
    }

    /// The state after a call was entered whose frame is `frame`.
    pub open spec fn enter(self, frame: FrameView) -> StateView {
        StateView {
            functions: self.functions,
            callers: self.callers.push(self.current),
            current: frame,
        }
    }

    /// The machine in this state that does `control` next.
    pub open spec fn to(self, control: ControlView) -> MachineView {
        MachineView { state: self, control }
    }

    /// The machine in this state that was stopped by the error of kind
    /// `kind` for `node`.
    pub open spec fn fail(self, kind: RuntimeErrorKind, node: NodeView) -> MachineView {
        self.to(ControlView::Failed(RuntimeErrorView::of(kind, node)))
    }
}

} // verus!
