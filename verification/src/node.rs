use crate::text::{
    bracket, bracketed, comma_joined, comma_list, debug_of_str, debug_str, listed, text_views,
};
use vstd::prelude::*;
use vstd::string::*;

verus! {

/// The operators that take two operands.
#[derive(Debug, Clone, Copy, PartialEq, Eq, Structural)]
pub enum BinaryOperator {
    Or,
    And,
    Equal,
    NotEqual,
    LessThan,
    LessThanOrEqual,
    GreaterThan,
    GreaterThanOrEqual,
    Add,
    Subtract,
    Multiply,
    Divide,
}

impl BinaryOperator {
    /// The name of the operator, which is the name of its node.
    pub open spec fn name(self) -> Seq<char> {
        match self {
            BinaryOperator::Or => "Or"@,
            BinaryOperator::And => "And"@,
            BinaryOperator::Equal => "Equal"@,
            BinaryOperator::NotEqual => "NotEqual"@,
            BinaryOperator::LessThan => "LessThan"@,
            BinaryOperator::LessThanOrEqual => "LessThanOrEqual"@,
            BinaryOperator::GreaterThan => "GreaterThan"@,
            BinaryOperator::GreaterThanOrEqual => "GreaterThanOrEqual"@,
            BinaryOperator::Add => "Add"@,
            BinaryOperator::Subtract => "Subtract"@,
            BinaryOperator::Multiply => "Multiply"@,
            BinaryOperator::Divide => "Divide"@,
        }
    }

    /// Writes the name of the operator.
    pub fn debug_text(&self) -> (text: String)
        ensures
            text@ == self.name(),
    {
        match self {
            BinaryOperator::Or => "Or".to_owned(),
            BinaryOperator::And => "And".to_owned(),
            BinaryOperator::Equal => "Equal".to_owned(),
            BinaryOperator::NotEqual => "NotEqual".to_owned(),
            BinaryOperator::LessThan => "LessThan".to_owned(),
            BinaryOperator::LessThanOrEqual => "LessThanOrEqual".to_owned(),
            BinaryOperator::GreaterThan => "GreaterThan".to_owned(),
            BinaryOperator::GreaterThanOrEqual => "GreaterThanOrEqual".to_owned(),
            BinaryOperator::Add => "Add".to_owned(),
            BinaryOperator::Subtract => "Subtract".to_owned(),
            BinaryOperator::Multiply => "Multiply".to_owned(),
            BinaryOperator::Divide => "Divide".to_owned(),
        }
    }
}

/// A node of the syntax tree. A node owns its children.
#[derive(Debug, PartialEq)]
pub enum Node {
    /// A number, as the digits that the source holds.
    Number(String),
    String(String),
    List(Vec<Node>),
    Bool(bool),
    Null,
    Assignment { name: String, value: Box<Node> },
    IndexAssignment { name: String, index: Box<Node>, value: Box<Node> },
    Variable(String),
    /// syntax is `関数` (name) `（` (params) `）` (body)
    Function { name: String, params: Vec<String>, body: Vec<Node> },
    Call { name: String, args: Vec<Node> },
    /// syntax is (left) `または` (right)
    Or { left: Box<Node>, right: Box<Node> },
    /// syntax is (left) `かつ` (right)
    And { left: Box<Node>, right: Box<Node> },
    Equal { left: Box<Node>, right: Box<Node> },
    NotEqual { left: Box<Node>, right: Box<Node> },
    LessThan { left: Box<Node>, right: Box<Node> },
    LessThanOrEqual { left: Box<Node>, right: Box<Node> },
    GreaterThan { left: Box<Node>, right: Box<Node> },
    GreaterThanOrEqual { left: Box<Node>, right: Box<Node> },
    Add { left: Box<Node>, right: Box<Node> },
    Subtract { left: Box<Node>, right: Box<Node> },
    Multiply { left: Box<Node>, right: Box<Node> },
    Divide { left: Box<Node>, right: Box<Node> },
    Not(Box<Node>),
    /// syntax is `長さ` `（` (operand) `）`
    Length(Box<Node>),
    /// syntax is `配列` `（` (list) `、` (index) `）`
    Get { list: Box<Node>, index: Box<Node> },
    /// syntax is `もし` (condition) `なら` (then_part) `ちがえば` (else_part)
    If { condition: Box<Node>, then_part: Vec<Node>, else_part: Vec<Node> },
    /// syntax is `くりかえし` (body)
    Loop { body: Vec<Node> },
    /// syntax is `かえす` (value)
    Return(Box<Node>),
    /// syntax is `ぬける`
    Break,
    /// syntax is `つぎへ`
    Continue,
    /// syntax is `表示` (value)
    Print(Box<Node>),
}

/// The mathematical value of a [`Node`]: text as sequences of characters,
/// children as sequences of values, and the twelve nodes with two operands
/// as one form that names its operator.
pub enum NodeView {
    Number(Seq<char>),
    String(Seq<char>),
    List(Seq<NodeView>),
    Bool(bool),
    Null,
    Assignment { name: Seq<char>, value: Box<NodeView> },
    IndexAssignment { name: Seq<char>, index: Box<NodeView>, value: Box<NodeView> },
    Variable(Seq<char>),
    Function { name: Seq<char>, params: Seq<Seq<char>>, body: Seq<NodeView> },
    Call { name: Seq<char>, args: Seq<NodeView> },
    Binary { operator: BinaryOperator, left: Box<NodeView>, right: Box<NodeView> },
    Not(Box<NodeView>),
    Length(Box<NodeView>),
    Get { list: Box<NodeView>, index: Box<NodeView> },
    If { condition: Box<NodeView>, then_part: Seq<NodeView>, else_part: Seq<NodeView> },
    Loop { body: Seq<NodeView> },
    Return(Box<NodeView>),
    Break,
    Continue,
    Print(Box<NodeView>),
}

impl NodeView {
    /// The node that applies `operator` to `left` and `right`.
    pub open spec fn binary(operator: BinaryOperator, left: NodeView, right: NodeView) -> NodeView {
        NodeView::Binary { operator, left: Box::new(left), right: Box::new(right) }
    }
}

impl NodeView {
    /// Whether every function declaration stands where the language allows
    /// one: the node itself may be one only at the top level (`top_level`),
    /// and nothing inside a node is one.
    pub open spec fn well_placed(self, top_level: bool) -> bool
        decreases self,
    {
        match self {
            NodeView::Function { body, .. } => top_level && forall|i: int|
                0 <= i < body.len() ==> (#[trigger] body[i]).well_placed(false),
            NodeView::List(elements) => forall|i: int|
                0 <= i < elements.len() ==> (#[trigger] elements[i]).well_placed(false),
            NodeView::Call { args, .. } => forall|i: int|
                0 <= i < args.len() ==> (#[trigger] args[i]).well_placed(false),
            NodeView::Assignment { value, .. } => value.well_placed(false),
            NodeView::IndexAssignment { index, value, .. } => index.well_placed(false)
                && value.well_placed(false),
            NodeView::Binary { left, right, .. } => left.well_placed(false) && right.well_placed(
                false,
            ),
            NodeView::Not(operand) => operand.well_placed(false),
            NodeView::Length(operand) => operand.well_placed(false),
            NodeView::Get { list, index } => list.well_placed(false) && index.well_placed(false),
            NodeView::If { condition, then_part, else_part } => condition.well_placed(false) && (
            forall|i: int| 0 <= i < then_part.len() ==> (#[trigger] then_part[i]).well_placed(false))
                && (forall|i: int|
                0 <= i < else_part.len() ==> (#[trigger] else_part[i]).well_placed(false)),
            NodeView::Loop { body } => forall|i: int|
                0 <= i < body.len() ==> (#[trigger] body[i]).well_placed(false),
            NodeView::Return(value) => value.well_placed(false),
            NodeView::Print(value) => value.well_placed(false),
            _ => true,
        }
    }
}

impl NodeView {
    /// The `Debug` form of the node: the name of its variant with what it
    /// holds, in round brackets if that has no names and between braces,
    /// each under its name, if it has. Strings stand in their own `Debug`
    /// form, and lists between square brackets.
    pub open spec fn debug_text(self) -> Seq<char>
        decreases self, 0nat,
    {
        match self {
            NodeView::Number(digits) => bracketed("Number"@, debug_of_str(digits)),
            NodeView::String(content) => bracketed("String"@, debug_of_str(content)),
            NodeView::List(elements) => bracketed(
                "List"@,
                listed(debug_items(elements, elements.len())),
            ),
            NodeView::Bool(value) => bracketed(
                "Bool"@,
                if value {
                    "true"@
                } else {
                    "false"@
                },
            ),
            NodeView::Null => "Null"@,
            NodeView::Assignment { name, value } => "Assignment { name: "@ + debug_of_str(name)
                + ", value: "@ + value.debug_text() + " }"@,
            NodeView::IndexAssignment { name, index, value } => "IndexAssignment { name: "@
                + debug_of_str(name) + ", index: "@ + index.debug_text() + ", value: "@
                + value.debug_text() + " }"@,
            NodeView::Variable(name) => bracketed("Variable"@, debug_of_str(name)),
            NodeView::Function { name, params, body } => "Function { name: "@ + debug_of_str(name)
                + ", params: "@ + listed(
                comma_joined(debug_strs(params), params.len()),
            ) + ", body: "@ + listed(
                debug_items(body, body.len()),
            ) + " }"@,
            NodeView::Call { name, args } => "Call { name: "@ + debug_of_str(name) + ", args: "@
                + listed(debug_items(args, args.len())) + " }"@,
            NodeView::Binary { operator, left, right } => operator.name() + " { left: "@
                + left.debug_text() + ", right: "@ + right.debug_text() + " }"@,
            NodeView::Not(operand) => bracketed("Not"@, operand.debug_text()),
            NodeView::Length(operand) => bracketed("Length"@, operand.debug_text()),
            NodeView::Get { list, index } => "Get { list: "@ + list.debug_text() + ", index: "@
                + index.debug_text() + " }"@,
            NodeView::If { condition, then_part, else_part } => "If { condition: "@
                + condition.debug_text() + ", then_part: "@ + listed(
                debug_items(then_part, then_part.len()),
            ) + ", else_part: "@ + listed(debug_items(else_part, else_part.len())) + " }"@,
            NodeView::Loop { body } => "Loop { body: "@ + listed(debug_items(body, body.len()))
                + " }"@,
            NodeView::Return(value) => bracketed("Return"@, value.debug_text()),
            NodeView::Break => "Break"@,
            NodeView::Continue => "Continue"@,
            NodeView::Print(value) => bracketed("Print"@, value.debug_text()),
        }
    }
}

/// The `Debug` forms of the first `count` of `nodes`, with a comma and a
/// space between one and the next.
pub open spec fn debug_items(nodes: Seq<NodeView>, count: nat) -> Seq<char>
    decreases nodes, count,
{
    if count == 0 || count > nodes.len() {
        Seq::empty()
    } else if count == 1 {
        nodes[0].debug_text()
    } else {
        debug_items(nodes, (count - 1) as nat) + ", "@ + nodes[count - 1].debug_text()
    }
}

/// The `Debug` forms of the strings `names`, in order.
pub open spec fn debug_strs(names: Seq<Seq<char>>) -> Seq<Seq<char>> {
    names.map_values(|name: Seq<char>| debug_of_str(name))
}

/// Whether every node of `nodes` is well placed.
pub open spec fn all_well_placed(nodes: Seq<NodeView>, top_level: bool) -> bool {
    forall|i: int| 0 <= i < nodes.len() ==> (#[trigger] nodes[i]).well_placed(top_level)
}

/// What may stand inside a node may stand at the top level too.
pub proof fn lemma_placed_at_top(node: NodeView)
    requires
        node.well_placed(false),
    ensures
        node.well_placed(true),
{
}

/// The values of the nodes of `nodes`, in order.
pub open spec fn node_views(nodes: Seq<Node>) -> Seq<NodeView> {
    nodes.map_values(|node: Node| node@)
}

impl Node {
    /// The value of the node.
    pub open spec fn model(&self) -> NodeView
        decreases self,
    {
        match self {
            Node::Number(digits) => NodeView::Number(digits@),
            Node::String(content) => NodeView::String(content@),
            Node::List(elements) => NodeView::List(Node::models(elements)),
            Node::Bool(value) => NodeView::Bool(*value),
            Node::Null => NodeView::Null,
            Node::Assignment { name, value } => NodeView::Assignment {
                name: name@,
                value: Box::new(value.model()),
            },
            Node::IndexAssignment { name, index, value } => NodeView::IndexAssignment {
                name: name@,
                index: Box::new(index.model()),
                value: Box::new(value.model()),
            },
            Node::Variable(name) => NodeView::Variable(name@),
            Node::Function { name, params, body } => NodeView::Function {
                name: name@,
                params: text_views(params@),
                body: Node::models(body),
            },
            Node::Call { name, args } => NodeView::Call { name: name@, args: Node::models(args) },
            Node::Or { left, right } => NodeView::binary(
                BinaryOperator::Or,
                left.model(),
                right.model(),
            ),
            Node::And { left, right } => NodeView::binary(
                BinaryOperator::And,
                left.model(),
                right.model(),
            ),
            Node::Equal { left, right } => NodeView::binary(
                BinaryOperator::Equal,
                left.model(),
                right.model(),
            ),
            Node::NotEqual { left, right } => NodeView::binary(
                BinaryOperator::NotEqual,
                left.model(),
                right.model(),
            ),
            Node::LessThan { left, right } => NodeView::binary(
                BinaryOperator::LessThan,
                left.model(),
                right.model(),
            ),
            Node::LessThanOrEqual { left, right } => NodeView::binary(
                BinaryOperator::LessThanOrEqual,
                left.model(),
                right.model(),
            ),
            Node::GreaterThan { left, right } => NodeView::binary(
                BinaryOperator::GreaterThan,
                left.model(),
                right.model(),
            ),
            Node::GreaterThanOrEqual { left, right } => NodeView::binary(
                BinaryOperator::GreaterThanOrEqual,
                left.model(),
                right.model(),
            ),
            Node::Add { left, right } => NodeView::binary(
                BinaryOperator::Add,
                left.model(),
                right.model(),
            ),
            Node::Subtract { left, right } => NodeView::binary(
                BinaryOperator::Subtract,
                left.model(),
                right.model(),
            ),
            Node::Multiply { left, right } => NodeView::binary(
                BinaryOperator::Multiply,
                left.model(),
                right.model(),
            ),
            Node::Divide { left, right } => NodeView::binary(
                BinaryOperator::Divide,
                left.model(),
                right.model(),
            ),
            Node::Not(operand) => NodeView::Not(Box::new(operand.model())),
            Node::Length(operand) => NodeView::Length(Box::new(operand.model())),
            Node::Get { list, index } => NodeView::Get {
                list: Box::new(list.model()),
                index: Box::new(index.model()),
            },
            Node::If { condition, then_part, else_part } => NodeView::If {
                condition: Box::new(condition.model()),
                then_part: Node::models(then_part),
                else_part: Node::models(else_part),
            },
            Node::Loop { body } => NodeView::Loop { body: Node::models(body) },
            Node::Return(value) => NodeView::Return(Box::new(value.model())),
            Node::Break => NodeView::Break,
            Node::Continue => NodeView::Continue,
            Node::Print(value) => NodeView::Print(Box::new(value.model())),
        }
    }

    /// The values of the nodes that `nodes` holds, in order.
    pub open spec fn models(nodes: &Vec<Node>) -> Seq<NodeView>
        decreases nodes,
    {
        Seq::new(
            nodes.len() as nat,
            |i: int|
                if 0 <= i < nodes.len() {
                    nodes[i].model()
                } else {
                    NodeView::Null
                },
        )
    }

    /// The values that a node's list of children has are those of the
    /// children.
    pub proof fn lemma_models(nodes: &Vec<Node>)
        ensures
            Node::models(nodes) == node_views(nodes@),
    {
        assert(Node::models(nodes) =~= node_views(nodes@));
    }

    /// The node that applies `operator` to `left` and `right`.
    pub fn binary(operator: BinaryOperator, left: Node, right: Node) -> (node: Node)
        ensures
            node@ == NodeView::binary(operator, left@, right@),
    {
        let left = Box::new(left);
        let right = Box::new(right);
        match operator {
            BinaryOperator::Or => Node::Or { left, right },
            BinaryOperator::And => Node::And { left, right },
            BinaryOperator::Equal => Node::Equal { left, right },
            BinaryOperator::NotEqual => Node::NotEqual { left, right },
            BinaryOperator::LessThan => Node::LessThan { left, right },
            BinaryOperator::LessThanOrEqual => Node::LessThanOrEqual { left, right },
            BinaryOperator::GreaterThan => Node::GreaterThan { left, right },
            BinaryOperator::GreaterThanOrEqual => Node::GreaterThanOrEqual { left, right },
            BinaryOperator::Add => Node::Add { left, right },
            BinaryOperator::Subtract => Node::Subtract { left, right },
            BinaryOperator::Multiply => Node::Multiply { left, right },
            BinaryOperator::Divide => Node::Divide { left, right },
        }
    }

    /// Writes the `Debug` forms of the nodes `nodes` between square
    /// brackets.
    pub fn debug_list(nodes: &Vec<Node>) -> (text: String)
        ensures
            text@ == listed(debug_items(node_views(nodes@), nodes@.len())),
        decreases nodes,
    {
        let ghost views = node_views(nodes@);
        let mut items = String::new();
        let mut index: usize = 0;
        while index < nodes.len()
            invariant
                index <= nodes.len(),
                views == node_views(nodes@),
                items@ == debug_items(views, index as nat),
            decreases nodes.len() - index,
        {
            if index != 0 {
                items.append(", ");
            }
            let item = nodes[index].debug_text();
            if index == 0 {
                assert(items@ + item@ =~= item@);
            }
            items.append(item.as_str());
            index += 1;
        }
        let mut text = "[".to_owned();
        text.append(items.as_str());
        text.append("]");
        text
    }

    /// Writes the `Debug` form of the node.
    pub fn debug_text(&self) -> (text: String)
        ensures
            text@ == self@.debug_text(),
        decreases self,
    {
        match self.operands() {
            Some((operator, left, right)) => {
                let mut text = operator.debug_text();
                text.append(" { left: ");
                text.append(left.debug_text().as_str());
                text.append(", right: ");
                text.append(right.debug_text().as_str());
                text.append(" }");
                return text;
            },
            None => {},
        }
        match self {
            Node::Number(digits) => bracket("Number", debug_str(digits.as_str()).as_str()),
            Node::String(content) => bracket("String", debug_str(content.as_str()).as_str()),
            Node::List(elements) => {
                proof {
                    Node::lemma_models(elements);
                }
                bracket("List", Node::debug_list(elements).as_str())
            },
            Node::Bool(value) => if *value {
                bracket("Bool", "true")
            } else {
                bracket("Bool", "false")
            },
            Node::Null => "Null".to_owned(),
            Node::Assignment { name, value } => {
                let mut text = "Assignment { name: ".to_owned();
                text.append(debug_str(name.as_str()).as_str());
                text.append(", value: ");
                text.append(value.debug_text().as_str());
                text.append(" }");
                text
            },
            Node::IndexAssignment { name, index, value } => {
                let mut text = "IndexAssignment { name: ".to_owned();
                text.append(debug_str(name.as_str()).as_str());
                text.append(", index: ");
                text.append(index.debug_text().as_str());
                text.append(", value: ");
                text.append(value.debug_text().as_str());
                text.append(" }");
                text
            },
            Node::Variable(name) => bracket("Variable", debug_str(name.as_str()).as_str()),
            Node::Function { name, params, body } => {
                proof {
                    Node::lemma_models(body);
                }
                let mut text = "Function { name: ".to_owned();
                text.append(debug_str(name.as_str()).as_str());
                text.append(", params: ");
                text.append(debug_name_list(params).as_str());
                text.append(", body: ");
                text.append(Node::debug_list(body).as_str());
                text.append(" }");
                text
            },
            Node::Call { name, args } => {
                proof {
                    Node::lemma_models(args);
                }
                let mut text = "Call { name: ".to_owned();
                text.append(debug_str(name.as_str()).as_str());
                text.append(", args: ");
                text.append(Node::debug_list(args).as_str());
                text.append(" }");
                text
            },
            Node::Not(operand) => bracket("Not", operand.debug_text().as_str()),
            Node::Length(operand) => bracket("Length", operand.debug_text().as_str()),
            Node::Get { list, index } => {
                let mut text = "Get { list: ".to_owned();
                text.append(list.debug_text().as_str());
                text.append(", index: ");
                text.append(index.debug_text().as_str());
                text.append(" }");
                text
            },
            Node::If { condition, then_part, else_part } => {
                proof {
                    Node::lemma_models(then_part);
                    Node::lemma_models(else_part);
                }
                let mut text = "If { condition: ".to_owned();
                text.append(condition.debug_text().as_str());
                text.append(", then_part: ");
                text.append(Node::debug_list(then_part).as_str());
                text.append(", else_part: ");
                text.append(Node::debug_list(else_part).as_str());
                text.append(" }");
                text
            },
            Node::Loop { body } => {
                proof {
                    Node::lemma_models(body);
                }
                let mut text = "Loop { body: ".to_owned();
                text.append(Node::debug_list(body).as_str());
                text.append(" }");
                text
            },
            Node::Return(value) => bracket("Return", value.debug_text().as_str()),
            Node::Break => "Break".to_owned(),
            Node::Continue => "Continue".to_owned(),
            Node::Print(value) => bracket("Print", value.debug_text().as_str()),
            _ => String::new(),
        }
    }

    /// The operator and the two operands of a node that has them.
    pub fn operands(&self) -> (parts: Option<(BinaryOperator, &Node, &Node)>)
        ensures
            match parts {
                Some((operator, left, right)) => self@ == NodeView::binary(
                    operator,
                    left@,
                    right@,
                ) && decreases_to!(self => left) && decreases_to!(self => right),
                None => !(self@ is Binary),
            },
    {
        match self {
            Node::Or { left, right } => Some((BinaryOperator::Or, &**left, &**right)),
            Node::And { left, right } => Some((BinaryOperator::And, &**left, &**right)),
            Node::Equal { left, right } => Some((BinaryOperator::Equal, &**left, &**right)),
            Node::NotEqual { left, right } => Some((BinaryOperator::NotEqual, &**left, &**right)),
            Node::LessThan { left, right } => Some((BinaryOperator::LessThan, &**left, &**right)),
            Node::LessThanOrEqual { left, right } => Some(
                (BinaryOperator::LessThanOrEqual, &**left, &**right),
            ),
            Node::GreaterThan { left, right } => Some(
                (BinaryOperator::GreaterThan, &**left, &**right),
            ),
            Node::GreaterThanOrEqual { left, right } => Some(
                (BinaryOperator::GreaterThanOrEqual, &**left, &**right),
            ),
            Node::Add { left, right } => Some((BinaryOperator::Add, &**left, &**right)),
            Node::Subtract { left, right } => Some((BinaryOperator::Subtract, &**left, &**right)),
            Node::Multiply { left, right } => Some((BinaryOperator::Multiply, &**left, &**right)),
            Node::Divide { left, right } => Some((BinaryOperator::Divide, &**left, &**right)),
            _ => None,
        }
    }

    /// Copies of the nodes that `nodes` holds.
    pub fn clone_all(nodes: &Vec<Node>) -> (copies: Vec<Node>)
        ensures
            node_views(copies@) == node_views(nodes@),
        decreases nodes,
    {
        let mut copies: Vec<Node> = Vec::new();
        let mut index: usize = 0;
        while index < nodes.len()
            invariant
                index <= nodes.len(),
                copies.len() == index,
                forall|i: int| 0 <= i < index ==> copies[i]@ == nodes[i]@,
            decreases nodes.len() - index,
        {
            copies.push(nodes[index].clone());
            index += 1;
        }
        assert(node_views(copies@) =~= node_views(nodes@));
        copies
    }
}

impl View for Node {
    type V = NodeView;

    open spec fn view(&self) -> NodeView {
        self.model()
    }
}

/// Writes the `Debug` forms of the strings `names` between square brackets.
pub fn debug_name_list(names: &Vec<String>) -> (text: String)
    ensures
        text@ == listed(comma_joined(debug_strs(text_views(names@)), names@.len())),
{
    let mut quoted: Vec<String> = Vec::new();
    let mut index: usize = 0;
    while index < names.len()
        invariant
            index <= names.len(),
            quoted.len() == index,
            forall|i: int| 0 <= i < index ==> quoted[i]@ == debug_of_str(names[i]@),
        decreases names.len() - index,
    {
        quoted.push(debug_str(names[index].as_str()));
        index += 1;
    }
    assert(text_views(quoted@) =~= debug_strs(text_views(names@)));
    comma_list(&quoted)
}

/// Copies of the strings that `texts` holds.
pub fn clone_texts(texts: &Vec<String>) -> (copies: Vec<String>)
    ensures
        text_views(copies@) == text_views(texts@),
{
    let mut copies: Vec<String> = Vec::new();
    let mut index: usize = 0;
    while index < texts.len()
        invariant
            index <= texts.len(),
            copies.len() == index,
            forall|i: int| 0 <= i < index ==> copies[i]@ == texts[i]@,
        decreases texts.len() - index,
    {
        copies.push(texts[index].clone());
        index += 1;
    }
    assert(text_views(copies@) =~= text_views(texts@));
    copies
}

impl Clone for Node {
    fn clone(&self) -> (copy: Node)
        ensures
            copy@ == self@,
        decreases self,
    {
        proof {
            match self {
                Node::List(elements) => {
                    Node::lemma_models(elements);
                },
                Node::Function { name, params, body } => {
                    Node::lemma_models(body);
                },
                Node::Call { name, args } => {
                    Node::lemma_models(args);
                },
                Node::If { condition, then_part, else_part } => {
                    Node::lemma_models(then_part);
                    Node::lemma_models(else_part);
                },
                Node::Loop { body } => {
                    Node::lemma_models(body);
                },
                _ => {},
            }
        }
        let copy = match self {
            Node::Number(digits) => Node::Number(digits.clone()),
            Node::String(content) => Node::String(content.clone()),
            Node::List(elements) => Node::List(Node::clone_all(elements)),
            Node::Bool(value) => Node::Bool(*value),
            Node::Null => Node::Null,
            Node::Assignment { name, value } => Node::Assignment {
                name: name.clone(),
                value: Box::new((**value).clone()),
            },
            Node::IndexAssignment { name, index, value } => Node::IndexAssignment {
                name: name.clone(),
                index: Box::new((**index).clone()),
                value: Box::new((**value).clone()),
            },
            Node::Variable(name) => Node::Variable(name.clone()),
            Node::Function { name, params, body } => Node::Function {
                name: name.clone(),
                params: clone_texts(params),
                body: Node::clone_all(body),
            },
            Node::Call { name, args } => Node::Call {
                name: name.clone(),
                args: Node::clone_all(args),
            },
            Node::Or { left, right } => Node::binary(
                BinaryOperator::Or,
                (**left).clone(),
                (**right).clone(),
            ),
            Node::And { left, right } => Node::binary(
                BinaryOperator::And,
                (**left).clone(),
                (**right).clone(),
            ),
            Node::Equal { left, right } => Node::binary(
                BinaryOperator::Equal,
                (**left).clone(),
                (**right).clone(),
            ),
            Node::NotEqual { left, right } => Node::binary(
                BinaryOperator::NotEqual,
                (**left).clone(),
                (**right).clone(),
            ),
            Node::LessThan { left, right } => Node::binary(
                BinaryOperator::LessThan,
                (**left).clone(),
                (**right).clone(),
            ),
            Node::LessThanOrEqual { left, right } => Node::binary(
                BinaryOperator::LessThanOrEqual,
                (**left).clone(),
                (**right).clone(),
            ),
            Node::GreaterThan { left, right } => Node::binary(
                BinaryOperator::GreaterThan,
                (**left).clone(),
                (**right).clone(),
            ),
            Node::GreaterThanOrEqual { left, right } => Node::binary(
                BinaryOperator::GreaterThanOrEqual,
                (**left).clone(),
                (**right).clone(),
            ),
            Node::Add { left, right } => Node::binary(
                BinaryOperator::Add,
                (**left).clone(),
                (**right).clone(),
            ),
            Node::Subtract { left, right } => Node::binary(
                BinaryOperator::Subtract,
                (**left).clone(),
                (**right).clone(),
            ),
            Node::Multiply { left, right } => Node::binary(
                BinaryOperator::Multiply,
                (**left).clone(),
                (**right).clone(),
            ),
            Node::Divide { left, right } => Node::binary(
                BinaryOperator::Divide,
                (**left).clone(),
                (**right).clone(),
            ),
            Node::Not(operand) => Node::Not(Box::new((**operand).clone())),
            Node::Length(operand) => Node::Length(Box::new((**operand).clone())),
            Node::Get { list, index } => Node::Get {
                list: Box::new((**list).clone()),
                index: Box::new((**index).clone()),
            },
            Node::If { condition, then_part, else_part } => Node::If {
                condition: Box::new((**condition).clone()),
                then_part: Node::clone_all(then_part),
                else_part: Node::clone_all(else_part),
            },
            Node::Loop { body } => Node::Loop { body: Node::clone_all(body) },
            Node::Return(value) => Node::Return(Box::new((**value).clone())),
            Node::Break => Node::Break,
            Node::Continue => Node::Continue,
            Node::Print(value) => Node::Print(Box::new((**value).clone())),
        };
        proof {
            match &copy {
                Node::List(elements) => {
                    Node::lemma_models(elements);
                },
                Node::Function { name, params, body } => {
                    Node::lemma_models(body);
                },
                Node::Call { name, args } => {
                    Node::lemma_models(args);
                },
                Node::If { condition, then_part, else_part } => {
                    Node::lemma_models(then_part);
                    Node::lemma_models(else_part);
                },
                Node::Loop { body } => {
                    Node::lemma_models(body);
                },
                _ => {},
            }
        }
        copy
    }
}

} // verus!
