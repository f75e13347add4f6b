use crate::node::{Node, NodeView};
use crate::text::{debug_of_str, debug_str};
use crate::token::{Token, TokenView};
use vstd::prelude::*;
use vstd::string::*;

verus! {

/// What went wrong while scanning or parsing.
#[derive(Debug, Clone, Copy, PartialEq, Eq, Structural)]
pub enum SyntaxErrorKind {
    InvalidCharacter,
    UnexpectedToken,
    InconsistentDedent,
    FunctionDeclarationInBlock,
}

/// An error found while scanning or parsing, with the token at fault where
/// there is one.
#[derive(Debug)]
pub struct SyntaxError {
    pub kind: SyntaxErrorKind,
    pub message: String,
    pub token: Option<Token>,
}

/// The mathematical value of a [`SyntaxError`].
pub struct SyntaxErrorView {
    pub kind: SyntaxErrorKind,
    pub message: Seq<char>,
    pub token: Option<TokenView>,
}

impl SyntaxErrorView {
    /// The character `c` at `position` belongs to no token.
    pub open spec fn invalid_char(c: char, position: usize) -> SyntaxErrorView {
        SyntaxErrorView {
            kind: SyntaxErrorKind::InvalidCharacter,
            message: "Invalid character: "@.push(c),
            token: Some(TokenView::at(crate::lexeme::LexemeView::Invalid(c), position)),
        }
    }

    /// `token` stands where the grammar allows none of its kind. The
    /// message names the lexeme in its `Debug` form.
    pub open spec fn unexpected_token(token: TokenView) -> SyntaxErrorView {
        SyntaxErrorView {
            kind: SyntaxErrorKind::UnexpectedToken,
            message: "Unexpected token: "@ + token.lexeme.debug_text(),
            token: Some(token),
        }
    }

    /// The tokens ended where the grammar asks for more.
    pub open spec fn unexpected_end() -> SyntaxErrorView {
        SyntaxErrorView {
            kind: SyntaxErrorKind::UnexpectedToken,
            message: "Unexpected end of input"@,
            token: None,
        }
    }

    /// The line that `token` opens goes back to a width that no enclosing
    /// block has.
    pub open spec fn inconsistent_dedent(token: TokenView) -> SyntaxErrorView {
        SyntaxErrorView {
            kind: SyntaxErrorKind::InconsistentDedent,
            message: "Inconsistent dedent"@,
            token: Some(token),
        }
    }

    /// `token` opens a function declaration inside a block.
    pub open spec fn function_declaration_in_block(token: TokenView) -> SyntaxErrorView {
        SyntaxErrorView {
            kind: SyntaxErrorKind::FunctionDeclarationInBlock,
            message: "Cannot declare function in block"@,
            token: Some(token),
        }
    }

    /// The error for the front of `tokens` standing where it may not:
    /// the front token is at fault, or the end of the tokens if none is left.
    pub open spec fn unexpected_front(tokens: Seq<TokenView>) -> SyntaxErrorView {
        if tokens.len() > 0 {
            SyntaxErrorView::unexpected_token(tokens[0])
        } else {
            SyntaxErrorView::unexpected_end()
        }
    }
}

impl View for SyntaxError {
    type V = SyntaxErrorView;

    open spec fn view(&self) -> SyntaxErrorView {
        SyntaxErrorView {
            kind: self.kind,
            message: self.message@,
            token: match self.token {
                Some(token) => Some(token@),
                None => None,
            },
        }
    }
}

impl SyntaxError {
    /// The error of kind `kind` with the message `message`, for `token` if
    /// one is at fault.
    pub fn new(kind: SyntaxErrorKind, message: String, token: Option<Token>) -> (error:
        SyntaxError)
        ensures
            error@ == (SyntaxErrorView {
                kind,
                message: message@,
                token: match token {
                    Some(token) => Some(token@),
                    None => None,
                },
            }),
    {
        SyntaxError { kind, message, token }
    }

    /// The error of the character `c` at `position`, which belongs to no
    /// token.
    pub fn invalid_char(c: char, position: usize) -> (error: SyntaxError)
        ensures
            error@ == SyntaxErrorView::invalid_char(c, position),
    {
        let mut message = "Invalid character: ".to_owned();
        message.push(c);
        SyntaxError {
            kind: SyntaxErrorKind::InvalidCharacter,
            message,
            token: Some(Token::invalid(c, position)),
        }
    }

    /// The error of `token`, which stands where the grammar allows none of
    /// its kind.
    pub fn unexpected_token(token: Token) -> (error: SyntaxError)
        ensures
            error@ == SyntaxErrorView::unexpected_token(token@),
    {
        let mut message = "Unexpected token: ".to_owned();
        let text = token.lexeme.debug_text();
        message.append(text.as_str());
        SyntaxError { kind: SyntaxErrorKind::UnexpectedToken, message, token: Some(token) }
    }

    /// The error of tokens that end where the grammar asks for more.
    pub fn unexpected_end() -> (error: SyntaxError)
        ensures
            error@ == SyntaxErrorView::unexpected_end(),
    {
        SyntaxError {
            kind: SyntaxErrorKind::UnexpectedToken,
            message: "Unexpected end of input".to_owned(),
            token: None,
        }
    }

    /// The error of a line, opened by `token`, that goes back to a width
    /// that no enclosing block has.
    pub fn inconsistent_dedent(token: Token) -> (error: SyntaxError)
        ensures
            error@ == SyntaxErrorView::inconsistent_dedent(token@),
    {
        SyntaxError {
            kind: SyntaxErrorKind::InconsistentDedent,
            message: "Inconsistent dedent".to_owned(),
            token: Some(token),
        }
    }

    /// The error of a function declaration, opened by `token`, inside a
    /// block.
    pub fn function_declaration_in_block(token: Token) -> (error: SyntaxError)
        ensures
            error@ == SyntaxErrorView::function_declaration_in_block(token@),
    {
        SyntaxError {
            kind: SyntaxErrorKind::FunctionDeclarationInBlock,
            message: "Cannot declare function in block".to_owned(),
            token: Some(token),
        }
    }
}

/// What went wrong while a program ran.
#[derive(Debug, Clone, Copy, PartialEq, Eq, Structural)]
pub enum RuntimeErrorKind {
    /// A construct stands where it cannot run.
    UnexpectedNode,
    /// An arithmetic operator was given operands that it cannot take.
    TypeMismatchArithmetic,
    ComparingDifferentTypes,
    UndefinedVariable,
    UndefinedFunction,
    RedefiningFunction,
    WrongNumberOfArguments,
    HasNoLength,
    IndexOutOfRange,
}

/// An error met while a program ran, with the node at fault.
#[derive(Debug)]
pub struct RuntimeError {
    pub kind: RuntimeErrorKind,
    pub message: String,
    pub node: Option<Node>,
}

/// The mathematical value of a [`RuntimeError`].
pub struct RuntimeErrorView {
    pub kind: RuntimeErrorKind,
    pub message: Seq<char>,
    pub node: Option<NodeView>,
}

impl RuntimeErrorKind {
    /// The message that goes with the kind, before what names the node at
    /// fault.
    pub open spec fn message(self) -> Seq<char> {
        match self {
            RuntimeErrorKind::UnexpectedNode => "Unexpected node: "@,
            RuntimeErrorKind::TypeMismatchArithmetic => "Cannot add strings"@,
            RuntimeErrorKind::ComparingDifferentTypes => "Cannot compare different types"@,
            RuntimeErrorKind::UndefinedVariable => "Undefined variable"@,
            RuntimeErrorKind::UndefinedFunction => "Undefined function"@,
            RuntimeErrorKind::RedefiningFunction => "Redefining function: "@,
            RuntimeErrorKind::WrongNumberOfArguments => "Wrong number of arguments"@,
            RuntimeErrorKind::HasNoLength => "Has no length"@,
            RuntimeErrorKind::IndexOutOfRange => "Index out of range"@,
        }
    }
}

impl RuntimeErrorView {
    /// What the message of an error of kind `kind` for `node` ends in: the
    /// `Debug` form of a node that is unexpected, the `Debug` form of the
    /// name of a function that is declared twice, and nothing for the other
    /// kinds.
    pub open spec fn detail(kind: RuntimeErrorKind, node: NodeView) -> Seq<char> {
        match kind {
            RuntimeErrorKind::UnexpectedNode => node.debug_text(),
            RuntimeErrorKind::RedefiningFunction => match node {
                NodeView::Function { name, .. } => debug_of_str(name),
                _ => Seq::empty(),
            },
            _ => Seq::empty(),
        }
    }

    /// The error of kind `kind` for `node`.
    pub open spec fn of(kind: RuntimeErrorKind, node: NodeView) -> RuntimeErrorView {
        RuntimeErrorView {
            kind,
            message: kind.message() + RuntimeErrorView::detail(kind, node),
            node: Some(node),
        }
    }
}

impl View for RuntimeError {
    type V = RuntimeErrorView;

    open spec fn view(&self) -> RuntimeErrorView {
        RuntimeErrorView {
            kind: self.kind,
            message: self.message@,
            node: match self.node {
                Some(node) => Some(node@),
                None => None,
            },
        }
    }
}

impl Clone for RuntimeError {
    fn clone(&self) -> (copy: RuntimeError)
        ensures
            copy@ == self@,
    {
        RuntimeError {
            kind: self.kind,
            message: self.message.clone(),
            node: match &self.node {
                Some(node) => Some(node.clone()),
                None => None,
            },
        }
    }
}

impl RuntimeError {
    /// The error of kind `kind` for `node`, with a message that ends in
    /// `detail`.
    pub fn with_detail(kind: RuntimeErrorKind, detail: &str, node: Node) -> (error: RuntimeError)
        ensures
            error@ == (RuntimeErrorView {
                kind,
                message: kind.message() + detail@,
                node: Some(node@),
            }),
    {
        let mut message = match kind {
            RuntimeErrorKind::UnexpectedNode => "Unexpected node: ".to_owned(),
            RuntimeErrorKind::TypeMismatchArithmetic => "Cannot add strings".to_owned(),
            RuntimeErrorKind::ComparingDifferentTypes => "Cannot compare different types".to_owned(),
            RuntimeErrorKind::UndefinedVariable => "Undefined variable".to_owned(),
            RuntimeErrorKind::UndefinedFunction => "Undefined function".to_owned(),
            RuntimeErrorKind::RedefiningFunction => "Redefining function: ".to_owned(),
            RuntimeErrorKind::WrongNumberOfArguments => "Wrong number of arguments".to_owned(),
            RuntimeErrorKind::HasNoLength => "Has no length".to_owned(),
            RuntimeErrorKind::IndexOutOfRange => "Index out of range".to_owned(),
        };
        message.append(detail);
        RuntimeError { kind, message, node: Some(node) }
    }

    /// The error of kind `kind` for `node`, with the message of the kind
    /// alone.
    fn plain(kind: RuntimeErrorKind, node: Node) -> (error: RuntimeError)
        ensures
            error@ == (RuntimeErrorView { kind, message: kind.message(), node: Some(node@) }),
    {
        proof {
            reveal_strlit("");
            assert(kind.message() + ""@ =~= kind.message());
        }
        RuntimeError::with_detail(kind, "", node)
    }

    /// The error of `node`, which stands where it cannot run. The message
    /// shows the node in its `Debug` form.
    pub fn unexpected_node(node: Node) -> (error: RuntimeError)
        ensures
            error@ == RuntimeErrorView::of(RuntimeErrorKind::UnexpectedNode, node@),
    {
        let detail = node.debug_text();
        RuntimeError::with_detail(RuntimeErrorKind::UnexpectedNode, detail.as_str(), node)
    }

    /// The error of an arithmetic operator that was given operands of types
    /// that it cannot take.
    pub fn string_addition(node: Node) -> (error: RuntimeError)
        ensures
            error@ == RuntimeErrorView::of(RuntimeErrorKind::TypeMismatchArithmetic, node@),
    {
        proof {
            assert(RuntimeErrorKind::TypeMismatchArithmetic.message() + Seq::<char>::empty()
                =~= RuntimeErrorKind::TypeMismatchArithmetic.message());
        }
        RuntimeError::plain(RuntimeErrorKind::TypeMismatchArithmetic, node)
    }

    /// The error of the comparison `node`, whose operands cannot be
    /// compared.
    pub fn comparing_different_types(node: Node) -> (error: RuntimeError)
        ensures
            error@ == RuntimeErrorView::of(RuntimeErrorKind::ComparingDifferentTypes, node@),
    {
        proof {
            assert(RuntimeErrorKind::ComparingDifferentTypes.message() + Seq::<char>::empty()
                =~= RuntimeErrorKind::ComparingDifferentTypes.message());
        }
        RuntimeError::plain(RuntimeErrorKind::ComparingDifferentTypes, node)
    }

    /// The error of the variable `node`, which has no value.
    pub fn undefined_variable(node: Node) -> (error: RuntimeError)
        ensures
            error@ == RuntimeErrorView::of(RuntimeErrorKind::UndefinedVariable, node@),
    {
        proof {
            assert(RuntimeErrorKind::UndefinedVariable.message() + Seq::<char>::empty()
                =~= RuntimeErrorKind::UndefinedVariable.message());
        }
        RuntimeError::plain(RuntimeErrorKind::UndefinedVariable, node)
    }

    /// The error of the call `node` of a function that is not declared.
    pub fn undefined_function(node: Node) -> (error: RuntimeError)
        ensures
            error@ == RuntimeErrorView::of(RuntimeErrorKind::UndefinedFunction, node@),
    {
        proof {
            assert(RuntimeErrorKind::UndefinedFunction.message() + Seq::<char>::empty()
                =~= RuntimeErrorKind::UndefinedFunction.message());
        }
        RuntimeError::plain(RuntimeErrorKind::UndefinedFunction, node)
    }

    /// The error of the function declaration `node`, whose name is taken.
    /// The message shows the name in its `Debug` form.
    pub fn redefining_function(node: Node) -> (error: RuntimeError)
        requires
            node@ is Function,
        ensures
            error@ == RuntimeErrorView::of(RuntimeErrorKind::RedefiningFunction, node@),
    {
        let detail = match &node {
            Node::Function { name, .. } => debug_str(name.as_str()),
            _ => String::new(),
        };
        RuntimeError::with_detail(RuntimeErrorKind::RedefiningFunction, detail.as_str(), node)
    }

    /// The error of the call `node`, which has more or fewer arguments than
    /// the function has parameters.
    pub fn wrong_number_of_arguments(node: Node) -> (error: RuntimeError)
        ensures
            error@ == RuntimeErrorView::of(RuntimeErrorKind::WrongNumberOfArguments, node@),
    {
        proof {
            assert(RuntimeErrorKind::WrongNumberOfArguments.message() + Seq::<char>::empty()
                =~= RuntimeErrorKind::WrongNumberOfArguments.message());
        }
        RuntimeError::plain(RuntimeErrorKind::WrongNumberOfArguments, node)
    }

    /// The error of `node`, whose value has no length.
    pub fn has_no_length(node: Node) -> (error: RuntimeError)
        ensures
            error@ == RuntimeErrorView::of(RuntimeErrorKind::HasNoLength, node@),
    {
        proof {
            assert(RuntimeErrorKind::HasNoLength.message() + Seq::<char>::empty()
                =~= RuntimeErrorKind::HasNoLength.message());
        }
        RuntimeError::plain(RuntimeErrorKind::HasNoLength, node)
    }

    /// The error of `node`, which asks for an element that the list does
    /// not have.
    pub fn index_out_of_range(node: Node) -> (error: RuntimeError)
        ensures
            error@ == RuntimeErrorView::of(RuntimeErrorKind::IndexOutOfRange, node@),
    {
        proof {
            assert(RuntimeErrorKind::IndexOutOfRange.message() + Seq::<char>::empty()
                =~= RuntimeErrorKind::IndexOutOfRange.message());
        }
        RuntimeError::plain(RuntimeErrorKind::IndexOutOfRange, node)
    }
}

} // verus!
