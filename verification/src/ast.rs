use crate::error::SyntaxError;
use crate::node::{all_well_placed, node_views, Node, NodeView};
use crate::parser::{lemma_program_placed, parse_program, Parser};
use crate::tokens::Tokens;
use std::collections::VecDeque;
use vstd::prelude::*;

verus! {

/// The function declarations among `nodes`, in their order.
pub open spec fn functions_of(nodes: Seq<NodeView>) -> Seq<NodeView>
    decreases nodes.len(),
{
    if nodes.len() == 0 {
        Seq::empty()
    } else if nodes.last() is Function {
        functions_of(nodes.drop_last()).push(nodes.last())
    } else {
        functions_of(nodes.drop_last())
    }
}

/// The nodes of `nodes` that are no function declarations, in their order.
pub open spec fn statements_of(nodes: Seq<NodeView>) -> Seq<NodeView>
    decreases nodes.len(),
{
    if nodes.len() == 0 {
        Seq::empty()
    } else if nodes.last() is Function {
        statements_of(nodes.drop_last())
    } else {
        statements_of(nodes.drop_last()).push(nodes.last())
    }
}

/// Taking the declarations out loses no node and adds none.
pub proof fn lemma_functions_and_statements(nodes: Seq<NodeView>)
    ensures
        functions_of(nodes).len() + statements_of(nodes).len() == nodes.len(),
        forall|i: int|
            0 <= i < functions_of(nodes).len() ==> (#[trigger] functions_of(nodes)[i]) is Function,
        forall|i: int|
            0 <= i < statements_of(nodes).len() ==> !((#[trigger] statements_of(
                nodes,
            )[i]) is Function),
    decreases nodes.len(),
{
    if nodes.len() > 0 {
        lemma_functions_and_statements(nodes.drop_last());
    }
}

/// The syntax tree of a program: its top-level nodes in the order in which
/// they run.
#[derive(Debug)]
pub struct Ast {
    children: VecDeque<Node>,
}

impl View for Ast {
    type V = Seq<NodeView>;

    closed spec fn view(&self) -> Seq<NodeView> {
        node_views(self.children@)
    }
}

impl Ast {
    /// The tree with the top-level nodes `children`.
    pub fn new(children: Vec<Node>) -> (ast: Ast)
        ensures
            ast@ == node_views(children@),
    {
        let mut queue: VecDeque<Node> = VecDeque::new();
        let ghost all = children@;
        for node in it: children
            invariant
                it.seq() == all,
                node_views(queue@) =~= node_views(all.take(it.index())),
        {
            let ghost before = node_views(queue@);
            queue.push_back(node);
            assert(node_views(queue@) =~= before.push(node@));
            assert(all.take(it.index() + 1) =~= all.take(it.index()).push(all[it.index()]));
        }
        assert(all.take(all.len() as int) =~= all);
        Ast { children: queue }
    }

    /// Parses the program that `tokens` holds.
    pub fn try_from(tokens: Tokens) -> (ast: Result<Ast, SyntaxError>)
        ensures
            match parse_program(tokens@, Seq::empty()) {
                Ok(nodes) => ast is Ok && ast->Ok_0@ == nodes,
                Err(error) => ast is Err && ast->Err_0@ == error,
            },
            ast matches Ok(tree) ==> all_well_placed(tree@, true),
    {
        proof {
            lemma_program_placed(tokens@, Seq::empty());
        }
        let mut parser = Parser::new(tokens);
        let mut children: VecDeque<Node> = VecDeque::new();
        assert(node_views(children@) =~= Seq::empty());
        loop
            invariant
                parse_program(tokens@, Seq::empty()) matches Ok(nodes) ==> all_well_placed(
                    nodes,
                    true,
                ),
                parse_program(tokens@, Seq::empty()) == parse_program(
                    parser@,
                    node_views(children@),
                ),
            decreases parser@.len(),
        {
            let ghost read = node_views(children@);
            match parser.next() {
                None => {
                    return Ok(Ast { children });
                },
                Some(Ok(node)) => {
                    children.push_back(node);
                    assert(node_views(children@) =~= read.push(node@));
                },
                Some(Err(error)) => {
                    return Err(error);
                },
            }
        }
    }

    pub fn is_empty(&self) -> (empty: bool)
        ensures
            empty == (self@.len() == 0),
    {
        self.children.len() == 0
    }

    /// Takes the first node, if any is left.
    pub fn pop_front(&mut self) -> (node: Option<Node>)
        ensures
            old(self)@.len() == 0 ==> node.is_none() && final(self)@ == old(self)@,
            old(self)@.len() > 0 ==> node.is_some() && node.unwrap()@ == old(self)@[0]
                && final(self)@ == old(self)@.drop_first(),
    {
        let node = self.children.pop_front();
        proof {
            if old(self)@.len() > 0 {
                assert(node_views(self.children@) =~= node_views(old(self).children@).drop_first());
            }
        }
        node
    }

    /// Takes the function declarations out of the tree and hands them over
    /// in their order. The other nodes stay, in their order.
    pub fn drain_functions(&mut self) -> (functions: Vec<Node>)
        ensures
            node_views(functions@) == functions_of(old(self)@),
            final(self)@ == statements_of(old(self)@),
    {
        let mut functions: Vec<Node> = Vec::new();
        let mut kept: VecDeque<Node> = VecDeque::new();
        let ghost all = self@;
        let ghost mut taken: Seq<NodeView> = Seq::empty();
        assert(node_views(functions@) =~= Seq::empty());
        assert(node_views(kept@) =~= Seq::empty());
        while self.children.len() > 0
            invariant
                all == taken + node_views(self.children@),
                node_views(functions@) == functions_of(taken),
                node_views(kept@) == statements_of(taken),
            decreases self.children.len(),
        {
            let ghost left = node_views(self.children@);
            let ghost found = node_views(functions@);
            let ghost other = node_views(kept@);
            let node = self.children.pop_front().unwrap();
            proof {
                assert(node_views(self.children@) =~= left.drop_first());
                assert(taken.push(node@).drop_last() =~= taken);
                assert(taken.push(node@) + left.drop_first() =~= taken + left);
                taken = taken.push(node@);
            }
            match node {
                Node::Function { .. } => {
                    functions.push(node);
                    assert(node_views(functions@) =~= found.push(node@));
                },
                _ => {
                    kept.push_back(node);
                    assert(node_views(kept@) =~= other.push(node@));
                },
            }
        }
        assert(taken =~= all);
        self.children = kept;
        functions
    }
}

} // verus!
