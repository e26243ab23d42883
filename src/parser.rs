//! The parser's entry point.
use vstd::prelude::*;

use crate::ast::{Ast, Node, NodeType, NodeView};
use crate::lexer::Lexer;

verus! {

/// The tree of a module: an arena holding the module's root node. The
/// lexer's tokens are left for the caller.
pub fn parse(l: &mut Lexer) -> (r: Ast)
    ensures
        r@.wf(),
        r@.slots == seq![Some(NodeView { n_type: NodeType::Module, children: None })],
        r@.free == Seq::<usize>::empty(),
        final(l)@ == old(l)@,
        final(l).spec_source() == old(l).spec_source(),
{
    Ast::new(Node::new(NodeType::Module))
}

} // verus!
