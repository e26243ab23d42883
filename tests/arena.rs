use bytevm::ast::{Ast, Node, NodeType};
use bytevm::error::VmError;

#[test]
fn root_is_handle_zero() {
    let ast = Ast::new(Node::new(NodeType::Module));
    assert_eq!(ast.get_node(0).unwrap().node_type(), NodeType::Module);
    assert!(matches!(ast.get_node(1), Err(VmError::NotFound)));
}

#[test]
fn add_get_remove_reuse() {
    let mut ast = Ast::new(Node::new(NodeType::Module));
    let h = ast.add_node(Node::new(NodeType::Module));
    assert_eq!(h, 1);
    assert!(ast.get_node(h).is_ok());
    assert_eq!(ast.remove_node(h), Ok(()));
    assert!(matches!(ast.get_node(h), Err(VmError::NotFound)));
    let h2 = ast.add_node(Node::new(NodeType::Module));
    assert_eq!(h2, h);
    assert!(ast.get_node(h2).is_ok());
}

#[test]
fn freed_handles_are_reused_last_first() {
    let mut ast = Ast::new(Node::new(NodeType::Module));
    let a = ast.add_node(Node::new(NodeType::Module));
    let b = ast.add_node(Node::new(NodeType::Module));
    let c = ast.add_node(Node::new(NodeType::Module));
    assert_eq!((a, b, c), (1, 2, 3));
    ast.remove_node(a).unwrap();
    ast.remove_node(c).unwrap();
    assert_eq!(ast.add_node(Node::new(NodeType::Module)), c);
    assert_eq!(ast.add_node(Node::new(NodeType::Module)), a);
    assert_eq!(ast.add_node(Node::new(NodeType::Module)), 4);
    assert!(ast.get_node(b).is_ok());
}

#[test]
fn remove_twice_or_out_of_range_is_not_found() {
    let mut ast = Ast::new(Node::new(NodeType::Module));
    let h = ast.add_node(Node::new(NodeType::Module));
    assert_eq!(ast.remove_node(h), Ok(()));
    assert_eq!(ast.remove_node(h), Err(VmError::NotFound));
    assert_eq!(ast.remove_node(99), Err(VmError::NotFound));
    assert!(matches!(ast.get_node(99), Err(VmError::NotFound)));
}
