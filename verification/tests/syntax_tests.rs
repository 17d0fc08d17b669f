use hazard_analyzer::syntax::{
    kind_from_name, line_starts, offset_at, NodeKind, ParsedNode, SyntaxTree,
};

fn parsed(kind: &str, start: (usize, usize), end: (usize, usize), depth: usize) -> ParsedNode {
    ParsedNode { kind: kind.to_string(), start, end, depth }
}

//   0 source_file                 fn f() {\n    g(h(1), k());\n}\n
//   1   function_item
//   2     identifier              f
//   3     parameters              ()
//   4     block
//   5       call_expression       g(h(1), k())
//   6         identifier          g
//   7         arguments
//   8           call_expression   h(1)
//   9             identifier      h
//  10           call_expression   k()
//  11             identifier      k
//  12 line_comment                // x      (a second root)
const SOURCE: &str = "fn f() {\n    g(h(1), k());\n}\n// x";

fn sample() -> SyntaxTree {
    let nodes = vec![
        parsed("source_file", (1, 1), (4, 1), 0),
        parsed("function_item", (1, 1), (3, 2), 1),
        parsed("identifier", (1, 4), (1, 5), 2),
        parsed("parameters", (1, 5), (1, 7), 2),
        parsed("block", (1, 8), (3, 2), 2),
        parsed("call_expression", (2, 5), (2, 17), 3),
        parsed("identifier", (2, 5), (2, 6), 4),
        parsed("arguments", (2, 6), (2, 17), 4),
        parsed("call_expression", (2, 7), (2, 11), 5),
        parsed("identifier", (2, 7), (2, 8), 6),
        parsed("call_expression", (2, 13), (2, 16), 5),
        parsed("identifier", (2, 13), (2, 14), 6),
        parsed("line_comment", (4, 1), (4, 5), 0),
    ];
    SyntaxTree::new(SOURCE.as_bytes().to_vec(), &nodes).unwrap()
}

#[test]
fn kinds_by_name() {
    assert_eq!(kind_from_name(&"enum_item".to_string()), NodeKind::EnumItem);
    assert_eq!(kind_from_name(&"type_identifier".to_string()), NodeKind::TypeIdentifier);
    assert_eq!(kind_from_name(&"identifier".to_string()), NodeKind::Identifier);
    assert_eq!(kind_from_name(&"function_item".to_string()), NodeKind::FunctionItem);
    assert_eq!(kind_from_name(&"const_item".to_string()), NodeKind::ConstItem);
    assert_eq!(kind_from_name(&"parameters".to_string()), NodeKind::Parameters);
    assert_eq!(kind_from_name(&"parameter".to_string()), NodeKind::Parameter);
    assert_eq!(kind_from_name(&"call_expression".to_string()), NodeKind::CallExpression);
    assert_eq!(kind_from_name(&"block".to_string()), NodeKind::Other);
    assert_eq!(kind_from_name(&"Identifier".to_string()), NodeKind::Other);
    assert_eq!(kind_from_name(&String::new()), NodeKind::Other);
}

#[test]
fn starts_of_lines() {
    assert_eq!(line_starts(&b"".to_vec()), vec![0]);
    assert_eq!(line_starts(&b"abc".to_vec()), vec![0]);
    assert_eq!(line_starts(&b"\n".to_vec()), vec![0, 1]);
    assert_eq!(line_starts(&b"a\nbc\n\nd".to_vec()), vec![0, 2, 5, 6]);
    assert_eq!(line_starts(&b"a\r\nb".to_vec()), vec![0, 3]);
}

#[test]
fn offsets_of_rows_and_columns() {
    let source = b"a\nbc\n\nd".to_vec();
    let starts = line_starts(&source);
    assert_eq!(offset_at(&source, &starts, 0, 0), Some(0));
    assert_eq!(offset_at(&source, &starts, 1, 1), Some(3));
    assert_eq!(offset_at(&source, &starts, 2, 0), Some(5));
    assert_eq!(offset_at(&source, &starts, 3, 1), Some(7));
    // Past the end of the source, or on a line that is not there.
    assert_eq!(offset_at(&source, &starts, 3, 2), None);
    assert_eq!(offset_at(&source, &starts, 4, 0), None);
    assert_eq!(offset_at(&source, &starts, usize::MAX, usize::MAX), None);
    assert_eq!(offset_at(&source, &starts, 0, usize::MAX), None);
}

#[test]
fn nodes_of_a_tree() {
    let tree = sample();
    assert_eq!(tree.len(), 13);
    let call = tree.node(5);
    assert_eq!(call.kind, NodeKind::CallExpression);
    assert_eq!((call.start, call.stop), (13, 25));
    assert_eq!(call.position, (1, 4));
    assert_eq!(call.depth, 3);
    let root = tree.node(0);
    assert_eq!(root.kind, NodeKind::Other);
    assert_eq!((root.start, root.stop), (0, 29));
    assert_eq!(root.position, (0, 0));
}

#[test]
fn text_of_a_node() {
    let tree = sample();
    assert_eq!(tree.utf8_text(5), Some("g(h(1), k())".to_string()));
    assert_eq!(tree.utf8_text(8), Some("h(1)".to_string()));
    assert_eq!(tree.utf8_text(2), Some("f".to_string()));
    assert_eq!(tree.utf8_text(12), Some("// x".to_string()));
    assert_eq!(tree.utf8_text(0), Some("fn f() {\n    g(h(1), k());\n}\n".to_string()));
}

#[test]
fn text_that_is_no_utf8() {
    // "é" takes two bytes: a span that cuts it in half holds no text.
    let source = "a\u{e9}b".as_bytes().to_vec();
    let nodes = vec![
        parsed("source_file", (1, 1), (1, 5), 0),
        parsed("identifier", (1, 2), (1, 3), 1),
        parsed("identifier", (1, 2), (1, 4), 1),
        parsed("identifier", (1, 3), (1, 3), 1),
    ];
    let tree = SyntaxTree::new(source, &nodes).unwrap();
    assert_eq!(tree.utf8_text(0), Some("a\u{e9}b".to_string()));
    assert_eq!(tree.utf8_text(1), None);
    assert_eq!(tree.utf8_text(2), Some("\u{e9}".to_string()));
    assert_eq!(tree.utf8_text(3), Some(String::new()));
}

#[test]
fn reports_that_do_not_fit_the_source() {
    let source = b"ab\ncd".to_vec();
    let fits = |start, end| SyntaxTree::new(source.clone(), &vec![parsed("x", start, end, 0)]).is_some();
    assert!(fits((1, 1), (2, 3)));
    assert!(fits((2, 3), (2, 3)));
    // Rows and columns count from 1.
    assert!(!fits((0, 1), (1, 1)));
    assert!(!fits((1, 0), (1, 1)));
    assert!(!fits((1, 1), (0, 1)));
    assert!(!fits((1, 1), (1, 0)));
    // A line that is not there, a column past the end, an end before the start.
    assert!(!fits((3, 1), (3, 1)));
    assert!(!fits((1, 1), (2, 4)));
    assert!(!fits((2, 1), (1, 1)));
    assert!(!fits((1, 1), (usize::MAX, usize::MAX)));
}

#[test]
fn tree_without_nodes() {
    let tree = SyntaxTree::new(b"fn f() {}".to_vec(), &Vec::new()).unwrap();
    assert_eq!(tree.len(), 0);
}

#[test]
fn end_of_a_subtree() {
    let tree = sample();
    assert_eq!(tree.subtree_end(0), 12);
    assert_eq!(tree.subtree_end(1), 12);
    assert_eq!(tree.subtree_end(5), 12);
    assert_eq!(tree.subtree_end(7), 12);
    assert_eq!(tree.subtree_end(8), 10);
    assert_eq!(tree.subtree_end(9), 10);
    assert_eq!(tree.subtree_end(3), 4);
    assert_eq!(tree.subtree_end(11), 12);
    assert_eq!(tree.subtree_end(12), 13);
}

#[test]
fn first_child_by_kind() {
    let tree = sample();
    assert_eq!(tree.first_child_of_kind(1, NodeKind::Identifier), Some(2));
    assert_eq!(tree.first_child_of_kind(1, NodeKind::Parameters), Some(3));
    // A grandchild is no child.
    assert_eq!(tree.first_child_of_kind(1, NodeKind::CallExpression), None);
    assert_eq!(tree.first_child_of_kind(5, NodeKind::CallExpression), None);
    assert_eq!(tree.first_child_of_kind(7, NodeKind::CallExpression), Some(8));
    assert_eq!(tree.first_child_of_kind(5, NodeKind::Identifier), Some(6));
    // A leaf has no child, and a node is no child of itself.
    assert_eq!(tree.first_child_of_kind(2, NodeKind::Identifier), None);
    assert_eq!(tree.first_child_of_kind(12, NodeKind::Other), None);
    assert_eq!(tree.first_child_of_kind(0, NodeKind::Other), None);
}

#[test]
fn all_nodes_of_a_kind() {
    let tree = sample();
    assert_eq!(tree.all_of_kind(0, NodeKind::CallExpression), vec![5, 8, 10]);
    assert_eq!(tree.all_of_kind(0, NodeKind::Identifier), vec![2, 6, 9, 11]);
    // The node itself counts, what follows its subtree does not.
    assert_eq!(tree.all_of_kind(8, NodeKind::CallExpression), vec![8]);
    assert_eq!(tree.all_of_kind(7, NodeKind::Identifier), vec![9, 11]);
    assert_eq!(tree.all_of_kind(0, NodeKind::Other), vec![0, 4, 7]);
    assert_eq!(tree.all_of_kind(12, NodeKind::Other), vec![12]);
    assert_eq!(tree.all_of_kind(3, NodeKind::Parameter), Vec::<usize>::new());
}

#[test]
fn ancestors_by_kind() {
    let tree = sample();
    assert!(!tree.has_ancestor_of_kind(5, NodeKind::CallExpression));
    assert!(tree.has_ancestor_of_kind(8, NodeKind::CallExpression));
    assert!(tree.has_ancestor_of_kind(10, NodeKind::CallExpression));
    assert!(tree.has_ancestor_of_kind(11, NodeKind::CallExpression));
    assert!(tree.has_ancestor_of_kind(11, NodeKind::FunctionItem));
    // A sibling that comes before is no ancestor.
    assert!(!tree.has_ancestor_of_kind(10, NodeKind::Identifier));
    assert!(!tree.has_ancestor_of_kind(3, NodeKind::Identifier));
    // The root has no ancestor, nor has a second root.
    assert!(!tree.has_ancestor_of_kind(0, NodeKind::Other));
    assert!(!tree.has_ancestor_of_kind(12, NodeKind::Other));
    assert!(!tree.has_ancestor_of_kind(12, NodeKind::FunctionItem));
}
