use tree_sitter::{Language, NodeData, Point, Tree};

fn node(kind_id: u16, start: usize, end: usize, children: Vec<usize>) -> NodeData {
    NodeData {
        kind_id,
        field_id: None,
        start_byte: start,
        end_byte: end,
        start_position: Point::new(1, start),
        end_position: Point::new(2, end),
        children,
    }
}

#[test]
fn malformed_trees_are_rejected() {
    assert!(Tree::new(vec![]).is_none());
    assert!(Tree::new(vec![node(0, 0, 1, vec![1])]).is_none());
    assert!(Tree::new(vec![node(0, 2, 1, vec![])]).is_none());
    assert!(Tree::new(vec![node(0, 0, 1, vec![0])]).is_some());
}

#[test]
fn node_accessors() {
    let t = Tree::new(vec![node(1, 0, 5, vec![1, 2]), node(u16::MAX, 0, 2, vec![]), node(3, 3, 5, vec![])]).unwrap();
    let root = t.root_node();
    assert_eq!(root.child_count(), 2);
    assert!(root.child(2).is_none());
    let children = root.children();
    assert_eq!(children.len(), 2);
    assert!(children[0].is_error());
    assert!(!children[1].is_error());
    assert_eq!(children[1].kind_id(), 3);
    assert_eq!(children[1].byte_range(), 3..5);
    let r = children[1].range();
    assert_eq!((r.start_byte, r.end_byte), (3, 5));
    assert_eq!(r.start_point, Point::new(1, 3));
    assert_eq!(r.end_point, Point { row: 2, column: 5 });
    assert_eq!(children[1].utf8_text(b"ab cd").unwrap(), "cd");
    assert!(children[0].utf8_text(&[0xc3, 0x28, 0, 0, 0]).is_err());
    let wide: Vec<u16> = "ab cd".encode_utf16().collect();
    assert_eq!(children[1].utf16_text(&wide), &wide[3..5]);
    assert!(tree_sitter::Node::new(&t, 3).is_none());
    assert_eq!(tree_sitter::Node::new(&t, 2).unwrap().start_byte(), 3);
}

#[test]
fn tree_cursor_moves() {
    let mut a = node(1, 0, 4, vec![1, 2]);
    a.field_id = None;
    let mut b = node(2, 0, 1, vec![3]);
    b.field_id = Some(1);
    let c = node(2, 2, 4, vec![]);
    let d = node(3, 0, 1, vec![]);
    let t = Tree::new(vec![a, b, c, d]).unwrap();
    let mut cursor = t.walk();
    assert_eq!(cursor.field_id(), None);
    assert!(!cursor.goto_parent());
    assert!(!cursor.goto_next_sibling());
    assert!(cursor.goto_first_child());
    assert_eq!(cursor.field_id(), Some(1));
    assert!(cursor.goto_first_child());
    assert_eq!(cursor.node().kind_id(), 3);
    assert!(!cursor.goto_first_child());
    assert!(cursor.goto_parent());
    assert!(cursor.goto_next_sibling());
    assert_eq!(cursor.node().start_byte(), 2);
    assert!(!cursor.goto_next_sibling());
    cursor.reset(t.root_node().child(0).unwrap());
    assert!(!cursor.goto_parent());
    assert_eq!(cursor.field_id(), None);
}

#[test]
fn language_metadata() {
    let l = Language::new(
        vec![("a".to_string(), true), ("b".to_string(), false)],
        vec!["f".to_string(), "g".to_string(), "f".to_string()],
    )
    .unwrap();
    assert_eq!(l.node_kind_count(), 2);
    assert_eq!(l.node_kind_for_id(1), "b");
    assert!(!l.node_kind_is_named(1));
    assert!(l.node_kind_matches(0, &"a".to_string(), true));
    assert!(!l.node_kind_matches(0, &"a".to_string(), false));
    assert_eq!(l.field_count(), 3);
    assert_eq!(l.field_name_for_id(2), "g");
    assert_eq!(l.field_id_for_name(&"f".to_string()), Some(1));
    assert_eq!(l.field_id_for_name(&"g".to_string()), Some(2));
    assert_eq!(l.field_id_for_name(&"h".to_string()), None);
}
