use std::collections::HashMap;
use tree_sitter::{
    Language, NodeData, Point, PropertySheet, PropertySheetError, PropertySheetJSON,
    PropertyStateJSON, PropertyTransitionJSON, Tree,
};

type Props = HashMap<String, String>;

fn language() -> Language {
    Language::new(
        vec![
            ("end".to_string(), false),
            ("program".to_string(), true),
            ("identifier".to_string(), true),
            ("if".to_string(), false),
            ("if".to_string(), true),
            ("call".to_string(), true),
        ],
        vec!["function".to_string(), "arguments".to_string()],
    )
    .unwrap()
}

fn props(pairs: &[(&str, &str)]) -> Props {
    pairs.iter().map(|(k, v)| (k.to_string(), v.to_string())).collect()
}

fn transition(kind: Option<(&str, bool)>, field: Option<&str>, state_id: usize) -> PropertyTransitionJSON {
    PropertyTransitionJSON {
        kind: kind.map(|k| k.0.to_string()),
        named: kind.map(|k| k.1),
        index: None,
        field: field.map(|f| f.to_string()),
        text: None,
        state_id,
    }
}

fn state(property_set_id: usize, transitions: Vec<PropertyTransitionJSON>, default_next_state_id: usize) -> PropertyStateJSON {
    PropertyStateJSON { id: None, property_set_id, transitions, default_next_state_id }
}

fn node(kind_id: u16, field_id: Option<u16>, start: usize, end: usize, children: Vec<usize>) -> NodeData {
    NodeData {
        kind_id,
        field_id,
        start_byte: start,
        end_byte: end,
        start_position: Point::new(0, start),
        end_position: Point::new(0, end),
        children,
    }
}

fn sheet(states: Vec<PropertyStateJSON>, sets: Vec<Props>) -> PropertySheet<Props> {
    PropertySheet::new(&language(), PropertySheetJSON { states, property_sets: sets }).unwrap()
}

#[test]
fn kind_transition_reports_its_property_set() {
    // program(0..3) with one child identifier(0..3)
    let tree = Tree::new(vec![node(1, None, 0, 3, vec![1]), node(2, None, 0, 3, vec![])]).unwrap();
    let sheet = sheet(
        vec![
            state(0, vec![transition(Some(("identifier", true)), None, 1)], 0),
            state(1, vec![], 1),
        ],
        vec![props(&[]), props(&[("highlight", "keyword")])],
    );
    let source = b"foo";
    let mut cursor = tree.walk_with_properties(&sheet, source);
    assert_eq!(cursor.node_properties(), &props(&[]));
    assert!(cursor.goto_first_child());
    assert_eq!(cursor.node_properties(), &props(&[("highlight", "keyword")]));
}

#[test]
fn unmatched_node_takes_default_next_state() {
    let tree = Tree::new(vec![node(1, None, 0, 1, vec![1]), node(5, None, 0, 1, vec![])]).unwrap();
    let sheet = sheet(
        vec![
            state(0, vec![transition(Some(("identifier", true)), None, 1)], 2),
            state(1, vec![], 1),
            state(2, vec![], 0),
        ],
        vec![props(&[("s", "a")]), props(&[("s", "b")]), props(&[("s", "c")])],
    );
    let mut cursor = tree.walk_with_properties(&sheet, b"x");
    // The root matches nothing in state 0: its default is state 2.
    assert_eq!(cursor.node_properties(), &props(&[("s", "c")]));
    // The call child: nothing in state 2 or state 0 applies, so state 2's default, state 0.
    assert!(cursor.goto_first_child());
    assert_eq!(cursor.node_properties(), &props(&[("s", "a")]));
}

#[test]
fn state_zero_transitions_are_the_fallback() {
    // program > call > identifier
    let tree = Tree::new(vec![
        node(1, None, 0, 3, vec![1]),
        node(5, None, 0, 3, vec![2]),
        node(2, None, 0, 3, vec![]),
    ])
    .unwrap();
    let sheet = sheet(
        vec![
            state(
                0,
                vec![
                    transition(Some(("call", true)), None, 1),
                    transition(Some(("identifier", true)), None, 2),
                ],
                0,
            ),
            state(1, vec![], 0),
            state(2, vec![], 0),
        ],
        vec![props(&[("s", "zero")]), props(&[("s", "call")]), props(&[("s", "id")])],
    );
    let mut cursor = tree.walk_with_properties(&sheet, b"abc");
    assert!(cursor.goto_first_child());
    assert_eq!(cursor.node_properties(), &props(&[("s", "call")]));
    // State 1 has no transitions; state 0's transition for identifier applies.
    assert!(cursor.goto_first_child());
    assert_eq!(cursor.node_properties(), &props(&[("s", "id")]));
}

#[test]
fn repeated_regex_literal_is_compiled_once() {
    let mut a = transition(Some(("identifier", true)), None, 1);
    a.text = Some("^foo$".to_string());
    let mut b = transition(Some(("call", true)), None, 1);
    b.text = Some("^foo$".to_string());
    let mut c = transition(Some(("call", true)), None, 0);
    c.text = Some("bar".to_string());
    let sheet = sheet(
        vec![state(0, vec![a, b], 0), state(0, vec![c], 0)],
        vec![props(&[])],
    );
    assert_eq!(sheet.text_regex_count(), 2);
}

#[test]
fn regex_transition_needs_a_matching_text() {
    let tree = Tree::new(vec![
        node(1, None, 0, 7, vec![1, 2]),
        node(2, None, 0, 3, vec![]),
        node(2, None, 4, 7, vec![]),
    ])
    .unwrap();
    let mut t = transition(Some(("identifier", true)), None, 1);
    t.text = Some("^fo+$".to_string());
    let sheet = sheet(
        vec![state(0, vec![t], 0), state(1, vec![], 1)],
        vec![props(&[("m", "no")]), props(&[("m", "yes")])],
    );
    let mut cursor = tree.walk_with_properties(&sheet, b"foo bar");
    assert!(cursor.goto_first_child());
    assert_eq!(cursor.node_properties(), &props(&[("m", "yes")]));
    assert!(cursor.goto_next_sibling());
    assert_eq!(cursor.node_properties(), &props(&[("m", "no")]));
}

#[test]
fn regex_transition_skipped_on_invalid_utf8() {
    let tree = Tree::new(vec![node(1, None, 0, 2, vec![1]), node(2, None, 0, 2, vec![])]).unwrap();
    let mut t = transition(Some(("identifier", true)), None, 1);
    t.text = Some("".to_string());
    let sheet = sheet(
        vec![state(0, vec![t], 0), state(1, vec![], 1)],
        vec![props(&[("m", "no")]), props(&[("m", "yes")])],
    );
    let source: &[u8] = &[0xff, 0xfe];
    let mut cursor = tree.walk_with_properties(&sheet, source);
    assert!(cursor.goto_first_child());
    assert_eq!(cursor.node_properties(), &props(&[("m", "no")]));
}

#[test]
fn child_index_condition_and_siblings() {
    let tree = Tree::new(vec![
        node(1, None, 0, 3, vec![1, 2, 3]),
        node(2, None, 0, 1, vec![]),
        node(2, None, 1, 2, vec![]),
        node(2, None, 2, 3, vec![]),
    ])
    .unwrap();
    let mut t = transition(Some(("identifier", true)), None, 1);
    t.index = Some(1);
    let sheet = sheet(
        vec![state(0, vec![t], 0), state(1, vec![], 1)],
        vec![props(&[("i", "other")]), props(&[("i", "second")])],
    );
    let mut cursor = tree.walk_with_properties(&sheet, b"abc");
    assert!(cursor.goto_first_child());
    assert_eq!(cursor.node_properties(), &props(&[("i", "other")]));
    assert!(cursor.goto_next_sibling());
    assert_eq!(cursor.node_properties(), &props(&[("i", "second")]));
    assert!(cursor.goto_next_sibling());
    assert_eq!(cursor.node_properties(), &props(&[("i", "other")]));
    assert!(!cursor.goto_next_sibling());
    assert_eq!(cursor.node_properties(), &props(&[("i", "other")]));
}

#[test]
fn descend_then_ascend_restores_the_state() {
    let tree = Tree::new(vec![
        node(1, None, 0, 3, vec![1]),
        node(5, None, 0, 3, vec![2]),
        node(2, None, 0, 3, vec![]),
    ])
    .unwrap();
    let sheet = sheet(
        vec![
            state(0, vec![transition(Some(("call", true)), None, 1)], 0),
            state(1, vec![transition(Some(("identifier", true)), None, 2)], 1),
            state(2, vec![], 2),
        ],
        vec![props(&[("d", "0")]), props(&[("d", "1")]), props(&[("d", "2")])],
    );
    let mut cursor = tree.walk_with_properties(&sheet, b"abc");
    assert!(cursor.goto_first_child());
    let before = cursor.node_properties().clone();
    let node_before = cursor.node().kind_id();
    assert!(cursor.goto_first_child());
    assert_eq!(cursor.node_properties(), &props(&[("d", "2")]));
    assert!(!cursor.goto_first_child());
    assert!(cursor.goto_parent());
    assert_eq!(cursor.node_properties(), &before);
    assert_eq!(cursor.node().kind_id(), node_before);
    assert!(cursor.goto_parent());
    assert_eq!(cursor.node_properties(), &props(&[("d", "0")]));
    assert!(!cursor.goto_parent());
}

#[test]
fn named_flag_selects_the_kind() {
    let sheet = sheet(
        vec![state(0, vec![transition(Some(("if", false)), None, 1)], 0), state(0, vec![], 0)],
        vec![props(&[])],
    );
    let s = sheet.state(0);
    // Kind 3 is the anonymous "if", kind 4 the named one.
    assert_eq!(s.lookup(None, 3).unwrap().len(), 1);
    assert_eq!(s.lookup(None, 4).unwrap().len(), 0);
    // Without a named flag no kind matches.
    let sheet = self::sheet(
        vec![
            state(
                0,
                vec![PropertyTransitionJSON {
                    kind: Some("if".to_string()),
                    named: None,
                    index: None,
                    field: None,
                    text: None,
                    state_id: 0,
                }],
                0,
            ),
        ],
        vec![props(&[])],
    );
    assert_eq!(sheet.state(0).lookup(None, 3).unwrap().len(), 0);
}

#[test]
fn field_buckets_follow_clause_order() {
    let sheet = sheet(
        vec![
            state(
                0,
                vec![
                    // A kind-only clause before any field bucket exists: kind bucket only.
                    transition(Some(("identifier", true)), None, 1),
                    // A field-only clause instantiates the "function" bucket.
                    transition(None, Some("function"), 2),
                    // A kind-only clause after it: replicated into that bucket, filtered by kind.
                    transition(Some(("call", true)), None, 3),
                    // A field and kind clause: in the field bucket, filtered by kind.
                    transition(Some(("identifier", true)), Some("arguments"), 4),
                    // An unknown field name counts as no field.
                    transition(Some(("program", true)), Some("nope"), 5),
                ],
                0,
            ),
            state(0, vec![], 0),
            state(0, vec![], 0),
            state(0, vec![], 0),
            state(0, vec![], 0),
            state(0, vec![], 0),
        ],
        vec![props(&[])],
    );
    let s = sheet.state(0);
    let function = s.lookup(Some(1), 2).unwrap();
    assert_eq!(function.len(), 3);
    assert_eq!((function[0].state_id, function[0].node_kind_id), (2, None));
    assert_eq!((function[1].state_id, function[1].node_kind_id), (3, Some(5)));
    assert_eq!((function[2].state_id, function[2].node_kind_id), (5, Some(1)));
    let arguments = s.lookup(Some(2), 2).unwrap();
    assert_eq!(arguments.len(), 2);
    assert_eq!((arguments[0].state_id, arguments[0].node_kind_id), (4, Some(2)));
    assert_eq!((arguments[1].state_id, arguments[1].node_kind_id), (5, Some(1)));
    let identifier = s.lookup(None, 2).unwrap();
    assert_eq!(identifier.len(), 1);
    assert_eq!((identifier[0].state_id, identifier[0].node_kind_id), (1, None));
    // A node in a field without a bucket uses its kind bucket.
    assert_eq!(s.lookup(Some(7), 5).unwrap()[0].state_id, 3);
    assert_eq!(s.lookup(Some(7), 1).unwrap()[0].state_id, 5);
}

#[test]
fn field_transition_applies_to_field_children() {
    // call(0..6) with function: identifier(0..3) and arguments: identifier(3..6)
    let tree = Tree::new(vec![
        node(5, None, 0, 6, vec![1, 2]),
        node(2, Some(1), 0, 3, vec![]),
        node(2, Some(2), 3, 6, vec![]),
    ])
    .unwrap();
    let sheet = sheet(
        vec![
            state(0, vec![transition(Some(("identifier", true)), Some("function"), 1)], 0),
            state(1, vec![], 1),
        ],
        vec![props(&[]), props(&[("role", "callee")])],
    );
    let mut cursor = tree.walk_with_properties(&sheet, b"foobar");
    assert!(cursor.goto_first_child());
    assert_eq!(cursor.node_properties(), &props(&[("role", "callee")]));
    assert!(cursor.goto_next_sibling());
    assert_eq!(cursor.node_properties(), &props(&[]));
}

#[test]
fn invalid_text_regex_is_rejected() {
    let mut t = transition(Some(("identifier", true)), None, 0);
    t.text = Some("(".to_string());
    let r: Result<PropertySheet<Props>, _> = PropertySheet::new(
        &language(),
        PropertySheetJSON { states: vec![state(0, vec![t], 0)], property_sets: vec![props(&[])] },
    );
    assert!(matches!(r, Err(PropertySheetError::InvalidRegex(_))));
}

#[test]
fn dangling_references_are_rejected() {
    let r: Result<PropertySheet<Props>, _> = PropertySheet::new(
        &language(),
        PropertySheetJSON {
            states: vec![state(0, vec![transition(Some(("identifier", true)), None, 3)], 0)],
            property_sets: vec![props(&[])],
        },
    );
    assert!(matches!(r, Err(PropertySheetError::InvalidStructure)));
    let r: Result<PropertySheet<Props>, _> = PropertySheet::new(
        &language(),
        PropertySheetJSON { states: vec![state(1, vec![], 0)], property_sets: vec![props(&[])] },
    );
    assert!(matches!(r, Err(PropertySheetError::InvalidStructure)));
    let r: Result<PropertySheet<Props>, _> =
        PropertySheet::new(&language(), PropertySheetJSON { states: vec![], property_sets: vec![] });
    assert!(matches!(r, Err(PropertySheetError::InvalidStructure)));
}

#[test]
fn map_converts_property_sets() {
    let sheet = sheet(vec![state(1, vec![], 0)], vec![props(&[("a", "1")]), props(&[("a", "22")])]);
    let mapped: Result<PropertySheet<usize>, ()> = sheet.map(|p: Props| Ok(p["a"].len()));
    let mapped = mapped.unwrap();
    assert_eq!(mapped.property_set(0), &1);
    assert_eq!(mapped.property_set(1), &2);
    let failed: Result<PropertySheet<usize>, String> =
        mapped.map(|n: usize| if n == 2 { Err("two".to_string()) } else { Ok(n) });
    assert_eq!(failed.err(), Some("two".to_string()));
}

#[test]
fn transition_applies_checks_each_condition() {
    let t = tree_sitter::PropertyTransition {
        state_id: 1,
        child_index: Some(2),
        text_regex_index: Some(0),
        node_kind_id: Some(7),
    };
    assert!(t.applies(7, 2, true));
    assert!(!t.applies(7, 2, false));
    assert!(!t.applies(8, 2, true));
    assert!(!t.applies(7, 1, true));
    let u = tree_sitter::PropertyTransition { state_id: 1, child_index: None, text_regex_index: None, node_kind_id: None };
    assert!(u.applies(0, 9, false));
}

#[test]
fn next_state_uses_the_given_child_index() {
    let tree = Tree::new(vec![node(1, None, 0, 2, vec![1]), node(2, None, 0, 2, vec![])]).unwrap();
    let mut t = transition(Some(("identifier", true)), None, 1);
    t.index = Some(3);
    let sheet = sheet(
        vec![state(0, vec![t], 2), state(0, vec![], 1), state(0, vec![], 2)],
        vec![props(&[])],
    );
    let mut cursor = tree.walk_with_properties(&sheet, b"ab");
    assert!(cursor.goto_first_child());
    // From the state on top (state 2, reached at the child by default), nothing
    // applies; state 0's transition applies only as child number 3.
    assert_eq!(cursor.next_state(3), 1);
    assert_eq!(cursor.next_state(0), 2);
}
