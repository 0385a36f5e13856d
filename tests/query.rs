use tree_sitter::{
    NodeData, Point, PredicateStepKind, Query, QueryCapture, QueryCursor, QueryError, QueryMatch,
    QueryPredicateStep, Tree,
};

fn node(start: usize, end: usize, children: Vec<usize>) -> NodeData {
    NodeData {
        kind_id: 1,
        field_id: None,
        start_byte: start,
        end_byte: end,
        start_position: Point::new(0, start),
        end_position: Point::new(0, end),
        children,
    }
}

fn lit(id: u32) -> QueryPredicateStep {
    QueryPredicateStep { kind: PredicateStepKind::Literal, value_id: id }
}

fn cap(id: u32) -> QueryPredicateStep {
    QueryPredicateStep { kind: PredicateStepKind::Capture, value_id: id }
}

fn done() -> QueryPredicateStep {
    QueryPredicateStep { kind: PredicateStepKind::Done, value_id: 0 }
}

fn strings(v: &[&str]) -> Vec<String> {
    v.iter().map(|s| s.to_string()).collect()
}

fn compile(steps: Vec<QueryPredicateStep>, values: &[&str]) -> Result<Query, QueryError> {
    Query::new(strings(&["a", "b"]), strings(values), vec![steps])
}

/// A root spanning the text, with children over `spans`.
fn tree(spans: &[(usize, usize)], len: usize) -> Tree {
    let mut nodes = vec![node(0, len, (1..=spans.len()).collect())];
    for &(s, e) in spans {
        nodes.push(node(s, e, vec![]));
    }
    Tree::new(nodes).unwrap()
}

fn two_captures<'a>(t: &'a Tree, pattern_index: usize) -> QueryMatch<'a> {
    let root = t.root_node();
    QueryMatch::new(
        pattern_index,
        vec![
            QueryCapture { index: 0, node: root.child(0).unwrap() },
            QueryCapture { index: 1, node: root.child(1).unwrap() },
        ],
    )
}

#[test]
fn eq_on_different_texts_excludes_the_match() {
    let q = compile(vec![lit(0), cap(0), cap(1), done()], &["eq?"]).unwrap();
    let source = b"foo bar";
    let t = tree(&[(0, 3), (4, 7)], 7);
    let mut cursor = QueryCursor::new();
    assert_eq!(cursor.matches(&q, vec![two_captures(&t, 0)], source).len(), 0);
    let raw = vec![(two_captures(&t, 0), 0), (two_captures(&t, 0), 1)];
    assert_eq!(cursor.captures(&q, raw, source).len(), 0);
}

#[test]
fn eq_on_equal_texts_keeps_the_match() {
    let q = compile(vec![lit(0), cap(0), cap(1), done()], &["eq?"]).unwrap();
    let source = b"foo foo";
    let t = tree(&[(0, 3), (4, 7)], 7);
    let mut cursor = QueryCursor::new();
    let kept = cursor.matches(&q, vec![two_captures(&t, 0)], source);
    assert_eq!(kept.len(), 1);
    assert_eq!(kept[0].pattern_index, 0);
    assert_eq!(kept[0].captures().len(), 2);
    let raw = vec![(two_captures(&t, 0), 1)];
    let caps = cursor.captures(&q, raw, source);
    assert_eq!(caps.len(), 1);
    assert_eq!(caps[0].0, 0);
    assert_eq!(caps[0].1.index, 1);
    assert_eq!(caps[0].1.node.start_byte(), 4);
}

#[test]
fn unknown_function_is_rejected() {
    let r = compile(vec![lit(0), cap(0), done()], &["foo?"]);
    assert_eq!(
        r.err(),
        Some(QueryError::Predicate("Unknown query predicate function foo?".to_string()))
    );
}

#[test]
fn match_on_invalid_utf8_excludes_the_match() {
    let q = compile(vec![lit(0), cap(0), lit(1), done()], &["match?", ""]).unwrap();
    let source: &[u8] = &[0xff, b' ', b'x'];
    let t = tree(&[(0, 1), (2, 3)], 3);
    let mut cursor = QueryCursor::new();
    assert_eq!(cursor.matches(&q, vec![two_captures(&t, 0)], source).len(), 0);
    let valid = b"y x";
    assert_eq!(cursor.matches(&q, vec![two_captures(&t, 0)], valid).len(), 1);
}

#[test]
fn matching_twice_gives_the_same_sequence() {
    let q = Query::new(
        strings(&["a", "b"]),
        strings(&["eq?", "x"]),
        vec![vec![lit(0), cap(0), lit(1)], vec![]],
    )
    .unwrap();
    let source = b"x y x";
    let t = tree(&[(0, 1), (2, 3), (4, 5)], 5);
    let run = |t: &Tree| {
        let root = t.root_node();
        let raw = vec![
            QueryMatch::new(0, vec![QueryCapture { index: 0, node: root.child(0).unwrap() }]),
            QueryMatch::new(0, vec![QueryCapture { index: 0, node: root.child(1).unwrap() }]),
            QueryMatch::new(1, vec![QueryCapture { index: 0, node: root.child(1).unwrap() }]),
            QueryMatch::new(0, vec![QueryCapture { index: 0, node: root.child(2).unwrap() }]),
        ];
        let mut cursor = QueryCursor::new();
        cursor
            .matches(&q, raw, source)
            .iter()
            .map(|m| (m.pattern_index, m.captures()[0].node.start_byte()))
            .collect::<Vec<_>>()
    };
    let first = run(&t);
    let second = run(&t);
    assert_eq!(first, vec![(0, 0), (1, 2), (0, 4)]);
    assert_eq!(first, second);
}

#[test]
fn eq_with_literal_compares_bytes() {
    let q = compile(vec![lit(0), cap(0), lit(1), done()], &["eq?", "héllo"]).unwrap();
    let source = "héllo hello".as_bytes();
    let t = tree(&[(0, 6), (7, 12)], 12);
    let root = t.root_node();
    let mut cursor = QueryCursor::new();
    let first = QueryMatch::new(0, vec![QueryCapture { index: 0, node: root.child(0).unwrap() }]);
    let second = QueryMatch::new(0, vec![QueryCapture { index: 0, node: root.child(1).unwrap() }]);
    let kept = cursor.matches(&q, vec![first, second], source);
    assert_eq!(kept.len(), 1);
    assert_eq!(kept[0].captures()[0].node.start_byte(), 0);
}

#[test]
fn match_uses_search_semantics() {
    let q = compile(vec![lit(0), cap(0), lit(1), done()], &["match?", "ar"]).unwrap();
    let source = b"bar baz";
    let t = tree(&[(0, 3), (4, 7)], 7);
    let root = t.root_node();
    let mut cursor = QueryCursor::new();
    let raw = vec![
        QueryMatch::new(0, vec![QueryCapture { index: 0, node: root.child(0).unwrap() }]),
        QueryMatch::new(0, vec![QueryCapture { index: 0, node: root.child(1).unwrap() }]),
    ];
    let kept = cursor.matches(&q, raw, source);
    assert_eq!(kept.len(), 1);
    assert_eq!(kept[0].captures()[0].node.end_byte(), 3);
}

#[test]
fn absent_capture_fails_the_predicate() {
    let q = compile(vec![lit(0), cap(1), lit(1), done()], &["eq?", "foo"]).unwrap();
    let t = tree(&[(0, 3)], 3);
    let root = t.root_node();
    let mut cursor = QueryCursor::new();
    let raw = vec![QueryMatch::new(0, vec![QueryCapture { index: 0, node: root.child(0).unwrap() }])];
    assert_eq!(cursor.matches(&q, raw, b"foo").len(), 0);
    assert!(QueryCursor::capture_for_id(&[QueryCapture { index: 0, node: root }], 1).is_none());
    assert_eq!(
        QueryCursor::capture_for_id(&[QueryCapture { index: 0, node: root }], 0).map(|n| n.end_byte()),
        Some(3)
    );
}

#[test]
fn set_declares_properties() {
    let q = Query::new(
        strings(&["a"]),
        strings(&["set!", "key", "value", "eq?"]),
        vec![
            vec![done(), lit(0), lit(1), lit(2), done(), done(), lit(3), cap(0), cap(0)],
            vec![],
        ],
    )
    .unwrap();
    assert_eq!(q.pattern_count(), 2);
    assert_eq!(q.pattern_properties(0), &[("key".to_string(), "value".to_string())][..]);
    assert_eq!(q.pattern_properties(1).len(), 0);
    assert_eq!(q.capture_names(), &["a".to_string()][..]);
    let t = tree(&[(0, 1)], 1);
    let root = t.root_node();
    let c = [QueryCapture { index: 0, node: root.child(0).unwrap() }];
    assert!(QueryCursor::captures_match_condition(&q, &c, 0, b"z"));
    assert!(QueryCursor::captures_match_condition(&q, &c, 1, b"z"));
}

#[test]
fn wrong_arity_is_rejected() {
    let r = compile(vec![lit(0), cap(0), done()], &["eq?"]);
    assert_eq!(
        r.err(),
        Some(QueryError::Predicate("Wrong number of arguments to eq? predicate. Expected 2, got 1.".to_string()))
    );
    let mut steps = vec![lit(0)];
    steps.extend(std::iter::repeat(cap(0)).take(12));
    let r = compile(steps, &["set!"]);
    assert_eq!(
        r.err(),
        Some(QueryError::Predicate("Wrong number of arguments to set! predicate. Expected 2, got 12.".to_string()))
    );
}

#[test]
fn argument_kinds_are_checked() {
    let r = compile(vec![lit(0), lit(1), cap(0)], &["eq?", "lit"]);
    assert_eq!(
        r.err(),
        Some(QueryError::Predicate(
            "First argument to eq? predicate must be a capture name. Got literal \"lit\".".to_string()
        ))
    );
    let r = compile(vec![lit(0), cap(0), cap(1)], &["match?"]);
    assert_eq!(
        r.err(),
        Some(QueryError::Predicate(
            "Second argument to match? predicate must be a literal. Got capture @b.".to_string()
        ))
    );
    let r = compile(vec![lit(0), cap(0), lit(0)], &["set!"]);
    assert_eq!(
        r.err(),
        Some(QueryError::Predicate("Argument to set! predicate must be strings.".to_string()))
    );
    let r = compile(vec![cap(1), lit(0)], &["eq?"]);
    assert_eq!(
        r.err(),
        Some(QueryError::Predicate(
            "Expected predicate to start with a function name. Got @b.".to_string()
        ))
    );
}

#[test]
fn invalid_match_regex_is_rejected() {
    let r = compile(vec![lit(0), cap(0), lit(1)], &["match?", "("]);
    assert_eq!(r.err(), Some(QueryError::Predicate("Invalid regex '('".to_string())));
}

#[test]
fn first_error_wins_across_patterns() {
    let r = Query::new(
        strings(&["a"]),
        strings(&["foo?", "bar?"]),
        vec![vec![lit(0)], vec![lit(1)]],
    );
    assert_eq!(
        r.err(),
        Some(QueryError::Predicate("Unknown query predicate function foo?".to_string()))
    );
}
