use graph_view::dot_layout::{
    check_graph_for_layout, is_dag, is_id_continue, is_id_start, parse_dot_to_digraph,
    try_parse_dot_to_digraph, DotError, ExpectByteError, GraphShapeError, NodeIdError,
};
use petgraph::algo::is_cyclic_directed;
use petgraph::visit::EdgeRef;

const SIMPLE: &str = r#"
digraph {
  "a" -> "b";
  "b" -> "c";
}
"#;

fn node_names(dot: &str) -> Vec<String> {
    let parsed = parse_dot_to_digraph(dot).expect("parse");
    parsed.graph.node_weights().cloned().collect()
}

fn edge_pairs(dot: &str) -> Vec<(usize, usize)> {
    let parsed = parse_dot_to_digraph(dot).expect("parse");
    parsed
        .graph
        .edge_references()
        .map(|e| (e.source().index(), e.target().index()))
        .collect()
}

fn parse_error(dot: &str) -> DotError {
    match parse_dot_to_digraph(dot) {
        Ok(_) => panic!("expected an error"),
        Err(e) => e,
    }
}

#[test]
fn parses_chain_dag() {
    let parsed = parse_dot_to_digraph(SIMPLE).expect("parse");
    assert_eq!(parsed.graph.node_count(), 3);
    assert!(is_dag(&parsed.graph));
}

#[test]
fn detects_two_node_cycle() {
    let dot = r#"
digraph {
  "a" -> "b";
  "b" -> "a";
}
"#;
    let parsed = parse_dot_to_digraph(dot).expect("parse");
    assert_eq!(parsed.graph.node_count(), 2);
    assert!(!is_dag(&parsed.graph));
    assert!(is_cyclic_directed(&parsed.graph));
}

#[test]
fn chain_nodes_and_edges_in_order() {
    assert_eq!(node_names(SIMPLE), vec!["a", "b", "c"]);
    assert_eq!(edge_pairs(SIMPLE), vec![(0, 1), (1, 2)]);
}

#[test]
fn repeated_ids_share_one_node() {
    let dot = "digraph { a -> b; b -> a; a; c -> a }";
    assert_eq!(node_names(dot), vec!["a", "b", "c"]);
    assert_eq!(edge_pairs(dot), vec![(0, 1), (1, 0), (2, 0)]);
}

#[test]
fn self_loop_is_a_cycle() {
    let parsed = parse_dot_to_digraph("digraph { x -> x }").expect("parse");
    assert_eq!(parsed.graph.node_count(), 1);
    assert!(!is_dag(&parsed.graph));
}

#[test]
fn empty_digraph_is_a_dag() {
    let parsed = parse_dot_to_digraph("digraph {}").expect("parse");
    assert_eq!(parsed.graph.node_count(), 0);
    assert_eq!(parsed.graph.edge_count(), 0);
    assert!(is_dag(&parsed.graph));
}

#[test]
fn strict_and_graph_id_are_accepted() {
    let dot = "  strict digraph G {\n\"[root] a\" -> b.c-d;\n}\n";
    assert_eq!(node_names(dot), vec!["[root] a", "b.c-d"]);
    assert_eq!(node_names("digraph \"my graph\"{ a }"), vec!["a"]);
    assert_eq!(node_names("strict\tdigraph{a -> b}"), vec!["a", "b"]);
}

#[test]
fn quoted_ids_keep_non_ascii_text() {
    assert_eq!(node_names("digraph { \"caf\u{e9} \u{20ac}\" -> z }"), vec!["caf\u{e9} \u{20ac}", "z"]);
}

#[test]
fn hyphen_continues_an_unquoted_id() {
    // `-` may continue an unquoted id, so `a->b` reads the id `a-` and then fails at `>`.
    assert_eq!(
        parse_error("digraph{a->b}"),
        DotError::ExpectedStatement(NodeIdError::NotAnId { offset: 10 })
    );
    assert_eq!(node_names("digraph{\"a\"->b}"), vec!["a", "b"]);
}

#[test]
fn semicolons_are_optional() {
    assert_eq!(edge_pairs("digraph { a -> b c -> d ; e }"), vec![(0, 1), (2, 3)]);
    assert_eq!(node_names("digraph { a -> b c -> d ; e }").len(), 5);
}

#[test]
fn keyword_must_stand_alone() {
    assert_eq!(parse_error("digraphx { a }"), DotError::MissingDigraphKeyword);
    assert_eq!(parse_error("graph { a }"), DotError::MissingDigraphKeyword);
    assert_eq!(parse_error("stricter digraph { a }"), DotError::MissingDigraphKeyword);
    assert_eq!(parse_error(""), DotError::MissingDigraphKeyword);
}

#[test]
fn invalid_graph_id_is_reported() {
    assert_eq!(
        parse_error("digraph 1 { a }"),
        DotError::InvalidGraphId(NodeIdError::NotAnId { offset: 8 })
    );
}

#[test]
fn missing_open_brace_is_reported() {
    assert_eq!(
        parse_error("digraph G ; a }"),
        DotError::MissingOpenBrace(ExpectByteError::Found {
            expected: b'{',
            found: b';',
            offset: 10,
        })
    );
    assert_eq!(
        parse_error("digraph G"),
        DotError::MissingOpenBrace(ExpectByteError::EndOfInput { expected: b'{' })
    );
}

#[test]
fn unclosed_and_trailing_content_are_reported() {
    assert_eq!(parse_error("digraph { a -> b"), DotError::Unclosed);
    assert_eq!(parse_error("digraph { a } x"), DotError::TrailingContent);
    assert!(parse_dot_to_digraph("digraph { a }  \n").is_ok());
}

#[test]
fn statement_errors_are_reported() {
    assert_eq!(
        parse_error("digraph { a [label=x] }"),
        DotError::ExpectedStatement(NodeIdError::NotAnId { offset: 12 })
    );
    assert_eq!(
        parse_error("digraph { a -> ; }"),
        DotError::ExpectedTarget(NodeIdError::NotAnId { offset: 15 })
    );
    assert_eq!(
        parse_error("digraph { \"a\\\"b\" }"),
        DotError::ExpectedStatement(NodeIdError::EscapeSequence { offset: 12 })
    );
    assert_eq!(
        parse_error("digraph { \"abc }"),
        DotError::ExpectedStatement(NodeIdError::Unterminated { start: 10 })
    );
}

#[test]
fn text_cut_inside_a_character_is_an_error() {
    assert_eq!(parse_error("\u{20ac}\u{20ac}\u{20ac}"), DotError::MissingDigraphKeyword);
    assert_eq!(parse_error("abcde\u{20ac}xyz"), DotError::MissingDigraphKeyword);
    assert_eq!(parse_error("strict abcdef\u{20ac}"), DotError::MissingDigraphKeyword);
    assert_eq!(parse_error("stric\u{20ac} digraph {}"), DotError::MissingDigraphKeyword);
}

#[test]
fn try_parse_agrees_on_ordinary_texts() {
    match try_parse_dot_to_digraph(SIMPLE) {
        Some(Ok(parsed)) => assert_eq!(parsed.graph.node_count(), 3),
        _ => panic!("expected a graph"),
    }
    match try_parse_dot_to_digraph("digraph {") {
        Some(Err(e)) => assert_eq!(e, DotError::Unclosed),
        _ => panic!("expected an error"),
    }
}

#[test]
fn layout_needs_a_nonempty_acyclic_graph() {
    let empty = parse_dot_to_digraph("digraph {}").expect("parse");
    assert_eq!(check_graph_for_layout(&empty.graph), Err(GraphShapeError::Empty));
    let cyclic = parse_dot_to_digraph("digraph { a -> b; b -> a }").expect("parse");
    assert_eq!(check_graph_for_layout(&cyclic.graph), Err(GraphShapeError::Cycle));
    let chain = parse_dot_to_digraph(SIMPLE).expect("parse");
    assert_eq!(check_graph_for_layout(&chain.graph), Ok(()));
}

#[test]
fn long_chain_cycle_check_does_not_exhaust_the_stack() {
    let mut dot = String::from("digraph {\n");
    for i in 0..20_000 {
        dot.push_str(&format!("n{} -> n{};\n", i, i + 1));
    }
    dot.push('}');
    let parsed = parse_dot_to_digraph(&dot).expect("parse");
    assert_eq!(parsed.graph.node_count(), 20_001);
    assert!(is_dag(&parsed.graph));
}

#[test]
fn id_byte_classes() {
    assert!(is_id_start(b'a') && is_id_start(b'Z') && is_id_start(b'_'));
    assert!(!is_id_start(b'1') && !is_id_start(b'-') && !is_id_start(b'"'));
    assert!(is_id_continue(b'1') && is_id_continue(b'.') && is_id_continue(b'-'));
    assert!(!is_id_continue(b' ') && !is_id_continue(b'[') && !is_id_continue(0xc3));
}

#[test]
fn graph_holds_each_named_id_once_and_each_edge_in_order() {
    let dot = "digraph { b; a -> b; c -> a; a -> b }";
    let parsed = parse_dot_to_digraph(dot).expect("parse");
    let names: Vec<String> = parsed.graph.node_weights().cloned().collect();
    assert_eq!(names, vec!["b", "a", "c"]);
    let named: Vec<(String, String)> = parsed
        .graph
        .edge_references()
        .map(|e| (names[e.source().index()].clone(), names[e.target().index()].clone()))
        .collect();
    assert_eq!(
        named,
        vec![
            ("a".to_string(), "b".to_string()),
            ("c".to_string(), "a".to_string()),
            ("a".to_string(), "b".to_string()),
        ]
    );
}
