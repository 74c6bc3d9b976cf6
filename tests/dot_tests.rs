use rs9cc::compile::parse_program;
use rs9cc::dot::Dot;
use rs9cc::node::expr;
use rs9cc::token::TokenExt;

#[test]
fn test_dot_1() {
    let s = "2*3+4*5".to_string();
    let mut tokenizer = s.tokenize().unwrap();

    let node = expr(&mut tokenizer).unwrap();
    let mut dot = Dot::new();
    let s = dot.write(&node);
    assert_eq!(
        s,
        vec![
        "digraph ast_tree {",
        "  0 [ label = plus ];",
        "  2 [ label = mul ];",
        "  1 [ label = mul ];",
        "  4 [ label = 4 ];",
        "  3 [ label = 5 ];",
        "  6 [ label = 2 ];",
        "  5 [ label = 3 ];",
        "  0 -> 1;",
        "  0 -> 2;",
        "  1 -> 3;",
        "  1 -> 4;",
        "  2 -> 5;",
        "  2 -> 6;",
        "}",
        ].join("\n")
    )
}

#[test]
fn single_number_declares_its_node() {
    let node = parse_program("42").unwrap();
    let mut dot = Dot::new();
    assert_eq!(dot.write(&node), "digraph ast_tree {\n  0 [ label = 42 ];\n\n}");
}

#[test]
fn node_and_edge_counts() {
    let node = parse_program("2*3+4*5").unwrap();
    let out = Dot::new().write(&node);
    let nodes = out.lines().filter(|l| l.contains("label")).count();
    let edges = out.lines().filter(|l| l.contains("->")).count();
    assert_eq!(nodes, 7);
    assert_eq!(edges, 6);

    let node = parse_program("(1+2)*(3/4)").unwrap();
    let out = Dot::new().write(&node);
    assert_eq!(out.lines().filter(|l| l.contains("label")).count(), 11 - 4);
    assert_eq!(out.lines().filter(|l| l.contains("->")).count(), 2 * 3);
}

#[test]
fn numbers_past_nine_are_written_in_decimal() {
    let node = parse_program("1+2+3+4+5+6").unwrap();
    let out = Dot::new().write(&node);
    assert!(out.contains("\n  10 [ label = 1 ];"));
    assert!(out.contains("\n  8 -> 10;"));
    assert!(out.contains("\n  0 -> 1;"));
}
