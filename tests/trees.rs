use tree_inspect::first_error::{describe_error, find_first_error};
use tree_inspect::line_render::NodeTreeWithRangesLine;
use tree_inspect::markup::TagMarkup;
use tree_inspect::position::Point;
use tree_inspect::render::{NodeTree, NodeTreeWithRanges, RenderStep, StepRender};
use tree_inspect::stats::Stats;
use tree_inspect::traversal::{traversal_steps, Step};
use tree_inspect::tree::{NodeInfo, SyntaxTree};

fn node(kind: &str, named: bool, field: Option<&str>, bytes: (usize, usize), end: usize) -> NodeInfo {
    NodeInfo {
        kind: kind.to_string(),
        is_named: named,
        field_name: field.map(|f| f.to_string()),
        start_byte: bytes.0,
        end_byte: bytes.1,
        start_position: Point { row: 0, column: bytes.0 },
        end_position: Point { row: 0, column: bytes.1 },
        has_error: false,
        is_error: false,
        is_missing: false,
        subtree_end: end,
    }
}

fn render<R: RenderStep>(t: &SyntaxTree, strategy: R, show_all: bool) -> String {
    StepRender::new(strategy).show_all(show_all).render(t)
}

/// `1+` with the right operand missing.
fn one_plus() -> SyntaxTree {
    let mut nodes = vec![
        node("program", true, None, (0, 2), 5),
        node("binary_expression", true, None, (0, 2), 5),
        node("number", true, Some("left"), (0, 1), 3),
        node("+", false, Some("operator"), (1, 2), 4),
        node("identifier", true, Some("right"), (2, 2), 5),
    ];
    nodes[0].has_error = true;
    nodes[1].has_error = true;
    nodes[4].has_error = true;
    nodes[4].is_missing = true;
    SyntaxTree { nodes }
}

#[test]
fn ranged_rendering_shows_missing_operand() {
    let t = one_plus();
    let out = render(&t, NodeTreeWithRanges, false);
    assert_eq!(
        out,
        "(program [0, 0] - [0, 2]\n  (binary_expression [0, 0] - [0, 2]\n    left: (number [0, 0] - [0, 1])\n    right: (identifier [0, 2] - [0, 2])))"
    );
    assert!(out.contains("(identifier [0, 2] - [0, 2]"));
    assert_eq!(find_first_error(&t), Some(4));
}

#[test]
fn plain_rendering_names_kinds_only() {
    let t = one_plus();
    assert_eq!(
        render(&t, NodeTree(false), false),
        "program\n  binary_expression\n    left: number\n    right: identifier"
    );
    assert_eq!(
        render(&t, NodeTree(true), true),
        "program [0, 0] - [0, 2]\n  binary_expression [0, 0] - [0, 2]\n    left: number [0, 0] - [0, 1]\n    operator: + [0, 1] - [0, 2]\n    right: identifier [0, 2] - [0, 2]"
    );
}

#[test]
fn traversal_enters_and_leaves_each_shown_node_once() {
    let t = one_plus();
    for show_all in [false, true] {
        let steps = traversal_steps(&t, show_all);
        let enters: Vec<usize> = steps
            .iter()
            .filter_map(|s| match s {
                Step::Node { node, .. } => Some(*node),
                _ => None,
            })
            .collect();
        let leaves = steps.iter().filter(|s| matches!(s, Step::AfterChildren { .. })).count();
        let expected: Vec<usize> = if show_all { vec![0, 1, 2, 3, 4] } else { vec![0, 1, 2, 4] };
        assert_eq!(enters, expected);
        assert_eq!(leaves, expected.len());
    }
}

#[test]
fn single_node_tree() {
    let t = SyntaxTree { nodes: vec![node("source_file", true, None, (0, 0), 1)] };
    assert_eq!(traversal_steps(&t, false), vec![
        Step::Indent { node: 0, indent_level: 0 },
        Step::Node { node: 0, indent_level: 0 },
        Step::AfterChildren { node: 0 },
    ]);
    assert_eq!(render(&t, NodeTreeWithRanges, false), "(source_file [0, 0] - [0, 0])");
    assert_eq!(find_first_error(&t), None);
}

#[test]
fn first_error_follows_first_children() {
    let mut t = one_plus();
    t.nodes[4].is_missing = false;
    t.nodes[2].has_error = true;
    t.nodes[2].is_error = true;
    assert_eq!(find_first_error(&t), Some(2));
}

#[test]
fn first_error_does_not_climb_back() {
    // root -> a (flagged, but nothing below it is) , b (an error)
    let mut nodes = vec![
        node("root", true, None, (0, 3), 4),
        node("a", true, None, (0, 1), 3),
        node("a_child", true, None, (0, 1), 3),
        node("ERROR", true, None, (1, 3), 4),
    ];
    nodes[0].has_error = true;
    nodes[1].has_error = true;
    nodes[3].has_error = true;
    nodes[3].is_error = true;
    let t = SyntaxTree { nodes };
    assert_eq!(find_first_error(&t), None);
}

#[test]
fn first_error_scans_siblings_of_clean_nodes() {
    let mut nodes = vec![
        node("root", true, None, (0, 3), 4),
        node("a", true, None, (0, 1), 2),
        node("b", true, None, (1, 2), 3),
        node("ERROR", true, None, (2, 3), 4),
    ];
    nodes[0].has_error = true;
    nodes[3].has_error = true;
    nodes[3].is_error = true;
    let t = SyntaxTree { nodes };
    assert_eq!(find_first_error(&t), Some(3));
}

const LINE: &str = "\x1b[38;2;122;209;143m";
const FIELD: &str = "\x1b[38;2;177;220;253m";
const COMMENT: &str = "\x1b[38;2;118;118;118m";
const NONTERM: &str = "\x1b[38;2;117;187;253m";
const TERM: &str = "\x1b[38;2;219;219;173m";
const RESET: &str = "\x1b[0m";

#[test]
fn line_rendering_with_colours_and_values() {
    let t = one_plus();
    let src = b"1+".to_vec();
    let r = NodeTreeWithRangesLine::new().dquote_unnamed(true).show_node_values(Some(&src));
    let out = render(&t, r, true);
    let lines: Vec<&str> = out.split('\n').collect();
    assert_eq!(lines.len(), 5);
    let pad = "      ";
    assert_eq!(lines[0], format!("{LINE}0:0  - 0:2  {RESET}  {NONTERM}program{RESET}"));
    assert_eq!(
        lines[1],
        format!("0:0  - 0:2      {NONTERM}binary_expression{RESET}")
    );
    assert_eq!(
        lines[2],
        format!("0:0  - 0:1  {pad}{FIELD}left: {RESET}{NONTERM}number{RESET} `{COMMENT}1{RESET}`")
    );
    assert_eq!(lines[3], format!("0:1  - 0:2  {pad}{FIELD}operator: {RESET}{TERM}\"+\"{RESET}"));
    assert_eq!(
        lines[4],
        format!("0:2  - 0:2  {pad}{FIELD}right: {RESET}{NONTERM}identifier{RESET} `{COMMENT}{RESET}`")
    );
}

#[test]
fn line_rendering_shows_value_of_node_with_only_unnamed_children() {
    // "ab" as a string literal whose children are its two quote marks.
    let src = b"\"ab\"".to_vec();
    let t = SyntaxTree {
        nodes: vec![
            node("string", true, None, (0, 4), 3),
            node("\"", false, None, (0, 1), 2),
            node("\"", false, None, (3, 4), 3),
        ],
    };
    let r = NodeTreeWithRangesLine::new().show_node_values(Some(&src));
    let out = render(&t, r, false);
    assert_eq!(out, format!("{LINE}0:0  - 0:4  {RESET}  {NONTERM}string{RESET} `{COMMENT}\"ab\"{RESET}`"));
}

#[test]
fn line_rendering_escapes_punctuation() {
    let t = SyntaxTree {
        nodes: vec![node("doc", true, None, (0, 0), 2), node("\"\\\t\n\r", false, None, (0, 0), 2)],
    };
    let r = NodeTreeWithRangesLine::new().dquote_unnamed(true);
    let out = render(&t, r, true);
    assert!(out.ends_with(&format!("{TERM}\"\\\"\\\\\\t\\n\\r\"{RESET}")));
    let bare = NodeTreeWithRangesLine::new();
    let out = render(&t, bare, true);
    assert!(out.ends_with(&format!("{NONTERM}\"\\\t\n\r{RESET}")));
}

#[test]
fn markup_rendering_escapes_leaf_text() {
    let src = b"a<b&".to_vec();
    let t = SyntaxTree {
        nodes: vec![
            node("expr", true, None, (0, 4), 4),
            node("id", true, Some("lhs"), (0, 1), 2),
            node("<", false, None, (1, 2), 3),
            node("rest", true, None, (2, 4), 4),
        ],
    };
    let out = render(&t, TagMarkup::new(&src), true);
    assert_eq!(out, "<expr>\n  <id type=\"lhs\">a</id>\n&lt;\n  <rest>b&amp;</rest>\n</expr>\n");
}

#[test]
fn stats_count_failures() {
    let s = Stats { successful_parses: 3, total_parses: 5 };
    assert_eq!(s.failed_parses(), 2);
}

#[test]
fn reported_errors_are_described() {
    let t = one_plus();
    assert_eq!(describe_error(&t.nodes[4]), "(MISSING identifier [0, 2] - [0, 2])");
    let mut n = t.nodes[3].clone();
    n.is_missing = true;
    n.kind = "a\nb".to_string();
    assert_eq!(describe_error(&n), "(MISSING \"a\\nb\" [0, 1] - [0, 2])");
    n.is_missing = false;
    n.kind = "ERROR".to_string();
    assert_eq!(describe_error(&n), "(ERROR [0, 1] - [0, 2])");
}
