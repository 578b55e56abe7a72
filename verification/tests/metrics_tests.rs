use complexity_core::lang::SupportedLanguage;
use complexity_core::metrics::{
    calculate_cognitive_complexity, calculate_cyclomatic_complexity, calculate_max_nesting_depth,
    count_boolean_operators,
};
use complexity_core::tree::{count_nodes_bounded, rows_ok, SyntaxNode};

fn node(kind: &str, children: Vec<SyntaxNode>) -> SyntaxNode {
    SyntaxNode {
        kind: kind.to_string(),
        field: None,
        text: String::new(),
        start_row: 0,
        end_row: 0,
        children,
    }
}

fn token(kind: &str, text: &str) -> SyntaxNode {
    SyntaxNode {
        kind: kind.to_string(),
        field: None,
        text: text.to_string(),
        start_row: 0,
        end_row: 0,
        children: Vec::new(),
    }
}

#[test]
fn straight_line_function_has_base_metrics() {
    let f = node(
        "function_definition",
        vec![node("block", vec![token("return_statement", "return 1")])],
    );
    assert_eq!(calculate_cyclomatic_complexity(&f, SupportedLanguage::Python), 1);
    assert_eq!(calculate_cognitive_complexity(&f, SupportedLanguage::Python), 0);
    assert_eq!(calculate_max_nesting_depth(&f, SupportedLanguage::Python), 0);
}

#[test]
fn conditional_holding_loop_scores_three_three_two() {
    let inner_loop = node("for_statement", vec![node("block", vec![])]);
    let cond = node("if_statement", vec![node("block", vec![inner_loop])]);
    let f = node("function_definition", vec![node("block", vec![cond])]);
    assert_eq!(calculate_cyclomatic_complexity(&f, SupportedLanguage::Python), 3);
    assert_eq!(calculate_cognitive_complexity(&f, SupportedLanguage::Python), 3);
    assert_eq!(calculate_max_nesting_depth(&f, SupportedLanguage::Python), 2);
}

#[test]
fn short_circuit_and_adds_one_path() {
    let guard = node(
        "boolean_operator",
        vec![token("identifier", "a"), token("and", "and"), token("identifier", "b")],
    );
    let cond = node("if_statement", vec![guard, node("block", vec![])]);
    let f = node("function_definition", vec![node("block", vec![cond])]);
    assert_eq!(calculate_cyclomatic_complexity(&f, SupportedLanguage::Python), 3);
    assert_eq!(count_boolean_operators(&f, SupportedLanguage::Python), 1);
}

#[test]
fn boolean_operators_count_only_under_operator_nodes() {
    let loose = token("and", "and");
    let f = node("function_definition", vec![node("block", vec![loose])]);
    assert_eq!(count_boolean_operators(&f, SupportedLanguage::Python), 0);

    let bin = node(
        "binary_expression",
        vec![token("identifier", "a"), token("&&", "&&"), token("identifier", "b")],
    );
    let g = node("function_declaration", vec![node("statement_block", vec![bin])]);
    assert_eq!(count_boolean_operators(&g, SupportedLanguage::JavaScript), 1);
}

#[test]
fn cognitive_complexity_rewards_nesting() {
    // if { if { if } }: contributions 1, 2, 3.
    let third = node("if_statement", vec![]);
    let second = node("if_statement", vec![node("block", vec![third])]);
    let first = node("if_statement", vec![node("block", vec![second])]);
    let f = node("function_definition", vec![node("block", vec![first])]);
    assert_eq!(calculate_cognitive_complexity(&f, SupportedLanguage::Python), 6);
    assert_eq!(calculate_max_nesting_depth(&f, SupportedLanguage::Python), 3);
    // Flat sequence of three conditionals: 1 + 1 + 1.
    let flat = node(
        "function_definition",
        vec![node(
            "block",
            vec![
                node("if_statement", vec![]),
                node("if_statement", vec![]),
                node("if_statement", vec![]),
            ],
        )],
    );
    assert_eq!(calculate_cognitive_complexity(&flat, SupportedLanguage::Python), 3);
}

#[test]
fn rust_decision_kinds_count() {
    let arm1 = node("match_arm", vec![]);
    let arm2 = node("match_arm", vec![]);
    let m = node("match_expression", vec![arm1, arm2]);
    let w = node("while_expression", vec![node("block", vec![m])]);
    let f = node("function_item", vec![node("block", vec![w])]);
    // base 1 + while 1 + two arms.
    assert_eq!(calculate_cyclomatic_complexity(&f, SupportedLanguage::Rust), 4);
}

#[test]
fn node_counting_and_row_checks() {
    let f = node("function_definition", vec![node("block", vec![token("pass_statement", "pass")])]);
    assert_eq!(count_nodes_bounded(&f), Some(3));
    assert!(rows_ok(&f));
    let bad = SyntaxNode {
        kind: "block".to_string(),
        field: None,
        text: String::new(),
        start_row: 5,
        end_row: 2,
        children: Vec::new(),
    };
    assert!(!rows_ok(&bad));
}
