use complexity_core::extract::{
    analyze_source, failure_metrics, get_function_name, get_parameter_count, line_count,
    metrics_for_tree,
};
use complexity_core::lang::SupportedLanguage;
use complexity_core::tree::SyntaxNode;

fn node(kind: &str, children: Vec<SyntaxNode>) -> SyntaxNode {
    SyntaxNode {
        kind: kind.to_string(),
        field: None,
        text: String::new(),
        start_row: 0,
        end_row: 0,
        children,
    }
}

fn named(kind: &str, field: &str, text: &str) -> SyntaxNode {
    SyntaxNode {
        kind: kind.to_string(),
        field: Some(field.to_string()),
        text: text.to_string(),
        start_row: 0,
        end_row: 0,
        children: Vec::new(),
    }
}

#[test]
fn line_count_matches_text_lines() {
    assert_eq!(line_count(&b"".to_vec()), 0);
    assert_eq!(line_count(&b"a".to_vec()), 1);
    assert_eq!(line_count(&b"a\n".to_vec()), 1);
    assert_eq!(line_count(&b"a\nb".to_vec()), 2);
    assert_eq!(line_count(&b"a\r\nb\r\n".to_vec()), 2);
    assert_eq!(line_count(&b"\n\n".to_vec()), 2);
}

#[test]
fn failed_parse_keeps_lines_and_nothing_else() {
    let fm = failure_metrics("src/x.py", SupportedLanguage::Python, &b"a\nb\nc".to_vec());
    assert_eq!(fm.path, "src/x.py");
    assert_eq!(fm.language, SupportedLanguage::Python);
    assert_eq!(fm.lines_of_code, 3);
    assert_eq!(fm.function_count, 0);
    assert_eq!(fm.class_count, 0);
    assert_eq!(fm.avg_complexity_centi, 0);
    assert_eq!(fm.max_complexity, 0);
    assert!(!fm.parse_success);
    assert!(fm.functions.is_empty());
}

#[test]
fn function_names_follow_declared_relations() {
    // A direct name child.
    let mut f = node("function_definition", vec![named("identifier", "name", "compute")]);
    assert_eq!(get_function_name(&f), "compute");
    // A declarator wrapper unwraps one level.
    let inner = named("identifier", "declarator", "handler");
    let wrapper = SyntaxNode {
        kind: "function_declarator".to_string(),
        field: Some("declarator".to_string()),
        text: "handler(int)".to_string(),
        start_row: 0,
        end_row: 0,
        children: vec![inner],
    };
    f = node("function_definition", vec![wrapper]);
    assert_eq!(get_function_name(&f), "handler");
    // Fallback to the first identifier child.
    let mut anon = node("function_expression", vec![node("statement_block", vec![])]);
    assert_eq!(get_function_name(&anon), "<anonymous>");
    anon.children.insert(
        0,
        SyntaxNode {
            kind: "identifier".to_string(),
            field: None,
            text: "fallback".to_string(),
            start_row: 0,
            end_row: 0,
            children: Vec::new(),
        },
    );
    assert_eq!(get_function_name(&anon), "fallback");
}

#[test]
fn parameter_counting_uses_the_fixed_kind_set() {
    let params = SyntaxNode {
        kind: "parameters".to_string(),
        field: Some("parameters".to_string()),
        text: String::new(),
        start_row: 0,
        end_row: 0,
        children: vec![
            node("(", vec![]),
            node("identifier", vec![]),
            node(",", vec![]),
            node("typed_parameter", vec![]),
            node(")", vec![]),
        ],
    };
    let f = node("function_definition", vec![params]);
    assert_eq!(get_parameter_count(&f), 2);
    let bare = node("function_definition", vec![]);
    assert_eq!(get_parameter_count(&bare), 0);
}

#[test]
fn metrics_for_tree_collects_functions_in_document_order() {
    let inner = SyntaxNode {
        kind: "function_definition".to_string(),
        field: None,
        text: String::new(),
        start_row: 2,
        end_row: 3,
        children: vec![node("block", vec![node("if_statement", vec![])])],
    };
    let outer = SyntaxNode {
        kind: "function_definition".to_string(),
        field: None,
        text: String::new(),
        start_row: 0,
        end_row: 4,
        children: vec![SyntaxNode {
            kind: "block".to_string(),
            field: None,
            text: String::new(),
            start_row: 1,
            end_row: 4,
            children: vec![inner],
        }],
    };
    let root = SyntaxNode {
        kind: "module".to_string(),
        field: None,
        text: String::new(),
        start_row: 0,
        end_row: 4,
        children: vec![outer, node("class_definition", vec![])],
    };
    let fm = metrics_for_tree("m.py", SupportedLanguage::Python, &b"a\nb\nc\nd\ne".to_vec(), &root);
    assert!(fm.parse_success);
    assert_eq!(fm.function_count, 2);
    assert_eq!(fm.class_count, 1);
    assert_eq!(fm.lines_of_code, 5);
    // The outer function sees the nested function's decision point too.
    assert_eq!(fm.functions[0].cyclomatic_complexity, 2);
    assert_eq!(fm.functions[0].line, 1);
    assert_eq!(fm.functions[0].end_line, 5);
    assert_eq!(fm.functions[0].lines_of_code, 5);
    assert_eq!(fm.functions[1].cyclomatic_complexity, 2);
    assert_eq!(fm.functions[1].line, 3);
    // avg of [2, 2] is 2.00; hundredths.
    assert_eq!(fm.avg_complexity_centi, 200);
    assert_eq!(fm.max_complexity, 2);
}

#[test]
fn average_complexity_rounds_half_up_in_hundredths() {
    let f1 = SyntaxNode {
        kind: "function_item".to_string(),
        field: None,
        text: String::new(),
        start_row: 0,
        end_row: 0,
        children: vec![node("block", vec![node("if_expression", vec![])])],
    };
    let f2 = node("function_item", vec![]);
    let f3 = node("function_item", vec![]);
    let root = node("source_file", vec![f1, f2, f3]);
    let fm = metrics_for_tree("m.rs", SupportedLanguage::Rust, &b"x".to_vec(), &root);
    // cyclomatics [2, 1, 1]: average 4/3 = 1.3333..., held as 133.
    assert_eq!(fm.avg_complexity_centi, 133);
    assert_eq!(fm.max_complexity, 2);
}

#[test]
fn python_source_parses_end_to_end() {
    let src = b"def f(x):\n    if x and x:\n        return 1\n    return 0\n".to_vec();
    let fm = analyze_source("pkg/f.py", "py", &src).expect("supported extension");
    assert!(fm.parse_success);
    assert_eq!(fm.language, SupportedLanguage::Python);
    assert_eq!(fm.lines_of_code, 4);
    assert_eq!(fm.function_count, 1);
    let f = &fm.functions[0];
    assert_eq!(f.name, "f");
    assert_eq!(f.file, "pkg/f.py");
    assert_eq!(f.line, 1);
    assert_eq!(f.cyclomatic_complexity, 3);
    assert_eq!(f.parameter_count, 1);
    assert_eq!(fm.max_complexity, 3);
    assert_eq!(fm.avg_complexity_centi, 300);
}

#[test]
fn rust_source_parses_end_to_end() {
    let src = b"fn main() {\n    if true {\n        ()\n    }\n}\n".to_vec();
    let fm = analyze_source("src/main.rs", "rs", &src).expect("supported extension");
    assert!(fm.parse_success);
    assert_eq!(fm.language, SupportedLanguage::Rust);
    assert_eq!(fm.function_count, 1);
    assert_eq!(fm.functions[0].name, "main");
    assert_eq!(fm.functions[0].cyclomatic_complexity, 2);
    assert_eq!(fm.functions[0].parameter_count, 0);
}

#[test]
fn unsupported_extension_yields_nothing() {
    assert!(analyze_source("a.c", "c", &b"int main() {}".to_vec()).is_none());
}
