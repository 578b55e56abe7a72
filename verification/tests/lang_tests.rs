use complexity_core::lang::{
    is_binary_node, is_boolean_operator, is_class_node, is_decision_point, is_function_node,
    is_nesting_node, SupportedLanguage,
};

#[test]
fn extensions_select_languages() {
    assert_eq!(SupportedLanguage::from_extension("py"), Some(SupportedLanguage::Python));
    assert_eq!(SupportedLanguage::from_extension("js"), Some(SupportedLanguage::JavaScript));
    assert_eq!(SupportedLanguage::from_extension("mjs"), Some(SupportedLanguage::JavaScript));
    assert_eq!(SupportedLanguage::from_extension("cjs"), Some(SupportedLanguage::JavaScript));
    assert_eq!(SupportedLanguage::from_extension("jsx"), Some(SupportedLanguage::JavaScript));
    assert_eq!(SupportedLanguage::from_extension("ts"), Some(SupportedLanguage::TypeScript));
    assert_eq!(SupportedLanguage::from_extension("tsx"), Some(SupportedLanguage::TypeScript));
    assert_eq!(SupportedLanguage::from_extension("go"), Some(SupportedLanguage::Go));
    assert_eq!(SupportedLanguage::from_extension("rs"), Some(SupportedLanguage::Rust));
    assert_eq!(SupportedLanguage::from_extension("java"), Some(SupportedLanguage::Java));
    assert_eq!(SupportedLanguage::from_extension("c"), None);
    assert_eq!(SupportedLanguage::from_extension(""), None);
}

#[test]
fn language_names() {
    assert_eq!(SupportedLanguage::Python.name(), "python");
    assert_eq!(SupportedLanguage::JavaScript.name(), "javascript");
    assert_eq!(SupportedLanguage::TypeScript.name(), "typescript");
    assert_eq!(SupportedLanguage::Go.name(), "go");
    assert_eq!(SupportedLanguage::Rust.name(), "rust");
    assert_eq!(SupportedLanguage::Java.name(), "java");
}

#[test]
fn function_kinds_per_language() {
    assert!(is_function_node("function_definition", SupportedLanguage::Python));
    assert!(!is_function_node("function_declaration", SupportedLanguage::Python));
    assert!(is_function_node("arrow_function", SupportedLanguage::JavaScript));
    assert!(is_function_node("method_definition", SupportedLanguage::TypeScript));
    assert!(is_function_node("method_declaration", SupportedLanguage::Go));
    assert!(is_function_node("function_item", SupportedLanguage::Rust));
    assert!(is_function_node("constructor_declaration", SupportedLanguage::Java));
    assert!(!is_function_node("constructor_declaration", SupportedLanguage::Go));
}

#[test]
fn decision_kinds_per_language() {
    assert!(is_decision_point("elif_clause", SupportedLanguage::Python));
    assert!(is_decision_point("conditional_expression", SupportedLanguage::Python));
    assert!(!is_decision_point("conditional_expression", SupportedLanguage::Go));
    assert!(is_decision_point("ternary_expression", SupportedLanguage::JavaScript));
    assert!(is_decision_point("switch_case", SupportedLanguage::TypeScript));
    assert!(is_decision_point("type_case", SupportedLanguage::Go));
    assert!(is_decision_point("if_let_expression", SupportedLanguage::Rust));
    assert!(is_decision_point("enhanced_for_statement", SupportedLanguage::Java));
    assert!(!is_decision_point("loop_expression", SupportedLanguage::Java));
}

#[test]
fn nesting_kinds_are_decision_kinds() {
    // The ternary forms count as decisions but not as nesting.
    assert!(!is_nesting_node("conditional_expression", SupportedLanguage::Python));
    assert!(!is_nesting_node("ternary_expression", SupportedLanguage::JavaScript));
    assert!(!is_nesting_node("ternary_expression", SupportedLanguage::Java));
    assert!(is_nesting_node("match_arm", SupportedLanguage::Rust));
    assert!(is_nesting_node("catch_clause", SupportedLanguage::Java));
}

#[test]
fn boolean_operator_spellings() {
    assert!(is_boolean_operator("and", SupportedLanguage::Python));
    assert!(is_boolean_operator("or", SupportedLanguage::Python));
    assert!(!is_boolean_operator("&&", SupportedLanguage::Python));
    assert!(is_boolean_operator("&&", SupportedLanguage::Rust));
    assert!(is_boolean_operator("||", SupportedLanguage::Java));
    assert!(!is_boolean_operator("and", SupportedLanguage::Go));
}

#[test]
fn binary_and_class_kinds() {
    assert!(is_binary_node("binary_expression"));
    assert!(is_binary_node("boolean_operator"));
    assert!(!is_binary_node("unary_expression"));
    assert!(is_class_node("class_definition"));
    assert!(is_class_node("class_declaration"));
    assert!(!is_class_node("struct_item"));
}
