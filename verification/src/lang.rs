use vstd::prelude::*;
use crate::strutil::str_eq;

verus! {

/// The closed set of languages the analyzer understands. Each carries four
/// node-kind classifications (function nodes, decision points, nesting nodes,
/// boolean operator spellings) authored against its grammar's taxonomy.
#[derive(Clone, Copy, PartialEq, Eq, Structural, Debug)]
pub enum SupportedLanguage {
    Python,
    JavaScript,
    TypeScript,
    Go,
    Rust,
    Java,
}

/// The language a file extension selects, or `None` when unsupported.
pub open spec fn spec_lang_of_ext(ext: Seq<char>) -> Option<SupportedLanguage> {
    if ext == "py"@ {
        Some(SupportedLanguage::Python)
    } else if ext == "js"@ || ext == "mjs"@ || ext == "cjs"@ || ext == "jsx"@ {
        Some(SupportedLanguage::JavaScript)
    } else if ext == "ts"@ || ext == "tsx"@ {
        Some(SupportedLanguage::TypeScript)
    } else if ext == "go"@ {
        Some(SupportedLanguage::Go)
    } else if ext == "rs"@ {
        Some(SupportedLanguage::Rust)
    } else if ext == "java"@ {
        Some(SupportedLanguage::Java)
    } else {
        None
    }
}

/// The language's display name.
pub open spec fn spec_lang_name(lang: SupportedLanguage) -> Seq<char> {
    match lang {
        SupportedLanguage::Python => "python"@,
        SupportedLanguage::JavaScript => "javascript"@,
        SupportedLanguage::TypeScript => "typescript"@,
        SupportedLanguage::Go => "go"@,
        SupportedLanguage::Rust => "rust"@,
        SupportedLanguage::Java => "java"@,
    }
}

/// Node kinds that declare a function for the given language.
pub open spec fn is_function_kind(lang: SupportedLanguage, k: Seq<char>) -> bool {
    match lang {
        SupportedLanguage::Python => k == "function_definition"@,
        SupportedLanguage::JavaScript | SupportedLanguage::TypeScript => k
            == "function_declaration"@ || k == "method_definition"@ || k == "arrow_function"@ || k
            == "function_expression"@,
        SupportedLanguage::Go => k == "function_declaration"@ || k == "method_declaration"@,
        SupportedLanguage::Rust => k == "function_item"@,
        SupportedLanguage::Java => k == "method_declaration"@ || k == "constructor_declaration"@,
    }
}

/// Node kinds that introduce a branch in control flow for the given language.
pub open spec fn is_decision_kind(lang: SupportedLanguage, k: Seq<char>) -> bool {
    match lang {
        SupportedLanguage::Python => k == "if_statement"@ || k == "elif_clause"@ || k
            == "for_statement"@ || k == "while_statement"@ || k == "match_statement"@ || k
            == "except_clause"@ || k == "conditional_expression"@,
        SupportedLanguage::JavaScript | SupportedLanguage::TypeScript => k == "if_statement"@ || k
            == "for_statement"@ || k == "for_in_statement"@ || k == "while_statement"@ || k
            == "do_statement"@ || k == "switch_case"@ || k == "catch_clause"@ || k
            == "ternary_expression"@,
        SupportedLanguage::Go => k == "if_statement"@ || k == "for_statement"@ || k
            == "expression_case"@ || k == "type_case"@,
        SupportedLanguage::Rust => k == "if_expression"@ || k == "if_let_expression"@ || k
            == "for_expression"@ || k == "while_expression"@ || k == "loop_expression"@ || k
            == "match_arm"@,
        SupportedLanguage::Java => k == "if_statement"@ || k == "for_statement"@ || k
            == "while_statement"@ || k == "do_statement"@ || k == "enhanced_for_statement"@ || k
            == "switch_label"@ || k == "catch_clause"@ || k == "ternary_expression"@,
    }
}

/// Node kinds that deepen nesting for the given language.
pub open spec fn is_nesting_kind(lang: SupportedLanguage, k: Seq<char>) -> bool {
    match lang {
        SupportedLanguage::Python => k == "if_statement"@ || k == "elif_clause"@ || k
            == "for_statement"@ || k == "while_statement"@ || k == "match_statement"@ || k
            == "except_clause"@,
        SupportedLanguage::JavaScript | SupportedLanguage::TypeScript => k == "if_statement"@ || k
            == "for_statement"@ || k == "for_in_statement"@ || k == "while_statement"@ || k
            == "do_statement"@ || k == "switch_case"@ || k == "catch_clause"@,
        SupportedLanguage::Go => k == "if_statement"@ || k == "for_statement"@ || k
            == "expression_case"@ || k == "type_case"@,
        SupportedLanguage::Rust => k == "if_expression"@ || k == "if_let_expression"@ || k
            == "for_expression"@ || k == "while_expression"@ || k == "loop_expression"@ || k
            == "match_arm"@,
        SupportedLanguage::Java => k == "if_statement"@ || k == "for_statement"@ || k
            == "while_statement"@ || k == "do_statement"@ || k == "enhanced_for_statement"@ || k
            == "switch_label"@ || k == "catch_clause"@,
    }
}

/// Token spellings of the short-circuit boolean operators for the language.
pub open spec fn is_bool_op_text(lang: SupportedLanguage, t: Seq<char>) -> bool {
    match lang {
        SupportedLanguage::Python => t == "and"@ || t == "or"@,
        _ => t == "&&"@ || t == "||"@,
    }
}

/// Node kinds under which boolean operator tokens are looked for.
pub open spec fn is_binary_kind(k: Seq<char>) -> bool {
    k == "binary_expression"@ || k == "boolean_operator"@
}

/// Node kinds that declare a class or type.
pub open spec fn is_class_kind(k: Seq<char>) -> bool {
    k == "class_definition"@ || k == "class_declaration"@
}

/// Every nesting kind is also a decision kind: the nesting sets are subsets
/// of the decision sets in every language profile.
pub proof fn lemma_nesting_kind_is_decision_kind(lang: SupportedLanguage, k: Seq<char>)
    ensures
        is_nesting_kind(lang, k) ==> is_decision_kind(lang, k),
{
}

impl SupportedLanguage {
    /// Maps a file extension to its language, or `None` when no grammar
    /// covers it.
    pub fn from_extension(ext: &str) -> (r: Option<SupportedLanguage>)
        ensures
            r == spec_lang_of_ext(ext@),
    {
        if str_eq(ext, "py") {
            Some(SupportedLanguage::Python)
        } else if str_eq(ext, "js") || str_eq(ext, "mjs") || str_eq(ext, "cjs") || str_eq(
            ext,
            "jsx",
        ) {
            Some(SupportedLanguage::JavaScript)
        } else if str_eq(ext, "ts") || str_eq(ext, "tsx") {
            Some(SupportedLanguage::TypeScript)
        } else if str_eq(ext, "go") {
            Some(SupportedLanguage::Go)
        } else if str_eq(ext, "rs") {
            Some(SupportedLanguage::Rust)
        } else if str_eq(ext, "java") {
            Some(SupportedLanguage::Java)
        } else {
            None
        }
    }

    /// The language's display name.
    pub fn name(&self) -> (r: &'static str)
        ensures
            r@ == spec_lang_name(*self),
    {
        match self {
            SupportedLanguage::Python => "python",
            SupportedLanguage::JavaScript => "javascript",
            SupportedLanguage::TypeScript => "typescript",
            SupportedLanguage::Go => "go",
            SupportedLanguage::Rust => "rust",
            SupportedLanguage::Java => "java",
        }
    }
}

/// Whether `kind` declares a function in `lang`.
pub fn is_function_node(kind: &str, lang: SupportedLanguage) -> (r: bool)
    ensures
        r == is_function_kind(lang, kind@),
{
    match lang {
        SupportedLanguage::Python => str_eq(kind, "function_definition"),
        SupportedLanguage::JavaScript | SupportedLanguage::TypeScript => str_eq(
            kind,
            "function_declaration",
        ) || str_eq(kind, "method_definition") || str_eq(kind, "arrow_function") || str_eq(
            kind,
            "function_expression",
        ),
        SupportedLanguage::Go => str_eq(kind, "function_declaration") || str_eq(
            kind,
            "method_declaration",
        ),
        SupportedLanguage::Rust => str_eq(kind, "function_item"),
        SupportedLanguage::Java => str_eq(kind, "method_declaration") || str_eq(
            kind,
            "constructor_declaration",
        ),
    }
}

/// Whether `kind` is a decision point in `lang`.
pub fn is_decision_point(kind: &str, lang: SupportedLanguage) -> (r: bool)
    ensures
        r == is_decision_kind(lang, kind@),
{
    match lang {
        SupportedLanguage::Python => str_eq(kind, "if_statement") || str_eq(kind, "elif_clause")
            || str_eq(kind, "for_statement") || str_eq(kind, "while_statement") || str_eq(
            kind,
            "match_statement",
        ) || str_eq(kind, "except_clause") || str_eq(kind, "conditional_expression"),
        SupportedLanguage::JavaScript | SupportedLanguage::TypeScript => str_eq(
            kind,
            "if_statement",
        ) || str_eq(kind, "for_statement") || str_eq(kind, "for_in_statement") || str_eq(
            kind,
            "while_statement",
        ) || str_eq(kind, "do_statement") || str_eq(kind, "switch_case") || str_eq(
            kind,
            "catch_clause",
        ) || str_eq(kind, "ternary_expression"),
        SupportedLanguage::Go => str_eq(kind, "if_statement") || str_eq(kind, "for_statement")
            || str_eq(kind, "expression_case") || str_eq(kind, "type_case"),
        SupportedLanguage::Rust => str_eq(kind, "if_expression") || str_eq(
            kind,
            "if_let_expression",
        ) || str_eq(kind, "for_expression") || str_eq(kind, "while_expression") || str_eq(
            kind,
            "loop_expression",
        ) || str_eq(kind, "match_arm"),
        SupportedLanguage::Java => str_eq(kind, "if_statement") || str_eq(kind, "for_statement")
            || str_eq(kind, "while_statement") || str_eq(kind, "do_statement") || str_eq(
            kind,
            "enhanced_for_statement",
        ) || str_eq(kind, "switch_label") || str_eq(kind, "catch_clause") || str_eq(
            kind,
            "ternary_expression",
        ),
    }
}

/// Whether `kind` deepens nesting in `lang`.
pub fn is_nesting_node(kind: &str, lang: SupportedLanguage) -> (r: bool)
    ensures
        r == is_nesting_kind(lang, kind@),
{
    match lang {
        SupportedLanguage::Python => str_eq(kind, "if_statement") || str_eq(kind, "elif_clause")
            || str_eq(kind, "for_statement") || str_eq(kind, "while_statement") || str_eq(
            kind,
            "match_statement",
        ) || str_eq(kind, "except_clause"),
        SupportedLanguage::JavaScript | SupportedLanguage::TypeScript => str_eq(
            kind,
            "if_statement",
        ) || str_eq(kind, "for_statement") || str_eq(kind, "for_in_statement") || str_eq(
            kind,
            "while_statement",
        ) || str_eq(kind, "do_statement") || str_eq(kind, "switch_case") || str_eq(
            kind,
            "catch_clause",
        ),
        SupportedLanguage::Go => str_eq(kind, "if_statement") || str_eq(kind, "for_statement")
            || str_eq(kind, "expression_case") || str_eq(kind, "type_case"),
        SupportedLanguage::Rust => str_eq(kind, "if_expression") || str_eq(
            kind,
            "if_let_expression",
        ) || str_eq(kind, "for_expression") || str_eq(kind, "while_expression") || str_eq(
            kind,
            "loop_expression",
        ) || str_eq(kind, "match_arm"),
        SupportedLanguage::Java => str_eq(kind, "if_statement") || str_eq(kind, "for_statement")
            || str_eq(kind, "while_statement") || str_eq(kind, "do_statement") || str_eq(
            kind,
            "enhanced_for_statement",
        ) || str_eq(kind, "switch_label") || str_eq(kind, "catch_clause"),
    }
}

/// Whether `text` spells a short-circuit boolean operator in `lang`.
pub fn is_boolean_operator(text: &str, lang: SupportedLanguage) -> (r: bool)
    ensures
        r == is_bool_op_text(lang, text@),
{
    match lang {
        SupportedLanguage::Python => str_eq(text, "and") || str_eq(text, "or"),
        _ => str_eq(text, "&&") || str_eq(text, "||"),
    }
}

/// Whether `kind` is a binary or boolean operator node.
pub fn is_binary_node(kind: &str) -> (r: bool)
    ensures
        r == is_binary_kind(kind@),
{
    str_eq(kind, "binary_expression") || str_eq(kind, "boolean_operator")
}

/// Whether `kind` declares a class or type.
pub fn is_class_node(kind: &str) -> (r: bool)
    ensures
        r == is_class_kind(kind@),
{
    str_eq(kind, "class_definition") || str_eq(kind, "class_declaration")
}

} // verus!
