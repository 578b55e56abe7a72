use vstd::prelude::*;
use crate::lang::SupportedLanguage;

verus! {

/// Largest subtree size the metric walks accept. Trees from real source
/// files stay far below it; the analyzer reports a degraded record for
/// anything larger so that every count provably fits its integer type.
pub const NODE_LIMIT: u64 = 0x8000_0000;

/// One node of a parsed syntax tree, held as plain values: the node's kind
/// tag, the field name (if any) under which its parent holds it, its source
/// text, its 0-based start and end rows, and its children in document order.
pub struct SyntaxNode {
    pub kind: String,
    pub field: Option<String>,
    pub text: String,
    pub start_row: usize,
    pub end_row: usize,
    pub children: Vec<SyntaxNode>,
}

/// Number of nodes in the subtree rooted at `n`, the root included.
pub open spec fn spec_node_count(n: SyntaxNode) -> nat
    decreases n,
{
    1 + spec_node_count_seq(n.children@)
}

/// Number of nodes in the subtrees of a sequence of nodes.
pub open spec fn spec_node_count_seq(s: Seq<SyntaxNode>) -> nat
    decreases s,
{
    if s.len() == 0 {
        0
    } else {
        spec_node_count(s[0]) + spec_node_count_seq(s.drop_first())
    }
}

/// Subtree counts add over concatenation.
pub proof fn lemma_node_count_seq_concat(s1: Seq<SyntaxNode>, s2: Seq<SyntaxNode>)
    ensures
        spec_node_count_seq(s1 + s2) == spec_node_count_seq(s1) + spec_node_count_seq(s2),
    decreases s1,
{
    if s1.len() == 0 {
        assert(s1 + s2 =~= s2);
    } else {
        assert((s1 + s2).drop_first() =~= s1.drop_first() + s2);
        lemma_node_count_seq_concat(s1.drop_first(), s2);
    }
}

/// Extending a prefix by one node adds that node's subtree count.
pub proof fn lemma_node_count_seq_snoc(s: Seq<SyntaxNode>, i: int)
    requires
        0 <= i < s.len(),
    ensures
        spec_node_count_seq(s.subrange(0, i + 1)) == spec_node_count_seq(s.subrange(0, i))
            + spec_node_count(s[i]),
{
    assert(s.subrange(0, i + 1) =~= s.subrange(0, i) + seq![s[i]]);
    lemma_node_count_seq_concat(s.subrange(0, i), seq![s[i]]);
    assert(spec_node_count_seq(seq![s[i]]) == spec_node_count(s[i]) + spec_node_count_seq(
        seq![s[i]].drop_first(),
    ));
    assert(seq![s[i]].drop_first() =~= Seq::<SyntaxNode>::empty());
}

/// Every subtree has at least one node.
pub proof fn lemma_node_count_pos(n: SyntaxNode)
    ensures
        spec_node_count(n) >= 1,
{
}

/// A sequence's subtree count bounds each member's subtree count.
pub proof fn lemma_node_count_seq_member(s: Seq<SyntaxNode>, i: int)
    requires
        0 <= i < s.len(),
    ensures
        spec_node_count(s[i]) <= spec_node_count_seq(s),
        s.len() <= spec_node_count_seq(s),
    decreases s,
{
    if s.len() > 0 {
        lemma_node_count_pos(s[0]);
        if i == 0 {
            if s.len() > 1 {
                lemma_node_count_seq_member(s.drop_first(), 0);
            }
        } else {
            lemma_node_count_seq_member(s.drop_first(), i - 1);
        }
    }
}

/// The subtree size of `n`, or `None` when it exceeds `NODE_LIMIT`.
pub fn count_nodes_bounded(n: &SyntaxNode) -> (r: Option<u64>)
    ensures
        match r {
            Some(c) => c == spec_node_count(*n) && c <= NODE_LIMIT,
            None => spec_node_count(*n) > NODE_LIMIT,
        },
    decreases *n,
{
    let mut total: u64 = 1;
    let mut i: usize = 0;
    while i < n.children.len()
        invariant
            i <= n.children.len(),
            1 <= total <= NODE_LIMIT,
            total == 1 + spec_node_count_seq(n.children@.subrange(0, i as int)),
        decreases n.children@.len() - i,
    {
        proof {
            assert(decreases_to!(*n => n.children));
            assert(decreases_to!(n.children => n.children@[i as int]));
        }
        let sub = count_nodes_bounded(&n.children[i]);
        match sub {
            Some(c) => {
                if total > NODE_LIMIT - c {
                    proof {
                        lemma_node_count_seq_snoc(n.children@, i as int);
                        lemma_tail_count_ge(n.children@, i + 1);
                    }
                    return None;
                }
                total = total + c;
            },
            None => {
                proof {
                    lemma_node_count_seq_snoc(n.children@, i as int);
                    lemma_tail_count_ge(n.children@, i + 1);
                }
                return None;
            },
        }
        proof {
            lemma_node_count_seq_snoc(n.children@, i as int);
        }
        i = i + 1;
    }
    proof {
        assert(n.children@.subrange(0, n.children@.len() as int) =~= n.children@);
    }
    Some(total)
}

/// Largest 0-based row the metric walks accept; files stay far below it.
pub const ROW_LIMIT: usize = 0x8000_0000;

/// Every node's rows are ordered and bounded: a well-formed span for every
/// line computation.
pub open spec fn spec_rows_ok(n: SyntaxNode) -> bool
    decreases n,
{
    &&& n.start_row <= n.end_row
    &&& n.end_row < ROW_LIMIT
    &&& spec_rows_ok_seq(n.children@)
}

/// Row sanity over a sequence of subtrees.
pub open spec fn spec_rows_ok_seq(s: Seq<SyntaxNode>) -> bool
    decreases s,
{
    s.len() == 0 || (spec_rows_ok(s[0]) && spec_rows_ok_seq(s.drop_first()))
}

/// Row sanity of a member follows from row sanity of the sequence.
pub proof fn lemma_rows_ok_seq_member(s: Seq<SyntaxNode>, i: int)
    requires
        0 <= i < s.len(),
        spec_rows_ok_seq(s),
    ensures
        spec_rows_ok(s[i]),
    decreases s,
{
    if i > 0 {
        lemma_rows_ok_seq_member(s.drop_first(), i - 1);
    }
}

/// Whether every node in the subtree has an ordered, bounded row span.
pub fn rows_ok(n: &SyntaxNode) -> (r: bool)
    ensures
        r == spec_rows_ok(*n),
    decreases *n,
{
    if n.start_row > n.end_row || n.end_row >= ROW_LIMIT {
        return false;
    }
    let mut i: usize = 0;
    while i < n.children.len()
        invariant
            i <= n.children@.len(),
            n.start_row <= n.end_row,
            n.end_row < ROW_LIMIT,
            spec_rows_ok_seq(n.children@.subrange(0, i as int)),
        decreases n.children@.len() - i,
    {
        proof {
            assert(decreases_to!(*n => n.children));
            assert(decreases_to!(n.children => n.children@[i as int]));
        }
        if !rows_ok(&n.children[i]) {
            proof {
                lemma_rows_ok_not_member(n.children@, i as int);
            }
            return false;
        }
        proof {
            lemma_rows_ok_seq_snoc(n.children@, i as int);
        }
        i = i + 1;
    }
    proof {
        assert(n.children@.subrange(0, n.children@.len() as int) =~= n.children@);
    }
    true
}

/// Row sanity splits over concatenation.
pub proof fn lemma_rows_ok_seq_concat(s1: Seq<SyntaxNode>, s2: Seq<SyntaxNode>)
    ensures
        spec_rows_ok_seq(s1 + s2) == (spec_rows_ok_seq(s1) && spec_rows_ok_seq(s2)),
    decreases s1,
{
    if s1.len() == 0 {
        assert(s1 + s2 =~= s2);
    } else {
        assert((s1 + s2).drop_first() =~= s1.drop_first() + s2);
        lemma_rows_ok_seq_concat(s1.drop_first(), s2);
    }
}

/// Appending a row-sane node keeps a prefix row-sane.
pub proof fn lemma_rows_ok_seq_snoc(s: Seq<SyntaxNode>, i: int)
    requires
        0 <= i < s.len(),
        spec_rows_ok_seq(s.subrange(0, i)),
        spec_rows_ok(s[i]),
    ensures
        spec_rows_ok_seq(s.subrange(0, i + 1)),
{
    assert(s.subrange(0, i + 1) =~= s.subrange(0, i) + seq![s[i]]);
    lemma_rows_ok_seq_concat(s.subrange(0, i), seq![s[i]]);
    assert(seq![s[i]].drop_first() =~= Seq::<SyntaxNode>::empty());
    assert(spec_rows_ok_seq(seq![s[i]]) == (spec_rows_ok(s[i]) && spec_rows_ok_seq(
        seq![s[i]].drop_first(),
    )));
}

/// A sequence with a row-broken member is itself row-broken.
pub proof fn lemma_rows_ok_not_member(s: Seq<SyntaxNode>, i: int)
    requires
        0 <= i < s.len(),
        !spec_rows_ok(s[i]),
    ensures
        !spec_rows_ok_seq(s),
    decreases s,
{
    if i > 0 {
        lemma_rows_ok_not_member(s.drop_first(), i - 1);
    }
}

/// What a parse attempt produced: the grammar could not be loaded, the
/// parser returned no tree, or a tree copied into plain values.
pub enum ParseOutcome {
    Unavailable,
    Failed,
    Parsed(SyntaxNode),
}

#[verifier::external_type_specification]
#[verifier::external_body]
pub struct ExLanguage(tree_sitter::Language);

#[verifier::external_type_specification]
#[verifier::external_body]
pub struct ExNode<'a>(tree_sitter::Node<'a>);

/// Relies on each grammar crate's `LANGUAGE` constant (via
/// `tree_sitter::Language::from`): returns the compiled grammar for the
/// language.
#[verifier::external_body]
pub(crate) fn grammar_of(lang: SupportedLanguage) -> tree_sitter::Language {
    match lang {
        SupportedLanguage::Python => tree_sitter_python::LANGUAGE.into(),
        SupportedLanguage::JavaScript => tree_sitter_javascript::LANGUAGE.into(),
        SupportedLanguage::TypeScript => tree_sitter_typescript::LANGUAGE_TYPESCRIPT.into(),
        SupportedLanguage::Go => tree_sitter_go::LANGUAGE.into(),
        SupportedLanguage::Rust => tree_sitter_rust::LANGUAGE.into(),
        SupportedLanguage::Java => tree_sitter_java::LANGUAGE.into(),
    }
}

/// Relies on tree-sitter's `Node` and `TreeCursor` accessors (`kind`,
/// `start_position`, `end_position`, `byte_range`, `field_name`, sibling
/// walk): copies a node and its whole subtree into plain values, children in
/// document order.
#[verifier::external_body]
fn node_model(node: tree_sitter::Node<'_>, source: &[u8], field: Option<String>) -> SyntaxNode {
    let mut children = Vec::new();
    let mut cursor = node.walk();
    if cursor.goto_first_child() {
        loop {
            let f = cursor.field_name().map(|name| name.to_string());
            children.push(node_model(cursor.node(), source, f));
            if !cursor.goto_next_sibling() { break; }
        }
    }
    let text = core::str::from_utf8(&source[node.byte_range()]).unwrap_or("").to_string();
    let (kind, start_row, end_row) =
        (node.kind().to_string(), node.start_position().row, node.end_position().row);
    SyntaxNode { kind, field, text, start_row, end_row, children }
}

/// The outcome of parsing a byte sequence under a language's grammar.
/// With the grammar fixed, tree-sitter's parse is a function of the bytes
/// alone (no randomness, clock or environment enters it), so the outcome
/// bears a name the analyzer's contracts can speak of.
pub uninterp spec fn spec_parse_outcome(lang: SupportedLanguage, bytes: Seq<u8>) -> ParseOutcome;

/// Relies on `tree_sitter::Parser`: `set_language` fails only when the
/// grammar's version does not match the runtime, and `parse` returns `None`
/// only without a language or on cancellation; for one grammar version the
/// whole outcome is determined by the language and the bytes, named
/// `spec_parse_outcome`.
#[verifier::external_body]
pub(crate) fn parse_source(lang: SupportedLanguage, content: &Vec<u8>) -> (r: ParseOutcome)
    ensures
        r == spec_parse_outcome(lang, content@),
{
    let mut parser = tree_sitter::Parser::new();
    if parser.set_language(&grammar_of(lang)).is_err() {
        return ParseOutcome::Unavailable;
    }
    match parser.parse(content.as_slice(), None) {
        Some(tree) => ParseOutcome::Parsed(node_model(tree.root_node(), content.as_slice(), None)),
        None => ParseOutcome::Failed,
    }
}

/// The whole sequence counts at least as much as any prefix.
pub proof fn lemma_tail_count_ge(s: Seq<SyntaxNode>, i: int)
    requires
        0 <= i <= s.len(),
    ensures
        spec_node_count_seq(s) >= spec_node_count_seq(s.subrange(0, i)),
    decreases s.len() - i,
{
    if i < s.len() {
        lemma_node_count_seq_snoc(s, i);
        lemma_tail_count_ge(s, i + 1);
        lemma_node_count_pos(s[i]);
    } else {
        assert(s.subrange(0, i) =~= s);
    }
}

} // verus!
