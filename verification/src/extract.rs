use vstd::prelude::*;
use vstd::string::StringExecFns;
use crate::lang::{SupportedLanguage, is_function_kind, is_class_kind};
use crate::metrics::{
    spec_cyclomatic, spec_cognitive, spec_max_nesting, calculate_cyclomatic_complexity,
    calculate_cognitive_complexity, calculate_max_nesting_depth,
};
use crate::strutil::str_eq;
use crate::tree::{
    SyntaxNode, NODE_LIMIT, spec_node_count, spec_node_count_seq, spec_rows_ok, spec_rows_ok_seq,
    lemma_node_count_seq_member, lemma_rows_ok_seq_member, lemma_node_count_pos,
};

verus! {

/// The first child held under field name `f`, scanning in document order.
pub open spec fn spec_child_by_field(s: Seq<SyntaxNode>, f: Seq<char>) -> Option<SyntaxNode>
    decreases s,
{
    if s.len() == 0 {
        None
    } else {
        match s[0].field {
            Some(g) => if g@ == f {
                Some(s[0])
            } else {
                spec_child_by_field(s.drop_first(), f)
            },
            None => spec_child_by_field(s.drop_first(), f),
        }
    }
}

/// The first child of `n` held under field name `f`, or `None`.
pub fn child_by_field<'a>(n: &'a SyntaxNode, f: &str) -> (r: Option<&'a SyntaxNode>)
    ensures
        match r {
            Some(c) => spec_child_by_field(n.children@, f@) == Some(*c),
            None => spec_child_by_field(n.children@, f@) is None,
        },
{
    proof {
        assert(n.children@.skip(0) =~= n.children@);
    }
    let mut i: usize = 0;
    while i < n.children.len()
        invariant
            i <= n.children@.len(),
            spec_child_by_field(n.children@.skip(i as int), f@) == spec_child_by_field(
                n.children@,
                f@,
            ),
        decreases n.children@.len() - i,
    {
        proof {
            assert(n.children@.skip(i as int)[0] == n.children@[i as int]);
            assert(n.children@.skip(i as int).drop_first() =~= n.children@.skip(i as int + 1));
        }
        let matched = match &n.children[i].field {
            Some(g) => str_eq(g.as_str(), f),
            None => false,
        };
        if matched {
            return Some(&n.children[i]);
        }
        i = i + 1;
    }
    proof {
        assert(n.children@.skip(n.children@.len() as int) =~= Seq::<SyntaxNode>::empty());
    }
    None
}

/// The first child whose kind is `identifier`, scanning in document order.
pub open spec fn spec_first_identifier(s: Seq<SyntaxNode>) -> Option<SyntaxNode>
    decreases s,
{
    if s.len() == 0 {
        None
    } else if s[0].kind@ == "identifier"@ {
        Some(s[0])
    } else {
        spec_first_identifier(s.drop_first())
    }
}

/// The first child of `n` whose kind is `identifier`, or `None`.
fn first_identifier<'a>(n: &'a SyntaxNode) -> (r: Option<&'a SyntaxNode>)
    ensures
        match r {
            Some(c) => spec_first_identifier(n.children@) == Some(*c),
            None => spec_first_identifier(n.children@) is None,
        },
{
    proof {
        assert(n.children@.skip(0) =~= n.children@);
    }
    let mut i: usize = 0;
    while i < n.children.len()
        invariant
            i <= n.children@.len(),
            spec_first_identifier(n.children@.skip(i as int)) == spec_first_identifier(
                n.children@,
            ),
        decreases n.children@.len() - i,
    {
        proof {
            assert(n.children@.skip(i as int)[0] == n.children@[i as int]);
            assert(n.children@.skip(i as int).drop_first() =~= n.children@.skip(i as int + 1));
        }
        if str_eq(n.children[i].kind.as_str(), "identifier") {
            return Some(&n.children[i]);
        }
        i = i + 1;
    }
    proof {
        assert(n.children@.skip(n.children@.len() as int) =~= Seq::<SyntaxNode>::empty());
    }
    None
}

/// The name a found declarator child yields: a `function_declarator`
/// wrapper is unwrapped one level to its inner declarator.
pub open spec fn spec_named_via(c: SyntaxNode) -> Seq<char> {
    if c.kind@ == "function_declarator"@ {
        match spec_child_by_field(c.children@, "declarator"@) {
            Some(inner) => inner.text@,
            None => c.text@,
        }
    } else {
        c.text@
    }
}

/// The name of the function declared by `n`: its `name` child, else its
/// `declarator` child (unwrapping a declarator wrapper one level), else its
/// first identifier child, else the anonymous placeholder.
pub open spec fn spec_function_name(n: SyntaxNode) -> Seq<char> {
    match spec_child_by_field(n.children@, "name"@) {
        Some(c) => spec_named_via(c),
        None => match spec_child_by_field(n.children@, "declarator"@) {
            Some(c) => spec_named_via(c),
            None => match spec_first_identifier(n.children@) {
                Some(c) => c.text@,
                None => "<anonymous>"@,
            },
        },
    }
}

/// The name a found declarator child yields.
fn named_via(c: &SyntaxNode) -> (r: String)
    ensures
        r@ == spec_named_via(*c),
{
    if str_eq(c.kind.as_str(), "function_declarator") {
        match child_by_field(c, "declarator") {
            Some(inner) => inner.text.clone(),
            None => c.text.clone(),
        }
    } else {
        c.text.clone()
    }
}

/// The name of the function declared by `n`.
pub fn get_function_name(n: &SyntaxNode) -> (r: String)
    ensures
        r@ == spec_function_name(*n),
{
    match child_by_field(n, "name") {
        Some(c) => named_via(c),
        None => match child_by_field(n, "declarator") {
            Some(c) => named_via(c),
            None => match first_identifier(n) {
                Some(c) => c.text.clone(),
                None => String::from_str("<anonymous>"),
            },
        },
    }
}

/// Node kinds that count as one declared parameter.
pub open spec fn is_param_kind(k: Seq<char>) -> bool {
    k == "identifier"@ || k == "typed_parameter"@ || k == "parameter"@ || k == "formal_parameter"@
        || k == "required_parameter"@ || k == "object_pattern"@ || k == "array_pattern"@
}

/// Whether `kind` counts as one declared parameter.
fn is_param_node(kind: &str) -> (r: bool)
    ensures
        r == is_param_kind(kind@),
{
    str_eq(kind, "identifier") || str_eq(kind, "typed_parameter") || str_eq(kind, "parameter")
        || str_eq(kind, "formal_parameter") || str_eq(kind, "required_parameter") || str_eq(
        kind,
        "object_pattern",
    ) || str_eq(kind, "array_pattern")
}

/// Parameter nodes among a sequence of children.
pub open spec fn spec_param_count_children(s: Seq<SyntaxNode>) -> nat
    decreases s,
{
    if s.len() == 0 {
        0
    } else {
        (if is_param_kind(s[0].kind@) {
            1nat
        } else {
            0nat
        }) + spec_param_count_children(s.drop_first())
    }
}

/// Parameter counts add over concatenation.
proof fn lemma_param_count_concat(s1: Seq<SyntaxNode>, s2: Seq<SyntaxNode>)
    ensures
        spec_param_count_children(s1 + s2) == spec_param_count_children(s1)
            + spec_param_count_children(s2),
    decreases s1,
{
    if s1.len() == 0 {
        assert(s1 + s2 =~= s2);
    } else {
        assert((s1 + s2).drop_first() =~= s1.drop_first() + s2);
        lemma_param_count_concat(s1.drop_first(), s2);
    }
}

/// Extending a prefix by one child adds at most one parameter.
proof fn lemma_param_count_snoc(s: Seq<SyntaxNode>, i: int)
    requires
        0 <= i < s.len(),
    ensures
        spec_param_count_children(s.subrange(0, i + 1)) == spec_param_count_children(
            s.subrange(0, i),
        ) + (if is_param_kind(s[i].kind@) {
            1nat
        } else {
            0nat
        }),
{
    assert(s.subrange(0, i + 1) =~= s.subrange(0, i) + seq![s[i]]);
    lemma_param_count_concat(s.subrange(0, i), seq![s[i]]);
    assert(seq![s[i]].drop_first() =~= Seq::<SyntaxNode>::empty());
    assert(spec_param_count_children(seq![s[i]]) == (if is_param_kind(s[i].kind@) {
        1nat
    } else {
        0nat
    }) + spec_param_count_children(seq![s[i]].drop_first()));
}

/// Declared parameters of the function node `n`: parameter-kind children of
/// its `parameters` child, or zero without one.
pub open spec fn spec_param_count(n: SyntaxNode) -> nat {
    match spec_child_by_field(n.children@, "parameters"@) {
        Some(p) => spec_param_count_children(p.children@),
        None => 0,
    }
}

/// Declared parameters of the function node `n`.
pub fn get_parameter_count(n: &SyntaxNode) -> (r: u64)
    ensures
        r == spec_param_count(*n),
{
    let params = match child_by_field(n, "parameters") {
        Some(p) => p,
        None => {
            return 0;
        },
    };
    let mut cnt: u64 = 0;
    let mut j: usize = 0;
    while j < params.children.len()
        invariant
            j <= params.children@.len(),
            cnt <= j,
            cnt == spec_param_count_children(params.children@.subrange(0, j as int)),
        decreases params.children@.len() - j,
    {
        proof {
            lemma_param_count_snoc(params.children@, j as int);
        }
        if is_param_node(params.children[j].kind.as_str()) {
            cnt = cnt + 1;
        }
        j = j + 1;
    }
    proof {
        assert(params.children@.subrange(0, params.children@.len() as int) =~= params.children@);
    }
    cnt
}

/// Largest cyclomatic complexity a tree within `NODE_LIMIT` can produce.
pub const MAX_CYCLO: u64 = 0x1_0000_0000;

/// Class or type declarations in the subtree rooted at `n`.
pub open spec fn spec_class_count(n: SyntaxNode) -> nat
    decreases n,
{
    (if is_class_kind(n.kind@) {
        1nat
    } else {
        0nat
    }) + spec_class_count_seq(n.children@)
}

/// Class declarations in the subtrees of a sequence of nodes.
pub open spec fn spec_class_count_seq(s: Seq<SyntaxNode>) -> nat
    decreases s,
{
    if s.len() == 0 {
        0
    } else {
        spec_class_count(s[0]) + spec_class_count_seq(s.drop_first())
    }
}

/// Class counts add over concatenation.
proof fn lemma_class_count_concat(s1: Seq<SyntaxNode>, s2: Seq<SyntaxNode>)
    ensures
        spec_class_count_seq(s1 + s2) == spec_class_count_seq(s1) + spec_class_count_seq(s2),
    decreases s1,
{
    if s1.len() == 0 {
        assert(s1 + s2 =~= s2);
    } else {
        assert((s1 + s2).drop_first() =~= s1.drop_first() + s2);
        lemma_class_count_concat(s1.drop_first(), s2);
    }
}

/// Extending a prefix by one node adds that node's class count.
proof fn lemma_class_count_snoc(s: Seq<SyntaxNode>, i: int)
    requires
        0 <= i < s.len(),
    ensures
        spec_class_count_seq(s.subrange(0, i + 1)) == spec_class_count_seq(s.subrange(0, i))
            + spec_class_count(s[i]),
{
    assert(s.subrange(0, i + 1) =~= s.subrange(0, i) + seq![s[i]]);
    lemma_class_count_concat(s.subrange(0, i), seq![s[i]]);
    assert(seq![s[i]].drop_first() =~= Seq::<SyntaxNode>::empty());
    assert(spec_class_count_seq(seq![s[i]]) == spec_class_count(s[i]) + spec_class_count_seq(
        seq![s[i]].drop_first(),
    ));
}

/// A subtree holds at most as many class declarations as nodes.
pub proof fn lemma_class_count_le(n: SyntaxNode)
    ensures
        spec_class_count(n) <= spec_node_count(n),
    decreases n, 0nat,
{
    lemma_class_count_le_seq(n.children@);
}

/// Sequence form of the class-count bound.
pub proof fn lemma_class_count_le_seq(s: Seq<SyntaxNode>)
    ensures
        spec_class_count_seq(s) <= spec_node_count_seq(s),
    decreases s, 1nat,
{
    if s.len() > 0 {
        lemma_class_count_le(s[0]);
        lemma_class_count_le_seq(s.drop_first());
    }
}

/// The function nodes of the subtree rooted at `n`, in document order: a
/// function node is listed before the functions nested inside it, and the
/// walk descends into function bodies.
pub open spec fn spec_function_nodes(n: SyntaxNode, lang: SupportedLanguage) -> Seq<SyntaxNode>
    decreases n,
{
    (if is_function_kind(lang, n.kind@) {
        seq![n]
    } else {
        Seq::<SyntaxNode>::empty()
    }) + spec_function_nodes_seq(n.children@, lang)
}

/// Function nodes over a sequence of subtrees, in document order.
pub open spec fn spec_function_nodes_seq(s: Seq<SyntaxNode>, lang: SupportedLanguage) -> Seq<SyntaxNode>
    decreases s,
{
    if s.len() == 0 {
        Seq::<SyntaxNode>::empty()
    } else {
        spec_function_nodes(s[0], lang) + spec_function_nodes_seq(s.drop_first(), lang)
    }
}

/// Function-node lists concatenate over concatenation.
proof fn lemma_function_nodes_concat(s1: Seq<SyntaxNode>, s2: Seq<SyntaxNode>, lang: SupportedLanguage)
    ensures
        spec_function_nodes_seq(s1 + s2, lang) =~= spec_function_nodes_seq(s1, lang)
            + spec_function_nodes_seq(s2, lang),
    decreases s1,
{
    if s1.len() == 0 {
        assert(s1 + s2 =~= s2);
        assert(spec_function_nodes_seq(s1, lang) + spec_function_nodes_seq(s2, lang)
            =~= spec_function_nodes_seq(s2, lang));
    } else {
        assert((s1 + s2).drop_first() =~= s1.drop_first() + s2);
        lemma_function_nodes_concat(s1.drop_first(), s2, lang);
    }
}

/// Extending a prefix by one node appends that node's function list.
proof fn lemma_function_nodes_snoc(s: Seq<SyntaxNode>, i: int, lang: SupportedLanguage)
    requires
        0 <= i < s.len(),
    ensures
        spec_function_nodes_seq(s.subrange(0, i + 1), lang) =~= spec_function_nodes_seq(
            s.subrange(0, i),
            lang,
        ) + spec_function_nodes(s[i], lang),
{
    assert(s.subrange(0, i + 1) =~= s.subrange(0, i) + seq![s[i]]);
    lemma_function_nodes_concat(s.subrange(0, i), seq![s[i]], lang);
    assert(seq![s[i]].drop_first() =~= Seq::<SyntaxNode>::empty());
    assert(spec_function_nodes_seq(seq![s[i]], lang) =~= spec_function_nodes(s[i], lang)
        + spec_function_nodes_seq(seq![s[i]].drop_first(), lang));
    assert(spec_function_nodes(s[i], lang) + Seq::<SyntaxNode>::empty() =~= spec_function_nodes(
        s[i],
        lang,
    ));
}

/// Every listed function node lies inside the subtree: its size is bounded
/// by the subtree's, its rows are sane when the subtree's are, and there
/// are at most as many function nodes as nodes.
pub proof fn lemma_function_nodes_bound(n: SyntaxNode, lang: SupportedLanguage)
    ensures
        spec_function_nodes(n, lang).len() <= spec_node_count(n),
        forall|k: int|
            0 <= k < spec_function_nodes(n, lang).len() ==> spec_node_count(
                #[trigger] spec_function_nodes(n, lang)[k],
            ) <= spec_node_count(n) && (spec_rows_ok(n) ==> spec_rows_ok(
                spec_function_nodes(n, lang)[k],
            )),
    decreases n, 0nat,
{
    lemma_function_nodes_bound_seq(n.children@, lang);
    assert forall|k: int|
        0 <= k < spec_function_nodes(n, lang).len() implies spec_node_count(
        #[trigger] spec_function_nodes(n, lang)[k],
    ) <= spec_node_count(n) && (spec_rows_ok(n) ==> spec_rows_ok(
        spec_function_nodes(n, lang)[k],
    )) by {
        let head: Seq<SyntaxNode> = if is_function_kind(lang, n.kind@) {
            seq![n]
        } else {
            Seq::<SyntaxNode>::empty()
        };
        if k >= head.len() {
            assert(spec_function_nodes(n, lang)[k] == spec_function_nodes_seq(n.children@, lang)[k
                - head.len()]);
        }
    }
}

/// Sequence form of the function-node bound.
pub proof fn lemma_function_nodes_bound_seq(s: Seq<SyntaxNode>, lang: SupportedLanguage)
    ensures
        spec_function_nodes_seq(s, lang).len() <= spec_node_count_seq(s),
        forall|k: int|
            0 <= k < spec_function_nodes_seq(s, lang).len() ==> spec_node_count(
                #[trigger] spec_function_nodes_seq(s, lang)[k],
            ) <= spec_node_count_seq(s) && (spec_rows_ok_seq(s) ==> spec_rows_ok(
                spec_function_nodes_seq(s, lang)[k],
            )),
    decreases s, 1nat,
{
    if s.len() > 0 {
        lemma_function_nodes_bound(s[0], lang);
        lemma_function_nodes_bound_seq(s.drop_first(), lang);
        assert forall|k: int|
            0 <= k < spec_function_nodes_seq(s, lang).len() implies spec_node_count(
            #[trigger] spec_function_nodes_seq(s, lang)[k],
        ) <= spec_node_count_seq(s) && (spec_rows_ok_seq(s) ==> spec_rows_ok(
            spec_function_nodes_seq(s, lang)[k],
        )) by {
            let head = spec_function_nodes(s[0], lang);
            if k < head.len() {
                assert(spec_function_nodes_seq(s, lang)[k] == head[k]);
            } else {
                assert(spec_function_nodes_seq(s, lang)[k] == spec_function_nodes_seq(
                    s.drop_first(),
                    lang,
                )[k - head.len()]);
            }
        }
    }
}

/// Metrics of one discovered function: its position, size and the three
/// complexity measures, all exact values of the subtree that declared it.
pub struct FunctionMetrics {
    pub file: String,
    pub name: String,
    pub line: usize,
    pub end_line: usize,
    pub cyclomatic_complexity: u64,
    pub cognitive_complexity: u64,
    pub max_nesting_depth: u64,
    pub lines_of_code: usize,
    pub parameter_count: u64,
}

impl FunctionMetrics {
    /// A field-for-field copy.
    pub fn duplicate(&self) -> (r: FunctionMetrics)
        ensures
            r == *self,
    {
        FunctionMetrics {
            file: self.file.clone(),
            name: self.name.clone(),
            line: self.line,
            end_line: self.end_line,
            cyclomatic_complexity: self.cyclomatic_complexity,
            cognitive_complexity: self.cognitive_complexity,
            max_nesting_depth: self.max_nesting_depth,
            lines_of_code: self.lines_of_code,
            parameter_count: self.parameter_count,
        }
    }
}

/// Whether `m` records exactly the metrics of the function node `node` in
/// file `file`.
pub open spec fn spec_fm_matches(
    m: FunctionMetrics,
    node: SyntaxNode,
    file: Seq<char>,
    lang: SupportedLanguage,
) -> bool {
    &&& m.file@ == file
    &&& m.name@ == spec_function_name(node)
    &&& m.line == node.start_row + 1
    &&& m.end_line == node.end_row + 1
    &&& m.cyclomatic_complexity == spec_cyclomatic(node, lang)
    &&& m.cognitive_complexity == spec_cognitive(node, 0, lang)
    &&& m.max_nesting_depth == spec_max_nesting(node, 0, lang)
    &&& m.lines_of_code == node.end_row - node.start_row + 1
    &&& m.parameter_count == spec_param_count(node)
}

/// Walks the subtree rooted at `n` in document order, appending one metrics
/// record per function node and counting class declarations.
fn walk_tree(
    n: &SyntaxNode,
    file: &str,
    lang: SupportedLanguage,
    out: &mut Vec<FunctionMetrics>,
    classes: &mut u64,
)
    requires
        spec_node_count(*n) <= NODE_LIMIT,
        spec_rows_ok(*n),
        old(classes) + spec_node_count(*n) <= u64::MAX,
    ensures
        *final(classes) == *old(classes) + spec_class_count(*n),
        final(out)@.len() == old(out)@.len() + spec_function_nodes(*n, lang).len(),
        forall|k: int| 0 <= k < old(out)@.len() ==> final(out)@[k] == old(out)@[k],
        forall|k: int|
            0 <= k < spec_function_nodes(*n, lang).len() ==> spec_fm_matches(
                final(out)@[old(out)@.len() + k],
                #[trigger] spec_function_nodes(*n, lang)[k],
                file@,
                lang,
            ),
    decreases *n,
{
    proof {
        lemma_node_count_pos(*n);
    }
    if crate::lang::is_class_node(n.kind.as_str()) {
        *classes = *classes + 1;
    }
    let ghost head: Seq<SyntaxNode> = if is_function_kind(lang, n.kind@) {
        seq![*n]
    } else {
        Seq::<SyntaxNode>::empty()
    };
    if crate::lang::is_function_node(n.kind.as_str(), lang) {
        let fm = FunctionMetrics {
            file: String::from_str(file),
            name: get_function_name(n),
            line: n.start_row + 1,
            end_line: n.end_row + 1,
            cyclomatic_complexity: calculate_cyclomatic_complexity(n, lang),
            cognitive_complexity: calculate_cognitive_complexity(n, lang),
            max_nesting_depth: calculate_max_nesting_depth(n, lang),
            lines_of_code: n.end_row - n.start_row + 1,
            parameter_count: get_parameter_count(n),
        };
        out.push(fm);
    }
    let ghost base_len: int = old(out)@.len() as int;
    let ghost base_classes: nat = (*old(classes) + (if is_class_kind(n.kind@) {
        1nat
    } else {
        0nat
    })) as nat;
    let mut i: usize = 0;
    while i < n.children.len()
        invariant
            i <= n.children@.len(),
            spec_node_count(*n) <= NODE_LIMIT,
            spec_rows_ok(*n),
            *old(classes) + spec_node_count(*n) <= u64::MAX,
            base_len == old(out)@.len(),
            base_classes == *old(classes) + (if is_class_kind(n.kind@) {
                1nat
            } else {
                0nat
            }),
            head == (if is_function_kind(lang, n.kind@) {
                seq![*n]
            } else {
                Seq::<SyntaxNode>::empty()
            }),
            *classes == base_classes + spec_class_count_seq(n.children@.subrange(0, i as int)),
            out@.len() == base_len + head.len() + spec_function_nodes_seq(
                n.children@.subrange(0, i as int),
                lang,
            ).len(),
            forall|k: int| 0 <= k < base_len ==> out@[k] == old(out)@[k],
            forall|k: int|
                0 <= k < head.len() + spec_function_nodes_seq(
                    n.children@.subrange(0, i as int),
                    lang,
                ).len() ==> spec_fm_matches(
                    out@[base_len + k],
                    #[trigger] (head + spec_function_nodes_seq(
                        n.children@.subrange(0, i as int),
                        lang,
                    ))[k],
                    file@,
                    lang,
                ),
        decreases n.children@.len() - i,
    {
        proof {
            assert(decreases_to!(*n => n.children));
            assert(decreases_to!(n.children => n.children@[i as int]));
            lemma_node_count_seq_member(n.children@, i as int);
            lemma_rows_ok_seq_member(n.children@, i as int);
            lemma_class_count_le(n.children@[i as int]);
            lemma_class_count_le_seq(n.children@.subrange(0, i as int));
            crate::tree::lemma_node_count_seq_snoc(n.children@, i as int);
            crate::tree::lemma_tail_count_ge(n.children@, i as int + 1);
        }
        let ghost prev = out@;
        let ghost prev_classes = *classes;
        walk_tree(&n.children[i], file, lang, out, classes);
        proof {
            lemma_class_count_snoc(n.children@, i as int);
            lemma_function_nodes_snoc(n.children@, i as int, lang);
            let full_prev = head + spec_function_nodes_seq(
                n.children@.subrange(0, i as int),
                lang,
            );
            let child_fns = spec_function_nodes(n.children@[i as int], lang);
            let full_now = head + spec_function_nodes_seq(
                n.children@.subrange(0, i as int + 1),
                lang,
            );
            assert(full_now =~= full_prev + child_fns);
            assert forall|k: int|
                0 <= k < full_now.len() implies spec_fm_matches(
                out@[base_len + k],
                #[trigger] full_now[k],
                file@,
                lang,
            ) by {
                if k < full_prev.len() {
                    assert(out@[base_len + k] == prev[base_len + k]);
                    assert(full_now[k] == full_prev[k]);
                } else {
                    assert(full_now[k] == child_fns[k - full_prev.len()]);
                    assert(out@[base_len + k] == out@[prev.len() + (k - full_prev.len())]);
                }
            }
        }
        i = i + 1;
    }
    proof {
        assert(n.children@.subrange(0, n.children@.len() as int) =~= n.children@);
        assert(head + spec_function_nodes_seq(n.children@, lang) =~= spec_function_nodes(
            *n,
            lang,
        ));
    }
}

/// Newline bytes in `b`.
pub open spec fn spec_newline_count(b: Seq<u8>) -> nat
    decreases b,
{
    if b.len() == 0 {
        0
    } else {
        (if b[0] == 10 {
            1nat
        } else {
            0nat
        }) + spec_newline_count(b.drop_first())
    }
}

/// Newline counts add over concatenation.
proof fn lemma_newline_concat(b1: Seq<u8>, b2: Seq<u8>)
    ensures
        spec_newline_count(b1 + b2) == spec_newline_count(b1) + spec_newline_count(b2),
    decreases b1,
{
    if b1.len() == 0 {
        assert(b1 + b2 =~= b2);
    } else {
        assert((b1 + b2).drop_first() =~= b1.drop_first() + b2);
        lemma_newline_concat(b1.drop_first(), b2);
    }
}

/// Extending a prefix by one byte adds at most one newline.
proof fn lemma_newline_snoc(b: Seq<u8>, i: int)
    requires
        0 <= i < b.len(),
    ensures
        spec_newline_count(b.subrange(0, i + 1)) == spec_newline_count(b.subrange(0, i)) + (if b[i]
            == 10 {
            1nat
        } else {
            0nat
        }),
{
    assert(b.subrange(0, i + 1) =~= b.subrange(0, i) + seq![b[i]]);
    lemma_newline_concat(b.subrange(0, i), seq![b[i]]);
    assert(seq![b[i]].drop_first() =~= Seq::<u8>::empty());
    assert(spec_newline_count(seq![b[i]]) == (if b[i] == 10 {
        1nat
    } else {
        0nat
    }) + spec_newline_count(seq![b[i]].drop_first()));
}

/// Newlines never outnumber bytes.
proof fn lemma_newline_le_len(b: Seq<u8>)
    ensures
        spec_newline_count(b) <= b.len(),
    decreases b,
{
    if b.len() > 0 {
        lemma_newline_le_len(b.drop_first());
    }
}

/// Lines of text in the bytes `b`: the number of newline-terminated lines,
/// plus one for a final line left unterminated; zero for empty content.
pub open spec fn spec_line_count(b: Seq<u8>) -> nat {
    if b.len() == 0 {
        0
    } else {
        spec_newline_count(b) + (if b[b.len() - 1] == 10 {
            0nat
        } else {
            1nat
        })
    }
}

/// Lines of text in `content`.
pub fn line_count(content: &Vec<u8>) -> (r: usize)
    ensures
        r == spec_line_count(content@),
{
    if content.len() == 0 {
        return 0;
    }
    let mut newlines: usize = 0;
    let mut i: usize = 0;
    while i < content.len()
        invariant
            i <= content@.len(),
            newlines <= i,
            newlines == spec_newline_count(content@.subrange(0, i as int)),
        decreases content@.len() - i,
    {
        proof {
            lemma_newline_snoc(content@, i as int);
        }
        if content[i] == 10 {
            newlines = newlines + 1;
        }
        i = i + 1;
    }
    proof {
        assert(content@.subrange(0, content@.len() as int) =~= content@);
        if content@[content@.len() - 1] != 10 {
            lemma_newline_snoc(content@, content@.len() - 1);
            lemma_newline_le_len(content@.subrange(0, content@.len() - 1));
        }
    }
    if content[content.len() - 1] == 10 {
        newlines
    } else {
        newlines + 1
    }
}

/// Sum of the cyclomatic complexities over a list of function records.
pub open spec fn spec_cyclo_sum(s: Seq<FunctionMetrics>) -> nat
    decreases s,
{
    if s.len() == 0 {
        0
    } else {
        s[0].cyclomatic_complexity as nat + spec_cyclo_sum(s.drop_first())
    }
}

/// Largest cyclomatic complexity over a list of function records; zero for
/// an empty list.
pub open spec fn spec_cyclo_max(s: Seq<FunctionMetrics>) -> nat
    decreases s,
{
    if s.len() == 0 {
        0
    } else {
        crate::metrics::nat_max(s[0].cyclomatic_complexity as nat, spec_cyclo_max(s.drop_first()))
    }
}

/// Cyclomatic sums add over concatenation.
pub proof fn lemma_cyclo_sum_concat(s1: Seq<FunctionMetrics>, s2: Seq<FunctionMetrics>)
    ensures
        spec_cyclo_sum(s1 + s2) == spec_cyclo_sum(s1) + spec_cyclo_sum(s2),
    decreases s1,
{
    if s1.len() == 0 {
        assert(s1 + s2 =~= s2);
    } else {
        assert((s1 + s2).drop_first() =~= s1.drop_first() + s2);
        lemma_cyclo_sum_concat(s1.drop_first(), s2);
    }
}

/// Extending a prefix by one record adds its cyclomatic complexity.
pub proof fn lemma_cyclo_sum_snoc(s: Seq<FunctionMetrics>, i: int)
    requires
        0 <= i < s.len(),
    ensures
        spec_cyclo_sum(s.subrange(0, i + 1)) == spec_cyclo_sum(s.subrange(0, i))
            + s[i].cyclomatic_complexity,
{
    assert(s.subrange(0, i + 1) =~= s.subrange(0, i) + seq![s[i]]);
    lemma_cyclo_sum_concat(s.subrange(0, i), seq![s[i]]);
    assert(seq![s[i]].drop_first() =~= Seq::<FunctionMetrics>::empty());
    assert(spec_cyclo_sum(seq![s[i]]) == s[i].cyclomatic_complexity as nat + spec_cyclo_sum(
        seq![s[i]].drop_first(),
    ));
}

/// Cyclomatic maxima combine over concatenation by taking the larger side.
pub proof fn lemma_cyclo_max_concat(s1: Seq<FunctionMetrics>, s2: Seq<FunctionMetrics>)
    ensures
        spec_cyclo_max(s1 + s2) == crate::metrics::nat_max(spec_cyclo_max(s1), spec_cyclo_max(s2)),
    decreases s1,
{
    if s1.len() == 0 {
        assert(s1 + s2 =~= s2);
    } else {
        assert((s1 + s2).drop_first() =~= s1.drop_first() + s2);
        lemma_cyclo_max_concat(s1.drop_first(), s2);
    }
}

/// Extending a prefix by one record folds in its cyclomatic complexity.
pub proof fn lemma_cyclo_max_snoc(s: Seq<FunctionMetrics>, i: int)
    requires
        0 <= i < s.len(),
    ensures
        spec_cyclo_max(s.subrange(0, i + 1)) == crate::metrics::nat_max(
            spec_cyclo_max(s.subrange(0, i)),
            s[i].cyclomatic_complexity as nat,
        ),
{
    assert(s.subrange(0, i + 1) =~= s.subrange(0, i) + seq![s[i]]);
    lemma_cyclo_max_concat(s.subrange(0, i), seq![s[i]]);
    assert(seq![s[i]].drop_first() =~= Seq::<FunctionMetrics>::empty());
    assert(spec_cyclo_max(seq![s[i]]) == crate::metrics::nat_max(
        s[i].cyclomatic_complexity as nat,
        spec_cyclo_max(seq![s[i]].drop_first()),
    ));
}

/// A sum of bounded summands is bounded by count times the bound.
pub proof fn lemma_cyclo_sum_le(s: Seq<FunctionMetrics>, bound: nat)
    requires
        forall|k: int| 0 <= k < s.len() ==> #[trigger] s[k].cyclomatic_complexity <= bound,
    ensures
        spec_cyclo_sum(s) <= s.len() * bound,
    decreases s,
{
    if s.len() > 0 {
        lemma_cyclo_sum_le(s.drop_first(), bound);
        assert(s.drop_first().len() * bound + bound == s.len() * bound) by (nonlinear_arith)
            requires
                s.len() == s.drop_first().len() + 1,
        ;
    }
}

/// Rounding `100 * sum / cnt` to the nearest integer, halves up: the
/// average complexity in hundredths.
pub open spec fn spec_avg_centi(sum: nat, cnt: nat) -> nat {
    if cnt == 0 {
        0
    } else {
        ((200 * sum + cnt) / (2 * cnt)) as nat
    }
}

/// The average cyclomatic complexity in hundredths, rounded half up.
fn avg_centi(sum: u64, cnt: u64) -> (r: u64)
    requires
        cnt <= NODE_LIMIT,
        sum <= cnt * MAX_CYCLO,
    ensures
        r == spec_avg_centi(sum as nat, cnt as nat),
{
    if cnt == 0 {
        return 0;
    }
    let num: u128 = 200 * (sum as u128) + (cnt as u128);
    let den: u128 = 2 * (cnt as u128);
    let q: u128 = num / den;
    proof {
        assert(num <= den * (100 * MAX_CYCLO + 1)) by (nonlinear_arith)
            requires
                num == 200 * (sum as nat) + cnt as nat,
                den == 2 * (cnt as nat),
                sum as nat <= (cnt as nat) * (MAX_CYCLO as nat),
                cnt as nat >= 1,
        ;
        assert(q <= 100 * MAX_CYCLO + 1) by (nonlinear_arith)
            requires
                q == num / den,
                num <= den * (100 * MAX_CYCLO + 1),
                den > 0,
        ;
    }
    q as u64
}

/// Everything the analyzer records of one file: identity, raw size, the
/// function records in document order, and their aggregates. The average
/// complexity is held in hundredths.
pub struct FileMetrics {
    pub path: String,
    pub language: SupportedLanguage,
    pub lines_of_code: usize,
    pub function_count: u64,
    pub class_count: u64,
    pub avg_complexity_centi: u64,
    pub max_complexity: u64,
    pub parse_success: bool,
    pub functions: Vec<FunctionMetrics>,
}

/// Internal consistency of a file record: the aggregate fields agree with
/// the function list, a failed parse carries nothing, and every complexity
/// stays within what a bounded tree can produce.
pub open spec fn spec_file_wf(fm: FileMetrics) -> bool {
    &&& fm.function_count == fm.functions@.len()
    &&& fm.functions@.len() <= NODE_LIMIT
    &&& fm.avg_complexity_centi == spec_avg_centi(
        spec_cyclo_sum(fm.functions@),
        fm.functions@.len() as nat,
    )
    &&& fm.max_complexity == spec_cyclo_max(fm.functions@)
    &&& (!fm.parse_success ==> fm.functions@.len() == 0 && fm.class_count == 0)
    &&& forall|k: int|
        0 <= k < fm.functions@.len() ==> #[trigger] fm.functions@[k].cyclomatic_complexity
            <= MAX_CYCLO
}

/// The record of a file whose content could not be parsed: no functions,
/// no classes, the raw line count still computed from the text.
pub fn failure_metrics(rel_path: &str, lang: SupportedLanguage, content: &Vec<u8>) -> (r:
    FileMetrics)
    ensures
        r.path@ == rel_path@,
        r.language == lang,
        r.lines_of_code == spec_line_count(content@),
        r.function_count == 0,
        r.class_count == 0,
        r.avg_complexity_centi == 0,
        r.max_complexity == 0,
        r.parse_success == false,
        r.functions@.len() == 0,
        spec_file_wf(r),
{
    FileMetrics {
        path: String::from_str(rel_path),
        language: lang,
        lines_of_code: line_count(content),
        function_count: 0,
        class_count: 0,
        avg_complexity_centi: 0,
        max_complexity: 0,
        parse_success: false,
        functions: Vec::new(),
    }
}

/// The full record of a parsed file: one metrics record per function node
/// in document order, the class count, and exact aggregates.
pub fn metrics_for_tree(
    rel_path: &str,
    lang: SupportedLanguage,
    content: &Vec<u8>,
    root: &SyntaxNode,
) -> (r: FileMetrics)
    requires
        spec_node_count(*root) <= NODE_LIMIT,
        spec_rows_ok(*root),
    ensures
        r.path@ == rel_path@,
        r.language == lang,
        r.lines_of_code == spec_line_count(content@),
        r.parse_success == true,
        r.class_count == spec_class_count(*root),
        r.functions@.len() == spec_function_nodes(*root, lang).len(),
        forall|k: int|
            0 <= k < r.functions@.len() ==> spec_fm_matches(
                r.functions@[k],
                #[trigger] spec_function_nodes(*root, lang)[k],
                rel_path@,
                lang,
            ),
        spec_file_wf(r),
{
    let mut functions: Vec<FunctionMetrics> = Vec::new();
    let mut classes: u64 = 0;
    proof {
        lemma_class_count_le(*root);
    }
    walk_tree(root, rel_path, lang, &mut functions, &mut classes);
    proof {
        lemma_function_nodes_bound(*root, lang);
        assert forall|k: int|
            0 <= k < functions@.len() implies #[trigger] functions@[k].cyclomatic_complexity
            <= MAX_CYCLO by {
            let node = spec_function_nodes(*root, lang)[k];
            crate::metrics::lemma_cyclo_raw_bound(node, lang);
            crate::tree::lemma_node_count_pos(node);
        }
        lemma_cyclo_sum_le(functions@, MAX_CYCLO as nat);
    }
    let cnt: u64 = functions.len() as u64;
    let mut sum: u64 = 0;
    let mut mx: u64 = 0;
    let mut i: usize = 0;
    while i < functions.len()
        invariant
            i <= functions@.len(),
            functions@.len() <= NODE_LIMIT,
            forall|k: int|
                0 <= k < functions@.len() ==> #[trigger] functions@[k].cyclomatic_complexity
                    <= MAX_CYCLO,
            sum == spec_cyclo_sum(functions@.subrange(0, i as int)),
            sum <= i * MAX_CYCLO,
            mx == spec_cyclo_max(functions@.subrange(0, i as int)),
            mx <= MAX_CYCLO,
        decreases functions@.len() - i,
    {
        proof {
            lemma_cyclo_sum_snoc(functions@, i as int);
            lemma_cyclo_max_snoc(functions@, i as int);
            assert(i * MAX_CYCLO + MAX_CYCLO == (i + 1) * MAX_CYCLO) by (nonlinear_arith);
            assert((i + 1) * MAX_CYCLO <= NODE_LIMIT * MAX_CYCLO) by (nonlinear_arith)
                requires
                    i + 1 <= NODE_LIMIT,
            ;
        }
        sum = sum + functions[i].cyclomatic_complexity;
        if functions[i].cyclomatic_complexity > mx {
            mx = functions[i].cyclomatic_complexity;
        }
        i = i + 1;
    }
    proof {
        assert(functions@.subrange(0, functions@.len() as int) =~= functions@);
        assert((functions@.len() as nat) * (MAX_CYCLO as nat) <= (cnt as nat) * (
        MAX_CYCLO as nat));
    }
    let avg: u64 = avg_centi(sum, cnt);
    FileMetrics {
        path: String::from_str(rel_path),
        language: lang,
        lines_of_code: line_count(content),
        function_count: cnt,
        class_count: classes,
        avg_complexity_centi: avg,
        max_complexity: mx,
        parse_success: true,
        functions,
    }
}

/// Analyzes one file's bytes under the language its extension selects.
///
/// `None` exactly when the extension is unsupported or the grammar cannot
/// be loaded. Otherwise one record: a failed parse (or a tree too large to
/// measure exactly) yields the degraded record with the raw line count;
/// a parsed tree yields the full record, exact per function node of the
/// named parse outcome.
pub fn analyze_source(rel_path: &str, ext: &str, content: &Vec<u8>) -> (r: Option<FileMetrics>)
    ensures
        crate::lang::spec_lang_of_ext(ext@) is None ==> r is None,
        crate::lang::spec_lang_of_ext(ext@) matches Some(l) ==> {
            &&& (r is None <==> crate::tree::spec_parse_outcome(l, content@)
                is Unavailable)
            &&& (crate::tree::spec_parse_outcome(l, content@) is Failed ==> (r matches Some(fm)
                && fm.parse_success == false))
            &&& (crate::tree::spec_parse_outcome(l, content@) matches
                crate::tree::ParseOutcome::Parsed(t) ==> (r matches Some(fm) && (if spec_node_count(
                t,
            ) <= NODE_LIMIT && spec_rows_ok(t) {
                &&& fm.parse_success == true
                &&& fm.class_count == spec_class_count(t)
                &&& fm.functions@.len() == spec_function_nodes(t, l).len()
                &&& forall|k: int|
                    0 <= k < fm.functions@.len() ==> spec_fm_matches(
                        fm.functions@[k],
                        #[trigger] spec_function_nodes(t, l)[k],
                        rel_path@,
                        l,
                    )
            } else {
                fm.parse_success == false
            })))
        },
        match r {
            Some(fm) => {
                &&& Some(fm.language) == crate::lang::spec_lang_of_ext(ext@)
                &&& fm.path@ == rel_path@
                &&& fm.lines_of_code == spec_line_count(content@)
                &&& spec_file_wf(fm)
                &&& forall|k: int|
                    0 <= k < fm.functions@.len() ==> (#[trigger] fm.functions@[k]).file@
                        == rel_path@
            },
            None => true,
        },
{
    let lang = match SupportedLanguage::from_extension(ext) {
        Some(l) => l,
        None => {
            return None;
        },
    };
    match crate::tree::parse_source(lang, content) {
        crate::tree::ParseOutcome::Unavailable => None,
        crate::tree::ParseOutcome::Failed => Some(failure_metrics(rel_path, lang, content)),
        crate::tree::ParseOutcome::Parsed(root) => {
            let sized = crate::tree::count_nodes_bounded(&root);
            match sized {
                Some(_) => {
                    if crate::tree::rows_ok(&root) {
                        let fm = metrics_for_tree(rel_path, lang, content, &root);
                        proof {
                            assert forall|k: int|
                                0 <= k < fm.functions@.len() implies (
                            #[trigger] fm.functions@[k]).file@ == rel_path@ by {
                                assert(spec_fm_matches(
                                    fm.functions@[k],
                                    spec_function_nodes(root, lang)[k],
                                    rel_path@,
                                    lang,
                                ));
                            }
                        }
                        Some(fm)
                    } else {
                        Some(failure_metrics(rel_path, lang, content))
                    }
                },
                None => Some(failure_metrics(rel_path, lang, content)),
            }
        },
    }
}

} // verus!
