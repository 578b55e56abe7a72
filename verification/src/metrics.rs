use vstd::prelude::*;
use crate::lang::{
    SupportedLanguage, is_decision_kind, is_nesting_kind, is_bool_op_text, is_binary_kind,
    is_decision_point, is_nesting_node, is_boolean_operator, is_binary_node,
    lemma_nesting_kind_is_decision_kind,
};
use crate::tree::{
    SyntaxNode, NODE_LIMIT, spec_node_count, spec_node_count_seq, lemma_node_count_seq_member,
    lemma_node_count_pos, lemma_tail_count_ge,
};

verus! {

/// The larger of two naturals.
pub open spec fn nat_max(a: nat, b: nat) -> nat {
    if a >= b {
        a
    } else {
        b
    }
}

/// Decision-point nodes in the subtree rooted at `n`.
pub open spec fn spec_decision_count(n: SyntaxNode, lang: SupportedLanguage) -> nat
    decreases n,
{
    (if is_decision_kind(lang, n.kind@) {
        1nat
    } else {
        0nat
    }) + spec_decision_count_seq(n.children@, lang)
}

/// Decision-point nodes in the subtrees of a sequence of nodes.
pub open spec fn spec_decision_count_seq(s: Seq<SyntaxNode>, lang: SupportedLanguage) -> nat
    decreases s,
{
    if s.len() == 0 {
        0
    } else {
        spec_decision_count(s[0], lang) + spec_decision_count_seq(s.drop_first(), lang)
    }
}

/// Boolean-operator tokens among a node's direct children.
pub open spec fn spec_bool_op_children(s: Seq<SyntaxNode>, lang: SupportedLanguage) -> nat
    decreases s,
{
    if s.len() == 0 {
        0
    } else {
        (if is_bool_op_text(lang, s[0].text@) {
            1nat
        } else {
            0nat
        }) + spec_bool_op_children(s.drop_first(), lang)
    }
}

/// Boolean operators contributed by `n` itself: its operator children, when
/// `n` is a binary or boolean operator node.
pub open spec fn spec_direct_bool_ops(n: SyntaxNode, lang: SupportedLanguage) -> nat {
    if is_binary_kind(n.kind@) {
        spec_bool_op_children(n.children@, lang)
    } else {
        0
    }
}

/// Boolean-operator occurrences in the subtree rooted at `n`.
pub open spec fn spec_bool_op_count(n: SyntaxNode, lang: SupportedLanguage) -> nat
    decreases n,
{
    spec_direct_bool_ops(n, lang) + spec_bool_op_count_seq(n.children@, lang)
}

/// Boolean-operator occurrences in the subtrees of a sequence of nodes.
pub open spec fn spec_bool_op_count_seq(s: Seq<SyntaxNode>, lang: SupportedLanguage) -> nat
    decreases s,
{
    if s.len() == 0 {
        0
    } else {
        spec_bool_op_count(s[0], lang) + spec_bool_op_count_seq(s.drop_first(), lang)
    }
}

/// Cyclomatic complexity of a function subtree: one more than its decision
/// points and boolean operators together.
pub open spec fn spec_cyclomatic(n: SyntaxNode, lang: SupportedLanguage) -> nat {
    1 + spec_decision_count(n, lang) + spec_bool_op_count(n, lang)
}

/// Cognitive complexity of the subtree rooted at `n`, entered at nesting
/// level `lvl`: a decision point adds one plus the level at which it sits,
/// and a nesting node raises the level for its children.
pub open spec fn spec_cognitive(n: SyntaxNode, lvl: nat, lang: SupportedLanguage) -> nat
    decreases n,
{
    (if is_decision_kind(lang, n.kind@) {
        1nat + lvl as nat
    } else {
        0nat
    }) + spec_cognitive_seq(
        n.children@,
        lvl + (if is_nesting_kind(lang, n.kind@) {
            1nat
        } else {
            0nat
        }),
        lang,
    )
}

/// Cognitive complexity summed over a sequence of subtrees.
pub open spec fn spec_cognitive_seq(s: Seq<SyntaxNode>, lvl: nat, lang: SupportedLanguage) -> nat
    decreases s,
{
    if s.len() == 0 {
        0
    } else {
        spec_cognitive(s[0], lvl, lang) + spec_cognitive_seq(s.drop_first(), lvl, lang)
    }
}

/// Deepest nesting reached in the subtree rooted at `n`, entered at depth
/// `depth`.
pub open spec fn spec_max_nesting(n: SyntaxNode, depth: nat, lang: SupportedLanguage) -> nat
    decreases n,
{
    spec_max_nesting_seq(
        n.children@,
        depth + (if is_nesting_kind(lang, n.kind@) {
            1nat
        } else {
            0nat
        }),
        lang,
    )
}

/// Deepest nesting reached over a sequence of subtrees, all entered at depth
/// `depth`; `depth` itself when the sequence is empty.
pub open spec fn spec_max_nesting_seq(s: Seq<SyntaxNode>, depth: nat, lang: SupportedLanguage) -> nat
    decreases s,
{
    if s.len() == 0 {
        depth
    } else {
        nat_max(
            spec_max_nesting(s[0], depth, lang),
            spec_max_nesting_seq(s.drop_first(), depth, lang),
        )
    }
}

/// Decision counts add over concatenation.
pub proof fn lemma_decision_seq_concat(s1: Seq<SyntaxNode>, s2: Seq<SyntaxNode>, lang: SupportedLanguage)
    ensures
        spec_decision_count_seq(s1 + s2, lang) == spec_decision_count_seq(s1, lang)
            + spec_decision_count_seq(s2, lang),
    decreases s1,
{
    if s1.len() == 0 {
        assert(s1 + s2 =~= s2);
    } else {
        assert((s1 + s2).drop_first() =~= s1.drop_first() + s2);
        lemma_decision_seq_concat(s1.drop_first(), s2, lang);
    }
}

/// Extending a prefix by one node adds that node's decision count.
pub proof fn lemma_decision_seq_snoc(s: Seq<SyntaxNode>, i: int, lang: SupportedLanguage)
    requires
        0 <= i < s.len(),
    ensures
        spec_decision_count_seq(s.subrange(0, i + 1), lang) == spec_decision_count_seq(
            s.subrange(0, i),
            lang,
        ) + spec_decision_count(s[i], lang),
{
    assert(s.subrange(0, i + 1) =~= s.subrange(0, i) + seq![s[i]]);
    lemma_decision_seq_concat(s.subrange(0, i), seq![s[i]], lang);
    assert(seq![s[i]].drop_first() =~= Seq::<SyntaxNode>::empty());
    assert(spec_decision_count_seq(seq![s[i]], lang) == spec_decision_count(s[i], lang)
        + spec_decision_count_seq(seq![s[i]].drop_first(), lang));
    assert(spec_decision_count_seq(Seq::<SyntaxNode>::empty(), lang) == 0);
}

/// Direct boolean-operator counts add over concatenation.
pub proof fn lemma_bool_children_concat(s1: Seq<SyntaxNode>, s2: Seq<SyntaxNode>, lang: SupportedLanguage)
    ensures
        spec_bool_op_children(s1 + s2, lang) == spec_bool_op_children(s1, lang)
            + spec_bool_op_children(s2, lang),
    decreases s1,
{
    if s1.len() == 0 {
        assert(s1 + s2 =~= s2);
    } else {
        assert((s1 + s2).drop_first() =~= s1.drop_first() + s2);
        lemma_bool_children_concat(s1.drop_first(), s2, lang);
    }
}

/// Extending a prefix by one node adds at most one operator token.
pub proof fn lemma_bool_children_snoc(s: Seq<SyntaxNode>, i: int, lang: SupportedLanguage)
    requires
        0 <= i < s.len(),
    ensures
        spec_bool_op_children(s.subrange(0, i + 1), lang) == spec_bool_op_children(
            s.subrange(0, i),
            lang,
        ) + (if is_bool_op_text(lang, s[i].text@) {
            1nat
        } else {
            0nat
        }),
{
    assert(s.subrange(0, i + 1) =~= s.subrange(0, i) + seq![s[i]]);
    lemma_bool_children_concat(s.subrange(0, i), seq![s[i]], lang);
    assert(seq![s[i]].drop_first() =~= Seq::<SyntaxNode>::empty());
    assert(spec_bool_op_children(seq![s[i]], lang) == (if is_bool_op_text(lang, s[i].text@) {
        1nat
    } else {
        0nat
    }) + spec_bool_op_children(seq![s[i]].drop_first(), lang));
    assert(spec_bool_op_children(Seq::<SyntaxNode>::empty(), lang) == 0);
}

/// A node has at most as many operator children as children.
pub proof fn lemma_bool_children_le_len(s: Seq<SyntaxNode>, lang: SupportedLanguage)
    ensures
        spec_bool_op_children(s, lang) <= s.len(),
    decreases s,
{
    if s.len() > 0 {
        lemma_bool_children_le_len(s.drop_first(), lang);
    }
}

/// Boolean-operator subtree counts add over concatenation.
pub proof fn lemma_bool_count_seq_concat(s1: Seq<SyntaxNode>, s2: Seq<SyntaxNode>, lang: SupportedLanguage)
    ensures
        spec_bool_op_count_seq(s1 + s2, lang) == spec_bool_op_count_seq(s1, lang)
            + spec_bool_op_count_seq(s2, lang),
    decreases s1,
{
    if s1.len() == 0 {
        assert(s1 + s2 =~= s2);
    } else {
        assert((s1 + s2).drop_first() =~= s1.drop_first() + s2);
        lemma_bool_count_seq_concat(s1.drop_first(), s2, lang);
    }
}

/// Extending a prefix by one node adds that node's boolean-operator count.
pub proof fn lemma_bool_count_seq_snoc(s: Seq<SyntaxNode>, i: int, lang: SupportedLanguage)
    requires
        0 <= i < s.len(),
    ensures
        spec_bool_op_count_seq(s.subrange(0, i + 1), lang) == spec_bool_op_count_seq(
            s.subrange(0, i),
            lang,
        ) + spec_bool_op_count(s[i], lang),
{
    assert(s.subrange(0, i + 1) =~= s.subrange(0, i) + seq![s[i]]);
    lemma_bool_count_seq_concat(s.subrange(0, i), seq![s[i]], lang);
    assert(seq![s[i]].drop_first() =~= Seq::<SyntaxNode>::empty());
    assert(spec_bool_op_count_seq(seq![s[i]], lang) == spec_bool_op_count(s[i], lang)
        + spec_bool_op_count_seq(seq![s[i]].drop_first(), lang));
    assert(spec_bool_op_count_seq(Seq::<SyntaxNode>::empty(), lang) == 0);
}

/// Cognitive sums add over concatenation.
pub proof fn lemma_cognitive_seq_concat(s1: Seq<SyntaxNode>, s2: Seq<SyntaxNode>, lvl: nat, lang: SupportedLanguage)
    ensures
        spec_cognitive_seq(s1 + s2, lvl, lang) == spec_cognitive_seq(s1, lvl, lang)
            + spec_cognitive_seq(s2, lvl, lang),
    decreases s1,
{
    if s1.len() == 0 {
        assert(s1 + s2 =~= s2);
    } else {
        assert((s1 + s2).drop_first() =~= s1.drop_first() + s2);
        lemma_cognitive_seq_concat(s1.drop_first(), s2, lvl, lang);
    }
}

/// Extending a prefix by one node adds that node's cognitive sum.
pub proof fn lemma_cognitive_seq_snoc(s: Seq<SyntaxNode>, i: int, lvl: nat, lang: SupportedLanguage)
    requires
        0 <= i < s.len(),
    ensures
        spec_cognitive_seq(s.subrange(0, i + 1), lvl, lang) == spec_cognitive_seq(
            s.subrange(0, i),
            lvl,
            lang,
        ) + spec_cognitive(s[i], lvl, lang),
{
    assert(s.subrange(0, i + 1) =~= s.subrange(0, i) + seq![s[i]]);
    lemma_cognitive_seq_concat(s.subrange(0, i), seq![s[i]], lvl, lang);
    assert(seq![s[i]].drop_first() =~= Seq::<SyntaxNode>::empty());
    assert(spec_cognitive_seq(seq![s[i]], lvl, lang) == spec_cognitive(s[i], lvl, lang)
        + spec_cognitive_seq(seq![s[i]].drop_first(), lvl, lang));
    assert(spec_cognitive_seq(Seq::<SyntaxNode>::empty(), lvl, lang) == 0);
}

/// The nesting maximum of a sequence never sits below the entry depth.
pub proof fn lemma_nesting_seq_ge(s: Seq<SyntaxNode>, depth: nat, lang: SupportedLanguage)
    ensures
        spec_max_nesting_seq(s, depth, lang) >= depth,
    decreases s, 1nat,
{
    if s.len() > 0 {
        lemma_nesting_ge(s[0], depth, lang);
        lemma_nesting_seq_ge(s.drop_first(), depth, lang);
    }
}

/// A subtree's nesting maximum never sits below the entry depth.
pub proof fn lemma_nesting_ge(n: SyntaxNode, depth: nat, lang: SupportedLanguage)
    ensures
        spec_max_nesting(n, depth, lang) >= depth,
    decreases n, 0nat,
{
    let d = depth + (if is_nesting_kind(lang, n.kind@) {
        1nat
    } else {
        0nat
    });
    lemma_nesting_seq_ge(n.children@, d, lang);
}

/// Nesting maxima combine over concatenation by taking the larger side.
pub proof fn lemma_nesting_seq_concat(s1: Seq<SyntaxNode>, s2: Seq<SyntaxNode>, depth: nat, lang: SupportedLanguage)
    ensures
        spec_max_nesting_seq(s1 + s2, depth, lang) == nat_max(
            spec_max_nesting_seq(s1, depth, lang),
            spec_max_nesting_seq(s2, depth, lang),
        ),
    decreases s1,
{
    if s1.len() == 0 {
        assert(s1 + s2 =~= s2);
        lemma_nesting_seq_ge(s2, depth, lang);
    } else {
        assert((s1 + s2).drop_first() =~= s1.drop_first() + s2);
        lemma_nesting_seq_concat(s1.drop_first(), s2, depth, lang);
    }
}

/// Extending a prefix by one node folds in that node's nesting maximum.
pub proof fn lemma_nesting_seq_snoc(s: Seq<SyntaxNode>, i: int, depth: nat, lang: SupportedLanguage)
    requires
        0 <= i < s.len(),
    ensures
        spec_max_nesting_seq(s.subrange(0, i + 1), depth, lang) == nat_max(
            spec_max_nesting_seq(s.subrange(0, i), depth, lang),
            spec_max_nesting(s[i], depth, lang),
        ),
{
    assert(s.subrange(0, i + 1) =~= s.subrange(0, i) + seq![s[i]]);
    lemma_nesting_seq_concat(s.subrange(0, i), seq![s[i]], depth, lang);
    assert(seq![s[i]].drop_first() =~= Seq::<SyntaxNode>::empty());
    assert(spec_max_nesting_seq(seq![s[i]], depth, lang) == nat_max(
        spec_max_nesting(s[i], depth, lang),
        spec_max_nesting_seq(seq![s[i]].drop_first(), depth, lang),
    ));
    assert(spec_max_nesting_seq(Seq::<SyntaxNode>::empty(), depth, lang) == depth);
    lemma_nesting_ge(s[i], depth, lang);
}

/// A sequence holds at least as many nodes as it has members.
pub proof fn lemma_seq_len_le_count(s: Seq<SyntaxNode>)
    ensures
        s.len() <= spec_node_count_seq(s),
    decreases s,
{
    if s.len() > 0 {
        lemma_node_count_pos(s[0]);
        lemma_seq_len_le_count(s.drop_first());
    }
}

/// Decision points and boolean operators together stay below twice the
/// subtree size.
pub proof fn lemma_cyclo_raw_bound(n: SyntaxNode, lang: SupportedLanguage)
    ensures
        spec_decision_count(n, lang) + spec_bool_op_count(n, lang) < 2 * spec_node_count(n),
    decreases n, 0nat,
{
    lemma_cyclo_raw_bound_seq(n.children@, lang);
    lemma_bool_children_le_len(n.children@, lang);
    lemma_seq_len_le_count(n.children@);
}

/// Sequence form of the combined decision and operator bound.
pub proof fn lemma_cyclo_raw_bound_seq(s: Seq<SyntaxNode>, lang: SupportedLanguage)
    ensures
        spec_decision_count_seq(s, lang) + spec_bool_op_count_seq(s, lang) + s.len() <= 2
            * spec_node_count_seq(s),
    decreases s, 1nat,
{
    if s.len() > 0 {
        lemma_cyclo_raw_bound(s[0], lang);
        lemma_cyclo_raw_bound_seq(s.drop_first(), lang);
    }
}

/// Cognitive complexity is bounded by the subtree size times the entry
/// level, plus the size squared.
pub proof fn lemma_cognitive_bound(n: SyntaxNode, lvl: nat, lang: SupportedLanguage)
    ensures
        spec_cognitive(n, lvl, lang) <= spec_node_count(n) * (1 + lvl) + spec_node_count(n)
            * spec_node_count(n),
    decreases n, 0nat,
{
    let m = spec_node_count_seq(n.children@);
    let e: nat = if is_nesting_kind(lang, n.kind@) {
        1nat
    } else {
        0nat
    };
    lemma_cognitive_bound_seq(n.children@, lvl + e, lang);
    assert((1 + lvl) + (m * (1 + lvl + e) + m * m) <= (m + 1) * (1 + lvl) + (m + 1) * (m + 1))
        by (nonlinear_arith)
        requires
            e <= 1,
    ;
}

/// Sequence form of the cognitive bound.
pub proof fn lemma_cognitive_bound_seq(s: Seq<SyntaxNode>, lvl: nat, lang: SupportedLanguage)
    ensures
        spec_cognitive_seq(s, lvl, lang) <= spec_node_count_seq(s) * (1 + lvl)
            + spec_node_count_seq(s) * spec_node_count_seq(s),
    decreases s, 1nat,
{
    if s.len() > 0 {
        lemma_cognitive_bound(s[0], lvl, lang);
        lemma_cognitive_bound_seq(s.drop_first(), lvl, lang);
        let a = spec_node_count(s[0]);
        let b = spec_node_count_seq(s.drop_first());
        assert((a * (1 + lvl) + a * a) + (b * (1 + lvl) + b * b) <= (a + b) * (1 + lvl) + (a + b)
            * (a + b)) by (nonlinear_arith);
    }
}

/// The deepest nesting reached stays within the entry depth plus the
/// subtree size.
pub proof fn lemma_nesting_bound(n: SyntaxNode, depth: nat, lang: SupportedLanguage)
    ensures
        spec_max_nesting(n, depth, lang) <= depth + spec_node_count(n),
    decreases n, 0nat,
{
    let e: nat = if is_nesting_kind(lang, n.kind@) {
        1nat
    } else {
        0nat
    };
    lemma_nesting_bound_seq(n.children@, depth + e, lang);
}

/// Sequence form of the nesting bound.
pub proof fn lemma_nesting_bound_seq(s: Seq<SyntaxNode>, depth: nat, lang: SupportedLanguage)
    ensures
        spec_max_nesting_seq(s, depth, lang) <= depth + spec_node_count_seq(s),
    decreases s, 1nat,
{
    if s.len() > 0 {
        lemma_nesting_bound(s[0], depth, lang);
        lemma_nesting_bound_seq(s.drop_first(), depth, lang);
        lemma_node_count_pos(s[0]);
    }
}

/// A subtree without decision points contributes no cognitive complexity,
/// whatever level it is entered at.
pub proof fn lemma_no_decisions_no_cognitive(n: SyntaxNode, lvl: nat, lang: SupportedLanguage)
    requires
        spec_decision_count(n, lang) == 0,
    ensures
        spec_cognitive(n, lvl, lang) == 0,
    decreases n, 0nat,
{
    lemma_no_decisions_no_cognitive_seq(n.children@, lvl, lang);
}

/// Sequence form of the cognitive vacuity lemma.
pub proof fn lemma_no_decisions_no_cognitive_seq(s: Seq<SyntaxNode>, lvl: nat, lang: SupportedLanguage)
    requires
        spec_decision_count_seq(s, lang) == 0,
    ensures
        spec_cognitive_seq(s, lvl, lang) == 0,
    decreases s, 1nat,
{
    if s.len() > 0 {
        lemma_no_decisions_no_cognitive(s[0], lvl, lang);
        lemma_no_decisions_no_cognitive_seq(s.drop_first(), lvl, lang);
    }
}

/// A subtree without decision points never deepens nesting: the nesting
/// kinds are a subset of the decision kinds.
pub proof fn lemma_no_decisions_no_nesting(n: SyntaxNode, depth: nat, lang: SupportedLanguage)
    requires
        spec_decision_count(n, lang) == 0,
    ensures
        spec_max_nesting(n, depth, lang) == depth,
    decreases n, 0nat,
{
    lemma_nesting_kind_is_decision_kind(lang, n.kind@);
    lemma_no_decisions_no_nesting_seq(n.children@, depth, lang);
}

/// Sequence form of the nesting vacuity lemma.
pub proof fn lemma_no_decisions_no_nesting_seq(s: Seq<SyntaxNode>, depth: nat, lang: SupportedLanguage)
    requires
        spec_decision_count_seq(s, lang) == 0,
    ensures
        spec_max_nesting_seq(s, depth, lang) == depth,
    decreases s, 1nat,
{
    if s.len() > 0 {
        lemma_no_decisions_no_nesting(s[0], depth, lang);
        lemma_no_decisions_no_nesting_seq(s.drop_first(), depth, lang);
    }
}

/// A subtree that contributes nothing countable: no decision points and no
/// boolean operators anywhere in it.
pub open spec fn spec_countfree(n: SyntaxNode, lang: SupportedLanguage) -> bool {
    spec_decision_count(n, lang) == 0 && spec_bool_op_count(n, lang) == 0
}

/// Every member is countable-free.
pub open spec fn spec_countfree_seq(s: Seq<SyntaxNode>, lang: SupportedLanguage) -> bool
    decreases s,
{
    s.len() == 0 || (spec_countfree(s[0], lang) && spec_countfree_seq(s.drop_first(), lang))
}

/// `t` lies in `n`'s subtree with nothing countable on the way down: every
/// node strictly above `t` on the path is neither a decision point nor a
/// nesting node and carries no operator tokens, and every subtree
/// branching off the path is countable-free.
pub open spec fn spec_lone_path(n: SyntaxNode, t: SyntaxNode, lang: SupportedLanguage) -> bool
    decreases n, 0nat,
{
    n == t || {
        &&& !is_decision_kind(lang, n.kind@)
        &&& !is_nesting_kind(lang, n.kind@)
        &&& spec_direct_bool_ops(n, lang) == 0
        &&& spec_lone_path_seq(n.children@, t, lang)
    }
}

/// One member leads to `t` along a lone path; all the others are
/// countable-free.
pub open spec fn spec_lone_path_seq(s: Seq<SyntaxNode>, t: SyntaxNode, lang: SupportedLanguage) -> bool
    decreases s, 1nat,
{
    s.len() > 0 && ((spec_lone_path(s[0], t, lang) && spec_countfree_seq(s.drop_first(), lang)) || (
    spec_countfree(s[0], lang) && spec_lone_path_seq(s.drop_first(), t, lang)))
}

/// Countable-free members sum to nothing.
proof fn lemma_countfree_seq_zero(s: Seq<SyntaxNode>, lang: SupportedLanguage)
    requires
        spec_countfree_seq(s, lang),
    ensures
        spec_decision_count_seq(s, lang) == 0,
        spec_bool_op_count_seq(s, lang) == 0,
    decreases s,
{
    if s.len() > 0 {
        lemma_countfree_seq_zero(s.drop_first(), lang);
    }
}

/// Walking down a lone path changes none of the four measures: the context
/// above `t` is invisible to them.
pub proof fn lemma_lone_path_metrics(
    n: SyntaxNode,
    t: SyntaxNode,
    lvl: nat,
    depth: nat,
    lang: SupportedLanguage,
)
    requires
        spec_lone_path(n, t, lang),
    ensures
        spec_decision_count(n, lang) == spec_decision_count(t, lang),
        spec_bool_op_count(n, lang) == spec_bool_op_count(t, lang),
        spec_cognitive(n, lvl, lang) == spec_cognitive(t, lvl, lang),
        spec_max_nesting(n, depth, lang) == spec_max_nesting(t, depth, lang),
    decreases n, 0nat,
{
    if n != t {
        lemma_lone_seq_metrics(n.children@, t, lvl, depth, lang);
    }
}

/// Sequence form of the lone-path preservation: the path member carries
/// the measures, the countable-free members vanish.
proof fn lemma_lone_seq_metrics(
    s: Seq<SyntaxNode>,
    t: SyntaxNode,
    lvl: nat,
    depth: nat,
    lang: SupportedLanguage,
)
    requires
        spec_lone_path_seq(s, t, lang),
    ensures
        spec_decision_count_seq(s, lang) == spec_decision_count(t, lang),
        spec_bool_op_count_seq(s, lang) == spec_bool_op_count(t, lang),
        spec_cognitive_seq(s, lvl, lang) == spec_cognitive(t, lvl, lang),
        spec_max_nesting_seq(s, depth, lang) == spec_max_nesting(t, depth, lang),
    decreases s, 1nat,
{
    let rest = s.drop_first();
    lemma_nesting_ge(t, depth, lang);
    if spec_lone_path(s[0], t, lang) && spec_countfree_seq(rest, lang) {
        lemma_lone_path_metrics(s[0], t, lvl, depth, lang);
        lemma_countfree_seq_zero(rest, lang);
        lemma_no_decisions_no_cognitive_seq(rest, lvl, lang);
        lemma_no_decisions_no_nesting_seq(rest, depth, lang);
    } else {
        lemma_no_decisions_no_cognitive(s[0], lvl, lang);
        lemma_no_decisions_no_nesting(s[0], depth, lang);
        lemma_lone_seq_metrics(rest, t, lvl, depth, lang);
    }
}

/// One conditional holding one loop, both decision and nesting kinds, and
/// nothing else countable anywhere in the function subtree: cyclomatic
/// complexity three (the base path, the conditional and the loop),
/// cognitive complexity three (the conditional adds one at level zero, the
/// loop adds two at level one), and maximum nesting depth two.
pub proof fn lemma_conditional_holding_loop(
    f: SyntaxNode,
    c: SyntaxNode,
    d: SyntaxNode,
    lang: SupportedLanguage,
)
    requires
        spec_lone_path(f, c, lang),
        is_decision_kind(lang, c.kind@),
        is_nesting_kind(lang, c.kind@),
        spec_direct_bool_ops(c, lang) == 0,
        spec_lone_path_seq(c.children@, d, lang),
        is_decision_kind(lang, d.kind@),
        is_nesting_kind(lang, d.kind@),
        spec_direct_bool_ops(d, lang) == 0,
        spec_decision_count_seq(d.children@, lang) == 0,
        spec_bool_op_count_seq(d.children@, lang) == 0,
    ensures
        spec_cyclomatic(f, lang) == 3,
        spec_cognitive(f, 0, lang) == 3,
        spec_max_nesting(f, 0, lang) == 2,
{
    lemma_no_decisions_no_cognitive_seq(d.children@, 2, lang);
    lemma_no_decisions_no_nesting_seq(d.children@, 2, lang);
    assert(spec_decision_count(d, lang) == 1);
    assert(spec_bool_op_count(d, lang) == 0);
    assert(spec_cognitive(d, 1, lang) == 2);
    assert(spec_max_nesting(d, 1, lang) == 2);
    lemma_lone_seq_metrics(c.children@, d, 1, 1, lang);
    assert(spec_decision_count(c, lang) == 2);
    assert(spec_bool_op_count(c, lang) == 0);
    assert(spec_cognitive(c, 0, lang) == 3);
    assert(spec_max_nesting(c, 0, lang) == 2);
    lemma_lone_path_metrics(f, c, 0, 0, lang);
}

/// A function subtree with no decision points and no boolean operators has
/// cyclomatic complexity exactly one, cognitive complexity zero, and
/// maximum nesting depth zero.
pub proof fn lemma_straight_line_metrics(n: SyntaxNode, lang: SupportedLanguage)
    requires
        spec_decision_count(n, lang) == 0,
        spec_bool_op_count(n, lang) == 0,
    ensures
        spec_cyclomatic(n, lang) == 1,
        spec_cognitive(n, 0, lang) == 0,
        spec_max_nesting(n, 0, lang) == 0,
{
    lemma_no_decisions_no_cognitive(n, 0, lang);
    lemma_no_decisions_no_nesting(n, 0, lang);
}

/// Decision points plus boolean operators in the subtree rooted at `n`.
fn cyclo_contrib(n: &SyntaxNode, lang: SupportedLanguage) -> (r: u64)
    requires
        spec_node_count(*n) <= NODE_LIMIT,
    ensures
        r == spec_decision_count(*n, lang) + spec_bool_op_count(*n, lang),
    decreases *n,
{
    let ghost d: nat = if is_decision_kind(lang, n.kind@) {
        1nat
    } else {
        0nat
    };
    let mut total: u64 = if is_decision_point(n.kind.as_str(), lang) {
        1
    } else {
        0
    };
    if is_binary_node(n.kind.as_str()) {
        let mut j: usize = 0;
        while j < n.children.len()
            invariant
                j <= n.children@.len(),
                spec_node_count(*n) <= NODE_LIMIT,
                total == d + spec_bool_op_children(n.children@.subrange(0, j as int), lang),
                total <= 1 + j,
            decreases n.children@.len() - j,
        {
            proof {
                lemma_seq_len_le_count(n.children@);
                lemma_bool_children_snoc(n.children@, j as int, lang);
            }
            if is_boolean_operator(n.children[j].text.as_str(), lang) {
                total = total + 1;
            }
            j = j + 1;
        }
        proof {
            assert(n.children@.subrange(0, n.children@.len() as int) =~= n.children@);
        }
    }
    assert(total == d + spec_direct_bool_ops(*n, lang));
    let ghost base: nat = d + spec_direct_bool_ops(*n, lang);
    let mut i: usize = 0;
    while i < n.children.len()
        invariant
            i <= n.children@.len(),
            spec_node_count(*n) <= NODE_LIMIT,
            base == d + spec_direct_bool_ops(*n, lang),
            base <= 1 + n.children@.len(),
            total == base + spec_decision_count_seq(n.children@.subrange(0, i as int), lang)
                + spec_bool_op_count_seq(n.children@.subrange(0, i as int), lang),
        decreases n.children@.len() - i,
    {
        proof {
            assert(decreases_to!(*n => n.children));
            assert(decreases_to!(n.children => n.children@[i as int]));
            lemma_node_count_seq_member(n.children@, i as int);
        }
        let sub = cyclo_contrib(&n.children[i], lang);
        proof {
            lemma_seq_len_le_count(n.children@);
            lemma_cyclo_raw_bound(n.children@[i as int], lang);
            lemma_cyclo_raw_bound_seq(n.children@.subrange(0, i as int), lang);
            lemma_tail_count_ge(n.children@, i as int);
            lemma_decision_seq_snoc(n.children@, i as int, lang);
            lemma_bool_count_seq_snoc(n.children@, i as int, lang);
        }
        total = total + sub;
        i = i + 1;
    }
    proof {
        assert(n.children@.subrange(0, n.children@.len() as int) =~= n.children@);
    }
    total
}

/// Cyclomatic complexity of the function subtree rooted at `n`: one plus
/// its decision points plus its boolean operator occurrences.
pub fn calculate_cyclomatic_complexity(n: &SyntaxNode, lang: SupportedLanguage) -> (r: u64)
    requires
        spec_node_count(*n) <= NODE_LIMIT,
    ensures
        r == spec_cyclomatic(*n, lang),
{
    proof {
        lemma_cyclo_raw_bound(*n, lang);
    }
    1 + cyclo_contrib(n, lang)
}

/// Boolean-operator occurrences in the subtree rooted at `n`: tokens that
/// spell a short-circuit operator, sitting directly under a binary or
/// boolean operator node.
pub fn count_boolean_operators(n: &SyntaxNode, lang: SupportedLanguage) -> (r: u64)
    requires
        spec_node_count(*n) <= NODE_LIMIT,
    ensures
        r == spec_bool_op_count(*n, lang),
    decreases *n,
{
    let mut total: u64 = 0;
    if is_binary_node(n.kind.as_str()) {
        let mut j: usize = 0;
        while j < n.children.len()
            invariant
                j <= n.children@.len(),
                spec_node_count(*n) <= NODE_LIMIT,
                total == spec_bool_op_children(n.children@.subrange(0, j as int), lang),
                total <= j,
            decreases n.children@.len() - j,
        {
            proof {
                lemma_seq_len_le_count(n.children@);
                lemma_bool_children_snoc(n.children@, j as int, lang);
            }
            if is_boolean_operator(n.children[j].text.as_str(), lang) {
                total = total + 1;
            }
            j = j + 1;
        }
        proof {
            assert(n.children@.subrange(0, n.children@.len() as int) =~= n.children@);
        }
    }
    assert(total == spec_direct_bool_ops(*n, lang));
    let ghost base: nat = spec_direct_bool_ops(*n, lang);
    let mut i: usize = 0;
    while i < n.children.len()
        invariant
            i <= n.children@.len(),
            spec_node_count(*n) <= NODE_LIMIT,
            base == spec_direct_bool_ops(*n, lang),
            base <= n.children@.len(),
            total == base + spec_bool_op_count_seq(n.children@.subrange(0, i as int), lang),
        decreases n.children@.len() - i,
    {
        proof {
            assert(decreases_to!(*n => n.children));
            assert(decreases_to!(n.children => n.children@[i as int]));
            lemma_node_count_seq_member(n.children@, i as int);
        }
        let sub = count_boolean_operators(&n.children[i], lang);
        proof {
            lemma_seq_len_le_count(n.children@);
            lemma_cyclo_raw_bound(n.children@[i as int], lang);
            lemma_cyclo_raw_bound_seq(n.children@.subrange(0, i as int), lang);
            lemma_tail_count_ge(n.children@, i as int);
            lemma_bool_count_seq_snoc(n.children@, i as int, lang);
        }
        total = total + sub;
        i = i + 1;
    }
    proof {
        assert(n.children@.subrange(0, n.children@.len() as int) =~= n.children@);
    }
    total
}

/// Cognitive complexity of the subtree rooted at `n`, entered at nesting
/// level `lvl`.
fn cognitive_visit(n: &SyntaxNode, lvl: u64, lang: SupportedLanguage) -> (r: u64)
    requires
        lvl + spec_node_count(*n) <= NODE_LIMIT,
    ensures
        r == spec_cognitive(*n, lvl as nat, lang),
    decreases *n,
{
    proof {
        lemma_node_count_pos(*n);
    }
    let child_lvl: u64 = if is_nesting_node(n.kind.as_str(), lang) {
        lvl + 1
    } else {
        lvl
    };
    let mut total: u64 = if is_decision_point(n.kind.as_str(), lang) {
        1 + lvl
    } else {
        0
    };
    let ghost d: nat = if is_decision_kind(lang, n.kind@) {
        1nat + lvl as nat
    } else {
        0nat
    };
    let mut i: usize = 0;
    while i < n.children.len()
        invariant
            i <= n.children@.len(),
            lvl + spec_node_count(*n) <= NODE_LIMIT,
            child_lvl == lvl + (if is_nesting_kind(lang, n.kind@) {
                1nat
            } else {
                0nat
            }),
            d == (if is_decision_kind(lang, n.kind@) {
                1nat + lvl as nat
            } else {
                0nat
            }),
            total == d + spec_cognitive_seq(
                n.children@.subrange(0, i as int),
                child_lvl as nat,
                lang,
            ),
        decreases n.children@.len() - i,
    {
        proof {
            assert(decreases_to!(*n => n.children));
            assert(decreases_to!(n.children => n.children@[i as int]));
            lemma_node_count_seq_member(n.children@, i as int);
            lemma_node_count_pos(n.children@[i as int]);
        }
        let sub = cognitive_visit(&n.children[i], child_lvl, lang);
        proof {
            let m = spec_node_count_seq(n.children@);
            let ci = spec_node_count(n.children@[i as int]);
            lemma_cognitive_bound(n.children@[i as int], child_lvl as nat, lang);
            lemma_cognitive_bound_seq(n.children@.subrange(0, i as int), child_lvl as nat, lang);
            lemma_tail_count_ge(n.children@, i as int);
            let cp = spec_node_count_seq(n.children@.subrange(0, i as int));
            assert(cp * (1 + child_lvl as nat) + cp * cp <= m * (1 + child_lvl as nat) + m * m)
                by (nonlinear_arith)
                requires
                    cp <= m,
            ;
            assert(ci * (1 + child_lvl as nat) + ci * ci <= m * (1 + child_lvl as nat) + m * m)
                by (nonlinear_arith)
                requires
                    ci <= m,
            ;
            assert(spec_node_count(*n) == 1 + m);
            assert(m * (1 + child_lvl as nat) + m * m <= NODE_LIMIT * (1 + NODE_LIMIT as nat))
                by (nonlinear_arith)
                requires
                    m + child_lvl as nat <= NODE_LIMIT as nat,
            ;
            lemma_cognitive_seq_snoc(n.children@, i as int, child_lvl as nat, lang);
        }
        total = total + sub;
        i = i + 1;
    }
    proof {
        assert(n.children@.subrange(0, n.children@.len() as int) =~= n.children@);
    }
    total
}

/// Cognitive complexity of the function subtree rooted at `n`, entered at
/// nesting level zero.
pub fn calculate_cognitive_complexity(n: &SyntaxNode, lang: SupportedLanguage) -> (r: u64)
    requires
        spec_node_count(*n) <= NODE_LIMIT,
    ensures
        r == spec_cognitive(*n, 0, lang),
{
    cognitive_visit(n, 0, lang)
}

/// Deepest nesting reached in the subtree rooted at `n`, entered at depth
/// `depth`.
fn nesting_visit(n: &SyntaxNode, depth: u64, lang: SupportedLanguage) -> (r: u64)
    requires
        depth + spec_node_count(*n) <= NODE_LIMIT,
    ensures
        r == spec_max_nesting(*n, depth as nat, lang),
    decreases *n,
{
    proof {
        lemma_node_count_pos(*n);
    }
    let d: u64 = if is_nesting_node(n.kind.as_str(), lang) {
        depth + 1
    } else {
        depth
    };
    let mut md: u64 = d;
    let mut i: usize = 0;
    while i < n.children.len()
        invariant
            i <= n.children@.len(),
            depth + spec_node_count(*n) <= NODE_LIMIT,
            d == depth + (if is_nesting_kind(lang, n.kind@) {
                1nat
            } else {
                0nat
            }),
            md == spec_max_nesting_seq(n.children@.subrange(0, i as int), d as nat, lang),
        decreases n.children@.len() - i,
    {
        proof {
            assert(decreases_to!(*n => n.children));
            assert(decreases_to!(n.children => n.children@[i as int]));
            lemma_node_count_seq_member(n.children@, i as int);
            lemma_node_count_pos(n.children@[i as int]);
        }
        let sub = nesting_visit(&n.children[i], d, lang);
        proof {
            lemma_nesting_seq_snoc(n.children@, i as int, d as nat, lang);
        }
        if sub > md {
            md = sub;
        }
        i = i + 1;
    }
    proof {
        assert(n.children@.subrange(0, n.children@.len() as int) =~= n.children@);
    }
    md
}

/// Deepest nesting reached in the function subtree rooted at `n`.
pub fn calculate_max_nesting_depth(n: &SyntaxNode, lang: SupportedLanguage) -> (r: u64)
    requires
        spec_node_count(*n) <= NODE_LIMIT,
    ensures
        r == spec_max_nesting(*n, 0, lang),
{
    nesting_visit(n, 0, lang)
}

} // verus!
