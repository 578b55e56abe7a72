use vstd::prelude::*;
use vstd::string::StringExecFns;
use crate::extract::{FileMetrics, FunctionMetrics, MAX_CYCLO, spec_file_wf};
use crate::lang::SupportedLanguage;

verus! {

/// Number of records in `s` satisfying `p`.
pub open spec fn spec_count_where(s: Seq<FunctionMetrics>, p: spec_fn(FunctionMetrics) -> bool) -> nat
    decreases s,
{
    if s.len() == 0 {
        0
    } else {
        (if p(s[0]) {
            1nat
        } else {
            0nat
        }) + spec_count_where(s.drop_first(), p)
    }
}

/// Counts add over concatenation.
pub proof fn lemma_count_where_concat(
    s1: Seq<FunctionMetrics>,
    s2: Seq<FunctionMetrics>,
    p: spec_fn(FunctionMetrics) -> bool,
)
    ensures
        spec_count_where(s1 + s2, p) == spec_count_where(s1, p) + spec_count_where(s2, p),
    decreases s1,
{
    if s1.len() == 0 {
        assert(s1 + s2 =~= s2);
    } else {
        assert((s1 + s2).drop_first() =~= s1.drop_first() + s2);
        lemma_count_where_concat(s1.drop_first(), s2, p);
    }
}

/// Extending a prefix by one record adds at most one to the count.
pub proof fn lemma_count_where_snoc(s: Seq<FunctionMetrics>, i: int, p: spec_fn(FunctionMetrics) -> bool)
    requires
        0 <= i < s.len(),
    ensures
        spec_count_where(s.subrange(0, i + 1), p) == spec_count_where(s.subrange(0, i), p) + (if p(
            s[i],
        ) {
            1nat
        } else {
            0nat
        }),
{
    assert(s.subrange(0, i + 1) =~= s.subrange(0, i) + seq![s[i]]);
    lemma_count_where_concat(s.subrange(0, i), seq![s[i]], p);
    assert(seq![s[i]].drop_first() =~= Seq::<FunctionMetrics>::empty());
    assert(spec_count_where(seq![s[i]], p) == (if p(s[i]) {
        1nat
    } else {
        0nat
    }) + spec_count_where(seq![s[i]].drop_first(), p));
}

/// A function with cyclomatic complexity of at most five.
pub open spec fn spec_is_low(f: FunctionMetrics) -> bool {
    f.cyclomatic_complexity <= 5
}

/// A function with cyclomatic complexity of six to fifteen.
pub open spec fn spec_is_medium(f: FunctionMetrics) -> bool {
    5 < f.cyclomatic_complexity <= 15
}

/// A function with cyclomatic complexity above fifteen.
pub open spec fn spec_is_high(f: FunctionMetrics) -> bool {
    f.cyclomatic_complexity > 15
}

/// The three buckets partition any list of functions: their counts sum to
/// the list's length.
pub proof fn lemma_buckets_partition(s: Seq<FunctionMetrics>)
    ensures
        spec_count_where(s, |f: FunctionMetrics| spec_is_low(f)) + spec_count_where(
            s,
            |f: FunctionMetrics| spec_is_medium(f),
        ) + spec_count_where(s, |f: FunctionMetrics| spec_is_high(f)) == s.len(),
    decreases s,
{
    if s.len() > 0 {
        lemma_buckets_partition(s.drop_first());
    }
}

/// All functions of all files, files in order, functions in document order.
pub open spec fn spec_all_functions(files: Seq<FileMetrics>) -> Seq<FunctionMetrics>
    decreases files,
{
    if files.len() == 0 {
        Seq::<FunctionMetrics>::empty()
    } else {
        files[0].functions@ + spec_all_functions(files.drop_first())
    }
}

/// Flattened function lists concatenate over concatenation.
pub proof fn lemma_all_functions_concat(files1: Seq<FileMetrics>, files2: Seq<FileMetrics>)
    ensures
        spec_all_functions(files1 + files2) =~= spec_all_functions(files1) + spec_all_functions(
            files2,
        ),
    decreases files1,
{
    if files1.len() == 0 {
        assert(files1 + files2 =~= files2);
    } else {
        assert((files1 + files2).drop_first() =~= files1.drop_first() + files2);
        lemma_all_functions_concat(files1.drop_first(), files2);
    }
}

/// Extending a prefix by one file appends that file's functions.
pub proof fn lemma_all_functions_snoc(files: Seq<FileMetrics>, i: int)
    requires
        0 <= i < files.len(),
    ensures
        spec_all_functions(files.subrange(0, i + 1)) =~= spec_all_functions(files.subrange(0, i))
            + files[i].functions@,
{
    assert(files.subrange(0, i + 1) =~= files.subrange(0, i) + seq![files[i]]);
    lemma_all_functions_concat(files.subrange(0, i), seq![files[i]]);
    assert(seq![files[i]].drop_first() =~= Seq::<FileMetrics>::empty());
    assert(spec_all_functions(seq![files[i]]) =~= files[i].functions@ + spec_all_functions(
        seq![files[i]].drop_first(),
    ));
    assert(files[i].functions@ + Seq::<FunctionMetrics>::empty() =~= files[i].functions@);
}

/// One copy of every function record across the scan, in file order.
pub fn flatten_functions(files: &Vec<FileMetrics>) -> (all: Vec<FunctionMetrics>)
    ensures
        all@ =~= spec_all_functions(files@),
{
    let mut all: Vec<FunctionMetrics> = Vec::new();
    let mut i: usize = 0;
    while i < files.len()
        invariant
            i <= files@.len(),
            all@ =~= spec_all_functions(files@.subrange(0, i as int)),
        decreases files@.len() - i,
    {
        let file = &files[i];
        let mut j: usize = 0;
        while j < file.functions.len()
            invariant
                i < files@.len(),
                j <= file.functions@.len(),
                file == files@[i as int],
                all@ =~= spec_all_functions(files@.subrange(0, i as int))
                    + file.functions@.subrange(0, j as int),
            decreases file.functions@.len() - j,
        {
            all.push(file.functions[j].duplicate());
            proof {
                assert(file.functions@.subrange(0, j as int).push(file.functions@[j as int])
                    =~= file.functions@.subrange(0, j + 1));
            }
            j = j + 1;
        }
        proof {
            lemma_all_functions_snoc(files@, i as int);
            assert(file.functions@.subrange(0, file.functions@.len() as int)
                =~= file.functions@);
        }
        i = i + 1;
    }
    proof {
        assert(files@.subrange(0, files@.len() as int) =~= files@);
    }
    all
}

/// Files in `files` recorded as language `lang`.
pub open spec fn spec_lang_count(files: Seq<FileMetrics>, lang: SupportedLanguage) -> nat
    decreases files,
{
    if files.len() == 0 {
        0
    } else {
        (if files[0].language == lang {
            1nat
        } else {
            0nat
        }) + spec_lang_count(files.drop_first(), lang)
    }
}

/// Language counts add over concatenation.
pub proof fn lemma_lang_count_concat(files1: Seq<FileMetrics>, files2: Seq<FileMetrics>, lang: SupportedLanguage)
    ensures
        spec_lang_count(files1 + files2, lang) == spec_lang_count(files1, lang) + spec_lang_count(
            files2,
            lang,
        ),
    decreases files1,
{
    if files1.len() == 0 {
        assert(files1 + files2 =~= files2);
    } else {
        assert((files1 + files2).drop_first() =~= files1.drop_first() + files2);
        lemma_lang_count_concat(files1.drop_first(), files2, lang);
    }
}

/// Extending a prefix by one file adds at most one to a language's count.
pub proof fn lemma_lang_count_snoc(files: Seq<FileMetrics>, i: int, lang: SupportedLanguage)
    requires
        0 <= i < files.len(),
    ensures
        spec_lang_count(files.subrange(0, i + 1), lang) == spec_lang_count(
            files.subrange(0, i),
            lang,
        ) + (if files[i].language == lang {
            1nat
        } else {
            0nat
        }),
{
    assert(files.subrange(0, i + 1) =~= files.subrange(0, i) + seq![files[i]]);
    lemma_lang_count_concat(files.subrange(0, i), seq![files[i]], lang);
    assert(seq![files[i]].drop_first() =~= Seq::<FileMetrics>::empty());
    assert(spec_lang_count(seq![files[i]], lang) == (if files[i].language == lang {
        1nat
    } else {
        0nat
    }) + spec_lang_count(seq![files[i]].drop_first(), lang));
}

/// A language's count never exceeds the number of files.
pub proof fn lemma_lang_count_le(files: Seq<FileMetrics>, lang: SupportedLanguage)
    ensures
        spec_lang_count(files, lang) <= files.len(),
    decreases files,
{
    if files.len() > 0 {
        lemma_lang_count_le(files.drop_first(), lang);
    }
}

/// One language present in the scan, with how many files it covers.
pub struct LanguageCount {
    pub language: SupportedLanguage,
    pub count: u64,
}

/// The entry a language contributes to the distribution list: one record
/// when any file carries it, nothing otherwise.
pub open spec fn spec_lang_entry(files: Seq<FileMetrics>, lang: SupportedLanguage) -> Seq<LanguageCount> {
    if spec_lang_count(files, lang) > 0 {
        seq![LanguageCount { language: lang, count: spec_lang_count(files, lang) as u64 }]
    } else {
        Seq::<LanguageCount>::empty()
    }
}

/// The language distribution: every language with at least one file, in a
/// fixed canonical order, each with its file count.
pub open spec fn spec_lang_entries(files: Seq<FileMetrics>) -> Seq<LanguageCount> {
    spec_lang_entry(files, SupportedLanguage::Python) + spec_lang_entry(
        files,
        SupportedLanguage::JavaScript,
    ) + spec_lang_entry(files, SupportedLanguage::TypeScript) + spec_lang_entry(
        files,
        SupportedLanguage::Go,
    ) + spec_lang_entry(files, SupportedLanguage::Rust) + spec_lang_entry(
        files,
        SupportedLanguage::Java,
    )
}

/// Files in `files` recorded as language `lang`.
fn count_language(files: &Vec<FileMetrics>, lang: SupportedLanguage) -> (r: u64)
    ensures
        r == spec_lang_count(files@, lang),
        r <= files@.len(),
{
    let mut c: u64 = 0;
    let mut i: usize = 0;
    while i < files.len()
        invariant
            i <= files@.len(),
            c <= i,
            c == spec_lang_count(files@.subrange(0, i as int), lang),
        decreases files@.len() - i,
    {
        proof {
            lemma_lang_count_snoc(files@, i as int, lang);
        }
        if files[i].language == lang {
            c = c + 1;
        }
        i = i + 1;
    }
    proof {
        assert(files@.subrange(0, files@.len() as int) =~= files@);
    }
    c
}

/// Appends a language's entry when any file carries it.
fn push_lang_entry(r: &mut Vec<LanguageCount>, files: &Vec<FileMetrics>, lang: SupportedLanguage)
    ensures
        final(r)@ =~= old(r)@ + spec_lang_entry(files@, lang),
{
    let c = count_language(files, lang);
    if c > 0 {
        r.push(LanguageCount { language: lang, count: c });
    }
}

/// The language distribution of the scan.
pub fn language_distribution(files: &Vec<FileMetrics>) -> (r: Vec<LanguageCount>)
    ensures
        r@ =~= spec_lang_entries(files@),
        r@.len() <= 6,
{
    let mut r: Vec<LanguageCount> = Vec::new();
    push_lang_entry(&mut r, files, SupportedLanguage::Python);
    push_lang_entry(&mut r, files, SupportedLanguage::JavaScript);
    push_lang_entry(&mut r, files, SupportedLanguage::TypeScript);
    push_lang_entry(&mut r, files, SupportedLanguage::Go);
    push_lang_entry(&mut r, files, SupportedLanguage::Rust);
    push_lang_entry(&mut r, files, SupportedLanguage::Java);
    r
}

/// The smaller of two naturals.
pub open spec fn spec_min_nat(a: nat, b: nat) -> nat {
    if a <= b {
        a
    } else {
        b
    }
}

/// Files in `files` whose parse succeeded.
pub open spec fn spec_success_count(files: Seq<FileMetrics>) -> nat
    decreases files,
{
    if files.len() == 0 {
        0
    } else {
        (if files[0].parse_success {
            1nat
        } else {
            0nat
        }) + spec_success_count(files.drop_first())
    }
}

/// Success counts add over concatenation.
pub proof fn lemma_success_count_concat(files1: Seq<FileMetrics>, files2: Seq<FileMetrics>)
    ensures
        spec_success_count(files1 + files2) == spec_success_count(files1) + spec_success_count(
            files2,
        ),
    decreases files1,
{
    if files1.len() == 0 {
        assert(files1 + files2 =~= files2);
    } else {
        assert((files1 + files2).drop_first() =~= files1.drop_first() + files2);
        lemma_success_count_concat(files1.drop_first(), files2);
    }
}

/// Extending a prefix by one file adds at most one success.
pub proof fn lemma_success_count_snoc(files: Seq<FileMetrics>, i: int)
    requires
        0 <= i < files.len(),
    ensures
        spec_success_count(files.subrange(0, i + 1)) == spec_success_count(files.subrange(0, i))
            + (if files[i].parse_success {
            1nat
        } else {
            0nat
        }),
{
    assert(files.subrange(0, i + 1) =~= files.subrange(0, i) + seq![files[i]]);
    lemma_success_count_concat(files.subrange(0, i), seq![files[i]]);
    assert(seq![files[i]].drop_first() =~= Seq::<FileMetrics>::empty());
    assert(spec_success_count(seq![files[i]]) == (if files[i].parse_success {
        1nat
    } else {
        0nat
    }) + spec_success_count(seq![files[i]].drop_first()));
}

/// The composite complexity score in hundredths: the average cyclomatic
/// complexity, weighted up by a tenth per distinct language and by a size
/// factor that saturates at one hundred functions, rounded half up. Zero
/// without functions.
pub open spec fn spec_score_centi(sum: nat, fcount: nat, lcount: nat) -> nat {
    if fcount == 0 {
        0
    } else {
        let num = sum * (10 + lcount) * (100 + spec_min_nat(fcount, 100));
        let den = 10 * fcount;
        ((2 * num + den) / (2 * den)) as nat
    }
}

/// Holding language and function counts fixed, the composite score never
/// falls as the summed (hence average) cyclomatic complexity grows.
pub proof fn lemma_score_monotone(sum1: nat, sum2: nat, fcount: nat, lcount: nat)
    requires
        sum1 <= sum2,
    ensures
        spec_score_centi(sum1, fcount, lcount) <= spec_score_centi(sum2, fcount, lcount),
{
    if fcount > 0 {
        let m = spec_min_nat(fcount, 100);
        let den = 10 * fcount;
        assert(sum1 * (10 + lcount) * (100 + m) <= sum2 * (10 + lcount) * (100 + m))
            by (nonlinear_arith)
            requires
                sum1 <= sum2,
        ;
        vstd::arithmetic::div_mod::lemma_div_is_ordered(
            (2 * (sum1 * (10 + lcount) * (100 + m)) + den) as int,
            (2 * (sum2 * (10 + lcount) * (100 + m)) + den) as int,
            (2 * den) as int,
        );
    }
}

/// The composite score in hundredths.
fn score_centi(sum: u128, fcount: u64, lcount: u64) -> (r: u64)
    requires
        lcount <= 6,
        sum <= (fcount as nat) * (MAX_CYCLO as nat),
    ensures
        r == spec_score_centi(sum as nat, fcount as nat, lcount as nat),
{
    if fcount == 0 {
        return 0;
    }
    let size_cap: u128 = if fcount > 100 {
        100
    } else {
        fcount as u128
    };
    proof {
        assert((sum as nat) * ((10 + lcount) as nat) <= (fcount as nat) * (MAX_CYCLO as nat) * 16)
            by (nonlinear_arith)
            requires
                sum as nat <= (fcount as nat) * (MAX_CYCLO as nat),
                lcount <= 6,
        ;
        assert((sum as nat) * ((10 + lcount) as nat) * ((100 + size_cap) as nat) <= (fcount as nat)
            * (MAX_CYCLO as nat) * 16 * 200) by (nonlinear_arith)
            requires
                (sum as nat) * ((10 + lcount) as nat) <= (fcount as nat) * (MAX_CYCLO as nat) * 16,
                (100 + size_cap) as nat <= 200,
        ;
        assert((fcount as nat) * (MAX_CYCLO as nat) * 16 <= 0xffff_ffff_ffff_ffff * (
        MAX_CYCLO as nat) * 16);
        assert((fcount as nat) * (MAX_CYCLO as nat) * 16 * 200 <= 0xffff_ffff_ffff_ffff * (
        MAX_CYCLO as nat) * 16 * 200);
    }
    let num: u128 = sum * ((10 + lcount) as u128) * (100 + size_cap);
    let den: u128 = 10 * (fcount as u128);
    proof {
        assert((fcount as nat) * (MAX_CYCLO as nat) * 16 * 200 < (den as nat) * (320 * (
        MAX_CYCLO as nat) + 1)) by (nonlinear_arith)
            requires
                den as nat == 10 * (fcount as nat),
                fcount >= 1,
        ;
    }
    let q: u128 = (2 * num + den) / (2 * den);
    proof {
        assert(q <= 320 * MAX_CYCLO + 1) by (nonlinear_arith)
            requires
                q == ((2 * num + den) as nat) / ((2 * den) as nat),
                num as nat <= (den as nat) * (320 * (MAX_CYCLO as nat) + 1),
                den > 0,
        ;
    }
    q as u64
}

/// The parse success rate in tenths of a percent, rounded half up; zero
/// without files.
pub open spec fn spec_rate_tenths(ok: nat, total: nat) -> nat {
    if total == 0 {
        0
    } else {
        ((2 * (1000 * ok) + total) / (2 * total)) as nat
    }
}

/// The parse success rate in tenths of a percent.
fn success_rate_tenths(ok: u64, total: u64) -> (r: u64)
    requires
        ok <= total,
    ensures
        r == spec_rate_tenths(ok as nat, total as nat),
{
    if total == 0 {
        return 0;
    }
    let num: u128 = 2000 * (ok as u128) + (total as u128);
    let den: u128 = 2 * (total as u128);
    let q: u128 = num / den;
    proof {
        assert(num <= den * 1001) by (nonlinear_arith)
            requires
                num == 2000 * (ok as nat) + total as nat,
                den == 2 * (total as nat),
                ok <= total,
        ;
        assert(q <= 1001) by (nonlinear_arith)
            requires
                q == (num as nat) / (den as nat),
                num <= den * 1001,
                den > 0,
        ;
    }
    q as u64
}

/// The bucket label a composite score falls in: below twenty, `simple`;
/// twenty up to fifty, `medium`; fifty and above, `complex`.
pub open spec fn spec_bucket_label(score_centi: nat) -> Seq<char> {
    if score_centi < 2000 {
        "simple"@
    } else if score_centi < 5000 {
        "medium"@
    } else {
        "complex"@
    }
}

/// The one-line description that goes with a bucket.
pub open spec fn spec_bucket_description(score_centi: nat) -> Seq<char> {
    if score_centi < 2000 {
        "Small, focused codebase"@
    } else if score_centi < 5000 {
        "Moderate complexity codebase"@
    } else {
        "Large, complex codebase"@
    }
}

/// The bucket label and description for a composite score in hundredths.
pub fn get_complexity_bucket(score_centi: u64) -> (r: (&'static str, &'static str))
    ensures
        r.0@ == spec_bucket_label(score_centi as nat),
        r.1@ == spec_bucket_description(score_centi as nat),
{
    if score_centi < 2000 {
        ("simple", "Small, focused codebase")
    } else if score_centi < 5000 {
        ("medium", "Moderate complexity codebase")
    } else {
        ("complex", "Large, complex codebase")
    }
}

/// Whether the function at index `i` ranks ahead of the one at `j`: a
/// strictly higher cyclomatic complexity, or the same complexity and an
/// earlier position. A strict total order on distinct indices, so the
/// ranking of a list is unique and ties keep discovery order.
pub open spec fn spec_rank_before(all: Seq<FunctionMetrics>, i: int, j: int) -> bool {
    all[i].cyclomatic_complexity > all[j].cyclomatic_complexity || (all[i].cyclomatic_complexity
        == all[j].cyclomatic_complexity && i < j)
}

/// Every index of `all`, ordered by rank: highest cyclomatic complexity
/// first, ties in discovery order.
pub fn rank_indices(all: &Vec<FunctionMetrics>) -> (idx: Vec<usize>)
    ensures
        idx@.len() == all@.len(),
        forall|k: int| 0 <= k < idx@.len() ==> (#[trigger] idx@[k]) < all@.len(),
        forall|a: int, b: int|
            0 <= a < b < idx@.len() ==> spec_rank_before(all@, idx@[a] as int, idx@[b] as int),
{
    let mut idx: Vec<usize> = Vec::new();
    let mut n: usize = 0;
    while n < all.len()
        invariant
            n <= all@.len(),
            idx@.len() == n,
            forall|k: int| 0 <= k < idx@.len() ==> (#[trigger] idx@[k]) < n,
            forall|a: int, b: int|
                0 <= a < b < idx@.len() ==> spec_rank_before(all@, idx@[a] as int, idx@[b] as int),
        decreases all@.len() - n,
    {
        let key = all[n].cyclomatic_complexity;
        let mut p: usize = 0;
        while p < idx.len() && all[idx[p]].cyclomatic_complexity >= key
            invariant
                p <= idx@.len(),
                n < all@.len(),
                key == all@[n as int].cyclomatic_complexity,
                idx@.len() == n,
                forall|k: int| 0 <= k < idx@.len() ==> (#[trigger] idx@[k]) < n,
                forall|k: int|
                    0 <= k < p ==> all@[#[trigger] idx@[k] as int].cyclomatic_complexity >= key,
            decreases idx@.len() - p,
        {
            p = p + 1;
        }
        let ghost before = idx@;
        idx.insert(p, n);
        proof {
            assert forall|a: int, b: int|
                0 <= a < b < idx@.len() implies spec_rank_before(
                all@,
                idx@[a] as int,
                idx@[b] as int,
            ) by {
                if b < p {
                    assert(idx@[a] == before[a] && idx@[b] == before[b]);
                } else if a < p && b == p {
                    assert(idx@[a] == before[a]);
                    assert(idx@[b] == n as int);
                } else if a == p && b > p {
                    assert(idx@[a] == n as int);
                    assert(idx@[b] == before[b - 1]);
                    if p < before.len() {
                        assert(all@[before[p as int] as int].cyclomatic_complexity < key);
                        if b - 1 > p {
                            assert(spec_rank_before(all@, before[p as int] as int, before[b - 1] as int));
                        }
                    }
                } else if a < p && b > p {
                    assert(idx@[a] == before[a] && idx@[b] == before[b - 1]);
                } else if a > p {
                    assert(idx@[a] == before[a - 1] && idx@[b] == before[b - 1]);
                }
            }
        }
        n = n + 1;
    }
    idx
}

/// One entry of the most-complex list: where the function sits and its two
/// complexity measures.
pub struct TopFunction {
    pub file: String,
    pub name: String,
    pub line: usize,
    pub cyclomatic_complexity: u64,
    pub cognitive_complexity: u64,
}

/// Whether `t` records the function `f`.
pub open spec fn spec_top_matches(t: TopFunction, f: FunctionMetrics) -> bool {
    &&& t.file@ == f.file@
    &&& t.name@ == f.name@
    &&& t.line == f.line
    &&& t.cyclomatic_complexity == f.cyclomatic_complexity
    &&& t.cognitive_complexity == f.cognitive_complexity
}

/// Whether `top` is the head of the ranking `order` of `all`: `order`
/// lists every index once, sorted by rank, and `top` records the first
/// `min(10, n)` of them.
pub open spec fn spec_top_via(
    all: Seq<FunctionMetrics>,
    top: Seq<TopFunction>,
    order: Seq<int>,
) -> bool {
    &&& order.len() == all.len()
    &&& (forall|k: int| 0 <= k < order.len() ==> 0 <= (#[trigger] order[k]) < all.len())
    &&& (forall|a: int, b: int| 0 <= a < b < order.len() ==> spec_rank_before(all, order[a], order[b]))
    &&& top.len() == spec_min_nat(10, all.len())
    &&& (forall|k: int| 0 <= k < top.len() ==> spec_top_matches(#[trigger] top[k], all[order[k]]))
}

/// Whether `top` lists the ten most complex functions of `all`, ranked
/// descending with ties in discovery order.
pub open spec fn spec_is_top_list(all: Seq<FunctionMetrics>, top: Seq<TopFunction>) -> bool {
    exists|order: Seq<int>| spec_top_via(all, top, order)
}

/// The `min(10, n)` most complex functions, ranked descending, ties in
/// discovery order.
pub fn top_functions(all: &Vec<FunctionMetrics>) -> (top: Vec<TopFunction>)
    ensures
        top@.len() == spec_min_nat(10, all@.len()),
        spec_is_top_list(all@, top@),
{
    let idx = rank_indices(all);
    let limit: usize = if idx.len() > 10 {
        10
    } else {
        idx.len()
    };
    let ghost order: Seq<int> = Seq::new(idx@.len() as nat, |k: int| idx@[k] as int);
    let mut top: Vec<TopFunction> = Vec::new();
    let mut k: usize = 0;
    while k < limit
        invariant
            k <= limit,
            limit == spec_min_nat(10, all@.len()),
            limit <= idx@.len(),
            idx@.len() == all@.len(),
            forall|j: int| 0 <= j < idx@.len() ==> (#[trigger] idx@[j]) < all@.len(),
            order == Seq::new(idx@.len() as nat, |j: int| idx@[j] as int),
            top@.len() == k,
            forall|j: int| 0 <= j < k ==> spec_top_matches(#[trigger] top@[j], all@[order[j]]),
        decreases limit - k,
    {
        let f = &all[idx[k]];
        top.push(
            TopFunction {
                file: f.file.clone(),
                name: f.name.clone(),
                line: f.line,
                cyclomatic_complexity: f.cyclomatic_complexity,
                cognitive_complexity: f.cognitive_complexity,
            },
        );
        k = k + 1;
    }
    proof {
        let ranked = rank_indices_order_facts(all@, idx@, order);
        assert(spec_top_via(all@, top@, order));
    }
    top
}

/// The index ranking, restated over the ghost order sequence.
proof fn rank_indices_order_facts(all: Seq<FunctionMetrics>, idx: Seq<usize>, order: Seq<int>) -> (
    r: bool)
    requires
        order == Seq::new(idx.len() as nat, |j: int| idx[j] as int),
        idx.len() == all.len(),
        forall|k: int| 0 <= k < idx.len() ==> (#[trigger] idx[k]) < all.len(),
        forall|a: int, b: int|
            0 <= a < b < idx.len() ==> spec_rank_before(all, idx[a] as int, idx[b] as int),
    ensures
        order.len() == all.len(),
        forall|k: int| 0 <= k < order.len() ==> 0 <= (#[trigger] order[k]) < all.len(),
        forall|a: int, b: int| 0 <= a < b < order.len() ==> spec_rank_before(all, order[a], order[b]),
{
    assert forall|a: int, b: int|
        0 <= a < b < order.len() implies spec_rank_before(all, order[a], order[b]) by {
        assert(order[a] == idx[a] as int && order[b] == idx[b] as int);
    }
    true
}

/// Well-formed files yield bounded complexities across the flattened list.
pub proof fn lemma_all_functions_bounded(files: Seq<FileMetrics>)
    requires
        forall|k: int| 0 <= k < files.len() ==> spec_file_wf(#[trigger] files[k]),
    ensures
        forall|k: int|
            0 <= k < spec_all_functions(files).len() ==> (#[trigger] spec_all_functions(
                files,
            )[k]).cyclomatic_complexity <= MAX_CYCLO,
    decreases files,
{
    if files.len() > 0 {
        assert(spec_file_wf(files[0]));
        lemma_all_functions_bounded(files.drop_first());
        assert forall|k: int|
            0 <= k < spec_all_functions(files).len() implies (#[trigger] spec_all_functions(
            files,
        )[k]).cyclomatic_complexity <= MAX_CYCLO by {
            let head = files[0].functions@;
            if k < head.len() {
                assert(spec_all_functions(files)[k] == head[k]);
            } else {
                assert(spec_all_functions(files)[k] == spec_all_functions(files.drop_first())[k
                    - head.len()]);
            }
        }
    }
}

/// How many functions fall in each cyclomatic bucket: low (at most five),
/// medium (six to fifteen), high (above fifteen).
pub struct Distribution {
    pub low: u64,
    pub medium: u64,
    pub high: u64,
}

/// The bucket distribution of a list of functions. The three counts
/// always sum to the list's length.
pub fn bucket_distribution(all: &Vec<FunctionMetrics>) -> (d: Distribution)
    ensures
        d.low == spec_count_where(all@, |f: FunctionMetrics| spec_is_low(f)),
        d.medium == spec_count_where(all@, |f: FunctionMetrics| spec_is_medium(f)),
        d.high == spec_count_where(all@, |f: FunctionMetrics| spec_is_high(f)),
        d.low + d.medium + d.high == all@.len(),
{
    let ghost pl = |f: FunctionMetrics| spec_is_low(f);
    let ghost pm = |f: FunctionMetrics| spec_is_medium(f);
    let ghost ph = |f: FunctionMetrics| spec_is_high(f);
    let mut low: u64 = 0;
    let mut medium: u64 = 0;
    let mut high: u64 = 0;
    let mut i: usize = 0;
    while i < all.len()
        invariant
            i <= all@.len(),
            pl == (|f: FunctionMetrics| spec_is_low(f)),
            pm == (|f: FunctionMetrics| spec_is_medium(f)),
            ph == (|f: FunctionMetrics| spec_is_high(f)),
            low == spec_count_where(all@.subrange(0, i as int), pl),
            medium == spec_count_where(all@.subrange(0, i as int), pm),
            high == spec_count_where(all@.subrange(0, i as int), ph),
            low + medium + high == i,
        decreases all@.len() - i,
    {
        proof {
            lemma_count_where_snoc(all@, i as int, pl);
            lemma_count_where_snoc(all@, i as int, pm);
            lemma_count_where_snoc(all@, i as int, ph);
        }
        let c = all[i].cyclomatic_complexity;
        if c <= 5 {
            low = low + 1;
        } else if c <= 15 {
            medium = medium + 1;
        } else {
            high = high + 1;
        }
        i = i + 1;
    }
    proof {
        assert(all@.subrange(0, all@.len() as int) =~= all@);
    }
    Distribution { low, medium, high }
}

/// Sum of the cyclomatic complexities of `all`, exact in 128 bits.
fn total_cyclomatic(all: &Vec<FunctionMetrics>) -> (r: u128)
    requires
        forall|k: int|
            0 <= k < all@.len() ==> (#[trigger] all@[k]).cyclomatic_complexity <= MAX_CYCLO,
    ensures
        r == crate::extract::spec_cyclo_sum(all@),
        r <= all@.len() * (MAX_CYCLO as nat),
{
    let mut total: u128 = 0;
    let mut i: usize = 0;
    while i < all.len()
        invariant
            i <= all@.len(),
            forall|k: int|
                0 <= k < all@.len() ==> (#[trigger] all@[k]).cyclomatic_complexity <= MAX_CYCLO,
            total == crate::extract::spec_cyclo_sum(all@.subrange(0, i as int)),
            total <= i * (MAX_CYCLO as nat),
        decreases all@.len() - i,
    {
        proof {
            crate::extract::lemma_cyclo_sum_snoc(all@, i as int);
        }
        total = total + (all[i].cyclomatic_complexity as u128);
        i = i + 1;
    }
    proof {
        assert(all@.subrange(0, all@.len() as int) =~= all@);
    }
    total
}

/// The repository-level roll-up of one scan.
pub struct RepoSummary {
    pub total_files: u64,
    pub total_functions: u64,
    pub languages: Vec<LanguageCount>,
    pub complexity_score_centi: u64,
    pub complexity_bucket: String,
    pub description: String,
    pub parse_success_rate_tenths: u64,
}

/// The whole report of one scan: the summary, the bucket distribution and
/// the most complex functions. The caller may attach the full per-file
/// records afterwards.
pub struct RepoReport {
    pub repository: String,
    pub summary: RepoSummary,
    pub distribution: Distribution,
    pub top_complex_functions: Vec<TopFunction>,
    pub files: Option<Vec<FileMetrics>>,
}

/// Builds the repository report from the per-file records.
pub fn aggregate_report(repo_name: &str, files: &Vec<FileMetrics>) -> (r: RepoReport)
    requires
        forall|k: int| 0 <= k < files@.len() ==> spec_file_wf(#[trigger] files@[k]),
    ensures
        r.repository@ == repo_name@,
        r.summary.total_files == files@.len(),
        r.summary.total_functions == spec_all_functions(files@).len(),
        r.summary.languages@ == spec_lang_entries(files@),
        r.summary.complexity_score_centi == spec_score_centi(
            crate::extract::spec_cyclo_sum(spec_all_functions(files@)),
            spec_all_functions(files@).len(),
            spec_lang_entries(files@).len(),
        ),
        r.summary.complexity_bucket@ == spec_bucket_label(
            r.summary.complexity_score_centi as nat,
        ),
        r.summary.description@ == spec_bucket_description(r.summary.complexity_score_centi as nat),
        r.summary.parse_success_rate_tenths == spec_rate_tenths(
            spec_success_count(files@),
            files@.len(),
        ),
        r.distribution.low == spec_count_where(
            spec_all_functions(files@),
            |f: FunctionMetrics| spec_is_low(f),
        ),
        r.distribution.medium == spec_count_where(
            spec_all_functions(files@),
            |f: FunctionMetrics| spec_is_medium(f),
        ),
        r.distribution.high == spec_count_where(
            spec_all_functions(files@),
            |f: FunctionMetrics| spec_is_high(f),
        ),
        r.distribution.low + r.distribution.medium + r.distribution.high
            == r.summary.total_functions,
        spec_is_top_list(spec_all_functions(files@), r.top_complex_functions@),
        r.files is None,
{
    let all = flatten_functions(files);
    proof {
        lemma_all_functions_bounded(files@);
    }
    let total_files: u64 = files.len() as u64;
    let total_functions: u64 = all.len() as u64;
    let languages = language_distribution(files);
    let sum = total_cyclomatic(&all);
    let lcount: u64 = languages.len() as u64;
    let score = score_centi(sum, total_functions, lcount);
    let (bucket, description) = get_complexity_bucket(score);
    let distribution = bucket_distribution(&all);
    let top = top_functions(&all);
    let mut ok: u64 = 0;
    let mut i: usize = 0;
    while i < files.len()
        invariant
            i <= files@.len(),
            ok <= i,
            ok == spec_success_count(files@.subrange(0, i as int)),
        decreases files@.len() - i,
    {
        proof {
            lemma_success_count_snoc(files@, i as int);
        }
        if files[i].parse_success {
            ok = ok + 1;
        }
        i = i + 1;
    }
    proof {
        assert(files@.subrange(0, files@.len() as int) =~= files@);
        lemma_success_count_le(files@);
    }
    let rate = success_rate_tenths(ok, total_files);
    RepoReport {
        repository: String::from_str(repo_name),
        summary: RepoSummary {
            total_files,
            total_functions,
            languages,
            complexity_score_centi: score,
            complexity_bucket: String::from_str(bucket),
            description: String::from_str(description),
            parse_success_rate_tenths: rate,
        },
        distribution,
        top_complex_functions: top,
        files: None,
    }
}

/// Successes never outnumber files.
pub proof fn lemma_success_count_le(files: Seq<FileMetrics>)
    ensures
        spec_success_count(files) <= files.len(),
    decreases files,
{
    if files.len() > 0 {
        lemma_success_count_le(files.drop_first());
    }
}

} // verus!
