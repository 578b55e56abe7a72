use vstd::prelude::*;
use vstd::std_specs::iter::IteratorSpec;

verus! {

/// Relies on `str`'s `PartialEq`: two string slices are equal exactly when
/// they hold the same characters.
#[verifier::external_body]
pub(crate) fn str_eq(a: &str, b: &str) -> (r: bool)
    ensures
        r == (a@ == b@),
{
    a == b
}

/// Relies on `String: FromIterator<char>`: collecting characters yields the
/// string with exactly those characters in order.
#[verifier::external_body]
pub(crate) fn string_from_chars(v: &Vec<char>) -> (r: String)
    ensures
        r@ == v@,
{
    v.iter().collect()
}

/// The characters of a string slice, as a vector.
pub fn chars_of(s: &str) -> (r: Vec<char>)
    ensures
        r@ == s@,
{
    let mut r: Vec<char> = Vec::new();
    let mut it = s.chars();
    loop
        invariant
            it.obeys_prophetic_iter_laws(),
            it.decrease() is Some,
            r@ + it.remaining() == s@,
        ensures
            r@ == s@,
        decreases it.decrease()->0,
    {
        let ghost prev = it.remaining();
        match it.next() {
            Some(c) => {
                proof {
                    assert(prev.len() > 0);
                }
                r.push(c);
            },
            None => {
                proof {
                    assert(prev.len() == 0);
                    assert(r@ =~= s@);
                }
                break ;
            },
        }
    }
    r
}

/// Appends the characters of `s` to `out`.
pub fn push_chars(out: &mut Vec<char>, s: &str)
    ensures
        final(out)@ == old(out)@ + s@,
{
    let cs = chars_of(s);
    let mut i: usize = 0;
    while i < cs.len()
        invariant
            i <= cs.len(),
            cs@ == s@,
            out@ == old(out)@ + s@.subrange(0, i as int),
        decreases cs.len() - i,
    {
        out.push(cs[i]);
        i = i + 1;
        proof {
            assert(out@ =~= old(out)@ + s@.subrange(0, i as int));
        }
    }
    proof {
        assert(out@ =~= old(out)@ + s@);
    }
}

/// Appends the characters of `src` to `out`.
pub fn append_chars(out: &mut Vec<char>, src: &Vec<char>)
    ensures
        final(out)@ == old(out)@ + src@,
{
    let mut i: usize = 0;
    while i < src.len()
        invariant
            i <= src@.len(),
            out@ == old(out)@ + src@.subrange(0, i as int),
        decreases src@.len() - i,
    {
        out.push(src[i]);
        i = i + 1;
        proof {
            assert(out@ =~= old(out)@ + src@.subrange(0, i as int));
        }
    }
    proof {
        assert(out@ =~= old(out)@ + src@);
    }
}

/// The characters of `v` from `a` up to `b`, as a fresh vector.
pub fn copy_range(v: &Vec<char>, a: usize, b: usize) -> (r: Vec<char>)
    requires
        a <= b <= v@.len(),
    ensures
        r@ == v@.subrange(a as int, b as int),
{
    let mut r: Vec<char> = Vec::new();
    let mut k: usize = a;
    while k < b
        invariant
            a <= k <= b <= v@.len(),
            r@ =~= v@.subrange(a as int, k as int),
        decreases b - k,
    {
        r.push(v[k]);
        proof {
            assert(v@.subrange(a as int, k as int).push(v@[k as int]) =~= v@.subrange(
                a as int,
                k + 1,
            ));
        }
        k = k + 1;
    }
    r
}

/// Whether two character vectors hold the same characters.
pub fn vec_chars_eq(a: &Vec<char>, b: &Vec<char>) -> (r: bool)
    ensures
        r == (a@ == b@),
{
    if a.len() != b.len() {
        proof {
            assert(a@ != b@);
        }
        return false;
    }
    let mut i: usize = 0;
    while i < a.len()
        invariant
            i <= a@.len(),
            a@.len() == b@.len(),
            forall|k: int| 0 <= k < i ==> a@[k] == b@[k],
        decreases a@.len() - i,
    {
        if a[i] != b[i] {
            return false;
        }
        i = i + 1;
    }
    proof {
        assert(a@ =~= b@);
    }
    true
}

/// Whether `pat` occurs in `s` starting at position `i`.
pub open spec fn spec_match_at(s: Seq<char>, pat: Seq<char>, i: int) -> bool {
    0 <= i && i + pat.len() <= s.len() && s.subrange(i, i + pat.len()) == pat
}

/// Whether `s` starts with `pat`.
pub fn starts_with_chars(s: &Vec<char>, from: usize, pat: &Vec<char>) -> (r: bool)
    requires
        from <= s@.len(),
    ensures
        r == spec_match_at(s@, pat@, from as int),
{
    if pat.len() > s.len() - from {
        proof {
            assert(!spec_match_at(s@, pat@, from as int));
        }
        return false;
    }
    let n = s.len();
    let mut j: usize = 0;
    while j < pat.len()
        invariant
            j <= pat@.len(),
            n == s@.len(),
            from + pat@.len() <= n,
            forall|k: int| 0 <= k < j ==> s@[from + k] == pat@[k],
        decreases pat@.len() - j,
    {
        if s[from + j] != pat[j] {
            proof {
                assert(s@.subrange(from as int, from + pat@.len())[j as int] == s@[from + j]);
            }
            return false;
        }
        j = j + 1;
    }
    proof {
        assert(s@.subrange(from as int, from + pat@.len()) =~= pat@);
    }
    true
}

/// The first position where `pat` occurs in `s`, or `None`.
pub fn find_chars(s: &Vec<char>, pat: &Vec<char>) -> (r: Option<usize>)
    ensures
        match r {
            Some(i) => spec_match_at(s@, pat@, i as int) && forall|j: int|
                0 <= j < i ==> !spec_match_at(s@, pat@, j),
            None => forall|j: int| !spec_match_at(s@, pat@, j),
        },
{
    if pat.len() > s.len() {
        proof {
            assert(forall|j: int| !spec_match_at(s@, pat@, j));
        }
        return None;
    }
    let last: usize = s.len() - pat.len();
    let mut i: usize = 0;
    loop
        invariant
            i <= last,
            last == s@.len() - pat@.len(),
            pat@.len() <= s@.len(),
            forall|j: int| 0 <= j < i ==> !spec_match_at(s@, pat@, j),
        ensures
            forall|j: int| !spec_match_at(s@, pat@, j),
        decreases last - i,
    {
        if starts_with_chars(s, i, pat) {
            return Some(i);
        }
        if i == last {
            proof {
                assert(forall|j: int| j > last ==> !spec_match_at(s@, pat@, j));
            }
            break ;
        }
        i = i + 1;
    }
    None
}

/// Whether `c` is one of Unicode's whitespace characters, as `char::is_whitespace`
/// classifies them.
pub open spec fn spec_is_whitespace(c: char) -> bool {
    ||| c == ' '
    ||| c == '\t'
    ||| c == '\n'
    ||| c == '\u{b}'
    ||| c == '\u{c}'
    ||| c == '\r'
    ||| c == '\u{85}'
    ||| c == '\u{a0}'
    ||| c == '\u{1680}'
    ||| (0x2000 <= (c as u32) && (c as u32) <= 0x200a)
    ||| c == '\u{2028}'
    ||| c == '\u{2029}'
    ||| c == '\u{202f}'
    ||| c == '\u{205f}'
    ||| c == '\u{3000}'
}

/// Whether `c` is a Unicode whitespace character.
pub fn is_whitespace_char(c: char) -> (r: bool)
    ensures
        r == spec_is_whitespace(c),
{
    c == ' ' || c == '\t' || c == '\n' || c == '\u{b}' || c == '\u{c}' || c == '\r' || c
        == '\u{85}' || c == '\u{a0}' || c == '\u{1680}' || ((c as u32) >= 0x2000 && (c as u32)
        <= 0x200a) || c == '\u{2028}' || c == '\u{2029}' || c == '\u{202f}' || c == '\u{205f}' || c
        == '\u{3000}'
}

/// `s` without its leading whitespace.
pub open spec fn spec_trim_start(s: Seq<char>) -> Seq<char>
    decreases s,
{
    if s.len() == 0 {
        s
    } else if spec_is_whitespace(s[0]) {
        spec_trim_start(s.drop_first())
    } else {
        s
    }
}

/// `s` without its trailing whitespace.
pub open spec fn spec_trim_end(s: Seq<char>) -> Seq<char>
    decreases s,
{
    if s.len() == 0 {
        s
    } else if spec_is_whitespace(s.last()) {
        spec_trim_end(s.drop_last())
    } else {
        s
    }
}

/// `s` without leading and trailing whitespace.
pub open spec fn spec_trim(s: Seq<char>) -> Seq<char> {
    spec_trim_end(spec_trim_start(s))
}

/// Dropping leading whitespace one character at a time.
proof fn lemma_trim_start_step(s: Seq<char>, i: int)
    requires
        0 <= i <= s.len(),
        forall|k: int| 0 <= k < i ==> spec_is_whitespace(s[k]),
    ensures
        spec_trim_start(s) == spec_trim_start(s.skip(i)),
    decreases i,
{
    if i > 0 {
        assert(spec_is_whitespace(s[0]));
        assert(spec_trim_start(s) == spec_trim_start(s.drop_first()));
        lemma_trim_start_step(s.drop_first(), i - 1);
        assert(s.drop_first().skip(i - 1) =~= s.skip(i));
    } else {
        assert(s.skip(0) =~= s);
    }
}

/// Dropping trailing whitespace one character at a time.
proof fn lemma_trim_end_step(s: Seq<char>, i: int)
    requires
        0 <= i <= s.len(),
        forall|k: int| i <= k < s.len() ==> spec_is_whitespace(s[k]),
    ensures
        spec_trim_end(s) == spec_trim_end(s.take(i)),
    decreases s.len() - i,
{
    if i < s.len() {
        assert(spec_is_whitespace(s.last()));
        assert(spec_trim_end(s) == spec_trim_end(s.drop_last()));
        lemma_trim_end_step(s.drop_last(), i);
        assert(s.drop_last().take(i) =~= s.take(i));
    } else {
        assert(s.take(i) =~= s);
    }
}

/// The characters of `v` from `from` on, with leading and trailing
/// whitespace removed.
pub fn trim_range(v: &Vec<char>, from: usize) -> (r: Vec<char>)
    requires
        from <= v@.len(),
    ensures
        r@ == spec_trim(v@.skip(from as int)),
{
    let ghost s = v@.skip(from as int);
    let mut lo: usize = from;
    while lo < v.len() && is_whitespace_char(v[lo])
        invariant
            from <= lo <= v@.len(),
            s == v@.skip(from as int),
            forall|k: int| 0 <= k < lo - from ==> spec_is_whitespace(s[k]),
        decreases v@.len() - lo,
    {
        proof {
            assert(s[lo - from] == v@[lo as int]);
        }
        lo = lo + 1;
    }
    proof {
        lemma_trim_start_step(s, lo - from);
        if lo == v@.len() {
            assert(s.skip(lo - from) =~= Seq::<char>::empty());
        } else {
            assert(s.skip(lo - from)[0] == v@[lo as int]);
            assert(!spec_is_whitespace(s.skip(lo - from)[0]));
        }
        assert(spec_trim_start(s) == s.skip(lo - from));
    }
    let ghost t = s.skip(lo - from);
    let mut hi: usize = v.len();
    while hi > lo && is_whitespace_char(v[hi - 1])
        invariant
            from <= lo <= hi <= v@.len(),
            t == s.skip(lo - from),
            s == v@.skip(from as int),
            forall|k: int| hi - lo <= k < t.len() ==> spec_is_whitespace(t[k]),
        decreases hi,
    {
        proof {
            assert(t[hi - 1 - lo] == v@[hi - 1]);
        }
        hi = hi - 1;
    }
    proof {
        lemma_trim_end_step(t, hi - lo);
        if hi > lo {
            assert(t.take(hi - lo).last() == v@[hi - 1]);
            assert(!spec_is_whitespace(t.take(hi - lo).last()));
        } else {
            assert(t.take(0) =~= Seq::<char>::empty());
        }
        assert(spec_trim_end(t) == t.take(hi - lo));
    }
    let mut r: Vec<char> = Vec::new();
    let mut k: usize = lo;
    while k < hi
        invariant
            lo <= k <= hi <= v@.len(),
            r@ =~= v@.subrange(lo as int, k as int),
        decreases hi - k,
    {
        r.push(v[k]);
        proof {
            assert(v@.subrange(lo as int, k as int).push(v@[k as int]) =~= v@.subrange(
                lo as int,
                k + 1,
            ));
        }
        k = k + 1;
    }
    proof {
        assert(t.take(hi - lo) =~= v@.subrange(lo as int, hi as int));
    }
    r
}

} // verus!
