use vstd::prelude::*;
use vstd::string::StringExecFns;
use crate::strutil::{
    chars_of, string_from_chars, push_chars, spec_match_at, starts_with_chars, find_chars,
    spec_trim, trim_range,
};

verus! {

/// What a filename character is replaced with: path separators and shell
/// metacharacters become dashes, everything else stays.
pub open spec fn spec_sanitize_char(c: char) -> char {
    if c == '/' || c == '\\' || c == ':' || c == '*' || c == '?' || c == '"' || c == '<' || c
        == '>' || c == '|' {
        '-'
    } else {
        c
    }
}

/// Replaces path separators and shell metacharacters with dashes,
/// character for character.
pub fn sanitize_filename(name: &str) -> (r: String)
    ensures
        r@.len() == name@.len(),
        forall|i: int| 0 <= i < name@.len() ==> r@[i] == spec_sanitize_char(name@[i]),
{
    let cs = chars_of(name);
    let mut out: Vec<char> = Vec::new();
    let mut i: usize = 0;
    while i < cs.len()
        invariant
            i <= cs@.len(),
            cs@ == name@,
            out@.len() == i,
            forall|k: int| 0 <= k < i ==> out@[k] == spec_sanitize_char(name@[k]),
        decreases cs@.len() - i,
    {
        let c = cs[i];
        let mapped: char = if c == '/' || c == '\\' || c == ':' || c == '*' || c == '?' || c
            == '"' || c == '<' || c == '>' || c == '|' {
            '-'
        } else {
            c
        };
        out.push(mapped);
        i = i + 1;
    }
    string_from_chars(&out)
}

/// Relies on chrono's `Local::now` and `format`: the wall-clock time
/// rendered as text. Nothing is promised of its value.
#[verifier::external_body]
fn current_timestamp() -> String {
    chrono::Local::now().format("%Y-%m-%d %H:%M:%S").to_string()
}

/// The log line for a timestamp, level and message.
pub open spec fn spec_log_entry(ts: Seq<char>, level: Seq<char>, message: Seq<char>) -> Seq<char> {
    ts + " - "@ + level + " - "@ + message
}

/// An in-memory log: formatted entries, oldest first. Callers write them
/// out as they see fit.
pub struct Logger {
    pub entries: Vec<String>,
}

impl Logger {
    /// An empty log.
    pub fn new() -> (r: Logger)
        ensures
            r.entries@.len() == 0,
    {
        Logger { entries: Vec::new() }
    }

    /// Appends one entry: the current time, the level and the message.
    pub fn log(&mut self, level: &str, message: &str)
        ensures
            final(self).entries@.len() == old(self).entries@.len() + 1,
            forall|k: int|
                0 <= k < old(self).entries@.len() ==> final(self).entries@[k] == old(
                    self,
                ).entries@[k],
            exists|ts: Seq<char>|
                final(self).entries@[old(self).entries@.len() as int]@ == spec_log_entry(
                    ts,
                    level@,
                    message@,
                ),
    {
        let ts = current_timestamp();
        let mut entry: Vec<char> = chars_of(ts.as_str());
        push_chars(&mut entry, " - ");
        push_chars(&mut entry, level);
        push_chars(&mut entry, " - ");
        push_chars(&mut entry, message);
        let line = string_from_chars(&entry);
        proof {
            assert(line@ == spec_log_entry(ts@, level@, message@));
        }
        self.entries.push(line);
    }

    /// Appends one entry at level `INFO`.
    pub fn info(&mut self, message: &str)
        ensures
            final(self).entries@.len() == old(self).entries@.len() + 1,
            forall|k: int|
                0 <= k < old(self).entries@.len() ==> final(self).entries@[k] == old(
                    self,
                ).entries@[k],
            exists|ts: Seq<char>|
                final(self).entries@[old(self).entries@.len() as int]@ == spec_log_entry(
                    ts,
                    "INFO"@,
                    message@,
                ),
    {
        self.log("INFO", message)
    }

    /// Appends one entry at level `ERROR`.
    pub fn error(&mut self, message: &str)
        ensures
            final(self).entries@.len() == old(self).entries@.len() + 1,
            forall|k: int|
                0 <= k < old(self).entries@.len() ==> final(self).entries@[k] == old(
                    self,
                ).entries@[k],
            exists|ts: Seq<char>|
                final(self).entries@[old(self).entries@.len() as int]@ == spec_log_entry(
                    ts,
                    "ERROR"@,
                    message@,
                ),
    {
        self.log("ERROR", message)
    }

    /// Appends one entry at level `DEBUG`.
    pub fn debug(&mut self, message: &str)
        ensures
            final(self).entries@.len() == old(self).entries@.len() + 1,
            forall|k: int|
                0 <= k < old(self).entries@.len() ==> final(self).entries@[k] == old(
                    self,
                ).entries@[k],
            exists|ts: Seq<char>|
                final(self).entries@[old(self).entries@.len() as int]@ == spec_log_entry(
                    ts,
                    "DEBUG"@,
                    message@,
                ),
    {
        self.log("DEBUG", message)
    }
}

/// The name results are saved under: timestamp, repository, vendor and
/// sanitized model joined with dashes, then the extension.
pub open spec fn spec_output_file_name(
    ts: Seq<char>,
    repo: Seq<char>,
    vendor: Seq<char>,
    model: Seq<char>,
    ext: Seq<char>,
) -> Seq<char> {
    ts + "-"@ + repo + "-"@ + vendor + "-"@ + Seq::new(model.len(), |i: int| spec_sanitize_char(model[i]))
        + ext
}

/// Builds the output file name for one run's results.
pub fn output_file_name(ts: &str, repo: &str, vendor: &str, model: &str, ext: &str) -> (r: String)
    ensures
        r@ == spec_output_file_name(ts@, repo@, vendor@, model@, ext@),
{
    let sanitized = sanitize_filename(model);
    let mut out: Vec<char> = chars_of(ts);
    push_chars(&mut out, "-");
    push_chars(&mut out, repo);
    push_chars(&mut out, "-");
    push_chars(&mut out, vendor);
    push_chars(&mut out, "-");
    push_chars(&mut out, sanitized.as_str());
    push_chars(&mut out, ext);
    proof {
        assert(sanitized@ =~= Seq::new(model@.len(), |i: int| spec_sanitize_char(model@[i])));
        assert(out@ =~= spec_output_file_name(ts@, repo@, vendor@, model@, ext@));
    }
    string_from_chars(&out)
}

/// The position of the first newline in `s`, or `-1` without one.
pub open spec fn spec_find_nl(s: Seq<char>) -> int
    decreases s,
{
    if s.len() == 0 {
        -1
    } else if s[0] == '\n' {
        0
    } else {
        let r = spec_find_nl(s.drop_first());
        if r < 0 {
            -1
        } else {
            1 + r
        }
    }
}

/// What the first-newline position means.
pub proof fn lemma_find_nl_props(s: Seq<char>)
    ensures
        spec_find_nl(s) == -1 ==> forall|j: int| 0 <= j < s.len() ==> s[j] != '\n',
        spec_find_nl(s) >= 0 ==> spec_find_nl(s) < s.len() && s[spec_find_nl(s)] == '\n' && forall|
            j: int,
        | 0 <= j < spec_find_nl(s) ==> s[j] != '\n',
    decreases s,
{
    if s.len() > 0 && s[0] != '\n' {
        lemma_find_nl_props(s.drop_first());
        let r = spec_find_nl(s.drop_first());
        if r >= 0 {
            assert forall|j: int| 0 <= j < spec_find_nl(s) implies s[j] != '\n' by {
                if j > 0 {
                    assert(s.drop_first()[j - 1] != '\n');
                }
            }
        } else {
            assert forall|j: int| 0 <= j < s.len() implies s[j] != '\n' by {
                if j > 0 {
                    assert(s.drop_first()[j - 1] != '\n');
                }
            }
        }
    }
}

/// A line with one trailing carriage return removed.
pub open spec fn spec_strip_cr(l: Seq<char>) -> Seq<char> {
    if l.len() > 0 && l.last() == '\r' {
        l.drop_last()
    } else {
        l
    }
}

/// The lines of `s`: segments split at newlines, each terminated segment
/// with one trailing carriage return removed; a final unterminated
/// segment is kept as it stands.
pub open spec fn spec_lines(s: Seq<char>) -> Seq<Seq<char>>
    decreases s.len(),
    via spec_lines_decreases
{
    if s.len() == 0 {
        Seq::<Seq<char>>::empty()
    } else {
        let i = spec_find_nl(s);
        if i < 0 {
            seq![s]
        } else {
            seq![spec_strip_cr(s.take(i))] + spec_lines(s.skip(i + 1))
        }
    }
}

#[via_fn]
proof fn spec_lines_decreases(s: Seq<char>) {
    lemma_find_nl_props(s);
}

/// Splits `cs` into its lines.
fn split_lines(cs: &Vec<char>) -> (r: Vec<Vec<char>>)
    ensures
        r@.len() == spec_lines(cs@).len(),
        forall|k: int| 0 <= k < r@.len() ==> (#[trigger] r@[k])@ == spec_lines(cs@)[k],
{
    let ghost target = spec_lines(cs@);
    let mut r: Vec<Vec<char>> = Vec::new();
    let mut start: usize = 0;
    let mut i: usize = 0;
    proof {
        assert(cs@.skip(0) =~= cs@);
    }
    while i < cs.len()
        invariant
            start <= i <= cs@.len(),
            target == spec_lines(cs@),
            forall|j: int| start <= j < i ==> cs@[j] != '\n',
            target.len() == r@.len() + spec_lines(cs@.skip(start as int)).len(),
            forall|k: int| 0 <= k < r@.len() ==> (#[trigger] r@[k])@ == target[k],
            forall|k: int|
                0 <= k < spec_lines(cs@.skip(start as int)).len() ==> #[trigger] spec_lines(
                    cs@.skip(start as int),
                )[k] == target[r@.len() + k],
        decreases cs@.len() - i,
    {
        if cs[i] == '\n' {
            let end: usize = if i > start && cs[i - 1] == '\r' {
                i - 1
            } else {
                i
            };
            let line = crate::strutil::copy_range(cs, start, end);
            let ghost old_start = start as int;
            let ghost old_rlen = r@.len() as int;
            let ghost tail = cs@.skip(old_start);
            proof {
                lemma_find_nl_at(tail, i - old_start);
                assert(tail.take(i - old_start) =~= cs@.subrange(old_start, i as int));
                if i > start && cs@[i - 1] == '\r' {
                    assert(cs@.subrange(old_start, i as int).last() == cs@[i - 1]);
                    assert(cs@.subrange(old_start, i as int).drop_last() =~= cs@.subrange(
                        old_start,
                        end as int,
                    ));
                }
                assert(spec_strip_cr(cs@.subrange(old_start, i as int)) =~= cs@.subrange(
                    old_start,
                    end as int,
                ));
                assert(line@ == spec_lines(tail)[0]);
            }
            r.push(line);
            start = i + 1;
            proof {
                let newtail = cs@.skip(start as int);
                assert(newtail =~= tail.skip(i - old_start + 1));
                assert(spec_lines(tail) == seq![
                    spec_strip_cr(tail.take(i - old_start)),
                ] + spec_lines(newtail));
                assert(spec_lines(tail).len() == 1 + spec_lines(newtail).len());
                assert forall|k: int|
                    0 <= k < spec_lines(newtail).len() implies #[trigger] spec_lines(newtail)[k]
                    == target[r@.len() + k] by {
                    assert(spec_lines(tail)[k + 1] == spec_lines(newtail)[k]);
                    assert(spec_lines(tail)[k + 1] == target[old_rlen + (k + 1)]);
                }
                assert forall|k: int| 0 <= k < r@.len() implies (#[trigger] r@[k])@ == target[k] by {
                    if k == old_rlen {
                        assert(r@[k]@ == spec_lines(tail)[0]);
                        assert(spec_lines(tail)[0] == target[old_rlen + 0]);
                    }
                }
            }
        }
        i = i + 1;
    }
    if start < cs.len() {
        let line = crate::strutil::copy_range(cs, start, cs.len());
        let ghost old_rlen = r@.len() as int;
        let ghost tail = cs@.skip(start as int);
        proof {
            lemma_find_nl_none(tail);
            assert(tail.len() > 0);
            assert(spec_lines(tail) == seq![tail]);
            assert(tail =~= cs@.subrange(start as int, cs@.len() as int));
            assert(line@ == spec_lines(tail)[0]);
            assert(spec_lines(tail)[0] == target[old_rlen + 0]);
        }
        r.push(line);
        proof {
            assert forall|k: int| 0 <= k < r@.len() implies (#[trigger] r@[k])@ == target[k] by {
                if k == old_rlen {
                }
            }
        }
    } else {
        proof {
            assert(cs@.skip(start as int) =~= Seq::<char>::empty());
        }
    }
    r
}

/// The first-newline position of a sequence whose first newline is known.
proof fn lemma_find_nl_at(s: Seq<char>, k: int)
    requires
        0 <= k < s.len(),
        s[k] == '\n',
        forall|j: int| 0 <= j < k ==> s[j] != '\n',
    ensures
        spec_find_nl(s) == k,
    decreases k,
{
    if k > 0 {
        lemma_find_nl_at(s.drop_first(), k - 1);
    }
}

/// A sequence without newlines has no first-newline position.
proof fn lemma_find_nl_none(s: Seq<char>)
    requires
        forall|j: int| 0 <= j < s.len() ==> s[j] != '\n',
    ensures
        spec_find_nl(s) == -1,
    decreases s,
{
    if s.len() > 0 {
        lemma_find_nl_none(s.drop_first());
    }
}

/// The state of the line scan: the last action named, whether input lines
/// are being collected, the collected lines, and whether a section marker
/// ended the scan.
pub struct ScanState {
    pub action: Option<Seq<char>>,
    pub collecting: bool,
    pub inputs: Seq<Seq<char>>,
    pub done: bool,
}

/// One line of the scan. An `Action:` line names the action; an
/// `Action Input:` line starts collecting and keeps any text after the
/// marker; while collecting, a section marker ends the scan and any other
/// line is collected.
pub open spec fn spec_scan_step(st: ScanState, line: Seq<char>) -> ScanState {
    if st.done {
        st
    } else if spec_match_at(line, "Action:"@, 0) {
        ScanState { action: Some(spec_trim(line.skip(7))), ..st }
    } else if spec_match_at(line, "Action Input:"@, 0) {
        let rest = spec_trim(line.skip(13));
        ScanState {
            collecting: true,
            inputs: if rest.len() > 0 {
                st.inputs.push(rest)
            } else {
                st.inputs
            },
            ..st
        }
    } else if st.collecting {
        if spec_match_at(line, "Thought:"@, 0) || spec_match_at(line, "Action:"@, 0)
            || spec_match_at(line, "Observation:"@, 0) || spec_match_at(
            line,
            "Final Answer:"@,
            0,
        ) {
            ScanState { done: true, ..st }
        } else {
            ScanState { inputs: st.inputs.push(line), ..st }
        }
    } else {
        st
    }
}

/// The scan folded over a list of lines, in order.
pub open spec fn spec_scan(lines: Seq<Seq<char>>) -> ScanState
    decreases lines.len(),
{
    if lines.len() == 0 {
        ScanState { action: None, collecting: false, inputs: Seq::<Seq<char>>::empty(), done: false }
    } else {
        spec_scan_step(spec_scan(lines.drop_last()), lines.last())
    }
}

/// Once the scan is done, further lines change nothing.
proof fn lemma_scan_done_stable(lines: Seq<Seq<char>>, i: int)
    requires
        0 <= i <= lines.len(),
        spec_scan(lines.take(i)).done,
    ensures
        spec_scan(lines) == spec_scan(lines.take(i)),
    decreases lines.len() - i,
{
    if i < lines.len() {
        assert(lines.take(i + 1).drop_last() =~= lines.take(i));
        assert(lines.take(i + 1).last() == lines[i]);
        lemma_scan_done_stable(lines, i + 1);
    } else {
        assert(lines.take(i) =~= lines);
    }
}

/// The lines joined with single newlines.
pub open spec fn spec_join_nl(ss: Seq<Seq<char>>) -> Seq<char>
    decreases ss.len(),
{
    if ss.len() == 0 {
        Seq::<char>::empty()
    } else if ss.len() == 1 {
        ss[0]
    } else {
        spec_join_nl(ss.drop_last()) + seq!['\n'] + ss.last()
    }
}

/// Joins collected lines with single newlines.
fn join_lines_nl(inputs: &Vec<Vec<char>>) -> (r: Vec<char>)
    ensures
        r@ == spec_join_nl(Seq::new(inputs@.len(), |k: int| inputs@[k]@)),
{
    let ghost views = Seq::new(inputs@.len(), |k: int| inputs@[k]@);
    let mut r: Vec<char> = Vec::new();
    let mut k: usize = 0;
    while k < inputs.len()
        invariant
            k <= inputs@.len(),
            views == Seq::new(inputs@.len(), |j: int| inputs@[j]@),
            r@ == spec_join_nl(views.take(k as int)),
        decreases inputs@.len() - k,
    {
        if k > 0 {
            r.push('\n');
        }
        crate::strutil::append_chars(&mut r, &inputs[k]);
        proof {
            assert(views.take(k + 1).drop_last() =~= views.take(k as int));
            assert(views.take(k + 1).last() == views[k as int]);
            if k == 0 {
                assert(spec_join_nl(views.take(1)) == views[0]);
                assert(r@ =~= views[0]);
            } else {
                assert(spec_join_nl(views.take(k + 1)) == spec_join_nl(views.take(k as int))
                    + seq!['\n'] + views[k as int]);
                assert(r@ =~= spec_join_nl(views.take(k as int)) + seq!['\n'] + views[k as int]);
            }
        }
        k = k + 1;
    }
    proof {
        assert(views.take(views.len() as int) =~= views);
    }
    r
}

/// What a model turn asks for: a final answer, one tool call with its
/// input, or nothing recognizable.
pub enum ParsedResponse {
    Final(String),
    Action { action: String, input: String },
    Unknown,
}

/// Reads one model turn. A turn holding `Final Answer:` yields the
/// trimmed text after its first occurrence. Otherwise the lines are
/// scanned for an action name and its collected input; both present
/// yields an action with the input lines joined and trimmed, anything
/// else yields nothing.
pub fn parse_response(response: &str) -> (r: ParsedResponse)
    ensures
        ({
            let s = response@;
            let st = spec_scan(spec_lines(s));
            match r {
                ParsedResponse::Final(ans) => exists|i: int|
                    {
                        &&& #[trigger] spec_match_at(s, "Final Answer:"@, i)
                        &&& (forall|j: int| 0 <= j < i ==> !spec_match_at(s, "Final Answer:"@, j))
                        &&& ans@ == spec_trim(s.skip(i + 13))
                    },
                ParsedResponse::Action { action, input } => {
                    &&& (forall|j: int| !spec_match_at(s, "Final Answer:"@, j))
                    &&& st.action matches Some(a) && action@ == a
                    &&& st.inputs.len() > 0
                    &&& input@ == spec_trim(spec_join_nl(st.inputs))
                },
                ParsedResponse::Unknown => {
                    &&& (forall|j: int| !spec_match_at(s, "Final Answer:"@, j))
                    &&& (st.action is None || st.inputs.len() == 0)
                },
            }
        }),
{
    proof {
        reveal_strlit("Final Answer:");
        reveal_strlit("Action:");
        reveal_strlit("Action Input:");
    }
    let cs = chars_of(response);
    let n = cs.len();
    let fa = chars_of("Final Answer:");
    match find_chars(&cs, &fa) {
        Some(pos) => {
            proof {
                assert(pos + 13 <= n);
            }
            let t = trim_range(&cs, pos + 13);
            return ParsedResponse::Final(string_from_chars(&t));
        },
        None => {},
    }
    let lines = split_lines(&cs);
    let ghost lviews = spec_lines(cs@);
    let pat_action = chars_of("Action:");
    let pat_input = chars_of("Action Input:");
    let pat_thought = chars_of("Thought:");
    let pat_observation = chars_of("Observation:");
    let mut action: Option<String> = None;
    let mut collecting: bool = false;
    let mut inputs: Vec<Vec<char>> = Vec::new();
    let mut i: usize = 0;
    proof {
        assert(lviews.take(0) =~= Seq::<Seq<char>>::empty());
        assert(lviews.take(lviews.len() as int) =~= lviews);
    }
    while i < lines.len()
        invariant
            i <= lines@.len(),
            lviews == spec_lines(response@),
            cs@ == response@,
            lines@.len() == lviews.len(),
            forall|k: int| 0 <= k < lines@.len() ==> (#[trigger] lines@[k])@ == lviews[k],
            pat_action@ == "Action:"@,
            pat_input@ == "Action Input:"@,
            pat_thought@ == "Thought:"@,
            pat_observation@ == "Observation:"@,
            fa@ == "Final Answer:"@,
            "Action:"@.len() == 7,
            "Action Input:"@.len() == 13,
            !spec_scan(lviews.take(i as int)).done,
            collecting == spec_scan(lviews.take(i as int)).collecting,
            match action {
                Some(a) => spec_scan(lviews.take(i as int)).action == Some(a@),
                None => spec_scan(lviews.take(i as int)).action is None,
            },
            inputs@.len() == spec_scan(lviews.take(i as int)).inputs.len(),
            forall|k: int|
                0 <= k < inputs@.len() ==> (#[trigger] inputs@[k])@ == spec_scan(
                    lviews.take(i as int),
                ).inputs[k],
            lviews.take(lviews.len() as int) == lviews,
        ensures
            match action {
                Some(a) => spec_scan(lviews).action == Some(a@),
                None => spec_scan(lviews).action is None,
            },
            inputs@.len() == spec_scan(lviews).inputs.len(),
            forall|k: int|
                0 <= k < inputs@.len() ==> (#[trigger] inputs@[k])@ == spec_scan(lviews).inputs[k],
        decreases lines@.len() - i,
    {
        let ghost st = spec_scan(lviews.take(i as int));
        let ghost line_v = lviews[i as int];
        proof {
            assert(lviews.take(i + 1).drop_last() =~= lviews.take(i as int));
            assert(lviews.take(i + 1).last() == lviews[i as int]);
        }
        let line = &lines[i];
        if starts_with_chars(line, 0, &pat_action) {
            let t = trim_range(line, 7);
            action = Some(string_from_chars(&t));
            proof {
                assert(spec_scan(lviews.take(i + 1)) == ScanState {
                    action: Some(spec_trim(line_v.skip(7))),
                    ..st
                });
            }
        } else if starts_with_chars(line, 0, &pat_input) {
            collecting = true;
            let rest = trim_range(line, 13);
            let ghost rest_v = spec_trim(line_v.skip(13));
            if rest.len() > 0 {
                inputs.push(rest);
                proof {
                    assert(spec_scan(lviews.take(i + 1)).inputs =~= st.inputs.push(rest_v));
                }
            }
        } else if collecting {
            if starts_with_chars(line, 0, &pat_thought) || starts_with_chars(
                line,
                0,
                &pat_observation,
            ) || starts_with_chars(line, 0, &fa) {
                proof {
                    assert(spec_scan(lviews.take(i + 1)).done);
                    assert(spec_scan(lviews.take(i + 1)).inputs == st.inputs);
                    assert(spec_scan(lviews.take(i + 1)).action == st.action);
                    lemma_scan_done_stable(lviews, i + 1);
                }
                break ;
            } else {
                inputs.push(crate::strutil::copy_range(line, 0, line.len()));
                proof {
                    assert(line@.subrange(0, line@.len() as int) =~= line@);
                    assert(spec_scan(lviews.take(i + 1)).inputs =~= st.inputs.push(line_v));
                }
            }
        }
        i = i + 1;
    }
    proof {
        if i == lines@.len() {
            assert(lviews.take(lviews.len() as int) =~= lviews);
        }
    }
    match action {
        Some(a) => {
            if inputs.len() > 0 {
                let joined = join_lines_nl(&inputs);
                let t = trim_range(&joined, 0);
                proof {
                    assert(Seq::new(inputs@.len(), |k: int| inputs@[k]@) =~= spec_scan(
                        lviews,
                    ).inputs);
                    assert(joined@.skip(0) =~= joined@);
                }
                ParsedResponse::Action { action: a, input: string_from_chars(&t) }
            } else {
                ParsedResponse::Unknown
            }
        },
        None => ParsedResponse::Unknown,
    }
}

/// Whether `name` matches the glob `pattern`: `*` and `*.*` match
/// everything, `*.ext` matches names ending in `.ext`, anything else
/// matches only itself.
pub open spec fn spec_filename_matches(pattern: Seq<char>, name: Seq<char>) -> bool {
    if pattern == "*"@ || pattern == "*.*"@ {
        true
    } else if pattern.len() >= 2 && pattern.subrange(0, 2) == "*."@ {
        let suffix = seq!['.'] + pattern.skip(2);
        name.len() >= suffix.len() && name.subrange(name.len() - suffix.len(), name.len() as int)
            == suffix
    } else {
        name == pattern
    }
}

/// Whether a file name matches a simple glob pattern.
pub fn filename_matches(pattern: &str, name: &str) -> (r: bool)
    ensures
        r == spec_filename_matches(pattern@, name@),
{
    proof {
        reveal_strlit("*");
        reveal_strlit("*.*");
        reveal_strlit("*.");
        reveal_strlit(".");
    }
    let pat = chars_of(pattern);
    let nm = chars_of(name);
    let star = chars_of("*");
    let star_dot_star = chars_of("*.*");
    let star_dot = chars_of("*.");
    if crate::strutil::vec_chars_eq(&pat, &star) || crate::strutil::vec_chars_eq(
        &pat,
        &star_dot_star,
    ) {
        return true;
    }
    if pat.len() >= 2 && starts_with_chars(&pat, 0, &star_dot) {
        let mut suffix: Vec<char> = Vec::new();
        suffix.push('.');
        let ext = crate::strutil::copy_range(&pat, 2, pat.len());
        crate::strutil::append_chars(&mut suffix, &ext);
        proof {
            assert(suffix@ =~= seq!['.'] + pattern@.skip(2));
            assert(pat@.subrange(0, 2) =~= "*."@);
        }
        if suffix.len() > nm.len() {
            return false;
        }
        let r = starts_with_chars(&nm, nm.len() - suffix.len(), &suffix);
        proof {
            assert(name@.subrange(name@.len() - suffix@.len(), name@.len() as int)
                =~= name@.skip(name@.len() - suffix@.len()).take(suffix@.len() as int));
            assert(name@.subrange(
                name@.len() - suffix@.len(),
                name@.len() - suffix@.len() + suffix@.len(),
            ) =~= name@.subrange(name@.len() - suffix@.len(), name@.len() as int));
        }
        return r;
    }
    proof {
        if pattern@.len() >= 2 {
            assert(pat@.subrange(0, 2) =~= pattern@.subrange(0, 2));
        }
    }
    crate::strutil::vec_chars_eq(&pat, &nm)
}

/// Relies on `String::from_utf8`: `Ok` exactly when the bytes are valid
/// UTF-8, and the string then encodes back to those bytes.
#[verifier::external_body]
fn utf8_to_string(bytes: Vec<u8>) -> (r: Option<String>)
    ensures
        r is Some <==> vstd::utf8::valid_utf8(bytes@),
        r matches Some(s) ==> vstd::utf8::encode_utf8(s@) == bytes@,
{
    String::from_utf8(bytes).ok()
}

/// What reading a file produced: at most one of the content or an error
/// message, and the path echoed back on success.
pub struct FileReadResult {
    pub file: Option<String>,
    pub content: Option<String>,
    pub error: Option<String>,
}

/// Classifies the bytes read from a file: a null byte anywhere means
/// binary, bytes that do not decode mean an encoding error, anything else
/// is the decoded text.
pub fn read_file_outcome(file_path: &str, bytes: Vec<u8>) -> (r: FileReadResult)
    ensures
        crate::discover::spec_has_null(bytes@) ==> r.file is None && r.content is None && (
        r.error matches Some(e) && e@ == "Cannot read binary file: "@ + file_path@),
        !crate::discover::spec_has_null(bytes@) && !vstd::utf8::valid_utf8(bytes@) ==> r.file
            is None && r.content is None && (r.error matches Some(e) && e@
            == "Cannot decode file as UTF-8: "@ + file_path@),
        !crate::discover::spec_has_null(bytes@) && vstd::utf8::valid_utf8(bytes@) ==> (
        r.file matches Some(f) && f@ == file_path@) && (r.content matches Some(c)
            && vstd::utf8::encode_utf8(c@) == bytes@) && r.error is None,
{
    if crate::discover::content_is_binary(&bytes) {
        let mut msg: Vec<char> = chars_of("Cannot read binary file: ");
        push_chars(&mut msg, file_path);
        return FileReadResult {
            file: None,
            content: None,
            error: Some(string_from_chars(&msg)),
        };
    }
    match utf8_to_string(bytes) {
        Some(text) => FileReadResult {
            file: Some(file_path.to_owned()),
            content: Some(text),
            error: None,
        },
        None => {
            let mut msg: Vec<char> = chars_of("Cannot decode file as UTF-8: ");
            push_chars(&mut msg, file_path);
            FileReadResult { file: None, content: None, error: Some(string_from_chars(&msg)) }
        },
    }
}

/// The tools a model turn may name.
pub enum ToolKind {
    FindAllMatchingFiles,
    ReadFile,
    Unknown,
}

/// Which tool a turn named.
pub fn classify_tool(name: &str) -> (r: ToolKind)
    ensures
        name@ == "find_all_matching_files"@ <==> r is FindAllMatchingFiles,
        name@ == "read_file"@ <==> r is ReadFile,
{
    proof {
        reveal_strlit("find_all_matching_files");
        reveal_strlit("read_file");
        assert("find_all_matching_files"@.len() != "read_file"@.len());
        assert("find_all_matching_files"@ != "read_file"@);
    }
    if crate::strutil::str_eq(name, "find_all_matching_files") {
        ToolKind::FindAllMatchingFiles
    } else if crate::strutil::str_eq(name, "read_file") {
        ToolKind::ReadFile
    } else {
        ToolKind::Unknown
    }
}

/// Splits `vendor/model` at its first slash; `None` unless the name holds
/// exactly one slash.
pub fn parse_model_name(name: &str) -> (r: Option<(String, String)>)
    ensures
        match r {
            Some(p) => exists|i: int|
                {
                    &&& 0 <= i < name@.len()
                    &&& #[trigger] name@[i] == '/'
                    &&& (forall|j: int| 0 <= j < name@.len() && j != i ==> name@[j] != '/')
                    &&& p.0@ == name@.take(i)
                    &&& p.1@ == name@.skip(i + 1)
                },
            None => !(exists|i: int|
                0 <= i < name@.len() && #[trigger] name@[i] == '/' && (forall|j: int|
                    0 <= j < name@.len() && j != i ==> name@[j] != '/')),
        },
{
    let cs = chars_of(name);
    let mut slash: Option<usize> = None;
    let mut count: usize = 0;
    let mut i: usize = 0;
    while i < cs.len()
        invariant
            i <= cs@.len(),
            cs@ == name@,
            count <= i,
            match slash {
                Some(p) => p < i && name@[p as int] == '/' && count >= 1,
                None => count == 0,
            },
            count == 0 ==> (forall|j: int| 0 <= j < i ==> name@[j] != '/'),
            count == 1 ==> (slash matches Some(p) && (forall|j: int|
                0 <= j < i && j != p ==> name@[j] != '/')),
            count >= 2 ==> (exists|a: int, b: int|
                0 <= a < b < i && #[trigger] name@[a] == '/' && #[trigger] name@[b] == '/'),
        decreases cs@.len() - i,
    {
        if cs[i] == '/' {
            if matches!(slash, None) {
                slash = Some(i);
            }
            count = count + 1;
        }
        i = i + 1;
    }
    if count == 1 {
        match slash {
            Some(p) => {
                let vendor = crate::strutil::copy_range(&cs, 0, p);
                let model = crate::strutil::copy_range(&cs, p + 1, cs.len());
                proof {
                    assert(name@.take(p as int) =~= name@.subrange(0, p as int));
                    assert(name@.skip(p + 1) =~= name@.subrange(p + 1, name@.len() as int));
                }
                Some((string_from_chars(&vendor), string_from_chars(&model)))
            },
            None => None,
        }
    } else {
        proof {
            if count == 0 {
                assert forall|i0: int|
                    !(0 <= i0 < name@.len() && name@[i0] == '/' && (forall|j: int|
                        0 <= j < name@.len() && j != i0 ==> name@[j] != '/')) by {}
            }
        }
        None
    }
}

} // verus!
