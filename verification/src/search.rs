//! Ripgrep invocation arguments and the reading of its JSON event stream.

use vstd::prelude::*;

use crate::config::SearchOptions;
use crate::text::{
    chars_of, decimal, decimal_string, push_decimal, push_str, string_of_range, string_views,
    trim, trim_bounds, trim_end, trim_end_len, CharClass,
};

verus! {

/// The most matches one search reports.
pub const MAX_RESULTS: usize = 500;

/// A `{"text": ...}` object of ripgrep's JSON output.
pub struct RipgrepText {
    pub text: String,
}

/// A submatch of a ripgrep match event: where the matched text starts.
pub struct RipgrepSubmatch {
    pub start: u64,
}

/// The data of a ripgrep `match` event.
pub struct RipgrepMatch {
    pub path: RipgrepText,
    pub line_number: u64,
    pub lines: RipgrepText,
    pub submatches: Vec<RipgrepSubmatch>,
}

/// One line of ripgrep's JSON output: a match, or any other event.
pub enum RipgrepEvent {
    Match { data: RipgrepMatch },
    Other,
}

/// A match as the finder shows it.
#[derive(Debug, PartialEq, Eq)]
pub struct SearchMatch {
    pub path: String,
    pub line: u64,
    pub column: u64,
    pub text: String,
}

pub ghost struct SearchMatchView {
    pub path: Seq<char>,
    pub line: u64,
    pub column: u64,
    pub text: Seq<char>,
}

impl View for SearchMatch {
    type V = SearchMatchView;

    open spec fn view(&self) -> SearchMatchView {
        SearchMatchView { path: self.path@, line: self.line, column: self.column, text: self.text@ }
    }
}

pub open spec fn match_views(s: Seq<SearchMatch>) -> Seq<SearchMatchView> {
    s.map_values(|m: SearchMatch| m@)
}

/// `path` with every leading `./` removed.
pub open spec fn strip_current_dir(path: Seq<char>) -> Seq<char>
    decreases path.len(),
{
    if path.len() >= 2 && path[0] == '.' && path[1] == '/' {
        strip_current_dir(path.skip(2))
    } else {
        path
    }
}

/// The column of a match: one past the start of its first submatch (held at
/// the largest `u64`), or 1 when it has none.
pub open spec fn column_of(submatches: Seq<RipgrepSubmatch>) -> u64 {
    if submatches.len() == 0 {
        1
    } else if submatches[0].start == u64::MAX {
        u64::MAX
    } else {
        (submatches[0].start + 1) as u64
    }
}

/// The match that a ripgrep match event describes.
pub open spec fn match_of(data: RipgrepMatch) -> SearchMatchView {
    SearchMatchView {
        path: strip_current_dir(data.path.text@),
        line: data.line_number,
        column: column_of(data.submatches@),
        text: trim_end(data.lines.text@),
    }
}

/// `path:line:column` of a match.
pub open spec fn location_of(m: SearchMatchView) -> Seq<char> {
    m.path + seq![':'] + decimal(m.line as nat) + seq![':'] + decimal(m.column as nat)
}

impl SearchMatch {
    /// The match that the ripgrep match event `result` describes.
    pub fn from(result: RipgrepMatch) -> (m: SearchMatch)
        ensures
            m@ == match_of(result),
    {
        let path = chars_of(result.path.text.as_str());
        let mut start: usize = 0;
        assert(path@.skip(0) == path@);
        while path.len() - start >= 2 && path[start] == '.' && path[start + 1] == '/'
            invariant
                start <= path.len(),
                strip_current_dir(path@.skip(start as int)) == strip_current_dir(path@),
            decreases path.len() - start,
        {
            assert(path@.skip(start as int).skip(2) == path@.skip(start + 2));
            start += 2;
        }
        assert(path@.skip(start as int) == path@.subrange(start as int, path@.len() as int));
        let column = if result.submatches.len() == 0 {
            1
        } else {
            result.submatches[0].start.saturating_add(1)
        };
        let lines = chars_of(result.lines.text.as_str());
        let end = trim_end_len(lines.as_slice(), &CharClass::Whitespace);
        assert(lines@.take(end as int) == lines@.subrange(0, end as int));
        SearchMatch {
            path: string_of_range(path.as_slice(), start, path.len()),
            line: result.line_number,
            column,
            text: string_of_range(lines.as_slice(), 0, end),
        }
    }

    /// `path:line:column`, the location a user pastes to point at the match.
    pub fn location(&self) -> (res: String)
        ensures
            res@ == location_of(self@),
    {
        let mut res = String::new();
        push_str(&mut res, self.path.as_str());
        res.push(':');
        push_decimal(&mut res, self.line);
        res.push(':');
        push_decimal(&mut res, self.column);
        res
    }
}

/// Where the line that starts at `i` ends: the next newline, or the end.
pub open spec fn line_end(s: Seq<u8>, i: int) -> int
    decreases s.len() - i,
{
    if i < 0 || i >= s.len() {
        s.len() as int
    } else if s[i] == 10u8 {
        i
    } else {
        line_end(s, i + 1)
    }
}

/// The non-empty newline-separated lines of `s` from position `i` on.
pub open spec fn lines_from(s: Seq<u8>, i: int) -> Seq<Seq<u8>>
    decreases s.len() - i,
{
    if i < 0 || i >= s.len() {
        Seq::empty()
    } else {
        proof {
            lemma_line_end_bounds(s, i);
        }
        let e = line_end(s, i);
        let rest = if e < s.len() {
            lines_from(s, e + 1)
        } else {
            Seq::empty()
        };
        if e == i {
            rest
        } else {
            seq![s.subrange(i, e)] + rest
        }
    }
}

pub proof fn lemma_line_end_bounds(s: Seq<u8>, i: int)
    requires
        0 <= i <= s.len(),
    ensures
        i <= line_end(s, i) <= s.len(),
        line_end(s, i) < s.len() ==> s[line_end(s, i)] == 10u8,
        forall|k: int| i <= k < line_end(s, i) ==> s[k] != 10u8,
    decreases s.len() - i,
{
    if i < s.len() && s[i] != 10u8 {
        lemma_line_end_bounds(s, i + 1);
    }
}

pub open spec fn byte_views(s: Seq<Vec<u8>>) -> Seq<Seq<u8>> {
    s.map_values(|v: Vec<u8>| v@)
}

/// The non-empty lines of ripgrep's output, in order.
pub fn output_lines(output: &[u8]) -> (lines: Vec<Vec<u8>>)
    ensures
        byte_views(lines@) == lines_from(output@, 0),
{
    let mut lines: Vec<Vec<u8>> = Vec::new();
    let mut start: usize = 0;
    while start < output.len()
        invariant
            start <= output.len(),
            byte_views(lines@) + lines_from(output@, start as int) == lines_from(output@, 0),
        decreases output.len() - start,
    {
        let mut end = start;
        let mut line: Vec<u8> = Vec::new();
        while end < output.len() && output[end] != 10u8
            invariant
                start <= end <= output.len(),
                line_end(output@, start as int) == line_end(output@, end as int),
                line@ == output@.subrange(start as int, end as int),
            decreases output.len() - end,
        {
            line.push(output[end]);
            assert(output@.subrange(start as int, end + 1) == output@.subrange(
                start as int,
                end as int,
            ).push(output@[end as int]));
            end += 1;
        }
        assert(line_end(output@, start as int) == end);
        let ghost before = lines@;
        let ghost rest = if end < output.len() {
            lines_from(output@, end + 1)
        } else {
            Seq::empty()
        };
        if end > start {
            lines.push(line);
            assert(byte_views(lines@) == byte_views(before).push(output@.subrange(
                start as int,
                end as int,
            )));
            assert(byte_views(lines@) + rest =~= byte_views(before) + (seq![
                output@.subrange(start as int, end as int),
            ] + rest));
        } else {
            assert(byte_views(lines@) + rest == byte_views(before) + rest);
        }
        if end < output.len() {
            start = end + 1;
        } else {
            assert(byte_views(lines@) + Seq::<Seq<u8>>::empty() == byte_views(lines@));
            start = end;
        }
    }
    assert(byte_views(lines@) + Seq::<Seq<u8>>::empty() == byte_views(lines@));
    lines
}

/// What reading the events of `events` from position `i` on gives, the
/// matches read before it being `found`: the matches of the match events in
/// order until `MAX_RESULTS` are found, or the first unreadable line's error.
pub open spec fn read_events(
    events: Seq<Result<RipgrepEvent, String>>,
    i: int,
    found: Seq<SearchMatchView>,
) -> Result<Seq<SearchMatchView>, Seq<char>>
    decreases events.len() - i,
{
    if found.len() >= MAX_RESULTS || i < 0 || i >= events.len() {
        Ok(found)
    } else {
        match events[i] {
            Err(e) => Err(parse_failure_prefix() + e@),
            Ok(RipgrepEvent::Match { data }) => read_events(events, i + 1, found.push(match_of(data))),
            Ok(RipgrepEvent::Other) => read_events(events, i + 1, found),
        }
    }
}

pub open spec fn parse_failure_prefix() -> Seq<char> {
    "could not parse ripgrep JSON output: "@
}

pub open spec fn result_view(r: Result<Vec<SearchMatch>, String>) -> Result<
    Seq<SearchMatchView>,
    Seq<char>,
> {
    match r {
        Ok(m) => Ok(match_views(m@)),
        Err(e) => Err(e@),
    }
}

proof fn lemma_read_events_bounded(
    events: Seq<Result<RipgrepEvent, String>>,
    i: int,
    found: Seq<SearchMatchView>,
)
    requires
        found.len() <= MAX_RESULTS,
    ensures
        read_events(events, i, found) matches Ok(m) ==> m.len() <= MAX_RESULTS,
    decreases events.len() - i,
{
    if found.len() >= MAX_RESULTS || i < 0 || i >= events.len() {
    } else {
        match events[i] {
            Err(e) => {},
            Ok(RipgrepEvent::Match { data }) => {
                lemma_read_events_bounded(events, i + 1, found.push(match_of(data)));
            },
            Ok(RipgrepEvent::Other) => {
                lemma_read_events_bounded(events, i + 1, found);
            },
        }
    }
}

/// The elements of `v` in reverse order.
fn reversed<T>(v: Vec<T>) -> (res: Vec<T>)
    ensures
        res@.len() == v@.len(),
        forall|k: int| 0 <= k < v@.len() ==> #[trigger] res@[k] == v@[v@.len() - 1 - k],
{
    let ghost all = v@;
    let mut v = v;
    let mut res: Vec<T> = Vec::new();
    while v.len() > 0
        invariant
            v@ == all.take(v@.len() as int),
            res@.len() + v@.len() == all.len(),
            forall|k: int| 0 <= k < res@.len() ==> #[trigger] res@[k] == all[all.len() - 1 - k],
        decreases v.len(),
    {
        let x = v.pop().unwrap();
        assert(v@ == all.take(v@.len() as int));
        res.push(x);
    }
    res
}

/// The matches of ripgrep's output, given each output line as read into an
/// event or the reason it could not be read.
pub fn parse_ripgrep_output(events: Vec<Result<RipgrepEvent, String>>) -> (res: Result<
    Vec<SearchMatch>,
    String,
>)
    ensures
        result_view(res) == read_events(events@, 0, Seq::empty()),
        res matches Ok(m) ==> m@.len() <= MAX_RESULTS,
{
    proof {
        lemma_read_events_bounded(events@, 0, Seq::empty());
    }
    let ghost all = events@;
    let mut pending = reversed(events);
    let mut matches: Vec<SearchMatch> = Vec::new();
    assert(match_views(matches@) =~= Seq::<SearchMatchView>::empty());
    let mut i: usize = 0;
    let n = pending.len();
    while matches.len() < MAX_RESULTS && i < n
        invariant
            all == events@,
            n == all.len(),
            i <= n,
            pending@.len() == n - i,
            forall|k: int| 0 <= k < n - i ==> #[trigger] pending@[k] == all[n - 1 - k],
            read_events(all, i as int, match_views(matches@)) == read_events(all, 0, Seq::empty()),
        decreases n - i,
    {
        assert(pending@[n - i - 1] == all[i as int]);
        let event = pending.pop().unwrap();
        assert(event == all[i as int]);
        assert(match_views(matches@).len() == matches@.len());
        match event {
            Err(e) => {
                let mut message = String::new();
                push_str(&mut message, "could not parse ripgrep JSON output: ");
                push_str(&mut message, e.as_str());
                return Err(message);
            },
            Ok(RipgrepEvent::Match { data }) => {
                let ghost m = match_of(data);
                let ghost before = matches@;
                matches.push(SearchMatch::from(data));
                assert(match_views(matches@) == match_views(before).push(m));
            },
            Ok(RipgrepEvent::Other) => {},
        }
        i += 1;
    }
    Ok(matches)
}

/// Whether ripgrep's exit status is that of a search that ran: 0 when
/// something matched, 1 when nothing did.
pub open spec fn search_ran(code: Option<i32>) -> bool {
    code == Some(0i32) || code == Some(1i32)
}

/// The search's failure for an exit status other than 0 or 1, with ripgrep's
/// trimmed error output.
pub fn ripgrep_status(code: Option<i32>, stderr: &str) -> (res: Result<(), String>)
    ensures
        search_ran(code) <==> res is Ok,
        res matches Err(e) ==> e@ == "ripgrep failed: "@ + trim(stderr@),
{
    match code {
        Some(0) | Some(1) => Ok(()),
        _ => {
            let chars = chars_of(stderr);
            let (s, e) = trim_bounds(chars.as_slice(), &CharClass::Whitespace);
            let mut message = String::new();
            push_str(&mut message, "ripgrep failed: ");
            let rest = string_of_range(chars.as_slice(), s, e);
            push_str(&mut message, rest.as_str());
            Err(message)
        },
    }
}

/// The fixed options of every search.
pub open spec fn fixed_arguments() -> Seq<Seq<char>> {
    seq![
        "--json"@,
        "--line-number"@,
        "--column"@,
        "--smart-case"@,
        "--hidden"@,
        "--max-count"@,
        decimal(MAX_RESULTS as nat),
    ]
}

/// `--glob` and the glob, for each glob in order.
pub open spec fn glob_arguments(globs: Seq<Seq<char>>) -> Seq<Seq<char>>
    decreases globs.len(),
{
    if globs.len() == 0 {
        Seq::empty()
    } else {
        glob_arguments(globs.drop_last()) + seq!["--glob"@, globs.last()]
    }
}

/// The arguments of ripgrep for `query`, excluding `globs`.
pub open spec fn arguments_of(globs: Seq<Seq<char>>, query: Seq<char>) -> Seq<Seq<char>> {
    fixed_arguments() + glob_arguments(globs) + seq!["--"@, query, "."@]
}

fn push_string(args: &mut Vec<String>, s: &str)
    ensures
        string_views(final(args)@) == string_views(old(args)@).push(s@),
{
    let mut t = String::new();
    push_str(&mut t, s);
    let ghost before = args@;
    args.push(t);
    assert(string_views(args@) =~= string_views(before).push(s@));
}

/// The arguments of the ripgrep run that searches for `query`, or `None` when
/// the query is blank and nothing is searched.
pub fn search_arguments(options: &SearchOptions, query: &str) -> (res: Option<Vec<String>>)
    ensures
        trim(query@).len() == 0 <==> res is None,
        res matches Some(args) ==> string_views(args@) == arguments_of(options@, query@),
{
    let chars = chars_of(query);
    let (s, e) = trim_bounds(chars.as_slice(), &CharClass::Whitespace);
    if s == e {
        return None;
    }
    let mut args: Vec<String> = Vec::new();
    assert(string_views(args@) =~= Seq::<Seq<char>>::empty());
    push_string(&mut args, "--json");
    push_string(&mut args, "--line-number");
    push_string(&mut args, "--column");
    push_string(&mut args, "--smart-case");
    push_string(&mut args, "--hidden");
    push_string(&mut args, "--max-count");
    let count = decimal_string(MAX_RESULTS as u64);
    push_string(&mut args, count.as_str());
    assert(string_views(args@) =~= fixed_arguments());
    let globs = options.ignored_globs();
    let mut i: usize = 0;
    while i < globs.len()
        invariant
            i <= globs.len(),
            globs@.map_values(|g: String| g@) == options@,
            string_views(args@) == fixed_arguments() + glob_arguments(options@.take(i as int)),
        decreases globs.len() - i,
    {
        push_string(&mut args, "--glob");
        push_string(&mut args, globs[i].as_str());
        proof {
            let t = options@.take(i + 1);
            assert(t.drop_last() == options@.take(i as int));
            assert(t.last() == globs@[i as int]@);
        }
        i += 1;
    }
    assert(options@.take(globs.len() as int) == options@);
    push_string(&mut args, "--");
    push_string(&mut args, query);
    push_string(&mut args, ".");
    Some(args)
}

/// The matches of the match events among `events`, in order.
pub open spec fn matches_in(events: Seq<Result<RipgrepEvent, String>>) -> Seq<SearchMatchView>
    decreases events.len(),
{
    if events.len() == 0 {
        Seq::empty()
    } else {
        let rest = matches_in(events.drop_first());
        match events[0] {
            Ok(RipgrepEvent::Match { data }) => seq![match_of(data)] + rest,
            _ => rest,
        }
    }
}

/// No line of `events` is unreadable.
pub open spec fn all_readable(events: Seq<Result<RipgrepEvent, String>>) -> bool {
    forall|k: int| 0 <= k < events.len() ==> #[trigger] events[k] is Ok
}

/// `s`, or its first `MAX_RESULTS` elements when it is longer.
pub open spec fn capped(s: Seq<SearchMatchView>) -> Seq<SearchMatchView> {
    if s.len() <= MAX_RESULTS {
        s
    } else {
        s.take(MAX_RESULTS as int)
    }
}

proof fn lemma_read_readable(
    events: Seq<Result<RipgrepEvent, String>>,
    i: int,
    found: Seq<SearchMatchView>,
)
    requires
        0 <= i <= events.len(),
        found.len() <= MAX_RESULTS,
        all_readable(events),
    ensures
        read_events(events, i, found) == Ok::<Seq<SearchMatchView>, Seq<char>>(
            capped(found + matches_in(events.subrange(i, events.len() as int))),
        ),
    decreases events.len() - i,
{
    let rest = events.subrange(i, events.len() as int);
    if found.len() >= MAX_RESULTS {
        assert((found + matches_in(rest)).take(MAX_RESULTS as int) =~= found);
    } else if i >= events.len() {
        assert(rest.len() == 0);
        assert(found + matches_in(rest) =~= found);
    } else {
        assert(events[i] is Ok);
        let next = events.subrange(i + 1, events.len() as int);
        assert(rest.drop_first() =~= next);
        assert(rest[0] == events[i]);
        match events[i] {
            Ok(RipgrepEvent::Match { data }) => {
                lemma_read_readable(events, i + 1, found.push(match_of(data)));
                assert(found.push(match_of(data)) + matches_in(next) =~= found + matches_in(
                    rest,
                ));
            },
            _ => {
                lemma_read_readable(events, i + 1, found);
            },
        }
    }
}

/// When every line could be read, the matches read are those of the match
/// events, in order, up to the first `MAX_RESULTS` of them: other events do
/// not count toward the limit, and a search with fewer match events than the
/// limit reports every one.
pub proof fn law_reading_keeps_every_match_up_to_the_limit(
    events: Seq<Result<RipgrepEvent, String>>,
)
    requires
        all_readable(events),
    ensures
        read_events(events, 0, Seq::empty()) == Ok::<Seq<SearchMatchView>, Seq<char>>(
            capped(matches_in(events)),
        ),
        matches_in(events).len() <= MAX_RESULTS ==> read_events(events, 0, Seq::empty()) == Ok::<
            Seq<SearchMatchView>,
            Seq<char>,
        >(matches_in(events)),
{
    lemma_read_readable(events, 0, Seq::empty());
    assert(events.subrange(0, events.len() as int) =~= events);
    assert(Seq::<SearchMatchView>::empty() + matches_in(events) =~= matches_in(events));
}

/// The arguments of a search: the fixed options, then `--glob` and the glob
/// for every ignored glob in order, then `--`, the query and `.`.
pub proof fn law_every_glob_reaches_ripgrep(globs: Seq<Seq<char>>, query: Seq<char>)
    ensures
        ({
            let args = arguments_of(globs, query);
            let n = globs.len() as int;
            &&& args.len() == 7 + 2 * n + 3
            &&& args[0] == "--json"@
            &&& args[1] == "--line-number"@
            &&& args[2] == "--column"@
            &&& args[3] == "--smart-case"@
            &&& args[4] == "--hidden"@
            &&& args[5] == "--max-count"@
            &&& args[6] == decimal(MAX_RESULTS as nat)
            &&& forall|j: int|
                0 <= j < n ==> args[7 + 2 * j] == "--glob"@ && #[trigger] args[8 + 2 * j]
                    == globs[j]
            &&& args[7 + 2 * n] == "--"@
            &&& args[8 + 2 * n] == query
            &&& args[9 + 2 * n] == "."@
        }),
{
    reveal_strlit("--glob");
    lemma_glob_arguments(globs);
    let f = fixed_arguments();
    let g = glob_arguments(globs);
    let t = seq!["--"@, query, "."@];
    let args = arguments_of(globs, query);
    let n = globs.len() as int;
    assert(args == f + g + t);
    assert(f.len() == 7);
    assert forall|k: int| 0 <= k < 7 implies args[k] == f[k] by {}
    assert forall|j: int| 0 <= j < n implies args[7 + 2 * j] == "--glob"@ && #[trigger] args[8
        + 2 * j] == globs[j] by {
        assert(args[7 + 2 * j] == g[2 * j]);
        assert(args[8 + 2 * j] == g[2 * j + 1]);
    }
    assert(args[7 + 2 * n] == t[0]);
    assert(args[8 + 2 * n] == t[1]);
    assert(args[9 + 2 * n] == t[2]);
}

proof fn lemma_glob_arguments(globs: Seq<Seq<char>>)
    ensures
        glob_arguments(globs).len() == 2 * globs.len(),
        forall|j: int| 0 <= j < globs.len() ==> #[trigger] glob_arguments(globs)[2 * j] == "--glob"@,
        forall|j: int|
            0 <= j < globs.len() ==> #[trigger] glob_arguments(globs)[2 * j + 1] == globs[j],
    decreases globs.len(),
{
    if globs.len() > 0 {
        let init = globs.drop_last();
        let g = glob_arguments(globs);
        let h = glob_arguments(init);
        lemma_glob_arguments(init);
        assert(g == h + seq!["--glob"@, globs.last()]);
        assert forall|j: int| 0 <= j < globs.len() implies #[trigger] g[2 * j] == "--glob"@ by {
            if j < init.len() {
                assert(g[2 * j] == h[2 * j]);
            } else {
                assert(g[2 * j] == seq!["--glob"@, globs.last()][0]);
            }
        }
        assert forall|j: int| 0 <= j < globs.len() implies #[trigger] g[2 * j + 1] == globs[j] by {
            if j < init.len() {
                assert(g[2 * j + 1] == h[2 * j + 1]);
                assert(init[j] == globs[j]);
            } else {
                assert(g[2 * j + 1] == seq!["--glob"@, globs.last()][1]);
            }
        }
    }
}

proof fn lemma_strip_current_dir(path: Seq<char>)
    ensures
        ({
            let p = strip_current_dir(path);
            &&& p.len() <= path.len()
            &&& p == path.skip(path.len() - p.len())
            &&& !(p.len() >= 2 && p[0] == '.' && p[1] == '/')
        }),
    decreases path.len(),
{
    if path.len() >= 2 && path[0] == '.' && path[1] == '/' {
        lemma_strip_current_dir(path.skip(2));
        let p = strip_current_dir(path);
        assert(path.skip(2).skip(path.skip(2).len() - p.len()) == path.skip(path.len() - p.len()));
    } else {
        assert(path.skip(0) == path);
    }
}

proof fn lemma_trim_end_is_prefix(s: Seq<char>)
    ensures
        trim_end(s).len() <= s.len(),
        trim_end(s) == s.take(trim_end(s).len() as int),
        trim_end(s).len() > 0 ==> !crate::text::is_space(trim_end(s).last()),
        forall|k: int| trim_end(s).len() <= k < s.len() ==> crate::text::is_space(#[trigger] s[k]),
    decreases s.len(),
{
    if s.len() > 0 && crate::text::is_space(s.last()) {
        lemma_trim_end_is_prefix(s.drop_last());
        assert forall|k: int| trim_end(s).len() <= k < s.len() implies crate::text::is_space(
            #[trigger] s[k],
        ) by {
            if k < s.len() - 1 {
                assert(s[k] == s.drop_last()[k]);
            }
        }
        assert(s.drop_last().take(trim_end(s).len() as int) == s.take(trim_end(s).len() as int));
    } else {
        assert(s.take(s.len() as int) == s);
    }
}

/// A match read from a match event keeps its line number; its path is the
/// event's path without the leading `./` parts (a suffix of it that does not
/// itself start with `./`); its column is one past the start of the first
/// submatch (1 without submatches); its text is the event's line without the
/// blanks at its end.
pub proof fn law_match_of_event(data: RipgrepMatch)
    ensures
        ({
            let m = match_of(data);
            let path = data.path.text@;
            let line = data.lines.text@;
            &&& m.line == data.line_number
            &&& m.path == path.skip(path.len() - m.path.len())
            &&& !(m.path.len() >= 2 && m.path[0] == '.' && m.path[1] == '/')
            &&& (data.submatches@.len() == 0 ==> m.column == 1)
            &&& (data.submatches@.len() > 0 && data.submatches@[0].start < u64::MAX ==> m.column
                == data.submatches@[0].start + 1)
            &&& m.text == line.take(m.text.len() as int)
            &&& (m.text.len() > 0 ==> !crate::text::is_space(m.text.last()))
            &&& forall|k: int|
                m.text.len() <= k < line.len() ==> crate::text::is_space(#[trigger] line[k])
        }),
{
    lemma_strip_current_dir(data.path.text@);
    lemma_trim_end_is_prefix(data.lines.text@);
}

} // verus!
