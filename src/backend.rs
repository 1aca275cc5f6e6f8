//! The two history backends: a native walk over commits from the head
//! backwards, and the parsing of a log command's `email|YYYY-MM-DD` lines.
use vstd::prelude::*;
use crate::counts::{sat_add, CommitCounts};
use crate::scanner::same_text;
use crate::window::{day_of_second, utc_day_of_timestamp, Window, DAY_RANGE_SECONDS};

verus! {

/// The pieces of a text between the occurrences of `sep`: one more than
/// there are occurrences, empty ones included.
pub open spec fn split_on(s: Seq<char>, sep: char) -> Seq<Seq<char>>
    decreases s.len(),
{
    if s.len() == 0 {
        seq![Seq::empty()]
    } else if s.last() == sep {
        split_on(s.drop_last(), sep).push(Seq::empty())
    } else {
        let f = split_on(s.drop_last(), sep);
        f.update(f.len() - 1, f.last().push(s.last()))
    }
}

/// A line without the carriage return that ends it, if any.
pub open spec fn without_cr(l: Seq<char>) -> Seq<char> {
    if l.len() > 0 && l.last() == '\r' {
        l.drop_last()
    } else {
        l
    }
}

/// The lines of a text, as `str::lines` splits it: at each `\n`, a `\r`
/// just before it dropped; a final line ending is optional, and a
/// carriage return at the very end stays.
pub open spec fn lines_of(s: Seq<char>) -> Seq<Seq<char>> {
    let p = split_on(s, '\n');
    let ended = p.drop_last().map_values(|l: Seq<char>| without_cr(l));
    if p.last().len() == 0 {
        ended
    } else {
        ended.push(p.last())
    }
}

/// The fields of a line, separated by `|`.
pub open spec fn bar_fields_of(s: Seq<char>) -> Seq<Seq<char>> {
    split_on(s, '|')
}

/// Whether a character is Unicode white space (the `White_Space`
/// property, as `char::is_whitespace` has it).
pub open spec fn is_white_space(c: char) -> bool {
    let u = c as u32;
    (0x9 <= u <= 0xd) || u == 0x20 || u == 0x85 || u == 0xa0 || u == 0x1680 || (0x2000 <= u
        <= 0x200a) || u == 0x2028 || u == 0x2029 || u == 0x202f || u == 0x205f || u == 0x3000
}

/// A text without its leading white space.
pub open spec fn trim_start_of(s: Seq<char>) -> Seq<char>
    decreases s.len(),
{
    if s.len() > 0 && is_white_space(s[0]) {
        trim_start_of(s.skip(1))
    } else {
        s
    }
}

/// The characters at the start of a text up to the first white space.
pub open spec fn word_prefix(s: Seq<char>) -> Seq<char>
    decreases s.len(),
{
    if s.len() == 0 || is_white_space(s[0]) {
        Seq::empty()
    } else {
        seq![s[0]] + word_prefix(s.skip(1))
    }
}

/// The first word of a text, words being separated by any amount of
/// white space; `None` where the text is all white space.
pub open spec fn first_word_of(s: Seq<char>) -> Option<Seq<char>> {
    let t = trim_start_of(s);
    if t.len() == 0 {
        None
    } else {
        Some(word_prefix(t))
    }
}


/// The day (since 1970-01-01) of a `YYYY-MM-DD` date, as chrono's
/// `NaiveDate::parse_from_str` reads it.
pub uninterp spec fn ymd_day_of(s: Seq<char>) -> Option<i32>;

/// Relies on `str::lines`: splits a text into lines, as its documentation
/// describes.
#[verifier::external_body]
fn text_lines(s: &str) -> (r: Vec<String>)
    ensures
        r@.map_values(|l: String| l@) == lines_of(s@),
{
    s.lines().map(String::from).collect()
}

/// Relies on `str::split` with a `char` pattern: the substrings between the
/// occurrences of `'|'`.
#[verifier::external_body]
fn bar_fields(s: &str) -> (r: Vec<String>)
    ensures
        r@.map_values(|l: String| l@) == bar_fields_of(s@),
{
    s.split('|').map(String::from).collect()
}

/// Relies on `str::split_whitespace` and `Iterator::next`: the first piece
/// of a text split at runs of `White_Space` characters, empty pieces left out.
#[verifier::external_body]
fn first_word(s: &str) -> (r: Option<String>)
    ensures
        r matches Some(w) ==> first_word_of(s@) == Some(w@),
        r is None ==> first_word_of(s@) is None,
{
    s.split_whitespace().next().map(String::from)
}

/// Whether every character is an ASCII digit.
pub open spec fn all_digits(s: Seq<char>) -> bool {
    forall|i: int| 0 <= i < s.len() ==> '0' <= #[trigger] s[i] <= '9'
}

/// The value of a string of ASCII digits.
pub open spec fn digits_value(s: Seq<char>) -> int
    decreases s.len(),
{
    if s.len() == 0 {
        0
    } else {
        digits_value(s.drop_last()) * 10 + (s.last() as int - '0' as int)
    }
}

/// The value of a decimal integer: an optional `+` or `-` and at least one
/// ASCII digit, nothing else.
pub open spec fn decimal_value(s: Seq<char>) -> Option<int> {
    if s.len() > 0 && (s[0] == '+' || s[0] == '-') {
        let rest = s.skip(1);
        if rest.len() > 0 && all_digits(rest) {
            Some(if s[0] == '-' { -digits_value(rest) } else { digits_value(rest) })
        } else {
            None
        }
    } else if s.len() > 0 && all_digits(s) {
        Some(digits_value(s))
    } else {
        None
    }
}

/// The `i64` that a text holds, as `str::parse::<i64>` reads it: a decimal
/// integer within range.
pub open spec fn i64_of(s: Seq<char>) -> Option<i64> {
    match decimal_value(s) {
        Some(v) => if i64::MIN <= v <= i64::MAX {
            Some(v as i64)
        } else {
            None
        },
        None => None,
    }
}

/// Relies on `str::parse::<i64>`: an optional sign and decimal digits,
/// rejected where out of range.
#[verifier::external_body]
fn parse_i64(s: &str) -> (r: Option<i64>)
    ensures
        r == i64_of(s@),
{
    s.parse::<i64>().ok()
}

/// Relies on chrono's `NaiveDate::parse_from_str` with `%Y-%m-%d` and
/// `NaiveDate::to_epoch_days`: reads a calendar date as a day number.
#[verifier::external_body]
fn parse_ymd(s: &str) -> (r: Option<i32>)
    ensures
        r == ymd_day_of(s@),
{
    match chrono::NaiveDate::parse_from_str(s, "%Y-%m-%d") {
        Ok(d) => Some(d.to_epoch_days()),
        Err(_) => None,
    }
}

/// The seconds of a raw commit time (`<seconds> <offset>`): its first word
/// read as an integer, or 0 where there is none.
pub open spec fn seconds_of_time(raw: Seq<char>) -> i64 {
    match first_word_of(raw) {
        Some(w) => match i64_of(w) {
            Some(n) => n,
            None => 0,
        },
        None => 0,
    }
}

/// The seconds since 1970 of a commit's raw author time, 0 where it cannot
/// be read.
pub fn commit_seconds(raw_time: &str) -> (r: i64)
    ensures
        r == seconds_of_time(raw_time@),
{
    match first_word(raw_time) {
        Some(w) => match parse_i64(w.as_str()) {
            Some(n) => n,
            None => 0,
        },
        None => 0,
    }
}

/// Whether two byte strings are equal.
fn same_bytes(a: &[u8], b: &[u8]) -> (r: bool)
    ensures
        r == (a@ == b@),
{
    if a.len() != b.len() {
        return false;
    }
    let mut i: usize = 0;
    while i < a.len()
        invariant
            a@.len() == b@.len(),
            i <= a@.len(),
            forall|k: int| 0 <= k < i ==> a@[k] == b@[k],
        decreases a.len() - i,
    {
        if a[i] != b[i] {
            return false;
        }
        i = i + 1;
    }
    proof {
        assert(a@ =~= b@);
    }
    true
}

/// What a history walk does after a commit.
#[derive(Clone, Copy, Debug, PartialEq, Eq, Structural)]
pub enum WalkStep {
    Continue,
    Stop,
}

/// The state of a native history walk over one repository, from the head
/// commit through its ancestors, newest first.
pub struct NativeWalk {
    window: Window,
    identity: Vec<u8>,
    counts: CommitCounts,
    failed: bool,
}

impl NativeWalk {
    /// The window the walk counts in.
    pub closed spec fn spec_window(&self) -> Window {
        self.window
    }

    /// The author email that is counted.
    pub closed spec fn spec_identity(&self) -> Seq<u8> {
        self.identity@
    }

    /// The commits counted so far.
    pub closed spec fn spec_counts(&self) -> CommitCounts {
        self.counts
    }

    /// Whether the walk has failed.
    pub closed spec fn spec_failed(&self) -> bool {
        self.failed
    }

    /// The state is well formed.
    pub open spec fn wf(&self) -> bool {
        self.spec_counts().wf()
    }

    /// A walk that has counted nothing yet.
    pub fn new(window: Window, identity: Vec<u8>) -> (r: NativeWalk)
        ensures
            r.wf(),
            r.spec_window() == window,
            r.spec_identity() == identity@,
            !r.spec_failed(),
            forall|d: i32| #[trigger] r.spec_counts().spec_count(d) == 0,
    {
        NativeWalk { window, identity, counts: CommitCounts::new(), failed: false }
    }

    /// Takes in the next commit of the walk, by its author's email and raw
    /// time (`<seconds> <offset>`). Commits before the window stop the
    /// walk: no ancestor of theirs can be newer. Commits in the window by
    /// the identity are counted on their UTC day; others are passed over.
    /// A time without a calendar day fails the walk.
    pub fn observe(&mut self, author_email: &[u8], author_time: &str) -> (r: WalkStep)
        requires
            old(self).wf(),
        ensures
            final(self).wf(),
            final(self).spec_window() == old(self).spec_window(),
            final(self).spec_identity() == old(self).spec_identity(),
            ({
                let secs = seconds_of_time(author_time@);
                let w = old(self).spec_window();
                let counted = w.spec_includes_timestamp(secs as int) && author_email@
                    == old(self).spec_identity();
                let stepped = {
                    &&& final(self).spec_failed() == old(self).spec_failed()
                    &&& r == (if w.spec_includes_timestamp(secs as int) {
                        WalkStep::Continue
                    } else {
                        WalkStep::Stop
                    })
                    &&& forall|d: i32| #[trigger]
                        final(self).spec_counts().spec_count(d) == if counted && d as int
                            == day_of_second(secs as int) {
                            sat_add(old(self).spec_counts().spec_count(d), 1)
                        } else {
                            old(self).spec_counts().spec_count(d)
                        }
                };
                let broke = {
                    &&& final(self).spec_failed()
                    &&& r == WalkStep::Stop
                    &&& final(self).spec_counts() == old(self).spec_counts()
                };
                &&& stepped || broke
                &&& -DAY_RANGE_SECONDS <= secs <= DAY_RANGE_SECONDS ==> stepped
            }),
            author_email@ != old(self).spec_identity() ==> forall|d: i32| #[trigger]
                final(self).spec_counts().spec_count(d) == old(self).spec_counts().spec_count(d),
    {
        let secs = commit_seconds(author_time);
        match utc_day_of_timestamp(secs) {
            None => {
                self.failed = true;
                WalkStep::Stop
            },
            Some(day) => {
                if !self.window.includes_timestamp(secs) {
                    return WalkStep::Stop;
                }
                if !same_bytes(author_email, self.identity.as_slice()) {
                    return WalkStep::Continue;
                }
                self.counts.add_commit(day);
                WalkStep::Continue
            },
        }
    }

    /// Records that the walk could not go on (the store could not be read).
    pub fn fail(&mut self)
        ensures
            final(self).spec_failed(),
            final(self).spec_counts() == old(self).spec_counts(),
            final(self).spec_window() == old(self).spec_window(),
            final(self).spec_identity() == old(self).spec_identity(),
    {
        self.failed = true;
    }

    /// The repository's counts: what was counted, or nothing at all where
    /// the walk failed.
    pub fn finish(self) -> (r: CommitCounts)
        requires
            self.wf(),
        ensures
            r.wf(),
            self.spec_failed() ==> r@.len() == 0,
            !self.spec_failed() ==> r == self.spec_counts(),
    {
        if self.failed {
            CommitCounts::new()
        } else {
            self.counts
        }
    }
}

/// The day a log line counts on, from its email field and its date field
/// as read: the date, where the email is the identity and the date lies
/// in the window.
pub open spec fn log_line_decision(
    email: Seq<char>,
    date: Option<i32>,
    identity: Seq<char>,
    start_day: i32,
) -> Option<i32> {
    match date {
        Some(d) => if email == identity && d >= start_day {
            Some(d)
        } else {
            None
        },
        None => None,
    }
}

/// The day a log line `email|YYYY-MM-DD` counts on, if any: its email
/// field must be the identity exactly, and its date field a date in the
/// window. Lines with fewer than two fields count nowhere.
pub open spec fn log_line_day(line: Seq<char>, identity: Seq<char>, start_day: i32) -> Option<
    i32,
> {
    let fields = bar_fields_of(line);
    if fields.len() < 2 {
        None
    } else {
        log_line_decision(
            fields[0],
            ymd_day_of(fields[1]),
            identity,
            start_day,
        )
    }
}

/// The number of lines that count on `day` (saturating at `u64::MAX`).
pub open spec fn log_count(lines: Seq<Seq<char>>, identity: Seq<char>, start_day: i32, day: i32) -> nat
    decreases lines.len(),
{
    if lines.len() == 0 {
        0
    } else {
        sat_add(
            log_count(lines.drop_last(), identity, start_day, day),
            if log_line_day(lines.last(), identity, start_day) == Some(day) {
                1
            } else {
                0
            },
        )
    }
}

/// The day a log line counts on, from its email field and its date field
/// as already read.
pub fn log_line_verdict(email: &str, date: Option<i32>, identity: &str, window: &Window) -> (r:
    Option<i32>)
    ensures
        r == log_line_decision(email@, date, identity@, window.start_day),
{
    match date {
        Some(d) => if same_text(email, identity) && window.includes_day(d) {
            Some(d)
        } else {
            None
        },
        None => None,
    }
}

/// The day a log line `email|YYYY-MM-DD` counts on, if any.
pub fn parse_log_line(line: &str, identity: &str, window: &Window) -> (r: Option<i32>)
    ensures
        r == log_line_day(line@, identity@, window.start_day),
{
    let fields = bar_fields(line);
    proof {
        assert(fields@.len() == bar_fields_of(line@).len());
    }
    if fields.len() < 2 {
        return None;
    }
    let date = parse_ymd(fields[1].as_str());
    log_line_verdict(fields[0].as_str(), date, identity, window)
}

/// The counts of a log command's output: one commit for each line that
/// counts, on its day. Lines that cannot be read are passed over.
pub fn count_log_output(output: &str, identity: &str, window: &Window) -> (r: CommitCounts)
    ensures
        r.wf(),
        forall|d: i32| #[trigger]
            r.spec_count(d) == log_count(lines_of(output@), identity@, window.start_day, d),
{
    let lines = text_lines(output);
    let ghost all = lines_of(output@);
    let mut counts = CommitCounts::new();
    let mut i: usize = 0;
    while i < lines.len()
        invariant
            i <= lines@.len(),
            lines@.map_values(|l: String| l@) == all,
            counts.wf(),
            forall|d: i32| #[trigger]
                counts.spec_count(d) == log_count(all.take(i as int), identity@, window.start_day, d),
        decreases lines@.len() - i,
    {
        let ghost before = counts;
        let day = parse_log_line(lines[i].as_str(), identity, window);
        proof {
            assert(all.take(i as int + 1).drop_last() =~= all.take(i as int));
            assert(all.take(i as int + 1).last() == lines@[i as int]@);
        }
        match day {
            Some(d) => {
                counts.add_commit(d);
            },
            None => {},
        }
        proof {
            assert forall|d: i32| #[trigger]
                counts.spec_count(d) == log_count(
                    all.take(i as int + 1),
                    identity@,
                    window.start_day,
                    d,
                ) by {
                assert(before.spec_count(d) == log_count(
                    all.take(i as int),
                    identity@,
                    window.start_day,
                    d,
                ));
            }
        }
        i = i + 1;
    }
    proof {
        assert(all.take(i as int) =~= all);
    }
    counts
}

/// A log line whose email is not the identity never counts, whatever its
/// date.
pub proof fn lemma_other_authors_ignored(
    lines: Seq<Seq<char>>,
    line: Seq<char>,
    identity: Seq<char>,
    start_day: i32,
    day: i32,
)
    requires
        bar_fields_of(line).len() >= 2 ==> bar_fields_of(line)[0] != identity,
    ensures
        log_line_day(line, identity, start_day) is None,
        log_count(lines.push(line), identity, start_day, day) == log_count(
            lines,
            identity,
            start_day,
            day,
        ),
{
    assert(lines.push(line).drop_last() =~= lines);
    if lines.len() > 0 {
        assert(log_count(lines, identity, start_day, day) <= u64::MAX);
    }
}

} // verus!
