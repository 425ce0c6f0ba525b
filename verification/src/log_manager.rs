//! The log side of the supervisor: turning raw lines into entries, following
//! growing log files, and answering queries from the files themselves.

use vstd::prelude::*;
use vstd::string::*;
use crate::database::{batch_rows, row_of, writable, LogRow};
use crate::hub::{ChannelView, Delivery, LogHub, Subscription};
use crate::keyed::{as_map, distinct_keys, lemma_place, lemma_push, lemma_update, place_of};
use crate::models::{
    entry_views, opt_text, texts, FilteredLogsResponse, LogEntry, LogEntryView, LogLevel,
    Timestamp,
};
use crate::paths::{join_path, joined_path};
use crate::tail::{
    complete_lines, consumed, decoded, lemma_decoded_add, lemma_pending, lemma_readings_compose,
    pending, read_lines,
};
use crate::plain::{all_space, is_blank, text_eq};
use crate::text::{
    contains,
    lowercase,
    occurs_in,
    to_lowercase,
    to_uppercase,
    uppercase,
};
use crate::timefmt::{
    find_pattern, instant, naive_instant, parse_naive, parse_rfc3339, regex_first_match,
    rfc3339_instant,
};

verus! {

/// How long a tailer sleeps between two looks at its file, in milliseconds.
pub const TAIL_MILLIS: u64 = 500;

/// Layout of a bare date and time with a space between them.
pub const SPACE_LAYOUT: &'static str = "%Y-%m-%d %H:%M:%S";

/// Layout of a bare date and time with a `T` between them.
pub const T_LAYOUT: &'static str = "%Y-%m-%dT%H:%M:%S";

/// A date and time with a `T`, anywhere in a line.
pub const T_PATTERN: &'static str = "\\d{4}-\\d{2}-\\d{2}T\\d{2}:\\d{2}:\\d{2}";

/// A date and time with a space, anywhere in a line.
pub const SPACE_PATTERN: &'static str = "\\d{4}-\\d{2}-\\d{2} \\d{2}:\\d{2}:\\d{2}";

/// A date with slashes and a time, anywhere in a line.
pub const SLASH_PATTERN: &'static str = "\\d{4}/\\d{2}/\\d{2} \\d{2}:\\d{2}:\\d{2}";

/// The level that the keywords of an upper-cased line give it. `ERR` covers
/// `ERROR`, and `WARN` covers `WARNING`; a line without a keyword is `Info`.
pub open spec fn level_of_upper(upper: Seq<char>) -> LogLevel {
    if occurs_in("ERROR"@, upper) || occurs_in("ERR"@, upper) {
        LogLevel::Error
    } else if occurs_in("WARN"@, upper) || occurs_in("WARNING"@, upper) {
        LogLevel::Warn
    } else if occurs_in("DEBUG"@, upper) {
        LogLevel::Debug
    } else {
        LogLevel::Info
    }
}

/// The level of a line: that of its upper-case form.
pub open spec fn level_of_line(line: Seq<char>) -> LogLevel {
    level_of_upper(uppercase(line))
}

/// The first of two optional values that is present.
pub open spec fn first_of(a: Option<Timestamp>, b: Option<Timestamp>) -> Option<Timestamp> {
    if a is Some {
        a
    } else {
        b
    }
}

/// The instant that the first match of `pattern` in `line` denotes, read in
/// the `T` layout and, failing that, in the space layout.
pub open spec fn embedded_instant(line: Seq<char>, pattern: Seq<char>) -> Option<Timestamp> {
    match regex_first_match(pattern, line) {
        Some(m) => first_of(
            instant(naive_instant(m, T_LAYOUT@)),
            instant(naive_instant(m, SPACE_LAYOUT@)),
        ),
        None => None,
    }
}

/// The instant recognised in a line. The whole line is tried as an
/// offset-qualified timestamp, then as a bare date and time in the two
/// layouts; after that the line is searched for an embedded date and time.
pub open spec fn recognised_instant(line: Seq<char>) -> Option<Timestamp> {
    first_of(
        instant(rfc3339_instant(line)),
        first_of(
            instant(naive_instant(line, SPACE_LAYOUT@)),
            first_of(
                instant(naive_instant(line, T_LAYOUT@)),
                first_of(
                    embedded_instant(line, T_PATTERN@),
                    first_of(
                        embedded_instant(line, SPACE_PATTERN@),
                        embedded_instant(line, SLASH_PATTERN@),
                    ),
                ),
            ),
        ),
    )
}

/// The level of a line that is already in upper case.
pub fn classify_upper(upper: &str) -> (r: LogLevel)
    ensures
        r == level_of_upper(upper@),
{
    if contains(upper, "ERROR") || contains(upper, "ERR") {
        LogLevel::Error
    } else if contains(upper, "WARN") || contains(upper, "WARNING") {
        LogLevel::Warn
    } else if contains(upper, "DEBUG") {
        LogLevel::Debug
    } else {
        LogLevel::Info
    }
}

/// The first of two attempts that recognised an instant.
pub fn first_some(a: Option<Timestamp>, b: Option<Timestamp>) -> (r: Option<Timestamp>)
    ensures
        r == first_of(a, b),
{
    match a {
        Some(t) => Some(t),
        None => b,
    }
}

/// What a match found in a line says, given its reading in each layout.
fn search_line(line: &str, pattern: &str) -> (r: Option<Timestamp>)
    ensures
        r == embedded_instant(line@, pattern@),
{
    match find_pattern(pattern, line) {
        Some(m) => first_some(
            parse_naive(m.as_str(), T_LAYOUT),
            parse_naive(m.as_str(), SPACE_LAYOUT),
        ),
        None => None,
    }
}

/// The entry that a line gives: its level and instant are read from the line,
/// and `now` stands in where no instant is recognised.
pub open spec fn entry_of_line(service_id: Seq<char>, line: Seq<char>, now: Timestamp)
    -> LogEntryView {
    LogEntryView {
        timestamp: match recognised_instant(line) {
            Some(t) => t,
            None => now,
        },
        service_id,
        level: level_of_line(line),
        message: line,
    }
}

/// The entries that the lines of one service give, line by line.
pub open spec fn entries_of_lines(service_id: Seq<char>, lines: Seq<Seq<char>>, now: Timestamp)
    -> Seq<LogEntryView> {
    lines.map_values(|l: Seq<char>| entry_of_line(service_id, l, now))
}

/// What a query asks of an entry.
pub struct Criteria {
    pub level: Option<Seq<char>>,
    pub from: Option<Timestamp>,
    pub to: Option<Timestamp>,
    pub search: Option<Seq<char>>,
}

impl Criteria {
    /// A level is asked for, and it is not the word `all` in any case.
    pub open spec fn level_active(self) -> bool {
        self.level is Some && lowercase(self.level.unwrap()) != "all"@
    }

    /// A search text is given, and it is not empty.
    pub open spec fn search_active(self) -> bool {
        self.search is Some && self.search.unwrap().len() > 0
    }

    /// No predicate is in force.
    pub open spec fn asks_nothing(self) -> bool {
        !self.level_active() && self.from is None && self.to is None && !self.search_active()
    }

    /// The entry has the level asked for, whatever the case of the request.
    pub open spec fn level_ok(self, e: LogEntryView) -> bool {
        e.level.name() == lowercase(self.level.unwrap())
    }

    /// The entry is not earlier than the lower bound.
    pub open spec fn from_ok(self, e: LogEntryView) -> bool {
        self.from.unwrap().not_after(e.timestamp)
    }

    /// The entry is not later than the upper bound.
    pub open spec fn to_ok(self, e: LogEntryView) -> bool {
        e.timestamp.not_after(self.to.unwrap())
    }

    /// The message holds the search text, case ignored.
    pub open spec fn search_ok(self, e: LogEntryView) -> bool {
        occurs_in(lowercase(self.search.unwrap()), lowercase(e.message))
    }

    /// Every predicate in force holds of the entry.
    pub open spec fn all_hold(self, e: LogEntryView) -> bool {
        &&& self.level_active() ==> self.level_ok(e)
        &&& self.from is Some ==> self.from_ok(e)
        &&& self.to is Some ==> self.to_ok(e)
        &&& self.search_active() ==> self.search_ok(e)
    }

    /// Some predicate in force holds of the entry.
    pub open spec fn any_holds(self, e: LogEntryView) -> bool {
        ||| self.level_active() && self.level_ok(e)
        ||| self.from is Some && self.from_ok(e)
        ||| self.to is Some && self.to_ok(e)
        ||| self.search_active() && self.search_ok(e)
    }

    /// The entry belongs to the answer. With no predicate in force every
    /// entry does; otherwise the predicates are joined by OR or by AND.
    pub open spec fn passes(self, e: LogEntryView, use_or: bool) -> bool {
        if self.asks_nothing() {
            true
        } else if use_or {
            self.any_holds(e)
        } else {
            self.all_hold(e)
        }
    }

    /// `passes` as a predicate on entries.
    pub open spec fn predicate(self, use_or: bool) -> spec_fn(LogEntryView) -> bool {
        |e: LogEntryView| self.passes(e, use_or)
    }
}

/// The first `n` items of a sequence, or all of it where it has fewer.
pub open spec fn first_n<A>(s: Seq<A>, n: int) -> Seq<A> {
    if 0 <= n <= s.len() {
        s.take(n)
    } else {
        s
    }
}

/// The last `n` items of a sequence, or all of it where it has fewer.
pub open spec fn last_n<A>(s: Seq<A>, n: int) -> Seq<A> {
    if 0 <= n <= s.len() {
        s.skip(s.len() - n)
    } else {
        s
    }
}

/// A line holds something besides whitespace.
pub open spec fn is_content(line: Seq<char>) -> bool {
    !all_space(line)
}

/// The lines that hold something besides whitespace, in order.
pub open spec fn content_lines(lines: Seq<Seq<char>>) -> Seq<Seq<char>> {
    lines.filter(|l: Seq<char>| is_content(l))
}

/// The texts that a tailer cycle takes from the bytes it read: those of the
/// complete lines that are valid text and hold more than whitespace.
pub open spec fn poll_texts(bytes: Seq<u8>) -> Seq<Seq<char>> {
    content_lines(decoded(complete_lines(bytes)))
}

/// An offset moved up by a number of bytes, as far as offsets go.
pub open spec fn advanced(position: u64, by: int) -> u64 {
    if position + by <= u64::MAX {
        (position + by) as u64
    } else {
        u64::MAX
    }
}

/// A file that is only appended to gives each of its lines once, whatever
/// the moments at which it is read. Let `a` be what one cycle read and `b`
/// what was appended before the next. The next cycle starts behind what the
/// first consumed, so it reads the unfinished end of `a` and then `b`. What
/// the two cycles take, one after the other, is what one cycle over all the
/// bytes would have taken: a line covered by the stored offset is not taken
/// again, no line is left out, and the lines keep the order of the file.
pub proof fn lemma_no_line_twice(a: Seq<u8>, b: Seq<u8>)
    ensures
        poll_texts(a + b) == poll_texts(a) + poll_texts(pending(a) + b),
        consumed(a + b) == consumed(a) + consumed(pending(a) + b),
        pending(a) == a.skip(consumed(a)),
{
    lemma_readings_compose(a, b);
    lemma_pending(a);
    lemma_decoded_add(complete_lines(a), complete_lines(pending(a) + b));
    Seq::filter_distributes_over_add(
        decoded(complete_lines(a)),
        decoded(complete_lines(pending(a) + b)),
        |l: Seq<char>| is_content(l),
    );
}

/// What the tailer is to do in one cycle.
#[derive(Clone, Copy, Debug, PartialEq, Eq, Structural)]
pub enum PollPlan {
    /// The service is no longer registered: the tailer ends.
    Stop,
    /// The file has not grown: nothing to read.
    Idle,
    /// The file has grown: read from this offset to its end.
    ReadFrom(u64),
}

/// All the lines of one service's log file.
#[derive(Debug)]
pub struct ServiceLines {
    pub service_id: String,
    pub lines: Vec<String>,
}

/// The last `n` lines where a number is given, else all of them.
pub open spec fn tail_of<A>(lines: Seq<A>, n: Option<usize>) -> Seq<A> {
    match n {
        Some(k) => last_n(lines, k as int),
        None => lines,
    }
}

/// The entries of the tails of all the sources, source after source.
pub open spec fn combined_entries(sources: Seq<ServiceLines>, n: Option<usize>, now: Timestamp)
    -> Seq<LogEntryView>
    decreases sources.len(),
{
    if sources.len() == 0 {
        Seq::empty()
    } else {
        combined_entries(sources.drop_last(), n, now) + entries_of_lines(
            sources.last().service_id@,
            tail_of(texts(sources.last().lines@), n),
            now,
        )
    }
}

/// No entry stands before an earlier one.
pub open spec fn time_ordered(s: Seq<LogEntryView>) -> bool {
    forall|i: int, j: int|
        0 <= i < j < s.len() ==> (#[trigger] s[i]).timestamp.not_after((#[trigger] s[j]).timestamp)
}

/// The entries of one instant.
pub open spec fn at_instant(t: Timestamp) -> spec_fn(LogEntryView) -> bool {
    |e: LogEntryView| e.timestamp == t
}

/// `ordered` holds the entries of `unordered` by ascending instant, those of
/// one instant in the order they had.
pub open spec fn is_stable_time_order(ordered: Seq<LogEntryView>, unordered: Seq<LogEntryView>)
    -> bool {
    &&& ordered.len() == unordered.len()
    &&& time_ordered(ordered)
    &&& forall|t: Timestamp| #[trigger]
        ordered.filter(at_instant(t)) == unordered.filter(at_instant(t))
}

/// Where a predicate selects something, an item of the sequence meets it.
pub proof fn lemma_filter_witness<A>(s: Seq<A>, p: spec_fn(A) -> bool)
    requires
        s.filter(p).len() > 0,
    ensures
        exists|i: int| 0 <= i < s.len() && p(#[trigger] s[i]),
    decreases s.len(),
{
    reveal(Seq::filter);
    if s.len() > 0 {
        if p(s.last()) {
            assert(p(s[s.len() - 1]));
        } else {
            lemma_filter_witness(s.drop_last(), p);
            let i = choose|i: int| 0 <= i < s.drop_last().len() && p(#[trigger] s.drop_last()[i]);
            assert(s[i] == s.drop_last()[i]);
        }
    }
}

/// Two sequences in order of time that hold the same entries at every
/// instant, in the same order, are one and the same. So the entries of a
/// sequence have exactly one stable order by time.
pub proof fn lemma_time_order_unique(a: Seq<LogEntryView>, b: Seq<LogEntryView>)
    requires
        a.len() == b.len(),
        time_ordered(a),
        time_ordered(b),
        forall|t: Timestamp| #[trigger] a.filter(at_instant(t)) == b.filter(at_instant(t)),
    ensures
        a == b,
    decreases a.len(),
{
    reveal(Seq::filter);
    if a.len() == 0 {
        assert(a =~= b);
    } else {
        let n = a.len() as int;
        let ta = a.last().timestamp;
        let tb = b.last().timestamp;
        // The latest instant of either sequence occurs in the other.
        assert(a.filter(at_instant(ta)).len() > 0);
        assert(b.filter(at_instant(tb)).len() > 0);
        assert(b.filter(at_instant(ta)) == a.filter(at_instant(ta)));
        assert(a.filter(at_instant(tb)) == b.filter(at_instant(tb)));
        lemma_filter_witness(b, at_instant(ta));
        lemma_filter_witness(a, at_instant(tb));
        let i = choose|i: int| 0 <= i < b.len() && at_instant(ta)(#[trigger] b[i]);
        let j = choose|j: int| 0 <= j < a.len() && at_instant(tb)(#[trigger] a[j]);
        assert(b[i].timestamp.not_after(b[n - 1].timestamp));
        assert(a[j].timestamp.not_after(a[n - 1].timestamp));
        assert(ta == tb);
        let a0 = a.drop_last();
        let b0 = b.drop_last();
        assert(a.filter(at_instant(ta)) == a0.filter(at_instant(ta)).push(a.last()));
        assert(b.filter(at_instant(ta)) == b0.filter(at_instant(ta)).push(b.last()));
        let fa = a0.filter(at_instant(ta));
        let fb = b0.filter(at_instant(ta));
        assert(fa.push(a.last()) == fb.push(b.last()));
        assert(fa.push(a.last()).len() == fa.len() + 1);
        assert(fa.push(a.last())[fa.len() as int] == a.last());
        assert(fb.push(b.last())[fb.len() as int] == b.last());
        assert(a.last() == b.last());
        assert(fa =~= fa.push(a.last()).drop_last());
        assert(fb =~= fb.push(b.last()).drop_last());
        assert forall|t: Timestamp| #[trigger]
            a0.filter(at_instant(t)) == b0.filter(at_instant(t)) by {
            assert(a.filter(at_instant(t)) == b.filter(at_instant(t)));
            if t != ta {
                assert(!at_instant(t)(a.last()));
                assert(!at_instant(t)(b.last()));
            }
        }
        assert forall|x: int, y: int| 0 <= x < y < a0.len() implies (#[trigger] a0[x]).timestamp.not_after(
            (#[trigger] a0[y]).timestamp,
        ) by {
            assert(a0[x] == a[x] && a0[y] == a[y]);
        }
        assert forall|x: int, y: int| 0 <= x < y < b0.len() implies (#[trigger] b0[x]).timestamp.not_after(
            (#[trigger] b0[y]).timestamp,
        ) by {
            assert(b0[x] == b[x] && b0[y] == b[y]);
        }
        lemma_time_order_unique(a0, b0);
        assert(a =~= a0.push(a.last()));
        assert(b =~= b0.push(b.last()));
    }
}

/// What `is_stable_time_order` allows is one sequence only.
pub proof fn lemma_stable_order_unique(
    a: Seq<LogEntryView>,
    b: Seq<LogEntryView>,
    unordered: Seq<LogEntryView>,
)
    requires
        is_stable_time_order(a, unordered),
        is_stable_time_order(b, unordered),
    ensures
        a == b,
{
    assert forall|t: Timestamp| #[trigger] a.filter(at_instant(t)) == b.filter(at_instant(t)) by {
        assert(a.filter(at_instant(t)) == unordered.filter(at_instant(t)));
        assert(b.filter(at_instant(t)) == unordered.filter(at_instant(t)));
    }
    lemma_time_order_unique(a, b);
}

/// `slice::sort_by_key` on the instant of each entry, seconds before
/// nanoseconds. The sort is stable: afterwards the entries stand by ascending
/// instant, and those of one instant are the same as before, in the same
/// order.
#[verifier::external_body]
fn sort_by_time(entries: &mut Vec<LogEntry>)
    ensures
        is_stable_time_order(entry_views(final(entries)@), entry_views(old(entries)@)),
{
    entries.sort_by_key(|e| (e.timestamp.secs, e.timestamp.nanos));
}

/// The entries of one level.
pub open spec fn of_level(level: LogLevel) -> spec_fn(LogEntryView) -> bool {
    |e: LogEntryView| e.level == level
}

/// A query that asks for a level and for nothing else.
pub open spec fn level_only(level: Seq<char>) -> Criteria {
    Criteria { level: Some(level), from: None, to: None, search: None }
}

/// Two predicates that agree on every item select the same items.
pub proof fn lemma_filter_agree<A>(s: Seq<A>, p: spec_fn(A) -> bool, q: spec_fn(A) -> bool)
    requires
        forall|i: int| 0 <= i < s.len() ==> p(#[trigger] s[i]) == q(s[i]),
    ensures
        s.filter(p) == s.filter(q),
    decreases s.len(),
{
    reveal(Seq::filter);
    if s.len() > 0 {
        let init = s.drop_last();
        assert forall|i: int| 0 <= i < init.len() implies p(#[trigger] init[i]) == q(init[i]) by {
            assert(init[i] == s[i]);
        }
        lemma_filter_agree(init, p, q);
        assert(p(s[s.len() - 1]) == q(s[s.len() - 1]));
    }
}

/// A predicate that holds of every item selects all of them.
pub proof fn lemma_filter_all<A>(s: Seq<A>, p: spec_fn(A) -> bool)
    requires
        forall|i: int| 0 <= i < s.len() ==> p(#[trigger] s[i]),
    ensures
        s.filter(p) == s,
    decreases s.len(),
{
    reveal(Seq::filter);
    if s.len() > 0 {
        let init = s.drop_last();
        assert forall|i: int| 0 <= i < init.len() implies p(#[trigger] init[i]) by {
            assert(init[i] == s[i]);
        }
        lemma_filter_all(init, p);
        assert(p(s[s.len() - 1]));
        assert(init.push(s.last()) =~= s);
    }
}

/// The names of the levels differ from each other and from the word `all`.
pub proof fn lemma_level_names()
    ensures
        forall|a: LogLevel, b: LogLevel| a.name() == b.name() ==> a == b,
        forall|a: LogLevel| a.name() != "all"@,
{
    reveal_strlit("error");
    reveal_strlit("warn");
    reveal_strlit("debug");
    reveal_strlit("info");
    reveal_strlit("all");
    assert forall|a: LogLevel, b: LogLevel| a.name() == b.name() implies a == b by {
        assert(a.name().len() == b.name().len());
        assert(a.name()[0] == b.name()[0]);
    }
    assert forall|a: LogLevel| a.name() != "all"@ by {
        assert(a.name().len() != "all"@.len());
    }
}

/// A query for one level, written in any case, selects exactly the entries
/// of that level, in the order they had, whether the predicates are joined by
/// AND or by OR.
pub proof fn lemma_level_query(
    entries: Seq<LogEntryView>,
    level: Seq<char>,
    wanted: LogLevel,
    use_or: bool,
)
    requires
        lowercase(level) == wanted.name(),
    ensures
        entries.filter(level_only(level).predicate(use_or)) == entries.filter(of_level(wanted)),
{
    lemma_level_names();
    let c = level_only(level);
    assert(c.level_active());
    assert forall|i: int| 0 <= i < entries.len() implies c.predicate(use_or)(
        #[trigger] entries[i],
    ) == of_level(wanted)(entries[i]) by {
        let e = entries[i];
        assert(c.level_ok(e) == (e.level == wanted));
    }
    lemma_filter_agree(entries, c.predicate(use_or), of_level(wanted));
}

/// A query for the level `all`, written in any case, selects every entry.
pub proof fn lemma_all_levels(entries: Seq<LogEntryView>, level: Seq<char>, use_or: bool)
    requires
        lowercase(level) == "all"@,
    ensures
        entries.filter(level_only(level).predicate(use_or)) == entries,
{
    let c = level_only(level);
    assert(c.asks_nothing());
    lemma_filter_all(entries, c.predicate(use_or));
}

/// A query made ready: the texts to compare with are already in lower case,
/// and a predicate that is not in force is absent.
struct Prepared {
    level: Option<String>,
    from: Option<Timestamp>,
    to: Option<Timestamp>,
    needle: Option<String>,
}

impl Prepared {
    spec fn stands_for(self, c: Criteria) -> bool {
        &&& self.level is Some <==> c.level_active()
        &&& self.level is Some ==> self.level.unwrap()@ == lowercase(c.level.unwrap())
        &&& self.from == c.from
        &&& self.to == c.to
        &&& self.needle is Some <==> c.search_active()
        &&& self.needle is Some ==> self.needle.unwrap()@ == lowercase(c.search.unwrap())
    }
}

fn prepare(
    level_filter: Option<&str>,
    from: Option<Timestamp>,
    to: Option<Timestamp>,
    search: Option<&str>,
) -> (p: Prepared)
    ensures
        p.stands_for(
            Criteria { level: opt_text(level_filter), from, to, search: opt_text(search) },
        ),
{
    let level = match level_filter {
        Some(l) => {
            let lower = to_lowercase(l);
            if text_eq(lower.as_str(), "all") {
                None
            } else {
                Some(lower)
            }
        },
        None => None,
    };
    let needle = match search {
        Some(s) => {
            if s.is_empty() {
                None
            } else {
                Some(to_lowercase(s))
            }
        },
        None => None,
    };
    Prepared { level, from, to, needle }
}

fn entry_passes(e: &LogEntry, p: &Prepared, use_or: bool, Ghost(c): Ghost<Criteria>) -> (r: bool)
    requires
        p.stands_for(c),
    ensures
        r == c.passes(e@, use_or),
{
    let level_ok = match &p.level {
        Some(l) => Some(text_eq(e.level.as_str(), l.as_str())),
        None => None,
    };
    let from_ok = match &p.from {
        Some(f) => Some(f.is_not_after(&e.timestamp)),
        None => None,
    };
    let to_ok = match &p.to {
        Some(t) => Some(e.timestamp.is_not_after(t)),
        None => None,
    };
    let search_ok = match &p.needle {
        Some(n) => {
            let lower = to_lowercase(e.message.as_str());
            Some(contains(lower.as_str(), n.as_str()))
        },
        None => None,
    };
    if level_ok.is_none() && from_ok.is_none() && to_ok.is_none() && search_ok.is_none() {
        true
    } else if use_or {
        held(level_ok) || held(from_ok) || held(to_ok) || held(search_ok)
    } else {
        !failed(level_ok) && !failed(from_ok) && !failed(to_ok) && !failed(search_ok)
    }
}

/// A predicate is in force and holds.
fn held(check: Option<bool>) -> (r: bool)
    ensures
        r == (check == Some(true)),
{
    match check {
        Some(b) => b,
        None => false,
    }
}

/// A predicate is in force and does not hold.
fn failed(check: Option<bool>) -> (r: bool)
    ensures
        r == (check == Some(false)),
{
    match check {
        Some(b) => !b,
        None => false,
    }
}

/// Why a log operation was refused.
#[derive(Clone, Copy, Debug, PartialEq, Eq, Structural)]
pub enum LogError {
    /// The service was never registered, so it has no log file.
    ServiceNotFound,
    /// The instant of an entry lies outside the range of dates that the
    /// store can hold.
    InstantOutOfRange,
}

/// The log file of one registered service and how far it has been read.
#[derive(Debug)]
pub struct ServiceLog {
    pub service_id: String,
    pub path: String,
    pub position: u64,
}

/// The name of a service's log file within the logs directory.
pub open spec fn log_file_name(service_id: Seq<char>) -> Seq<char> {
    service_id + ".log"@
}

/// What is known of one log: the path of the file and the offset up to which
/// it has been read.
pub struct LogState {
    pub path: Seq<char>,
    pub position: u64,
}

/// The id that tells one log from another.
pub open spec fn log_key() -> spec_fn(ServiceLog) -> Seq<char> {
    |l: ServiceLog| l.service_id@
}

/// What the map keeps of a log.
pub open spec fn log_state() -> spec_fn(ServiceLog) -> LogState {
    |l: ServiceLog| LogState { path: l.path@, position: l.position }
}

/// Keeps the log file of every registered service and the offset up to which
/// each has been read.
pub struct LogManager {
    logs_dir: String,
    logs: Vec<ServiceLog>,
    hub: LogHub,
}

impl View for LogManager {
    type V = Map<Seq<char>, LogState>;

    /// The registered services, each with the state of its log.
    closed spec fn view(&self) -> Map<Seq<char>, LogState> {
        as_map(self.logs@, log_key(), log_state())
    }
}

impl LogManager {
    /// The directory that holds the log files.
    pub closed spec fn dir(&self) -> Seq<char> {
        self.logs_dir@
    }

    /// The channels on which the entries of each service are published.
    pub closed spec fn channels(&self) -> Map<Seq<char>, ChannelView> {
        self.hub@
    }

    /// No service is registered twice, the channels are well formed, and
    /// every registered service has one.
    pub closed spec fn wf(&self) -> bool {
        &&& distinct_keys(self.logs@, log_key())
        &&& self.hub.wf()
        &&& forall|i: int|
            0 <= i < self.logs@.len() ==> self.hub@.dom().contains(
                (#[trigger] self.logs@[i]).service_id@,
            )
    }

    /// In a well-formed manager every registered service has a channel, and
    /// every channel keeps no more than its capacity and no more than was
    /// published on it.
    pub proof fn lemma_channels(&self)
        requires
            self.wf(),
        ensures
            forall|k: Seq<char>| #[trigger] self@.dom().contains(k) ==> self.channels().dom().contains(k),
            forall|k: Seq<char>| #[trigger]
                self.channels().dom().contains(k) ==> self.channels()[k].wf(),
    {
        self.hub.lemma_wf();
        assert forall|k: Seq<char>| #[trigger] self@.dom().contains(k) implies self.channels().dom().contains(
            k,
        ) by {
            let p = place_of(self.logs@, log_key(), k);
            assert(log_key()(self.logs@[p]) == k);
        }
    }

    /// A manager for the logs under `logs_dir`, with no service registered.
    pub fn new(logs_dir: String) -> (m: Self)
        ensures
            m.wf(),
            m.dir() == logs_dir@,
            m@ == Map::<Seq<char>, LogState>::empty(),
            m.channels() == Map::<Seq<char>, ChannelView>::empty(),
    {
        let m = LogManager { logs_dir, logs: Vec::new(), hub: LogHub::new() };
        assert(m@ =~= Map::<Seq<char>, LogState>::empty());
        m
    }

    /// The directory that holds the log files.
    pub fn logs_dir(&self) -> (r: &str)
        ensures
            r@ == self.dir(),
    {
        self.logs_dir.as_str()
    }

    /// Where the log of `service_id` stands in the list, if it has one.
    fn find(&self, service_id: &str) -> (r: Option<usize>)
        requires
            self.wf(),
        ensures
            match r {
                Some(i) => i < self.logs@.len() && self.logs@[i as int].service_id@
                    == service_id@ && self@.dom().contains(service_id@) && self@[service_id@]
                    == log_state()(self.logs@[i as int]),
                None => !self@.dom().contains(service_id@),
            },
    {
        let mut i: usize = 0;
        while i < self.logs.len()
            invariant
                0 <= i <= self.logs.len(),
                self.wf(),
                forall|j: int| 0 <= j < i ==> (#[trigger] self.logs@[j]).service_id@ != service_id@,
            decreases self.logs.len() - i,
        {
            if text_eq(self.logs[i].service_id.as_str(), service_id) {
                proof {
                    lemma_place(self.logs@, log_key(), log_state(), i as int);
                }
                return Some(i);
            }
            i = i + 1;
        }
        None
    }

    /// Registers a service, or registers it anew: its log file is
    /// `<id>.log` under the logs directory and nothing of it counts as read.
    /// Returns the path of the file.
    pub fn register_service(&mut self, service_id: String) -> (path: String)
        requires
            old(self).wf(),
        ensures
            final(self).wf(),
            final(self).dir() == old(self).dir(),
            path@ == joined_path(old(self).dir(), log_file_name(service_id@)),
            final(self)@ == old(self)@.insert(
                service_id@,
                LogState { path: path@, position: 0 },
            ),
            final(self).channels() == if old(self).channels().dom().contains(service_id@) {
                old(self).channels()
            } else {
                old(self).channels().insert(
                    service_id@,
                    ChannelView { published: 0, retained: Seq::empty() },
                )
            },
    {
        let mut name = service_id.clone();
        name.append(".log");
        let path = join_path(self.logs_dir.as_str(), name.as_str());
        self.hub.open_channel(service_id.clone());
        let at = self.find(service_id.as_str());
        let entry = ServiceLog { service_id, path: path.clone(), position: 0 };
        match at {
            Some(i) => {
                proof {
                    lemma_update(self.logs@, log_key(), log_state(), i as int, entry);
                }
                self.logs.set(i, entry);
            },
            None => {
                proof {
                    lemma_push(self.logs@, log_key(), log_state(), entry);
                }
                self.logs.push(entry);
            },
        }
        path
    }

    /// The log file to create for a registered service, given whether the file
    /// is there already: a file that is missing is created empty, and a file
    /// that is there is left as it is, so that it is only ever appended to.
    pub fn log_file_to_create(&self, service_id: &str, file_exists: bool) -> (r: Option<String>)
        requires
            self.wf(),
        ensures
            r is Some <==> self@.dom().contains(service_id@) && !file_exists,
            r matches Some(p) ==> p@ == self@[service_id@].path,
    {
        if file_exists {
            None
        } else {
            self.log_path(service_id)
        }
    }

    /// The path of a service's log file, if the service is registered.
    pub fn log_path(&self, service_id: &str) -> (r: Option<String>)
        requires
            self.wf(),
        ensures
            match r {
                Some(p) => self@.dom().contains(service_id@) && p@ == self@[service_id@].path,
                None => !self@.dom().contains(service_id@),
            },
    {
        match self.find(service_id) {
            Some(i) => Some(self.logs[i].path.clone()),
            None => None,
        }
    }

    /// The offset up to which a service's log has been read, if the service
    /// is registered.
    pub fn log_position(&self, service_id: &str) -> (r: Option<u64>)
        requires
            self.wf(),
        ensures
            match r {
                Some(p) => self@.dom().contains(service_id@) && p == self@[service_id@].position,
                None => !self@.dom().contains(service_id@),
            },
    {
        match self.find(service_id) {
            Some(i) => Some(self.logs[i].position),
            None => None,
        }
    }

    /// The ids of all registered services, each once.
    pub fn get_service_ids(&self) -> (ids: Vec<String>)
        requires
            self.wf(),
        ensures
            forall|i: int, j: int| 0 <= i < j < ids@.len() ==> ids@[i]@ != ids@[j]@,
            forall|i: int| 0 <= i < ids@.len() ==> self@.dom().contains(#[trigger] ids@[i]@),
            forall|k: Seq<char>|
                self@.dom().contains(k) ==> exists|i: int|
                    0 <= i < ids@.len() && (#[trigger] ids@[i])@ == k,
    {
        let mut ids: Vec<String> = Vec::new();
        let mut i: usize = 0;
        while i < self.logs.len()
            invariant
                0 <= i <= self.logs.len(),
                self.wf(),
                ids@.len() == i,
                forall|j: int| 0 <= j < i ==> (#[trigger] ids@[j])@ == self.logs@[j].service_id@,
            decreases self.logs.len() - i,
        {
            ids.push(self.logs[i].service_id.clone());
            i = i + 1;
        }
        proof {
            assert forall|a: int, b: int| 0 <= a < b < ids@.len() implies ids@[a]@ != ids@[b]@ by {
                assert(log_key()(self.logs@[a]) != log_key()(self.logs@[b]));
            }
            assert forall|a: int| 0 <= a < ids@.len() implies self@.dom().contains(
                #[trigger] ids@[a]@,
            ) by {
                lemma_place(self.logs@, log_key(), log_state(), a);
            }
            assert forall|k: Seq<char>| self@.dom().contains(k) implies exists|a: int|
                0 <= a < ids@.len() && (#[trigger] ids@[a])@ == k by {
                let p = place_of(self.logs@, log_key(), k);
                assert(log_key()(self.logs@[p]) == k);
                assert(ids@[p]@ == k);
            }
        }
        ids
    }

    /// The entries of a service's log lines that pass the filters, oldest
    /// first and at most `limit` of them, read from the lines of the file
    /// itself. `total` counts the lines, `filtered` the entries returned.
    pub fn filter_lines(
        service_id: &str,
        all_lines: &Vec<String>,
        level_filter: Option<&str>,
        from: Option<Timestamp>,
        to: Option<Timestamp>,
        search: Option<&str>,
        use_or_operator: bool,
        limit: usize,
        now: Timestamp,
    ) -> (resp: FilteredLogsResponse)
        ensures
            resp.total == all_lines@.len(),
            resp.filtered == resp.logs@.len(),
            entry_views(resp.logs@) == first_n(
                entries_of_lines(service_id@, texts(all_lines@), now).filter(
                    Criteria {
                        level: opt_text(level_filter),
                        from,
                        to,
                        search: opt_text(search),
                    }.predicate(use_or_operator),
                ),
                limit as int,
            ),
    {
        let ghost c = Criteria { level: opt_text(level_filter), from, to, search: opt_text(search) };
        let ghost pred = c.predicate(use_or_operator);
        let ghost all = entries_of_lines(service_id@, texts(all_lines@), now);
        let p = prepare(level_filter, from, to, search);
        let mut out: Vec<LogEntry> = Vec::new();
        let mut i: usize = 0;
        proof {
            assert(all.take(0) =~= Seq::<LogEntryView>::empty());
            assert(entry_views(out@) =~= all.take(0).filter(pred));
        }
        while i < all_lines.len() && out.len() < limit
            invariant
                0 <= i <= all_lines@.len(),
                all == entries_of_lines(service_id@, texts(all_lines@), now),
                pred == c.predicate(use_or_operator),
                p.stands_for(c),
                out@.len() <= limit,
                entry_views(out@) == all.take(i as int).filter(pred),
            decreases all_lines@.len() - i,
        {
            let e = Self::entry_from_line(service_id, all_lines[i].as_str(), now);
            let keep = entry_passes(&e, &p, use_or_operator, Ghost(c));
            proof {
                let next = all.take(i as int + 1);
                assert(next.drop_last() =~= all.take(i as int));
                assert(next.last() == all[i as int]);
                assert(e@ == all[i as int]);
                assert(keep == pred(all[i as int]));
                reveal(Seq::filter);
                if keep {
                    assert(entry_views(out@.push(e)) =~= entry_views(out@).push(e@));
                }
            }
            if keep {
                out.push(e);
            }
            i = i + 1;
        }
        proof {
            let kept = all.filter(pred);
            if i == all_lines@.len() {
                assert(all.take(i as int) =~= all);
            } else {
                Seq::filter_distributes_over_add(all.take(i as int), all.skip(i as int), pred);
                assert(all.take(i as int) + all.skip(i as int) =~= all);
                assert(kept.take(limit as int) =~= entry_views(out@));
            }
            assert(entry_views(out@) =~= first_n(kept, limit as int));
        }
        let filtered = out.len();
        FilteredLogsResponse { logs: out, total: all_lines.len(), filtered }
    }

    /// `filter_lines` for a registered service; an unregistered one has no
    /// log file to answer from.
    pub fn get_filtered_logs(
        &self,
        service_id: &str,
        all_lines: &Vec<String>,
        level_filter: Option<&str>,
        from: Option<Timestamp>,
        to: Option<Timestamp>,
        search: Option<&str>,
        use_or_operator: bool,
        limit: usize,
        now: Timestamp,
    ) -> (r: Result<FilteredLogsResponse, LogError>)
        requires
            self.wf(),
        ensures
            r is Ok <==> self@.dom().contains(service_id@),
            r matches Ok(resp) ==> {
                &&& resp.total == all_lines@.len()
                &&& resp.filtered == resp.logs@.len()
                &&& entry_views(resp.logs@) == first_n(
                    entries_of_lines(service_id@, texts(all_lines@), now).filter(
                        Criteria {
                            level: opt_text(level_filter),
                            from,
                            to,
                            search: opt_text(search),
                        }.predicate(use_or_operator),
                    ),
                    limit as int,
                )
            },
    {
        match self.find(service_id) {
            Some(_) => Ok(
                Self::filter_lines(
                    service_id,
                    all_lines,
                    level_filter,
                    from,
                    to,
                    search,
                    use_or_operator,
                    limit,
                    now,
                ),
            ),
            None => Err(LogError::ServiceNotFound),
        }
    }

    /// The last `n` of the given items, or all of them where `n` is absent
    /// or exceeds their number.
    pub fn tail_lines(all_lines: &Vec<String>, lines: Option<usize>) -> (r: Vec<String>)
        ensures
            r@ == match lines {
                Some(n) => last_n(all_lines@, n as int),
                None => all_lines@,
            },
    {
        let start = match lines {
            Some(n) => if n <= all_lines.len() {
                all_lines.len() - n
            } else {
                0
            },
            None => 0,
        };
        let mut out: Vec<String> = Vec::new();
        let mut i: usize = start;
        while i < all_lines.len()
            invariant
                start <= i <= all_lines@.len(),
                out@ == all_lines@.subrange(start as int, i as int),
            decreases all_lines@.len() - i,
        {
            out.push(all_lines[i].clone());
            proof {
                assert(out@ =~= all_lines@.subrange(start as int, i as int + 1));
            }
            i = i + 1;
        }
        proof {
            assert(all_lines@.subrange(start as int, all_lines@.len() as int) =~= all_lines@.skip(
                start as int,
            ));
            assert(all_lines@.skip(0) =~= all_lines@);
        }
        out
    }

    /// The last `lines` lines of a registered service's log, given all the
    /// lines of its file.
    pub fn get_logs(&self, service_id: &str, all_lines: &Vec<String>, lines: Option<usize>) -> (r:
        Result<Vec<String>, LogError>)
        requires
            self.wf(),
        ensures
            r is Ok <==> self@.dom().contains(service_id@),
            r matches Ok(out) ==> out@ == match lines {
                Some(n) => last_n(all_lines@, n as int),
                None => all_lines@,
            },
    {
        match self.find(service_id) {
            Some(_) => Ok(Self::tail_lines(all_lines, lines)),
            None => Err(LogError::ServiceNotFound),
        }
    }

    /// What the tailer of a service does when it finds the file at
    /// `current_size` bytes.
    pub fn plan_poll(&self, service_id: &str, current_size: u64) -> (plan: PollPlan)
        requires
            self.wf(),
        ensures
            plan == if !self@.dom().contains(service_id@) {
                PollPlan::Stop
            } else if current_size > self@[service_id@].position {
                PollPlan::ReadFrom(self@[service_id@].position)
            } else {
                PollPlan::Idle
            },
    {
        match self.find(service_id) {
            Some(i) => {
                let position = self.logs[i].position;
                if current_size > position {
                    PollPlan::ReadFrom(position)
                } else {
                    PollPlan::Idle
                }
            },
            None => PollPlan::Stop,
        }
    }

    /// Puts the offset of a service's log at `position`.
    fn set_position(&mut self, at: usize, position: u64)
        requires
            old(self).wf(),
            at < old(self).logs@.len(),
        ensures
            final(self).wf(),
            final(self).dir() == old(self).dir(),
            final(self).channels() == old(self).channels(),
            final(self)@ == old(self)@.insert(
                old(self).logs@[at as int].service_id@,
                LogState { path: old(self).logs@[at as int].path@, position },
            ),
    {
        let entry = ServiceLog {
            service_id: self.logs[at].service_id.clone(),
            path: self.logs[at].path.clone(),
            position,
        };
        proof {
            lemma_update(self.logs@, log_key(), log_state(), at as int, entry);
        }
        self.logs.set(at, entry);
    }

    /// After a failed seek the file is read again from its start: the stored
    /// offset of the service goes back to zero. An unregistered service
    /// changes nothing.
    pub fn reset_position(&mut self, service_id: &str)
        requires
            old(self).wf(),
        ensures
            final(self).wf(),
            final(self).dir() == old(self).dir(),
            final(self).channels() == old(self).channels(),
            final(self)@ == if old(self)@.dom().contains(service_id@) {
                old(self)@.insert(
                    service_id@,
                    LogState { path: old(self)@[service_id@].path, position: 0 },
                )
            } else {
                old(self)@
            },
    {
        match self.find(service_id) {
            Some(i) => self.set_position(i, 0),
            None => {},
        }
    }

    /// The entries of the lines that hold more than whitespace, in order.
    pub fn accept_lines(service_id: &str, lines: &Vec<String>, now: Timestamp) -> (out: Vec<
        LogEntry,
    >)
        ensures
            entry_views(out@) == entries_of_lines(
                service_id@,
                content_lines(texts(lines@)),
                now,
            ),
    {
        let ghost all = texts(lines@);
        let ghost keep = |l: Seq<char>| is_content(l);
        let mut out: Vec<LogEntry> = Vec::new();
        let mut i: usize = 0;
        proof {
            assert(all.take(0) =~= Seq::<Seq<char>>::empty());
            assert(entry_views(out@) =~= entries_of_lines(
                service_id@,
                all.take(0).filter(keep),
                now,
            ));
        }
        while i < lines.len()
            invariant
                0 <= i <= lines@.len(),
                all == texts(lines@),
                keep == (|l: Seq<char>| is_content(l)),
                entry_views(out@) == entries_of_lines(
                    service_id@,
                    all.take(i as int).filter(keep),
                    now,
                ),
            decreases lines@.len() - i,
        {
            let line = lines[i].as_str();
            let content = !is_blank(line);
            proof {
                let next = all.take(i as int + 1);
                assert(next.drop_last() =~= all.take(i as int));
                assert(next.last() == line@);
                assert(content == keep(line@));
                reveal(Seq::filter);
            }
            if content {
                let e = Self::entry_from_line(service_id, line, now);
                proof {
                    let before = all.take(i as int).filter(keep);
                    assert(entries_of_lines(service_id@, before.push(line@), now)
                        =~= entries_of_lines(service_id@, before, now).push(e@));
                    assert(entry_views(out@.push(e)) =~= entry_views(out@).push(e@));
                }
                out.push(e);
            }
            i = i + 1;
        }
        proof {
            assert(all.take(i as int) =~= all);
        }
        out
    }

    /// Publishes entries of one service on its channel, in their order.
    fn publish_entries(&mut self, service_id: &str, entries: &Vec<LogEntry>)
        requires
            old(self).wf(),
            forall|i: int| 0 <= i < entries@.len() ==> (#[trigger] entries@[i])@.service_id
                == service_id@,
        ensures
            final(self).wf(),
            final(self).dir() == old(self).dir(),
            final(self)@ == old(self)@,
            final(self).channels() == if old(self).channels().dom().contains(service_id@) {
                old(self).channels().insert(
                    service_id@,
                    old(self).channels()[service_id@].publish_all(entry_views(entries@)),
                )
            } else {
                old(self).channels()
            },
    {
        let ghost start = self.hub@;
        let ghost all = entry_views(entries@);
        let mut i: usize = 0;
        proof {
            assert(all.take(0) =~= Seq::<LogEntryView>::empty());
            if start.dom().contains(service_id@) {
                assert(start.insert(service_id@, start[service_id@]) =~= start);
            }
        }
        while i < entries.len()
            invariant
                0 <= i <= entries@.len(),
                self.wf(),
                self.dir() == old(self).dir(),
                self@ == old(self)@,
                all == entry_views(entries@),
                start == old(self).channels(),
                forall|j: int| 0 <= j < entries@.len() ==> (#[trigger] entries@[j])@.service_id
                    == service_id@,
                self.hub@ == if start.dom().contains(service_id@) {
                    start.insert(service_id@, start[service_id@].publish_all(all.take(i as int)))
                } else {
                    start
                },
            decreases entries@.len() - i,
        {
            let e = entries[i].clone();
            proof {
                assert(e@.service_id == service_id@);
                assert(all.take(i as int + 1).drop_last() =~= all.take(i as int));
                assert(all.take(i as int + 1).last() == e@);
            }
            self.hub.publish(e);
            proof {
                if start.dom().contains(service_id@) {
                    assert(self.hub@ =~= start.insert(
                        service_id@,
                        start[service_id@].publish_all(all.take(i as int + 1)),
                    ));
                }
            }
            i = i + 1;
        }
        proof {
            assert(all.take(i as int) =~= all);
        }
    }

    /// Ends a tailer cycle in which `chunk` was read from the stored offset
    /// of the service to the end of its file. The complete lines among the
    /// bytes are taken: the stored offset moves up by the bytes they take,
    /// line feeds included, and the entries of the lines with content are
    /// published on the channel of the service and returned. Bytes after the
    /// last line feed are an unfinished line; they stay unread and are read
    /// again in a later cycle. A service that is not registered changes
    /// nothing. The stored offset of no service ever moves down here.
    pub fn complete_poll(&mut self, service_id: &str, chunk: &Vec<u8>, now: Timestamp) -> (out:
        Vec<LogEntry>)
        requires
            old(self).wf(),
        ensures
            final(self).wf(),
            final(self).dir() == old(self).dir(),
            old(self)@.dom().contains(service_id@) ==> {
                &&& final(self)@ == old(self)@.insert(
                    service_id@,
                    LogState {
                        path: old(self)@[service_id@].path,
                        position: advanced(old(self)@[service_id@].position, consumed(chunk@)),
                    },
                )
                &&& entry_views(out@) == entries_of_lines(service_id@, poll_texts(chunk@), now)
                &&& final(self).channels() == old(self).channels().insert(
                    service_id@,
                    old(self).channels()[service_id@].publish_all(entry_views(out@)),
                )
            },
            !old(self)@.dom().contains(service_id@) ==> final(self)@ == old(self)@ && out@.len()
                == 0 && final(self).channels() == old(self).channels(),
            final(self)@.dom() == old(self)@.dom(),
            forall|k: Seq<char>| #[trigger]
                old(self)@.dom().contains(k) ==> final(self)@[k].position >= old(
                    self,
                )@[k].position,
    {
        match self.find(service_id) {
            Some(i) => {
                proof {
                    self.lemma_channels();
                    lemma_pending(chunk@);
                }
                let (lines, used) = read_lines(chunk);
                let position = self.logs[i].position;
                let room = u64::MAX - position;
                let next = if used as u64 <= room {
                    position + used as u64
                } else {
                    u64::MAX
                };
                self.set_position(i, next);
                assert(self@.dom() =~= old(self)@.dom());
                let out = Self::accept_lines(service_id, &lines, now);
                proof {
                    let views = entries_of_lines(service_id@, content_lines(texts(lines@)), now);
                    assert forall|j: int| 0 <= j < out@.len() implies (#[trigger] out@[j])@.service_id
                        == service_id@ by {
                        assert(entry_views(out@).len() == out@.len());
                        assert(entry_views(out@)[j] == out@[j]@);
                        assert(views[j] == entry_of_line(
                            service_id@,
                            content_lines(texts(lines@))[j],
                            now,
                        ));
                    }
                }
                self.publish_entries(service_id, &out);
                out
            },
            None => Vec::new(),
        }
    }

    /// The entries of all the given sources in one list: of each source the
    /// last `lines` lines, turned into entries; all of them put in order of
    /// time; of these the ones whose level and message are asked for; and of
    /// those the last `lines`. `total` counts the entries before filtering.
    pub fn get_combined_logs(
        &self,
        sources: &Vec<ServiceLines>,
        level_filter: Option<&str>,
        search: Option<&str>,
        lines: Option<usize>,
        now: Timestamp,
    ) -> (resp: FilteredLogsResponse)
        ensures
            resp.total == combined_entries(sources@, lines, now).len(),
            resp.filtered == resp.logs@.len(),
            exists|ordered: Seq<LogEntryView>|
                #![trigger is_stable_time_order(ordered, combined_entries(sources@, lines, now))]
                is_stable_time_order(ordered, combined_entries(sources@, lines, now))
                    && entry_views(resp.logs@) == tail_of(
                    ordered.filter(
                        Criteria {
                            level: opt_text(level_filter),
                            from: None,
                            to: None,
                            search: opt_text(search),
                        }.predicate(false),
                    ),
                    lines,
                ),
    {
        let ghost c = Criteria {
            level: opt_text(level_filter),
            from: None,
            to: None,
            search: opt_text(search),
        };
        let ghost pred = c.predicate(false);
        let mut all: Vec<LogEntry> = Vec::new();
        let mut s: usize = 0;
        while s < sources.len()
            invariant
                0 <= s <= sources@.len(),
                entry_views(all@) == combined_entries(sources@.take(s as int), lines, now),
            decreases sources@.len() - s,
        {
            let source = &sources[s];
            let tail = Self::tail_lines(&source.lines, lines);
            let ghost before = entry_views(all@);
            let ghost wanted = tail_of(texts(source.lines@), lines);
            proof {
                assert(texts(tail@) =~= wanted);
            }
            let mut i: usize = 0;
            while i < tail.len()
                invariant
                    0 <= i <= tail@.len(),
                    texts(tail@) == wanted,
                    entry_views(all@) == before + entries_of_lines(
                        source.service_id@,
                        wanted.take(i as int),
                        now,
                    ),
                decreases tail@.len() - i,
            {
                let e = Self::entry_from_line(source.service_id.as_str(), tail[i].as_str(), now);
                proof {
                    assert(e@ == entry_of_line(source.service_id@, wanted[i as int], now));
                    assert(entry_views(all@.push(e)) =~= entry_views(all@).push(e@));
                    assert(entries_of_lines(source.service_id@, wanted.take(i as int + 1), now)
                        =~= entries_of_lines(source.service_id@, wanted.take(i as int), now).push(
                        e@,
                    ));
                }
                all.push(e);
                i = i + 1;
            }
            proof {
                assert(wanted.take(i as int) =~= wanted);
                assert(sources@.take(s as int + 1).drop_last() =~= sources@.take(s as int));
                assert(sources@.take(s as int + 1).last() == sources@[s as int]);
            }
            s = s + 1;
        }
        proof {
            assert(sources@.take(s as int) =~= sources@);
        }
        let total = all.len();
        sort_by_time(&mut all);
        let ghost ordered = entry_views(all@);
        let p = prepare(level_filter, None, None, search);
        let mut kept: Vec<LogEntry> = Vec::new();
        let mut i: usize = 0;
        proof {
            assert(ordered.take(0) =~= Seq::<LogEntryView>::empty());
            assert(entry_views(kept@) =~= ordered.take(0).filter(pred));
        }
        while i < all.len()
            invariant
                0 <= i <= all@.len(),
                ordered == entry_views(all@),
                pred == c.predicate(false),
                p.stands_for(c),
                entry_views(kept@) == ordered.take(i as int).filter(pred),
            decreases all@.len() - i,
        {
            let keep = entry_passes(&all[i], &p, false, Ghost(c));
            proof {
                let next = ordered.take(i as int + 1);
                assert(next.drop_last() =~= ordered.take(i as int));
                assert(next.last() == all@[i as int]@);
                reveal(Seq::filter);
                if keep {
                    assert(entry_views(kept@.push(all@[i as int])) =~= entry_views(kept@).push(
                        all@[i as int]@,
                    ));
                }
            }
            if keep {
                kept.push(all[i].clone());
            }
            i = i + 1;
        }
        proof {
            assert(ordered.take(i as int) =~= ordered);
        }
        let start = match lines {
            Some(n) => if n <= kept.len() {
                kept.len() - n
            } else {
                0
            },
            None => 0,
        };
        let mut logs: Vec<LogEntry> = Vec::new();
        let mut j: usize = start;
        while j < kept.len()
            invariant
                start <= j <= kept@.len(),
                logs@ == kept@.subrange(start as int, j as int),
            decreases kept@.len() - j,
        {
            logs.push(kept[j].clone());
            proof {
                assert(logs@ =~= kept@.subrange(start as int, j as int + 1));
            }
            j = j + 1;
        }
        proof {
            assert(entry_views(logs@) =~= tail_of(entry_views(kept@), lines));
        }
        let filtered = logs.len();
        FilteredLogsResponse { logs, total, filtered }
    }

    /// The rows with which the log file of a registered service is brought
    /// into the durable store, given all the lines of the file: one row for
    /// each line with content, in order. Either all the rows are made or
    /// none; the number of rows is the number of entries brought over.
    pub fn migrate_file_logs_to_db(&self, service_id: &str, all_lines: &Vec<String>, now: Timestamp)
        -> (r: Result<Vec<LogRow>, LogError>)
        requires
            self.wf(),
        ensures
            !self@.dom().contains(service_id@) ==> r == Err::<Vec<LogRow>, LogError>(
                LogError::ServiceNotFound,
            ),
            self@.dom().contains(service_id@) ==> {
                let entries = entries_of_lines(service_id@, content_lines(texts(all_lines@)), now);
                &&& r is Ok <==> forall|i: int|
                    0 <= i < entries.len() ==> writable(#[trigger] entries[i])
                &&& r matches Ok(rows) ==> rows@.len() == entries.len() && forall|i: int|
                    0 <= i < rows@.len() ==> (#[trigger] rows@[i])@ == row_of(entries[i])
                &&& r matches Err(e) ==> e == LogError::InstantOutOfRange
            },
    {
        if self.find(service_id).is_none() {
            return Err(LogError::ServiceNotFound);
        }
        let entries = Self::accept_lines(service_id, all_lines, now);
        proof {
            let views = entries_of_lines(service_id@, content_lines(texts(all_lines@)), now);
            assert(entry_views(entries@).len() == entries@.len());
            assert forall|i: int| 0 <= i < entries@.len() implies (#[trigger] entries@[i])@
                == views[i] by {
                assert(entry_views(entries@)[i] == entries@[i]@);
            }
        }
        match batch_rows(&entries) {
            Ok(rows) => Ok(rows),
            Err(_) => Err(LogError::InstantOutOfRange),
        }
    }

    /// A subscription to the entries of a service that are published from
    /// now on; none for a service that is not registered.
    pub fn get_log_receiver(&self, service_id: &str) -> (r: Option<Subscription>)
        requires
            self.wf(),
        ensures
            r is Some <==> self.channels().dom().contains(service_id@),
            r matches Some(sub) ==> sub.service_id@ == service_id@ && sub.next
                == self.channels()[service_id@].published,
    {
        self.hub.subscribe(service_id)
    }

    /// A subscription to every service, for a view over all of them.
    pub fn get_combined_log_receivers(&self) -> (subs: Vec<Subscription>)
        requires
            self.wf(),
        ensures
            forall|i: int|
                0 <= i < subs@.len() ==> self.channels().dom().contains(
                    (#[trigger] subs@[i]).service_id@,
                ) && subs@[i].next == self.channels()[subs@[i].service_id@].published,
            forall|i: int, j: int|
                0 <= i < j < subs@.len() ==> (#[trigger] subs@[i]).service_id@ != (
                #[trigger] subs@[j]).service_id@,
            forall|k: Seq<char>|
                self.channels().dom().contains(k) ==> exists|i: int|
                    0 <= i < subs@.len() && (#[trigger] subs@[i]).service_id@ == k,
    {
        self.hub.subscribe_all()
    }

    /// What a subscriber has not read yet; see `LogHub::receive`.
    pub fn receive(&self, sub: &mut Subscription) -> (d: Delivery)
        requires
            self.wf(),
        ensures
            final(sub).service_id == old(sub).service_id,
            self.channels().dom().contains(old(sub).service_id@) ==> {
                &&& entry_views(d.entries@) == self.channels()[old(sub).service_id@].pending(
                    old(sub).next,
                )
                &&& d.missed == self.channels()[old(sub).service_id@].missed(old(sub).next)
                &&& final(sub).next == self.channels()[old(sub).service_id@].published
            },
            !self.channels().dom().contains(old(sub).service_id@) ==> {
                &&& d.entries@.len() == 0
                &&& d.missed == 0
                &&& final(sub).next == old(sub).next
            },
    {
        self.hub.receive(sub)
    }

    /// The instant recognised in a line, if any.
    pub fn parse_timestamp_from_line(line: &str) -> (r: Option<Timestamp>)
        ensures
            r == recognised_instant(line@),
    {
        let whole = first_some(
            parse_rfc3339(line),
            first_some(parse_naive(line, SPACE_LAYOUT), parse_naive(line, T_LAYOUT)),
        );
        if whole.is_some() {
            return whole;
        }
        let with_t = search_line(line, T_PATTERN);
        if with_t.is_some() {
            return with_t;
        }
        first_some(search_line(line, SPACE_PATTERN), search_line(line, SLASH_PATTERN))
    }

    /// The level and the instant of a line. Where the line names no instant,
    /// `now` is taken.
    pub fn parse_log_line(line: &str, now: Timestamp) -> (r: (LogLevel, Timestamp))
        ensures
            r.0 == level_of_line(line@),
            r.1 == entry_of_line(Seq::empty(), line@, now).timestamp,
    {
        let upper = to_uppercase(line);
        let level = classify_upper(upper.as_str());
        let timestamp = match Self::parse_timestamp_from_line(line) {
            Some(t) => t,
            None => now,
        };
        (level, timestamp)
    }

    /// The entry of one line of a service's log.
    pub fn entry_from_line(service_id: &str, line: &str, now: Timestamp) -> (e: LogEntry)
        ensures
            e@ == entry_of_line(service_id@, line@, now),
    {
        let (level, timestamp) = Self::parse_log_line(line, now);
        LogEntry { timestamp, service_id: service_id.to_owned(), level, message: line.to_owned() }
    }
}

} // verus!
