//! What the durable log store is asked and told: the queries with their
//! parameters, and the rows that stand for entries. Running them against the
//! store is left to the caller.

use vstd::prelude::*;
use vstd::string::*;
use crate::models::{opt_string, texts, LogEntry, LogEntryView, LogLevel, Timestamp};
use crate::plain::text_eq;
use crate::text::{lowercase, to_lowercase};
use crate::timefmt::{format_rfc3339, instant, parse_rfc3339, rfc3339_instant, rfc3339_text};

verus! {

/// A query on the log store. All the predicates given must hold of an entry.
#[derive(Debug)]
pub struct LogFilters {
    pub service_id: Option<String>,
    /// A level in any case; the word `all` asks for every level.
    pub level: Option<String>,
    pub from: Option<Timestamp>,
    pub to: Option<Timestamp>,
    /// A text that the message must hold; an empty one asks for nothing.
    pub search: Option<String>,
    pub limit: usize,
    pub offset: usize,
}

/// What a query holds, with its texts as sequences of characters.
pub struct LogFiltersView {
    pub service_id: Option<Seq<char>>,
    pub level: Option<Seq<char>>,
    pub from: Option<Timestamp>,
    pub to: Option<Timestamp>,
    pub search: Option<Seq<char>>,
    pub limit: usize,
    pub offset: usize,
}

impl View for LogFilters {
    type V = LogFiltersView;

    open spec fn view(&self) -> LogFiltersView {
        LogFiltersView {
            service_id: opt_string(self.service_id),
            level: opt_string(self.level),
            from: self.from,
            to: self.to,
            search: opt_string(self.search),
            limit: self.limit,
            offset: self.offset,
        }
    }
}

impl Default for LogFilters {
    /// The query for the newest thousand entries of all services.
    fn default() -> (f: Self)
        ensures
            f@ == (LogFiltersView {
                service_id: None,
                level: None,
                from: None,
                to: None,
                search: None,
                limit: 1000,
                offset: 0,
            }),
    {
        LogFilters {
            service_id: None,
            level: None,
            from: None,
            to: None,
            search: None,
            limit: 1000,
            offset: 0,
        }
    }
}

impl LogFiltersView {
    /// A level is asked for, and it is not the word `all` in any case.
    pub open spec fn level_active(self) -> bool {
        self.level is Some && lowercase(self.level.unwrap()) != "all"@
    }

    /// A search text is given, and it is not empty.
    pub open spec fn search_active(self) -> bool {
        self.search is Some && self.search.unwrap().len() > 0
    }

    /// Every bound given can be written as text.
    pub open spec fn bounds_writable(self) -> bool {
        &&& self.from matches Some(t) ==> rfc3339_text(t.secs, t.nanos) is Some
        &&& self.to matches Some(t) ==> rfc3339_text(t.secs, t.nanos) is Some
    }
}

/// A condition added to the conditions so far: the first opens the clause,
/// each further one is joined by `AND`.
pub open spec fn and_also(so_far: Seq<char>, condition: Seq<char>) -> Seq<char> {
    if so_far.len() == 0 {
        "WHERE "@ + condition
    } else {
        so_far + " AND "@ + condition
    }
}

/// The conditions of a query, or the empty text where it has none.
pub open spec fn where_clause(f: LogFiltersView) -> Seq<char> {
    let w0 = Seq::<char>::empty();
    let w1 = if f.service_id is Some {
        and_also(w0, "service_id = ?"@)
    } else {
        w0
    };
    let w2 = if f.level_active() {
        and_also(w1, "level = ?"@)
    } else {
        w1
    };
    let w3 = if f.from is Some {
        and_also(w2, "timestamp >= ?"@)
    } else {
        w2
    };
    let w4 = if f.to is Some {
        and_also(w3, "timestamp <= ?"@)
    } else {
        w3
    };
    if f.search_active() {
        and_also(w4, "message LIKE ?"@)
    } else {
        w4
    }
}

/// The text of the query: the newest entries first, a window of them.
pub open spec fn select_text(f: LogFiltersView) -> Seq<char> {
    "SELECT timestamp, service_id, level, message FROM logs "@ + where_clause(f)
        + " ORDER BY timestamp DESC LIMIT ? OFFSET ?"@
}

/// One value where there is one, else none.
pub open spec fn one_if(present: bool, value: Seq<char>) -> Seq<Seq<char>> {
    if present {
        seq![value]
    } else {
        Seq::empty()
    }
}

/// The values that the conditions take, in the order of the conditions.
pub open spec fn where_params(f: LogFiltersView) -> Seq<Seq<char>> {
    one_if(f.service_id is Some, f.service_id.unwrap()) + one_if(
        f.level_active(),
        lowercase(f.level.unwrap()),
    ) + one_if(f.from is Some, rfc3339_text(f.from.unwrap().secs, f.from.unwrap().nanos).unwrap())
        + one_if(f.to is Some, rfc3339_text(f.to.unwrap().secs, f.to.unwrap().nanos).unwrap())
        + one_if(f.search_active(), "%"@ + f.search.unwrap() + "%"@)
}

/// A count as the store takes it; one beyond the store's range stands for
/// "no limit" and is passed as the largest count there is.
pub open spec fn store_count(n: usize) -> i64 {
    if n <= i64::MAX {
        n as i64
    } else {
        i64::MAX
    }
}

/// A statement for the store with the values for its question marks.
#[derive(Debug)]
pub struct SqlQuery {
    pub sql: String,
    /// The text values, in the order of their question marks.
    pub params: Vec<String>,
    /// The value for `LIMIT`, after the text values.
    pub limit: i64,
    /// The value for `OFFSET`, the last.
    pub offset: i64,
}

/// Why a query or a row could not be made.
#[derive(Clone, Copy, Debug, PartialEq, Eq, Structural)]
pub enum StoreError {
    /// An instant lies outside the range of dates that can be written.
    InstantOutOfRange,
}

fn count_for_store(n: usize) -> (r: i64)
    ensures
        r == store_count(n),
{
    let wide = n as u64;
    if wide <= 0x7fff_ffff_ffff_ffff {
        wide as i64
    } else {
        i64::MAX
    }
}

/// Adds a condition to the clause built so far.
fn add_condition(clause: &mut String, condition: &str)
    ensures
        final(clause)@ == and_also(old(clause)@, condition@),
{
    if clause.as_str().is_empty() {
        clause.append("WHERE ");
        assert(clause@ =~= "WHERE "@);
    } else {
        clause.append(" AND ");
    }
    clause.append(condition);
}

/// Adds a value to those collected so far.
fn add_param(params: &mut Vec<String>, value: String)
    ensures
        texts(final(params)@) == texts(old(params)@) + seq![value@],
{
    proof {
        assert(texts(params@.push(value)) =~= texts(params@) + seq![value@]);
    }
    params.push(value);
}

/// The query that selects what `filters` ask for: the entries that meet all
/// the conditions given, newest first, `limit` of them after skipping
/// `offset`. It cannot be made where a bound cannot be written as text.
pub fn build_query(filters: &LogFilters) -> (r: Result<SqlQuery, StoreError>)
    ensures
        r is Ok <==> filters@.bounds_writable(),
        r matches Ok(q) ==> {
            &&& q.sql@ == select_text(filters@)
            &&& texts(q.params@) == where_params(filters@)
            &&& q.limit == store_count(filters.limit)
            &&& q.offset == store_count(filters.offset)
        },
{
    let mut clause = String::new();
    let mut params: Vec<String> = Vec::new();
    proof {
        assert(texts(params@) =~= Seq::<Seq<char>>::empty());
    }
    match &filters.service_id {
        Some(id) => {
            add_condition(&mut clause, "service_id = ?");
            add_param(&mut params, id.clone());
        },
        None => {},
    }
    let ghost with_service = one_if(filters@.service_id is Some, filters@.service_id.unwrap());
    assert(texts(params@) =~= with_service);
    match &filters.level {
        Some(level) => {
            let lower = to_lowercase(level.as_str());
            if !text_eq(lower.as_str(), "all") {
                add_condition(&mut clause, "level = ?");
                add_param(&mut params, lower);
            }
        },
        None => {},
    }
    let ghost with_level = with_service + one_if(filters@.level_active(), lowercase(filters@.level.unwrap()));
    assert(texts(params@) =~= with_level);
    match &filters.from {
        Some(from) => {
            match format_rfc3339(from) {
                Some(text) => {
                    add_condition(&mut clause, "timestamp >= ?");
                    add_param(&mut params, text);
                },
                None => {
                    return Err(StoreError::InstantOutOfRange);
                },
            }
        },
        None => {},
    }
    let ghost with_from = with_level + one_if(
        filters@.from is Some,
        rfc3339_text(filters@.from.unwrap().secs, filters@.from.unwrap().nanos).unwrap(),
    );
    assert(texts(params@) =~= with_from);
    match &filters.to {
        Some(to) => {
            match format_rfc3339(to) {
                Some(text) => {
                    add_condition(&mut clause, "timestamp <= ?");
                    add_param(&mut params, text);
                },
                None => {
                    return Err(StoreError::InstantOutOfRange);
                },
            }
        },
        None => {},
    }
    let ghost with_to = with_from + one_if(
        filters@.to is Some,
        rfc3339_text(filters@.to.unwrap().secs, filters@.to.unwrap().nanos).unwrap(),
    );
    assert(texts(params@) =~= with_to);
    match &filters.search {
        Some(search) => {
            if !search.as_str().is_empty() {
                add_condition(&mut clause, "message LIKE ?");
                let mut pattern = "%".to_owned();
                pattern.append(search.as_str());
                pattern.append("%");
                add_param(&mut params, pattern);
            }
        },
        None => {},
    }
    assert(texts(params@) =~= where_params(filters@));
    let mut sql = "SELECT timestamp, service_id, level, message FROM logs ".to_owned();
    sql.append(clause.as_str());
    sql.append(" ORDER BY timestamp DESC LIMIT ? OFFSET ?");
    assert(sql@ =~= select_text(filters@));
    Ok(
        SqlQuery {
            sql,
            params,
            limit: count_for_store(filters.limit),
            offset: count_for_store(filters.offset),
        },
    )
}

/// What the store made of a query.
#[derive(Debug)]
pub enum StoreAnswer<T> {
    /// There is no store.
    Unavailable,
    /// The store failed.
    Failed,
    /// The store answered.
    Answered(T),
}

/// The answer of the store where it gave one. Without a store, and where the
/// store failed, there is none, and the query is answered from the log files
/// instead.
pub fn store_answer<T>(answer: StoreAnswer<T>) -> (r: Option<T>)
    ensures
        r == match answer {
            StoreAnswer::Answered(a) => Some(a),
            _ => None::<T>,
        },
{
    match answer {
        StoreAnswer::Answered(a) => Some(a),
        _ => None,
    }
}

/// The query over all services: `filters` without its service.
pub fn combined_filters(filters: LogFilters) -> (r: LogFilters)
    ensures
        r@ == (LogFiltersView { service_id: None, ..filters@ }),
{
    let mut r = filters;
    r.service_id = None;
    r
}

/// An entry as the store keeps it: four texts.
#[derive(Debug)]
pub struct LogRow {
    pub timestamp: String,
    pub service_id: String,
    pub level: String,
    pub message: String,
}

/// What a row holds, as sequences of characters.
pub struct LogRowView {
    pub timestamp: Seq<char>,
    pub service_id: Seq<char>,
    pub level: Seq<char>,
    pub message: Seq<char>,
}

impl View for LogRow {
    type V = LogRowView;

    open spec fn view(&self) -> LogRowView {
        LogRowView {
            timestamp: self.timestamp@,
            service_id: self.service_id@,
            level: self.level@,
            message: self.message@,
        }
    }
}

/// The rows of a list, each by its view.
pub open spec fn row_views(rows: Seq<LogRow>) -> Seq<LogRowView> {
    rows.map_values(|r: LogRow| r@)
}

/// The instant of the entry can be written as text.
pub open spec fn writable(e: LogEntryView) -> bool {
    rfc3339_text(e.timestamp.secs, e.timestamp.nanos) is Some
}

/// The row of an entry: its instant as text with a fixed offset, its level by
/// name, the rest as it is.
pub open spec fn row_of(e: LogEntryView) -> LogRowView {
    LogRowView {
        timestamp: rfc3339_text(e.timestamp.secs, e.timestamp.nanos).unwrap(),
        service_id: e.service_id,
        level: e.level.name(),
        message: e.message,
    }
}

/// The level that a stored name stands for; a name that is none of the four
/// counts as `Info`.
pub open spec fn level_named(name: Seq<char>) -> LogLevel {
    if name == "error"@ {
        LogLevel::Error
    } else if name == "warn"@ {
        LogLevel::Warn
    } else if name == "debug"@ {
        LogLevel::Debug
    } else {
        LogLevel::Info
    }
}

/// The entry of a row. Where the stored instant cannot be read, `now` is
/// taken.
pub open spec fn entry_of_row(row: LogRowView, now: Timestamp) -> LogEntryView {
    LogEntryView {
        timestamp: match instant(rfc3339_instant(row.timestamp)) {
            Some(t) => t,
            None => now,
        },
        service_id: row.service_id,
        level: level_named(row.level),
        message: row.message,
    }
}

/// The row to insert for an entry.
pub fn row_of_entry(entry: &LogEntry) -> (r: Result<LogRow, StoreError>)
    ensures
        r is Ok <==> writable(entry@),
        r matches Ok(row) ==> row@ == row_of(entry@),
{
    match format_rfc3339(&entry.timestamp) {
        Some(timestamp) => Ok(
            LogRow {
                timestamp,
                service_id: entry.service_id.clone(),
                level: entry.level.as_str().to_owned(),
                message: entry.message.clone(),
            },
        ),
        None => Err(StoreError::InstantOutOfRange),
    }
}

/// The rows to insert for a batch of entries, in their order. A batch with an
/// entry that cannot be written gives no rows at all.
pub fn batch_rows(entries: &Vec<LogEntry>) -> (r: Result<Vec<LogRow>, StoreError>)
    ensures
        r is Ok <==> forall|i: int| 0 <= i < entries@.len() ==> writable(#[trigger] entries@[i]@),
        r matches Ok(rows) ==> rows@.len() == entries@.len() && forall|i: int|
            0 <= i < rows@.len() ==> (#[trigger] rows@[i])@ == row_of(entries@[i]@),
{
    let mut rows: Vec<LogRow> = Vec::new();
    let mut i: usize = 0;
    while i < entries.len()
        invariant
            0 <= i <= entries@.len(),
            rows@.len() == i,
            forall|j: int| 0 <= j < i ==> writable(#[trigger] entries@[j]@),
            forall|j: int| 0 <= j < i ==> (#[trigger] rows@[j])@ == row_of(entries@[j]@),
        decreases entries@.len() - i,
    {
        match row_of_entry(&entries[i]) {
            Ok(row) => rows.push(row),
            Err(e) => {
                assert(!writable(entries@[i as int]@));
                return Err(e);
            },
        }
        i = i + 1;
    }
    Ok(rows)
}

/// The level that a stored name stands for.
pub fn level_of_name(name: &str) -> (r: LogLevel)
    ensures
        r == level_named(name@),
{
    if text_eq(name, "error") {
        LogLevel::Error
    } else if text_eq(name, "warn") {
        LogLevel::Warn
    } else if text_eq(name, "debug") {
        LogLevel::Debug
    } else {
        LogLevel::Info
    }
}

/// The entry that a row of the store stands for.
pub fn row_to_log_entry(row: &LogRow, now: Timestamp) -> (e: LogEntry)
    ensures
        e@ == entry_of_row(row@, now),
{
    let timestamp = match parse_rfc3339(row.timestamp.as_str()) {
        Some(t) => t,
        None => now,
    };
    LogEntry {
        timestamp,
        service_id: row.service_id.clone(),
        level: level_of_name(row.level.as_str()),
        message: row.message.clone(),
    }
}

/// The entries of the rows that a query returned. The store hands the rows
/// out newest first; the entries are returned oldest first.
pub fn entries_of_rows(rows: &Vec<LogRow>, now: Timestamp) -> (out: Vec<LogEntry>)
    ensures
        out@.len() == rows@.len(),
        forall|i: int|
            0 <= i < out@.len() ==> (#[trigger] out@[i])@ == entry_of_row(
                rows@[rows@.len() - 1 - i]@,
                now,
            ),
{
    let mut out: Vec<LogEntry> = Vec::new();
    let mut i: usize = rows.len();
    while i > 0
        invariant
            0 <= i <= rows@.len(),
            out@.len() == rows@.len() - i,
            forall|j: int|
                0 <= j < out@.len() ==> (#[trigger] out@[j])@ == entry_of_row(
                    rows@[rows@.len() - 1 - j]@,
                    now,
                ),
        decreases i,
    {
        i = i - 1;
        out.push(row_to_log_entry(&rows[i], now));
    }
    out
}

/// How many days an entry is kept in the store.
pub const RETENTION_DAYS: u32 = 30;

/// How long the store is left alone between two prunings, in seconds.
pub const PRUNE_INTERVAL_SECS: u64 = 86_400;

/// How long after the start the log files are first brought into the store,
/// in seconds.
pub const MIGRATION_DELAY_SECS: u64 = 5;

/// Seconds in a day.
pub const SECONDS_PER_DAY: i64 = 86_400;

/// The instant `days` days before `now`.
pub open spec fn days_before(now: Timestamp, days: u32) -> Timestamp {
    Timestamp { secs: (now.secs - days * SECONDS_PER_DAY) as i64, nanos: now.nanos }
}

/// The instant before which entries are pruned: `days` days before `now`.
pub fn cleanup_cutoff(now: Timestamp, days: u32) -> (cutoff: Timestamp)
    requires
        now.secs - days * SECONDS_PER_DAY >= i64::MIN,
    ensures
        cutoff == days_before(now, days),
{
    let span: i64 = (days as i64) * SECONDS_PER_DAY;
    Timestamp { secs: now.secs - span, nanos: now.nanos }
}

/// The statement that prunes the store: it deletes the entries whose stored
/// instant is before the instant `days` days before `now`. It cannot be made
/// where that instant lies before the first instant there is or cannot be
/// written as text.
pub fn cleanup_old_logs(now: Timestamp, days: u32) -> (r: Result<SqlQuery, StoreError>)
    ensures
        r is Ok <==> now.secs - days * SECONDS_PER_DAY >= i64::MIN && rfc3339_text(
            days_before(now, days).secs,
            now.nanos,
        ) is Some,
        r matches Ok(q) ==> {
            &&& q.sql@ == "DELETE FROM logs WHERE timestamp < ?"@
            &&& texts(q.params@) == seq![
                rfc3339_text(days_before(now, days).secs, now.nanos).unwrap(),
            ]
            &&& q.limit == 0
            &&& q.offset == 0
        },
{
    let span: i64 = (days as i64) * SECONDS_PER_DAY;
    if now.secs < i64::MIN + span {
        return Err(StoreError::InstantOutOfRange);
    }
    let cutoff = cleanup_cutoff(now, days);
    match format_rfc3339(&cutoff) {
        Some(text) => {
            let mut params: Vec<String> = Vec::new();
            proof {
                assert(texts(params@) =~= Seq::<Seq<char>>::empty());
            }
            add_param(&mut params, text);
            assert(texts(params@) =~= seq![text@]);
            Ok(
                SqlQuery {
                    sql: "DELETE FROM logs WHERE timestamp < ?".to_owned(),
                    params,
                    limit: 0,
                    offset: 0,
                },
            )
        },
        None => Err(StoreError::InstantOutOfRange),
    }
}

/// The statement that counts the entries of one service, or of all.
pub fn get_log_count(service_id: Option<&str>) -> (q: SqlQuery)
    ensures
        q.limit == 0,
        q.offset == 0,
        match service_id {
            Some(id) => q.sql@ == "SELECT COUNT(*) FROM logs WHERE service_id = ?"@
                && texts(q.params@) == seq![id@],
            None => q.sql@ == "SELECT COUNT(*) FROM logs"@ && texts(q.params@)
                == Seq::<Seq<char>>::empty(),
        },
{
    let mut params: Vec<String> = Vec::new();
    proof {
        assert(texts(params@) =~= Seq::<Seq<char>>::empty());
    }
    match service_id {
        Some(id) => {
            add_param(&mut params, id.to_owned());
            assert(texts(params@) =~= seq![id@]);
            SqlQuery {
                sql: "SELECT COUNT(*) FROM logs WHERE service_id = ?".to_owned(),
                params,
                limit: 0,
                offset: 0,
            }
        },
        None => SqlQuery {
            sql: "SELECT COUNT(*) FROM logs".to_owned(),
            params,
            limit: 0,
            offset: 0,
        },
    }
}

/// A count under a name.
#[derive(Debug)]
pub struct Stat {
    pub key: String,
    pub count: usize,
}

impl View for Stat {
    type V = (Seq<char>, usize);

    open spec fn view(&self) -> (Seq<char>, usize) {
        (self.key@, self.count)
    }
}

/// The stats of a list, each by its view.
pub open spec fn stat_views(stats: Seq<Stat>) -> Seq<(Seq<char>, usize)> {
    stats.map_values(|s: Stat| s@)
}

/// The counts of `groups`, each under its name with `prefix` before it.
pub open spec fn prefixed(prefix: Seq<char>, groups: Seq<(Seq<char>, usize)>) -> Seq<
    (Seq<char>, usize),
> {
    groups.map_values(|g: (Seq<char>, usize)| (prefix + g.0, g.1))
}

fn add_group(out: &mut Vec<Stat>, prefix: &str, groups: &Vec<Stat>)
    ensures
        stat_views(final(out)@) == stat_views(old(out)@) + prefixed(
            prefix@,
            stat_views(groups@),
        ),
{
    let ghost start = stat_views(out@);
    let ghost all = prefixed(prefix@, stat_views(groups@));
    let mut i: usize = 0;
    proof {
        assert(stat_views(out@) =~= start + all.take(0));
    }
    while i < groups.len()
        invariant
            0 <= i <= groups@.len(),
            all == prefixed(prefix@, stat_views(groups@)),
            stat_views(out@) == start + all.take(i as int),
        decreases groups@.len() - i,
    {
        let mut key = prefix.to_owned();
        key.append(groups[i].key.as_str());
        let stat = Stat { key, count: groups[i].count };
        proof {
            assert(stat@ == all[i as int]);
            assert(stat_views(out@.push(stat)) =~= stat_views(out@).push(stat@));
            assert(start + all.take(i as int + 1) =~= (start + all.take(i as int)).push(
                all[i as int],
            ));
        }
        out.push(stat);
        i = i + 1;
    }
    proof {
        assert(all.take(i as int) =~= all);
    }
}

/// The statistics of the store in one list: the number of all entries under
/// `total`, then the number per service under `service_` and the id, then
/// the number per level under `level_` and the name.
pub fn get_log_stats(total: usize, by_service: &Vec<Stat>, by_level: &Vec<Stat>) -> (out: Vec<
    Stat,
>)
    ensures
        stat_views(out@) == seq![("total"@, total)] + prefixed(
            "service_"@,
            stat_views(by_service@),
        ) + prefixed("level_"@, stat_views(by_level@)),
{
    let mut out: Vec<Stat> = Vec::new();
    let first = Stat { key: "total".to_owned(), count: total };
    proof {
        assert(stat_views(out@.push(first)) =~= seq![("total"@, total)]);
    }
    out.push(first);
    add_group(&mut out, "service_", by_service);
    add_group(&mut out, "level_", by_level);
    out
}

} // verus!
