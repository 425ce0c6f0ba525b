//! What a request means, before anything is done about it: which log query a
//! set of parameters asks for, and how the list of known services follows
//! the supervisor.

use vstd::prelude::*;
use crate::log_manager::{first_of, first_some};
use crate::models::{
    opt_string, service_views, Service, ServiceStatus, ServiceView, Timestamp,
};
use crate::process_manager::ProcessInfo;
use crate::plain::text_eq;
use crate::text::{parse_u64, parsed_u64};
use crate::timefmt::{instant, parse_relaxed, parse_rfc3339, relaxed_instant, rfc3339_instant};

verus! {

/// How many entries a filtered query returns where no number is given.
pub const DEFAULT_LIMIT: usize = 1000;

/// How many lines an unfiltered query returns where no number is given.
pub const DEFAULT_LINES: usize = 100;

/// How long a stream of entries sleeps when it found nothing new, in
/// milliseconds.
pub const STREAM_IDLE_MILLIS: u64 = 100;

/// The parameters of a request for the log of a service, as they came.
#[derive(Debug)]
pub struct LogParams {
    pub level: Option<String>,
    pub from: Option<String>,
    pub to: Option<String>,
    pub search: Option<String>,
    pub operator: Option<String>,
    pub limit: Option<String>,
    pub lines: Option<String>,
}

/// What a request for the log of a service asks for.
#[derive(Debug)]
pub enum LogRequest {
    /// The entries that pass the filters.
    Filtered {
        level: Option<String>,
        from: Option<Timestamp>,
        to: Option<Timestamp>,
        search: Option<String>,
        use_or: bool,
        limit: usize,
    },
    /// The last lines as they are.
    Simple { lines: usize },
}

/// The instant that a bound denotes: read strictly first, then in the relaxed
/// form.
pub open spec fn bound_instant(text: Seq<char>) -> Option<Timestamp> {
    first_of(instant(rfc3339_instant(text)), instant(relaxed_instant(text)))
}

/// The bound that a parameter gives, if it is there and can be read.
pub open spec fn bound_of(p: Option<String>) -> Option<Timestamp> {
    match p {
        Some(t) => bound_instant(t@),
        None => None,
    }
}

/// The count that a parameter gives, or `default` where it is absent, no
/// number, or a number beyond what the machine can count.
pub open spec fn count_of(p: Option<String>, default: usize) -> usize {
    match p {
        Some(t) => match parsed_u64(t@) {
            Some(n) => if n <= usize::MAX {
                n as usize
            } else {
                default
            },
            None => default,
        },
        None => default,
    }
}

/// The predicates are joined by OR: the operator is given as `or`.
pub open spec fn asks_or(p: Option<String>) -> bool {
    p matches Some(t) && t@ == "or"@
}

/// The request names a filter.
pub open spec fn names_filter(p: LogParams) -> bool {
    p.level is Some || p.from is Some || p.to is Some || p.search is Some
}

/// The first place in the list at which a service with the id `id` stands, or
/// the length of the list.
pub open spec fn first_with_id(services: Seq<ServiceView>, id: Seq<char>) -> int
    decreases services.len(),
{
    if services.len() == 0 {
        0
    } else if services[0].id == id {
        0
    } else {
        1 + first_with_id(services.skip(1), id)
    }
}

/// The list after the first service with the id `id` got the status
/// `status` at `now`; the list as it is where no service has that id.
pub open spec fn with_status_set(
    services: Seq<ServiceView>,
    id: Seq<char>,
    status: ServiceStatus,
    now: Timestamp,
) -> Seq<ServiceView> {
    let at = first_with_id(services, id);
    if 0 <= at < services.len() {
        services.update(at, ServiceView { status, updated_at: now, ..services[at] })
    } else {
        services
    }
}

/// The instant that a bound of a query denotes.
pub fn parse_time_bound(text: &str) -> (r: Option<Timestamp>)
    ensures
        r == bound_instant(text@),
{
    first_some(parse_rfc3339(text), parse_relaxed(text))
}

/// The count that a parameter gives.
pub fn requested_count(param: &Option<String>, default: usize) -> (r: usize)
    ensures
        r == count_of(*param, default),
{
    match param {
        Some(t) => match parse_u64(t.as_str()) {
            Some(n) => if n <= usize::MAX as u64 {
                n as usize
            } else {
                default
            },
            None => default,
        },
        None => default,
    }
}

fn cloned(p: &Option<String>) -> (r: Option<String>)
    ensures
        opt_string(r) == opt_string(*p),
{
    match p {
        Some(t) => Some(t.clone()),
        None => None,
    }
}

fn bound(p: &Option<String>) -> (r: Option<Timestamp>)
    ensures
        r == bound_of(*p),
{
    match p {
        Some(t) => parse_time_bound(t.as_str()),
        None => None,
    }
}

/// What a request for the log of a service asks for. A request that names a
/// level, a bound or a search text is a filtered query, with a thousand
/// entries at most unless it says otherwise; any other asks for the last
/// lines, a hundred unless it says otherwise.
pub fn get_service_logs(params: &LogParams) -> (r: LogRequest)
    ensures
        names_filter(*params) ==> {
            &&& r matches LogRequest::Filtered { level, from, to, search, use_or, limit }
            &&& opt_string(level) == opt_string(params.level)
            &&& from == bound_of(params.from)
            &&& to == bound_of(params.to)
            &&& opt_string(search) == opt_string(params.search)
            &&& use_or == asks_or(params.operator)
            &&& limit == count_of(params.limit, DEFAULT_LIMIT)
        },
        !names_filter(*params) ==> {
            &&& r matches LogRequest::Simple { lines }
            &&& lines == count_of(params.lines, DEFAULT_LINES)
        },
{
    let filtered = params.level.is_some() || params.from.is_some() || params.to.is_some()
        || params.search.is_some();
    if filtered {
        let use_or = match &params.operator {
            Some(t) => text_eq(t.as_str(), "or"),
            None => false,
        };
        LogRequest::Filtered {
            level: cloned(&params.level),
            from: bound(&params.from),
            to: bound(&params.to),
            search: cloned(&params.search),
            use_or,
            limit: requested_count(&params.limit, DEFAULT_LIMIT),
        }
    } else {
        LogRequest::Simple { lines: requested_count(&params.lines, DEFAULT_LINES) }
    }
}

/// Where the first service with the id `id` stands in the list.
pub fn find_service(services: &Vec<Service>, id: &str) -> (r: Option<usize>)
    ensures
        match r {
            Some(i) => i == first_with_id(service_views(services@), id@) && i < services@.len(),
            None => first_with_id(service_views(services@), id@) >= services@.len(),
        },
{
    let ghost all = service_views(services@);
    let mut i: usize = 0;
    proof {
        assert(all.skip(0) =~= all);
    }
    while i < services.len()
        invariant
            0 <= i <= services@.len(),
            all == service_views(services@),
            first_with_id(all, id@) == i + first_with_id(all.skip(i as int), id@),
        decreases services@.len() - i,
    {
        proof {
            assert(all.skip(i as int)[0] == services@[i as int]@);
            assert(all.skip(i as int).skip(1) =~= all.skip(i as int + 1));
        }
        if text_eq(services[i].id.as_str(), id) {
            return Some(i);
        }
        i = i + 1;
    }
    proof {
        assert(all.skip(i as int).len() == 0);
    }
    None
}

/// Gives the first service with the id `id` the status `status` as of `now`.
/// Tells whether there was such a service.
pub fn set_service_status(
    services: &mut Vec<Service>,
    id: &str,
    status: ServiceStatus,
    now: Timestamp,
) -> (found: bool)
    ensures
        service_views(final(services)@) == with_status_set(
            service_views(old(services)@),
            id@,
            status,
            now,
        ),
        found == (first_with_id(service_views(old(services)@), id@) < old(services)@.len()),
{
    match find_service(services, id) {
        Some(i) => {
            let mut s = services[i].clone();
            s.status = status;
            s.updated_at = now;
            proof {
                assert(service_views(services@.update(i as int, s)) =~= service_views(
                    services@,
                ).update(i as int, s@));
            }
            services.set(i, s);
            true
        },
        None => false,
    }
}

/// What is reported of a service that is known but was never started.
pub fn default_metrics() -> (r: ProcessInfo)
    ensures
        r == (ProcessInfo {
            pid: None,
            memory_usage: 0,
            uptime: 0,
            status: ServiceStatus::Stopped,
        }),
{
    ProcessInfo { pid: None, memory_usage: 0, uptime: 0, status: ServiceStatus::Stopped }
}

} // verus!
