//! The supervisor's book of managed processes. It decides; the caller acts:
//! spawning, signalling and waiting are done outside, and what happened is
//! handed back as an event.

use vstd::prelude::*;
use vstd::string::*;
use crate::keyed::{
    as_map, distinct_keys, has_key, lemma_place, lemma_push, lemma_remove, lemma_update, place_of,
};
use crate::log_manager::log_file_name;
use crate::models::{
    env_view, has_env_key, keys_unique, service_views, texts, EnvVar, Service, ServiceStatus,
    ServiceView, Timestamp,
};
use crate::paths::{join_path, joined_path};
use crate::probe::process_memory;
use crate::state_persistence::{
    lemma_without, lemma_without_among, records_among, state_views, without, ServiceState,
    ServiceStateView, StatePersistence,
};
use crate::plain::{
    first_line_of, head_line, split_whitespace, text_eq, trim, trimmed, whitespace_tokens,
};
use crate::text::{parse_u32, parsed_u32};

verus! {

/// How long a new process is given, in milliseconds, before it is first
/// looked at.
pub const SETTLE_MILLIS: u64 = 500;

/// How long a monitor sleeps between two looks at its process, in
/// milliseconds.
pub const MONITOR_MILLIS: u64 = 1000;

/// How long a crashed process stays down before it is created anew, in
/// milliseconds.
pub const BACKOFF_MILLIS: u64 = 2000;

/// How long the monitor of a recovered process sleeps between two looks, in
/// milliseconds.
pub const RECOVERED_MONITOR_MILLIS: u64 = 5000;

/// How long a restart pauses between stopping and starting, in milliseconds.
pub const RESTART_PAUSE_MILLIS: u64 = 1000;

/// How long the owner of a port is given to end before it is ended by force,
/// in milliseconds.
pub const PORT_GRACE_MILLIS: u64 = 2000;

/// How long a freed port is left alone before it is used, in milliseconds.
pub const PORT_RELEASE_MILLIS: u64 = 500;

/// A process under supervision.
#[derive(Debug)]
pub struct ManagedProcess {
    /// The descriptor the process was started from, with its current status.
    pub service: Service,
    /// The supervisor holds the handle of the process and can signal it and
    /// wait for it. Without one it can only look the process up by its id.
    pub has_handle: bool,
    pub start_time: Option<Timestamp>,
    pub restart_count: u32,
    pub pid: Option<u32>,
}

/// What a managed process holds, with its texts as sequences of characters.
pub struct ManagedView {
    pub service: ServiceView,
    pub has_handle: bool,
    pub start_time: Option<Timestamp>,
    pub restart_count: u32,
    pub pid: Option<u32>,
}

impl View for ManagedProcess {
    type V = ManagedView;

    open spec fn view(&self) -> ManagedView {
        ManagedView {
            service: self.service@,
            has_handle: self.has_handle,
            start_time: self.start_time,
            restart_count: self.restart_count,
            pid: self.pid,
        }
    }
}

impl Clone for ManagedProcess {
    fn clone(&self) -> (r: Self)
        ensures
            r@ == self@,
    {
        ManagedProcess {
            service: self.service.clone(),
            has_handle: self.has_handle,
            start_time: self.start_time,
            restart_count: self.restart_count,
            pid: self.pid,
        }
    }
}

/// What the caller is to do after a service was taken out of the live map.
#[derive(Clone, Copy, Debug, PartialEq, Eq, Structural)]
pub struct StopAction {
    /// The supervisor held the handle of the process: signal the process to
    /// end and wait for it, ignoring failures.
    pub terminate: bool,
}

/// Why a service could not be restarted.
#[derive(Clone, Copy, Debug, PartialEq, Eq, Structural)]
pub enum RestartError {
    /// The service was never started, so no descriptor of it is at hand.
    NeverStarted,
}

/// What the caller is to do to restart a service.
#[derive(Debug)]
pub struct RestartPlan {
    /// As in `StopAction`.
    pub terminate: bool,
    /// The descriptor to start again after the pause.
    pub service: Service,
}

/// The process with another status, as of `now`.
pub open spec fn with_status(m: ManagedView, status: ServiceStatus, now: Timestamp) -> ManagedView {
    ManagedView { service: ServiceView { status, updated_at: now, ..m.service }, ..m }
}

/// What the monitor of a process saw when it looked at the process.
#[derive(Clone, Copy, Debug, PartialEq, Eq, Structural)]
pub enum ChildProbe {
    /// The process runs.
    Running,
    /// The process has ended.
    Exited,
    /// The look itself failed.
    Failed,
}

/// What a monitor does next.
#[derive(Clone, Copy, Debug, PartialEq, Eq, Structural)]
pub enum MonitorAction {
    /// Sleep and look again.
    Continue,
    /// End the monitor.
    Stop,
    /// Wait for the backoff delay, create the process anew and report what
    /// came of it.
    Respawn,
}

/// What came of creating a crashed process anew.
#[derive(Clone, Copy, Debug, PartialEq, Eq, Structural)]
pub enum RespawnOutcome {
    /// The new process runs under this id.
    Spawned { pid: u32 },
    /// No process was created.
    Failed,
}

/// A crashed process is started again: restarts are on and the process has
/// attempts left.
pub open spec fn restart_allowed(m: ManagedView, restarts: bool, max_attempts: u32) -> bool {
    restarts && m.restart_count < max_attempts
}

/// The process after its monitor found it ended: it has no handle and its
/// status is `Error`; where it is started again, one more attempt is counted
/// on it and on its descriptor.
pub open spec fn after_exit(m: ManagedView, restarts: bool, max_attempts: u32, now: Timestamp)
    -> ManagedView {
    let crashed = ManagedView { has_handle: false, ..with_status(m, ServiceStatus::Error, now) };
    if restart_allowed(m, restarts, max_attempts) {
        let count = (m.restart_count + 1) as u32;
        ManagedView {
            restart_count: count,
            service: ServiceView { restart_count: count, ..crashed.service },
            ..crashed
        }
    } else {
        crashed
    }
}

/// The process after it was created anew under `pid`.
pub open spec fn after_respawn(m: ManagedView, pid: u32, now: Timestamp) -> ManagedView {
    ManagedView {
        has_handle: true,
        pid: Some(pid),
        start_time: Some(now),
        ..with_status(m, ServiceStatus::Running, now)
    }
}

/// What recovery made of one persisted record.
#[derive(Clone, Copy, Debug, PartialEq, Eq, Structural)]
pub enum RecoverAction {
    /// The process is managed again: watch it by this id.
    Monitor { pid: u32 },
    /// The record was dropped.
    Dropped,
}

/// A recovered process and the id to watch it by.
#[derive(Debug)]
pub struct Recovered {
    pub service_id: String,
    pub pid: u32,
}

impl View for Recovered {
    type V = (Seq<char>, u32);

    open spec fn view(&self) -> (Seq<char>, u32) {
        (self.service_id@, self.pid)
    }
}

/// The processes of a list, each by its view.
pub open spec fn recovered_views(watch: Seq<Recovered>) -> Seq<(Seq<char>, u32)> {
    watch.map_values(|r: Recovered| r@)
}

/// Where recovery stands: the live map, the persisted records, and the
/// processes to watch so far.
pub struct RecoveryState {
    pub live: Map<Seq<char>, ManagedView>,
    pub persisted: Seq<ServiceStateView>,
    pub watch: Seq<(Seq<char>, u32)>,
}

/// The process table holds the process of record `i`. A record for which
/// nothing is told counts as dead.
pub open spec fn told_alive(alive: Seq<bool>, i: int) -> bool {
    0 <= i < alive.len() && alive[i]
}

/// Recovery after one more record: a live process of a known service is
/// entered into the live map without a handle, its record is written anew
/// and the process is put on watch; any other record is dropped.
pub open spec fn recover_step(
    st: RecoveryState,
    saved: ServiceStateView,
    services: Seq<ServiceView>,
    alive: bool,
    now: Timestamp,
) -> RecoveryState {
    if alive && last_with_id(services, saved.service_id) is Some {
        RecoveryState {
            live: st.live.insert(
                saved.service_id,
                recovered_view(last_with_id(services, saved.service_id).unwrap(), saved.pid, now),
            ),
            persisted: without(st.persisted, saved.service_id).push(saved),
            watch: st.watch.push((saved.service_id, saved.pid)),
        }
    } else {
        RecoveryState { persisted: without(st.persisted, saved.service_id), ..st }
    }
}

/// Recovery after the first `k` records, in their order.
pub open spec fn recover_upto(
    st: RecoveryState,
    saved: Seq<ServiceStateView>,
    services: Seq<ServiceView>,
    alive: Seq<bool>,
    now: Timestamp,
    k: nat,
) -> RecoveryState
    decreases k,
{
    if k == 0 {
        st
    } else {
        recover_step(
            recover_upto(st, saved, services, alive, now, (k - 1) as nat),
            saved[k - 1],
            services,
            told_alive(alive, k - 1),
            now,
        )
    }
}

/// The last descriptor with the id `id` in a list, if there is one.
pub open spec fn last_with_id(services: Seq<ServiceView>, id: Seq<char>) -> Option<ServiceView>
    decreases services.len(),
{
    if services.len() == 0 {
        None
    } else if services.last().id == id {
        Some(services.last())
    } else {
        last_with_id(services.drop_last(), id)
    }
}

/// A process taken over from an earlier run of the supervisor: it runs, but
/// the supervisor holds no handle of it.
pub open spec fn recovered_view(service: ServiceView, pid: u32, now: Timestamp) -> ManagedView {
    ManagedView {
        service: ServiceView { status: ServiceStatus::Running, updated_at: now, ..service },
        has_handle: false,
        start_time: Some(now),
        restart_count: 0,
        pid: Some(pid),
    }
}

/// Whole seconds from `start` to `now`; none where `now` is the earlier.
pub open spec fn uptime_secs(start: Timestamp, now: Timestamp) -> u64 {
    let borrow: int = if now.nanos < start.nanos { 1 } else { 0 };
    let d = now.secs - start.secs - borrow;
    if d < 0 {
        0
    } else {
        d as u64
    }
}

/// Whole seconds from `start` to `now`.
pub fn uptime_between(start: &Timestamp, now: &Timestamp) -> (r: u64)
    ensures
        r == uptime_secs(*start, *now),
{
    let borrow: i128 = if now.nanos < start.nanos {
        1
    } else {
        0
    };
    let d: i128 = now.secs as i128 - start.secs as i128 - borrow;
    if d < 0 {
        0
    } else {
        d as u64
    }
}

/// What is known of a managed process at one moment.
#[derive(Clone, Copy, Debug, PartialEq, Eq, Structural)]
pub struct ProcessInfo {
    pub pid: Option<u32>,
    /// Resident memory in bytes.
    pub memory_usage: u64,
    /// Seconds since the process was started.
    pub uptime: u64,
    pub status: ServiceStatus,
}

/// What to do about a port that a service is about to use.
#[derive(Clone, Copy, Debug, PartialEq, Eq, Structural)]
pub enum ReclaimAction {
    /// Nothing is to be done.
    Nothing,
    /// Ask the process to end, then wait and look at the port again.
    Terminate { pid: u32 },
    /// End the process by force.
    Kill { pid: u32 },
}

/// The process id that a listing of the owners of a port names first. An
/// unsuccessful listing names none.
pub open spec fn listed_owner(success: bool, listing: Seq<char>) -> Option<u32> {
    if !success || trimmed(listing).len() == 0 {
        None
    } else {
        parsed_u32(trimmed(head_line(trimmed(listing))))
    }
}

/// Why a service could not be started.
#[derive(Debug)]
pub enum StartError {
    /// The command holds no executable.
    InvalidCommand,
    /// The working directory, named here, does not exist.
    WorkingDirNotFound { working_dir: String },
    /// The operating system did not create the process for this command in
    /// this directory.
    SpawnFailed { command: String, working_dir: String },
    /// The process was created and had ended before it was first looked at.
    /// `output` is what it had written to its log.
    ProcessExitedImmediately { output: String },
}

/// How to create the process of a service.
#[derive(Debug)]
pub struct SpawnPlan {
    pub executable: String,
    pub args: Vec<String>,
    pub working_dir: String,
    /// Variables to set, in this order, on top of the inherited environment.
    pub environment: Vec<EnvVar>,
    /// The file that takes both output streams, opened for appending.
    pub log_path: String,
    /// A port to free before the process is created: whoever holds it is
    /// asked to end, and ended by force if it holds on.
    pub free_port: Option<u16>,
}

/// The service can be started: its command names an executable and its
/// working directory exists.
pub open spec fn can_start(service: ServiceView, working_dir_exists: bool) -> bool {
    whitespace_tokens(service.command).len() > 0 && working_dir_exists
}

/// `plan` is the plan for the first start of `service`: the first token of
/// the command with the others as arguments, in the working directory of the
/// service; `PATH` as the supervisor has it and then the variables of the
/// service, so that these win; both output streams appended to the log file
/// of the service; the port of the service freed first.
pub open spec fn is_start_plan(
    plan: SpawnPlan,
    service: ServiceView,
    logs_dir: Seq<char>,
    inherited_path: Seq<char>,
) -> bool {
    &&& plan.executable@ == whitespace_tokens(service.command)[0]
    &&& texts(plan.args@) == whitespace_tokens(service.command).skip(1)
    &&& plan.working_dir@ == service.working_dir
    &&& env_view(plan.environment@) == seq![("PATH"@, inherited_path)] + service.environment
    &&& plan.log_path@ == joined_path(logs_dir, log_file_name(service.id))
    &&& plan.free_port == service.port
}

/// An environment after variables were set in it, one after the other.
pub open spec fn env_applied(
    base: Map<Seq<char>, Seq<char>>,
    assignments: Seq<(Seq<char>, Seq<char>)>,
) -> Map<Seq<char>, Seq<char>>
    decreases assignments.len(),
{
    if assignments.len() == 0 {
        base
    } else {
        env_applied(base, assignments.drop_last()).insert(
            assignments.last().0,
            assignments.last().1,
        )
    }
}

/// Setting variables leaves every other variable as it was and defines each
/// variable that is set; where no variable is set twice, each has the value
/// it was set to.
pub proof fn lemma_env_applied(
    base: Map<Seq<char>, Seq<char>>,
    assignments: Seq<(Seq<char>, Seq<char>)>,
)
    ensures
        forall|k: Seq<char>|
            !has_env_key(assignments, k) ==> (#[trigger] env_applied(
                base,
                assignments,
            ).dom().contains(k) == base.dom().contains(k)) && (base.dom().contains(k)
                ==> env_applied(base, assignments)[k] == base[k]),
        forall|i: int|
            0 <= i < assignments.len() ==> env_applied(base, assignments).dom().contains(
                (#[trigger] assignments[i]).0,
            ),
        keys_unique(assignments) ==> forall|i: int|
            0 <= i < assignments.len() ==> env_applied(base, assignments)[(
            #[trigger] assignments[i]).0] == assignments[i].1,
    decreases assignments.len(),
{
    if assignments.len() > 0 {
        let init = assignments.drop_last();
        let last = assignments.last();
        lemma_env_applied(base, init);
        let mid = env_applied(base, init);
        let end = env_applied(base, assignments);
        assert forall|k: Seq<char>| !has_env_key(assignments, k) implies (#[trigger] end.dom().contains(
            k,
        ) == base.dom().contains(k)) && (base.dom().contains(k) ==> end[k] == base[k]) by {
            assert(assignments[assignments.len() - 1].0 != k);
            if has_env_key(init, k) {
                let i = choose|i: int| 0 <= i < init.len() && (#[trigger] init[i]).0 == k;
                assert(assignments[i].0 == k);
            }
            assert(mid.dom().contains(k) == base.dom().contains(k));
        }
        assert forall|i: int| 0 <= i < assignments.len() implies end.dom().contains(
            (#[trigger] assignments[i]).0,
        ) by {
            if i < init.len() {
                assert(init[i] == assignments[i]);
            }
        }
        if keys_unique(assignments) {
            assert forall|a: int, b: int| 0 <= a < b < init.len() implies (#[trigger] init[a]).0 != (
            #[trigger] init[b]).0 by {
                assert(init[a] == assignments[a] && init[b] == assignments[b]);
            }
            assert forall|i: int| 0 <= i < assignments.len() implies end[(
            #[trigger] assignments[i]).0] == assignments[i].1 by {
                if i < init.len() {
                    assert(init[i] == assignments[i]);
                    assert(assignments[i].0 != assignments[assignments.len() - 1].0);
                }
            }
        }
    }
}

/// Setting a variable first and others after it is setting the others in an
/// environment that has the first.
pub proof fn lemma_env_first(
    base: Map<Seq<char>, Seq<char>>,
    first: (Seq<char>, Seq<char>),
    rest: Seq<(Seq<char>, Seq<char>)>,
)
    ensures
        env_applied(base, seq![first] + rest) == env_applied(base.insert(first.0, first.1), rest),
    decreases rest.len(),
{
    let all = seq![first] + rest;
    if rest.len() == 0 {
        assert(all.drop_last() =~= Seq::<(Seq<char>, Seq<char>)>::empty());
        assert(all.last() == first);
        assert(env_applied(base, all.drop_last()) == base);
        assert(env_applied(base, all) == base.insert(first.0, first.1));
    } else {
        lemma_env_first(base, first, rest.drop_last());
        assert(all.drop_last() =~= seq![first] + rest.drop_last());
        assert(all.last() == rest.last());
        assert(env_applied(base, all) == env_applied(base, all.drop_last()).insert(
            rest.last().0,
            rest.last().1,
        ));
    }
}

/// The environment of a process created under a start plan is the
/// supervisor's with the variables of the service laid over it: a variable of
/// the service has the value the service gives it, `PATH` is there in any
/// case, with the supervisor's value unless the service sets it, and every
/// other variable is as the supervisor has it.
pub proof fn lemma_child_environment(
    inherited: Map<Seq<char>, Seq<char>>,
    inherited_path: Seq<char>,
    service: ServiceView,
)
    requires
        service.wf(),
    ensures
        ({
            let child = env_applied(
                inherited,
                seq![("PATH"@, inherited_path)] + service.environment,
            );
            &&& child.dom().contains("PATH"@)
            &&& forall|i: int|
                0 <= i < service.environment.len() ==> child.dom().contains(
                    (#[trigger] service.environment[i]).0,
                ) && child[service.environment[i].0] == service.environment[i].1
            &&& !has_env_key(service.environment, "PATH"@) ==> child["PATH"@] == inherited_path
            &&& forall|k: Seq<char>|
                !has_env_key(service.environment, k) && k != "PATH"@ ==> (
                #[trigger] child.dom().contains(k) == inherited.dom().contains(k)) && (
                inherited.dom().contains(k) ==> child[k] == inherited[k])
        }),
{
    let first = ("PATH"@, inherited_path);
    lemma_env_first(inherited, first, service.environment);
    lemma_env_applied(inherited.insert(first.0, first.1), service.environment);
}

/// What came of creating a process.
#[derive(Debug)]
pub enum SpawnOutcome {
    /// The operating system refused.
    Failed,
    /// The process had ended when it was first looked at.
    Exited { output: String },
    /// The process runs under this id.
    Running { pid: u32 },
}

/// The id that tells one managed process from another.
pub open spec fn managed_key() -> spec_fn(ManagedProcess) -> Seq<char> {
    |m: ManagedProcess| m.service.id@
}

/// What the map keeps of a managed process.
pub open spec fn managed_value() -> spec_fn(ManagedProcess) -> ManagedView {
    |m: ManagedProcess| m@
}

/// A process that was just started from `service` under `pid`: the
/// supervisor holds its handle, and it has not been restarted yet.
pub open spec fn started_view(service: ServiceView, pid: u32, now: Timestamp) -> ManagedView {
    ManagedView {
        service: ServiceView { status: ServiceStatus::Running, updated_at: now, ..service },
        has_handle: true,
        start_time: Some(now),
        restart_count: 0,
        pid: Some(pid),
    }
}

/// A process that the supervisor only knows by its id is no longer in the
/// process table.
pub open spec fn found_dead(m: ManagedView, alive: bool) -> bool {
    !m.has_handle && m.pid is Some && !alive
}

/// The status that is reported of a process, given whether the process table
/// still holds it.
pub open spec fn status_reported(m: ManagedView, alive: bool) -> ServiceStatus {
    if found_dead(m, alive) {
        ServiceStatus::Stopped
    } else {
        m.service.status
    }
}

/// Some record is of `service_id` and names `pid`.
pub open spec fn has_record_of(records: Seq<ServiceStateView>, service_id: Seq<char>, pid: u32)
    -> bool {
    exists|i: int|
        0 <= i < records.len() && (#[trigger] records[i]).service_id == service_id
            && records[i].pid == pid
}

/// The process after `k` crashes, each followed by a new start: crash `i`
/// was seen at `times[i]`, and the new process ran under `pids[i]`.
pub open spec fn after_crashes(
    m: ManagedView,
    restarts: bool,
    max_attempts: u32,
    times: Seq<Timestamp>,
    pids: Seq<u32>,
    k: nat,
) -> ManagedView
    decreases k,
{
    if k == 0 {
        m
    } else {
        after_respawn(
            after_exit(
                after_crashes(m, restarts, max_attempts, times, pids, (k - 1) as nat),
                restarts,
                max_attempts,
                times[k - 1],
            ),
            pids[k - 1],
            times[k - 1],
        )
    }
}

/// After a service was started, it is reported as `Running` whatever the
/// process table shows, and the persisted records hold one of it with the id
/// of its process. Its descriptor still names each variable once if it did
/// before.
pub proof fn lemma_started_runs(
    persisted: Seq<ServiceStateView>,
    service: ServiceView,
    pid: u32,
    now: Timestamp,
    alive: bool,
)
    ensures
        status_reported(started_view(service, pid, now), alive) == ServiceStatus::Running,
        service.wf() ==> started_view(service, pid, now).service.wf(),
        has_record_of(
            without(persisted, service.id).push(record_of(service, pid, now)),
            service.id,
            pid,
        ),
{
    let records = without(persisted, service.id).push(record_of(service, pid, now));
    assert(records[records.len() - 1] == record_of(service, pid, now));
}

/// With restarts on and a limit of `max_attempts`, a process that crashes
/// again and again is started anew after each of the first `max_attempts`
/// crashes, and the attempts counted never pass the limit. The crash after
/// that leaves it without a handle and with status `Error`, and it is not
/// started again.
pub proof fn lemma_restart_limit(
    m: ManagedView,
    max_attempts: u32,
    times: Seq<Timestamp>,
    pids: Seq<u32>,
    k: nat,
    last: Timestamp,
)
    requires
        m.restart_count == 0,
        k <= max_attempts,
    ensures
        after_crashes(m, true, max_attempts, times, pids, k).restart_count == k,
        k > 0 ==> after_crashes(m, true, max_attempts, times, pids, k).has_handle,
        restart_allowed(after_crashes(m, true, max_attempts, times, pids, k), true, max_attempts)
            == (k < max_attempts),
        k == max_attempts ==> {
            let end = after_exit(
                after_crashes(m, true, max_attempts, times, pids, k),
                true,
                max_attempts,
                last,
            );
            &&& !end.has_handle
            &&& end.service.status == ServiceStatus::Error
            &&& end.restart_count == max_attempts
        },
    decreases k,
{
    if k > 0 {
        lemma_restart_limit(m, max_attempts, times, pids, (k - 1) as nat, last);
    }
}

/// Without restarts the first crash already leaves the process without a
/// handle and with status `Error`, whatever its count of attempts.
pub proof fn lemma_no_restart(m: ManagedView, max_attempts: u32, now: Timestamp)
    ensures
        !restart_allowed(m, false, max_attempts),
        !after_exit(m, false, max_attempts, now).has_handle,
        after_exit(m, false, max_attempts, now).service.status == ServiceStatus::Error,
        after_exit(m, false, max_attempts, now).restart_count == m.restart_count,
{
}

/// Stopping a service twice leaves the same as stopping it once, in the live
/// map and in the persisted records alike; so does stopping a service that
/// was never started.
pub proof fn lemma_stop_again(
    live: Map<Seq<char>, ManagedView>,
    persisted: Seq<ServiceStateView>,
    service_id: Seq<char>,
)
    ensures
        live.remove(service_id).remove(service_id) == live.remove(service_id),
        without(without(persisted, service_id), service_id) == without(persisted, service_id),
        !live.dom().contains(service_id) ==> live.remove(service_id) == live,
{
    assert(live.remove(service_id).remove(service_id) =~= live.remove(service_id));
    lemma_without(persisted, service_id);
    lemma_without(without(persisted, service_id), service_id);
    if !live.dom().contains(service_id) {
        assert(live.remove(service_id) =~= live);
    }
}

/// The record persisted for a service that runs under `pid` since `now`.
pub open spec fn record_of(service: ServiceView, pid: u32, now: Timestamp) -> ServiceStateView {
    ServiceStateView {
        service_id: service.id,
        pid,
        started_at: now,
        command: service.command,
        working_dir: service.working_dir,
        environment: service.environment,
    }
}

/// The supervisor: the live map of managed processes and its persisted
/// mirror.
pub struct ProcessManager {
    processes: Vec<ManagedProcess>,
    auto_restart: bool,
    max_restart_attempts: u32,
    logs_dir: String,
    state_persistence: StatePersistence,
}

impl View for ProcessManager {
    type V = Map<Seq<char>, ManagedView>;

    /// The live map: each managed process under the id of its service.
    closed spec fn view(&self) -> Map<Seq<char>, ManagedView> {
        as_map(self.processes@, managed_key(), managed_value())
    }
}

impl ProcessManager {
    /// Crashed processes are started again.
    pub closed spec fn restarts(&self) -> bool {
        self.auto_restart
    }

    /// How often a crashed process is started again at most.
    pub closed spec fn max_attempts(&self) -> u32 {
        self.max_restart_attempts
    }

    /// The directory of the log files.
    pub closed spec fn logs_dir(&self) -> Seq<char> {
        self.logs_dir@
    }

    /// The persisted records.
    pub closed spec fn persisted(&self) -> Seq<ServiceStateView> {
        self.state_persistence.records()
    }

    /// The path of the state file.
    pub closed spec fn state_file(&self) -> Seq<char> {
        self.state_persistence.file()
    }

    /// No service is managed twice, each process stands under the id of its
    /// service, and none was restarted more often than allowed.
    pub closed spec fn wf(&self) -> bool {
        &&& distinct_keys(self.processes@, managed_key())
        &&& forall|i: int|
            0 <= i < self.processes@.len() ==> (#[trigger] self.processes@[i]).restart_count
                <= self.max_restart_attempts
    }

    /// The settings stay as they are.
    pub open spec fn same_settings(&self, other: &ProcessManager) -> bool {
        &&& self.restarts() == other.restarts()
        &&& self.max_attempts() == other.max_attempts()
        &&& self.logs_dir() == other.logs_dir()
        &&& self.state_file() == other.state_file()
    }

    /// In a well-formed supervisor every process stands under its own id and
    /// within the restart limit.
    pub proof fn lemma_wf(&self)
        requires
            self.wf(),
        ensures
            forall|k: Seq<char>| #[trigger]
                self@.dom().contains(k) ==> self@[k].service.id == k && self@[k].restart_count
                    <= self.max_attempts(),
    {
        assert forall|k: Seq<char>| #[trigger] self@.dom().contains(k) implies self@[k].service.id
            == k && self@[k].restart_count <= self.max_attempts() by {
            let p = place_of(self.processes@, managed_key(), k);
            assert(managed_key()(self.processes@[p]) == k);
        }
    }

    /// A supervisor that manages nothing yet and has nothing persisted.
    pub fn new(
        auto_restart: bool,
        max_restart_attempts: u32,
        logs_dir: String,
        state_file: String,
    ) -> (m: Self)
        ensures
            m.wf(),
            m@ == Map::<Seq<char>, ManagedView>::empty(),
            m.restarts() == auto_restart,
            m.max_attempts() == max_restart_attempts,
            m.logs_dir() == logs_dir@,
            m.state_file() == state_file@,
            m.persisted() == Seq::<ServiceStateView>::empty(),
    {
        let m = ProcessManager {
            processes: Vec::new(),
            auto_restart,
            max_restart_attempts,
            logs_dir,
            state_persistence: StatePersistence::new(state_file),
        };
        assert(m@ =~= Map::<Seq<char>, ManagedView>::empty());
        m
    }

    /// The persisted records as they stand, for writing to the state file.
    pub fn persisted_states(&self) -> (r: Vec<ServiceState>)
        ensures
            state_views(r@) == self.persisted(),
    {
        self.state_persistence.load_state()
    }

    /// The path of the state file.
    pub fn state_file_path(&self) -> (r: &str)
        ensures
            r@ == self.state_file(),
    {
        self.state_persistence.state_file()
    }

    /// The directory of the log files.
    pub fn logs_dir_path(&self) -> (r: &str)
        ensures
            r@ == self.logs_dir(),
    {
        self.logs_dir.as_str()
    }

    /// Whether crashed processes are started again, and how often at most.
    pub fn restart_policy(&self) -> (r: (bool, u32))
        ensures
            r.0 == self.restarts(),
            r.1 == self.max_attempts(),
    {
        (self.auto_restart, self.max_restart_attempts)
    }

    /// Where the process of `service_id` stands in the list, if it is
    /// managed.
    fn find(&self, service_id: &str) -> (r: Option<usize>)
        requires
            self.wf(),
        ensures
            match r {
                Some(i) => i < self.processes@.len() && self.processes@[i as int].service.id@
                    == service_id@ && self@.dom().contains(service_id@) && self@[service_id@]
                    == self.processes@[i as int]@,
                None => !self@.dom().contains(service_id@),
            },
    {
        let mut i: usize = 0;
        while i < self.processes.len()
            invariant
                0 <= i <= self.processes.len(),
                self.wf(),
                forall|j: int|
                    0 <= j < i ==> (#[trigger] self.processes@[j]).service.id@ != service_id@,
            decreases self.processes.len() - i,
        {
            if text_eq(self.processes[i].service.id.as_str(), service_id) {
                proof {
                    lemma_place(self.processes@, managed_key(), managed_value(), i as int);
                }
                return Some(i);
            }
            i = i + 1;
        }
        None
    }

    /// The executable and the arguments of a command, given its
    /// whitespace-delimited tokens: the first token and the rest. A command
    /// without tokens has neither.
    pub fn command_parts(tokens: Vec<String>) -> (r: Option<(String, Vec<String>)>)
        ensures
            r is Some <==> tokens@.len() > 0,
            r matches Some((executable, args)) ==> executable@ == tokens@[0]@ && texts(args@)
                == texts(tokens@).skip(1),
    {
        if tokens.len() == 0 {
            return None;
        }
        let executable = tokens[0].clone();
        let mut args: Vec<String> = Vec::new();
        let mut i: usize = 1;
        while i < tokens.len()
            invariant
                1 <= i <= tokens@.len(),
                texts(args@) == texts(tokens@).subrange(1, i as int),
            decreases tokens@.len() - i,
        {
            let a = tokens[i].clone();
            proof {
                assert(texts(args@.push(a)) =~= texts(args@).push(a@));
                assert(texts(tokens@).subrange(1, i as int + 1) =~= texts(tokens@).subrange(
                    1,
                    i as int,
                ).push(tokens@[i as int]@));
            }
            args.push(a);
            i = i + 1;
        }
        proof {
            assert(texts(tokens@).subrange(1, tokens@.len() as int) =~= texts(tokens@).skip(1));
        }
        Some((executable, args))
    }

    /// How to create the process of `service`, or why it cannot be started.
    /// The command must name an executable and the working directory must
    /// exist; an empty command is reported first. The process gets `PATH` as
    /// the supervisor has it, so that a bare executable name resolves, and
    /// then the variables of the service, which win.
    pub fn plan_start(&self, service: &Service, working_dir_exists: bool, inherited_path: &str) -> (r:
        Result<SpawnPlan, StartError>)
        ensures
            whitespace_tokens(service@.command).len() == 0 ==> r == Err::<SpawnPlan, StartError>(
                StartError::InvalidCommand,
            ),
            whitespace_tokens(service@.command).len() > 0 && !working_dir_exists ==> {
                &&& r matches Err(StartError::WorkingDirNotFound { working_dir })
                &&& working_dir@ == service@.working_dir
            },
            can_start(service@, working_dir_exists) ==> {
                &&& r matches Ok(plan)
                &&& is_start_plan(plan, service@, self.logs_dir(), inherited_path@)
            },
    {
        let tokens = split_whitespace(service.command.as_str());
        proof {
            assert(texts(tokens@) =~= whitespace_tokens(service@.command));
        }
        match Self::command_parts(tokens) {
            None => Err(StartError::InvalidCommand),
            Some((executable, args)) => {
                if !working_dir_exists {
                    return Err(
                        StartError::WorkingDirNotFound { working_dir: service.working_dir.clone() },
                    );
                }
                let path = EnvVar { key: "PATH".to_owned(), value: inherited_path.to_owned() };
                let mut environment: Vec<EnvVar> = Vec::new();
                environment.push(path);
                let mut own = service.environment.clone();
                environment.append(&mut own);
                proof {
                    assert(env_view(environment@) =~= seq![("PATH"@, inherited_path@)] + env_view(
                        service.environment@,
                    ));
                }
                let mut name = service.id.clone();
                name.append(".log");
                let log_path = join_path(self.logs_dir.as_str(), name.as_str());
                Ok(
                    SpawnPlan {
                        executable,
                        args,
                        working_dir: service.working_dir.clone(),
                        environment,
                        log_path,
                        free_port: service.port,
                    },
                )
            },
        }
    }

    /// Puts `m` into the live map, in the place of what stood under its id.
    fn insert(&mut self, m: ManagedProcess)
        requires
            old(self).wf(),
            m.restart_count <= old(self).max_attempts(),
        ensures
            final(self).wf(),
            final(self).same_settings(old(self)),
            final(self).persisted() == old(self).persisted(),
            final(self)@ == old(self)@.insert(m@.service.id, m@),
    {
        match self.find(m.service.id.as_str()) {
            Some(i) => {
                proof {
                    lemma_update(self.processes@, managed_key(), managed_value(), i as int, m);
                }
                self.processes.set(i, m);
            },
            None => {
                proof {
                    lemma_push(self.processes@, managed_key(), managed_value(), m);
                }
                self.processes.push(m);
            },
        }
    }

    /// Starts a service, given whether its working directory exists, the
    /// `PATH` of the supervisor, and what came of creating its process under
    /// the plan of `plan_start`.
    ///
    /// A service that cannot be started is refused as by `plan_start`,
    /// whatever `outcome` says, and nothing changes. Otherwise a process that
    /// runs is entered into the live map, with status `Running`, and then
    /// into the persisted records; the plan it runs under is returned, and
    /// the caller starts its monitor. A process that could not be created,
    /// or that had ended when it was first looked at, changes nothing; the
    /// failure says what was attempted, or what the process had written.
    pub fn start_service(
        &mut self,
        service: Service,
        working_dir_exists: bool,
        inherited_path: &str,
        outcome: SpawnOutcome,
        now: Timestamp,
    ) -> (r: Result<SpawnPlan, StartError>)
        requires
            old(self).wf(),
        ensures
            final(self).wf(),
            final(self).same_settings(old(self)),
            whitespace_tokens(service@.command).len() == 0 ==> {
                &&& r == Err::<SpawnPlan, StartError>(StartError::InvalidCommand)
                &&& final(self)@ == old(self)@
                &&& final(self).persisted() == old(self).persisted()
            },
            whitespace_tokens(service@.command).len() > 0 && !working_dir_exists ==> {
                &&& r matches Err(StartError::WorkingDirNotFound { working_dir })
                &&& working_dir@ == service@.working_dir
                &&& final(self)@ == old(self)@
                &&& final(self).persisted() == old(self).persisted()
            },
            can_start(service@, working_dir_exists) ==> match outcome {
                SpawnOutcome::Running { pid } => {
                    &&& r matches Ok(plan)
                    &&& is_start_plan(plan, service@, old(self).logs_dir(), inherited_path@)
                    &&& final(self)@ == old(self)@.insert(
                        service@.id,
                        started_view(service@, pid, now),
                    )
                    &&& final(self).persisted() == without(
                        old(self).persisted(),
                        service@.id,
                    ).push(record_of(service@, pid, now))
                },
                SpawnOutcome::Failed => {
                    &&& r matches Err(StartError::SpawnFailed { command, working_dir })
                    &&& command@ == service@.command
                    &&& working_dir@ == service@.working_dir
                    &&& final(self)@ == old(self)@
                    &&& final(self).persisted() == old(self).persisted()
                },
                SpawnOutcome::Exited { output } => {
                    &&& r matches Err(StartError::ProcessExitedImmediately { output: o })
                    &&& o@ == output@
                    &&& final(self)@ == old(self)@
                    &&& final(self).persisted() == old(self).persisted()
                },
            },
    {
        let plan = match self.plan_start(&service, working_dir_exists, inherited_path) {
            Ok(plan) => plan,
            Err(e) => {
                return Err(e);
            },
        };
        match outcome {
            SpawnOutcome::Failed => Err(
                StartError::SpawnFailed {
                    command: service.command.clone(),
                    working_dir: service.working_dir.clone(),
                },
            ),
            SpawnOutcome::Exited { output } => Err(
                StartError::ProcessExitedImmediately { output },
            ),
            SpawnOutcome::Running { pid } => {
                let mut service = service;
                service.status = ServiceStatus::Running;
                service.updated_at = now;
                let record = ServiceState {
                    service_id: service.id.clone(),
                    pid,
                    started_at: now,
                    command: service.command.clone(),
                    working_dir: service.working_dir.clone(),
                    environment: service.environment.clone(),
                };
                let managed = ManagedProcess {
                    service,
                    has_handle: true,
                    start_time: Some(now),
                    restart_count: 0,
                    pid: Some(pid),
                };
                self.insert(managed);
                self.state_persistence.add_or_update_service(record);
                Ok(plan)
            },
        }
    }

    /// Puts `m` at the place `at`, where a process of the same service stands.
    fn replace_at(&mut self, at: usize, m: ManagedProcess)
        requires
            old(self).wf(),
            at < old(self).processes@.len(),
            old(self).processes@[at as int].service.id@ == m.service.id@,
            m.restart_count <= old(self).max_attempts(),
        ensures
            final(self).wf(),
            final(self).same_settings(old(self)),
            final(self).persisted() == old(self).persisted(),
            final(self)@ == old(self)@.insert(m@.service.id, m@),
    {
        proof {
            lemma_update(self.processes@, managed_key(), managed_value(), at as int, m);
        }
        self.processes.set(at, m);
    }

    /// Takes the process at the place `at` out of the live map.
    fn remove_at(&mut self, at: usize) -> (m: ManagedProcess)
        requires
            old(self).wf(),
            at < old(self).processes@.len(),
        ensures
            final(self).wf(),
            final(self).same_settings(old(self)),
            final(self).persisted() == old(self).persisted(),
            m == old(self).processes@[at as int],
            final(self)@ == old(self)@.remove(m@.service.id),
    {
        proof {
            lemma_remove(self.processes@, managed_key(), managed_value(), at as int);
            let before = self.processes@;
            let after = before.remove(at as int);
            assert forall|i: int| 0 <= i < after.len() implies (#[trigger] after[i]).restart_count
                <= self.max_restart_attempts by {
                let j = if i < at { i } else { i + 1 };
                assert(after[i] == before[j]);
            }
        }
        self.processes.remove(at)
    }

    /// Stops managing a service: takes it out of the live map, then out of
    /// the persisted records. A service that is not managed is no error; its
    /// persisted record, if one is left, goes all the same.
    pub fn stop_service(&mut self, service_id: &str) -> (action: StopAction)
        requires
            old(self).wf(),
        ensures
            final(self).wf(),
            final(self).same_settings(old(self)),
            final(self)@ == old(self)@.remove(service_id@),
            final(self).persisted() == without(old(self).persisted(), service_id@),
            action.terminate == (old(self)@.dom().contains(service_id@) && old(
                self,
            )@[service_id@].has_handle),
    {
        let terminate = match self.find(service_id) {
            Some(i) => {
                let m = self.remove_at(i);
                m.has_handle
            },
            None => {
                proof {
                    assert(self@.remove(service_id@) =~= self@);
                }
                false
            },
        };
        self.state_persistence.remove_service(service_id);
        StopAction { terminate }
    }

    /// Stops a service in order to start it again: the service leaves the
    /// live map and the persisted records as in `stop_service`, and its last
    /// descriptor is handed out for the new start. A service that was never
    /// started has none, which is the one failure.
    pub fn restart_service(&mut self, service_id: &str) -> (r: Result<RestartPlan, RestartError>)
        requires
            old(self).wf(),
        ensures
            final(self).wf(),
            final(self).same_settings(old(self)),
            final(self)@ == old(self)@.remove(service_id@),
            final(self).persisted() == without(old(self).persisted(), service_id@),
            r is Ok <==> old(self)@.dom().contains(service_id@),
            r matches Ok(plan) ==> plan.service@ == old(self)@[service_id@].service
                && plan.terminate == old(self)@[service_id@].has_handle,
    {
        let r = match self.find(service_id) {
            Some(i) => {
                let m = self.remove_at(i);
                Ok(RestartPlan { terminate: m.has_handle, service: m.service })
            },
            None => {
                proof {
                    assert(self@.remove(service_id@) =~= self@);
                }
                Err(RestartError::NeverStarted)
            },
        };
        self.state_persistence.remove_service(service_id);
        r
    }

    /// The status of a service, given whether the process table still holds
    /// its process. The table is only consulted for a process without a
    /// handle: if that one is gone, the service becomes `Stopped` and its
    /// persisted record is dropped. A service that is not managed has no
    /// status.
    pub fn resolve_status(&mut self, service_id: &str, alive: bool, now: Timestamp) -> (r: Option<
        ServiceStatus,
    >)
        requires
            old(self).wf(),
        ensures
            final(self).wf(),
            final(self).same_settings(old(self)),
            !old(self)@.dom().contains(service_id@) ==> {
                &&& r is None
                &&& final(self)@ == old(self)@
                &&& final(self).persisted() == old(self).persisted()
            },
            old(self)@.dom().contains(service_id@) ==> r == Some(
                status_reported(old(self)@[service_id@], alive),
            ),
            old(self)@.dom().contains(service_id@) && found_dead(
                old(self)@[service_id@],
                alive,
            ) ==> {
                &&& r == Some(ServiceStatus::Stopped)
                &&& final(self)@ == old(self)@.insert(
                    service_id@,
                    with_status(old(self)@[service_id@], ServiceStatus::Stopped, now),
                )
                &&& final(self).persisted() == without(old(self).persisted(), service_id@)
            },
            old(self)@.dom().contains(service_id@) && !found_dead(
                old(self)@[service_id@],
                alive,
            ) ==> {
                &&& r == Some(old(self)@[service_id@].service.status)
                &&& final(self)@ == old(self)@
                &&& final(self).persisted() == old(self).persisted()
            },
    {
        match self.find(service_id) {
            None => None,
            Some(i) => {
                let check = !self.processes[i].has_handle && self.processes[i].pid.is_some();
                if check && !alive {
                    let mut m = self.processes[i].clone();
                    m.service.status = ServiceStatus::Stopped;
                    m.service.updated_at = now;
                    self.replace_at(i, m);
                    self.state_persistence.remove_service(service_id);
                    Some(ServiceStatus::Stopped)
                } else {
                    Some(self.processes[i].service.status)
                }
            },
        }
    }

    /// The status of a service. For a process without a handle the process
    /// table is read first, and the outcome is that of `resolve_status` for
    /// what the table shows.
    pub fn get_service_status(&mut self, service_id: &str, now: Timestamp) -> (r: Option<
        ServiceStatus,
    >)
        requires
            old(self).wf(),
        ensures
            final(self).wf(),
            final(self).same_settings(old(self)),
            !old(self)@.dom().contains(service_id@) ==> {
                &&& r is None
                &&& final(self)@ == old(self)@
                &&& final(self).persisted() == old(self).persisted()
            },
            old(self)@.dom().contains(service_id@) ==> {
                ||| {
                    &&& r == Some(old(self)@[service_id@].service.status)
                    &&& final(self)@ == old(self)@
                    &&& final(self).persisted() == old(self).persisted()
                }
                ||| {
                    &&& !old(self)@[service_id@].has_handle
                    &&& old(self)@[service_id@].pid is Some
                    &&& r == Some(ServiceStatus::Stopped)
                    &&& final(self)@ == old(self)@.insert(
                        service_id@,
                        with_status(old(self)@[service_id@], ServiceStatus::Stopped, now),
                    )
                    &&& final(self).persisted() == without(old(self).persisted(), service_id@)
                }
            },
            old(self)@.dom().contains(service_id@) && (old(self)@[service_id@].has_handle || old(
                self,
            )@[service_id@].pid is None) ==> r == Some(old(self)@[service_id@].service.status),
    {
        let alive = match self.find(service_id) {
            Some(i) => {
                if self.processes[i].has_handle {
                    true
                } else {
                    match self.processes[i].pid {
                        Some(pid) => process_memory(pid).is_some(),
                        None => true,
                    }
                }
            },
            None => true,
        };
        self.resolve_status(service_id, alive, now)
    }

    /// The descriptors of all managed services, each with its current
    /// status.
    pub fn list_services(&self) -> (r: Vec<Service>)
        requires
            self.wf(),
        ensures
            forall|i: int, j: int| 0 <= i < j < r@.len() ==> r@[i]@.id != r@[j]@.id,
            forall|i: int|
                0 <= i < r@.len() ==> self@.dom().contains(#[trigger] r@[i]@.id)
                    && self@[r@[i]@.id].service == r@[i]@,
            forall|k: Seq<char>|
                self@.dom().contains(k) ==> exists|i: int|
                    0 <= i < r@.len() && (#[trigger] r@[i])@.id == k,
    {
        let mut out: Vec<Service> = Vec::new();
        let mut i: usize = 0;
        while i < self.processes.len()
            invariant
                0 <= i <= self.processes.len(),
                self.wf(),
                out@.len() == i,
                forall|j: int| 0 <= j < i ==> (#[trigger] out@[j])@ == self.processes@[j].service@,
            decreases self.processes.len() - i,
        {
            out.push(self.processes[i].service.clone());
            i = i + 1;
        }
        proof {
            assert forall|a: int, b: int| 0 <= a < b < out@.len() implies out@[a]@.id
                != out@[b]@.id by {
                assert(managed_key()(self.processes@[a]) != managed_key()(self.processes@[b]));
            }
            assert forall|a: int| 0 <= a < out@.len() implies self@.dom().contains(
                #[trigger] out@[a]@.id,
            ) && self@[out@[a]@.id].service == out@[a]@ by {
                lemma_place(self.processes@, managed_key(), managed_value(), a);
            }
            assert forall|k: Seq<char>| self@.dom().contains(k) implies exists|a: int|
                0 <= a < out@.len() && (#[trigger] out@[a])@.id == k by {
                let p = place_of(self.processes@, managed_key(), k);
                assert(managed_key()(self.processes@[p]) == k);
                assert(out@[p]@.id == k);
            }
        }
        out
    }

    /// One look of a monitor at its process. The monitor ends when the
    /// service is no longer managed, when the supervisor holds no handle of
    /// it, or when the look failed. A process found running is left alone. A
    /// process found ended loses its handle and gets the status `Error`; it
    /// is started again only while restarts are on and it has attempts left,
    /// so that the count of attempts never passes the limit.
    pub fn monitor_tick(&mut self, service_id: &str, probe: ChildProbe, now: Timestamp) -> (action:
        MonitorAction)
        requires
            old(self).wf(),
        ensures
            final(self).wf(),
            final(self).same_settings(old(self)),
            final(self).persisted() == old(self).persisted(),
            !old(self)@.dom().contains(service_id@) || !old(self)@[service_id@].has_handle ==> {
                &&& action == MonitorAction::Stop
                &&& final(self)@ == old(self)@
            },
            old(self)@.dom().contains(service_id@) && old(self)@[service_id@].has_handle ==> {
                match probe {
                    ChildProbe::Running => action == MonitorAction::Continue && final(self)@
                        == old(self)@,
                    ChildProbe::Failed => action == MonitorAction::Stop && final(self)@ == old(
                        self,
                    )@,
                    ChildProbe::Exited => {
                        &&& final(self)@ == old(self)@.insert(
                            service_id@,
                            after_exit(
                                old(self)@[service_id@],
                                old(self).restarts(),
                                old(self).max_attempts(),
                                now,
                            ),
                        )
                        &&& action == if restart_allowed(
                            old(self)@[service_id@],
                            old(self).restarts(),
                            old(self).max_attempts(),
                        ) {
                            MonitorAction::Respawn
                        } else {
                            MonitorAction::Stop
                        }
                    },
                }
            },
    {
        let at = match self.find(service_id) {
            Some(i) => i,
            None => {
                return MonitorAction::Stop;
            },
        };
        if !self.processes[at].has_handle {
            return MonitorAction::Stop;
        }
        match probe {
            ChildProbe::Running => MonitorAction::Continue,
            ChildProbe::Failed => MonitorAction::Stop,
            ChildProbe::Exited => {
                let mut m = self.processes[at].clone();
                m.has_handle = false;
                m.service.status = ServiceStatus::Error;
                m.service.updated_at = now;
                let again = self.auto_restart && m.restart_count < self.max_restart_attempts;
                if again {
                    m.restart_count = m.restart_count + 1;
                    m.service.restart_count = m.restart_count;
                }
                self.replace_at(at, m);
                if again {
                    MonitorAction::Respawn
                } else {
                    MonitorAction::Stop
                }
            },
        }
    }

    /// How to create the process of a managed service anew after a crash:
    /// from the descriptor it was started with, with the variables of the
    /// service only. There is no plan for a service that is not managed or
    /// whose command names no executable.
    pub fn respawn_plan(&self, service_id: &str) -> (r: Option<SpawnPlan>)
        requires
            self.wf(),
        ensures
            r is Some <==> self@.dom().contains(service_id@) && whitespace_tokens(
                self@[service_id@].service.command,
            ).len() > 0,
            r matches Some(plan) ==> {
                &&& plan.executable@ == whitespace_tokens(self@[service_id@].service.command)[0]
                &&& texts(plan.args@) == whitespace_tokens(
                    self@[service_id@].service.command,
                ).skip(1)
                &&& plan.working_dir@ == self@[service_id@].service.working_dir
                &&& env_view(plan.environment@) == self@[service_id@].service.environment
                &&& plan.log_path@ == joined_path(self.logs_dir(), log_file_name(service_id@))
                &&& plan.free_port is None
            },
    {
        let at = match self.find(service_id) {
            Some(i) => i,
            None => {
                return None;
            },
        };
        let service = &self.processes[at].service;
        let tokens = split_whitespace(service.command.as_str());
        proof {
            assert(texts(tokens@) =~= whitespace_tokens(service@.command));
        }
        match Self::command_parts(tokens) {
            None => None,
            Some((executable, args)) => {
                let mut name = service.id.clone();
                name.append(".log");
                let log_path = join_path(self.logs_dir.as_str(), name.as_str());
                Some(
                    SpawnPlan {
                        executable,
                        args,
                        working_dir: service.working_dir.clone(),
                        environment: service.environment.clone(),
                        log_path,
                        free_port: None,
                    },
                )
            },
        }
    }

    /// Takes note of what came of creating a crashed process anew. A new
    /// process is entered under its service with status `Running`, if the
    /// service is still managed, and the monitor goes on; without a new
    /// process the monitor ends.
    pub fn respawned(&mut self, service_id: &str, outcome: RespawnOutcome, now: Timestamp) -> (action:
        MonitorAction)
        requires
            old(self).wf(),
        ensures
            final(self).wf(),
            final(self).same_settings(old(self)),
            final(self).persisted() == old(self).persisted(),
            match outcome {
                RespawnOutcome::Failed => action == MonitorAction::Stop && final(self)@ == old(
                    self,
                )@,
                RespawnOutcome::Spawned { pid } => {
                    &&& action == MonitorAction::Continue
                    &&& final(self)@ == if old(self)@.dom().contains(service_id@) {
                        old(self)@.insert(
                            service_id@,
                            after_respawn(old(self)@[service_id@], pid, now),
                        )
                    } else {
                        old(self)@
                    }
                },
            },
    {
        match outcome {
            RespawnOutcome::Failed => MonitorAction::Stop,
            RespawnOutcome::Spawned { pid } => {
                match self.find(service_id) {
                    Some(at) => {
                        let mut m = self.processes[at].clone();
                        m.has_handle = true;
                        m.pid = Some(pid);
                        m.start_time = Some(now);
                        m.service.status = ServiceStatus::Running;
                        m.service.updated_at = now;
                        self.replace_at(at, m);
                    },
                    None => {},
                }
                MonitorAction::Continue
            },
        }
    }

    /// The records to recover from, given what was read from the state file.
    /// A file that could not be read or understood counts as no prior state.
    pub fn prior_state(read: Option<Vec<ServiceState>>) -> (r: Vec<ServiceState>)
        ensures
            r@ == match read {
                Some(records) => records@,
                None => Seq::<ServiceState>::empty(),
            },
    {
        match read {
            Some(records) => records,
            None => Vec::new(),
        }
    }

    /// The last descriptor with the id `service_id` in `services`.
    fn lookup(services: &Vec<Service>, service_id: &str) -> (r: Option<usize>)
        ensures
            match r {
                Some(i) => i < services@.len() && last_with_id(
                    service_views(services@),
                    service_id@,
                ) == Some(services@[i as int]@),
                None => last_with_id(service_views(services@), service_id@) is None,
            },
    {
        let ghost all = service_views(services@);
        let mut i: usize = services.len();
        proof {
            assert(all.take(i as int) =~= all);
        }
        while i > 0
            invariant
                0 <= i <= services@.len(),
                all == service_views(services@),
                last_with_id(all, service_id@) == last_with_id(all.take(i as int), service_id@),
            decreases i,
        {
            proof {
                assert(all.take(i as int).last() == services@[i as int - 1]@);
                assert(all.take(i as int).drop_last() =~= all.take(i as int - 1));
            }
            if text_eq(services[i - 1].id.as_str(), service_id) {
                return Some(i - 1);
            }
            i = i - 1;
        }
        None
    }

    /// Recovery of one persisted record, given whether the process table
    /// still holds its process. Where the process lives and `services` holds
    /// a descriptor of its service, the process is entered into the live map
    /// without a handle and with status `Running`, and its record is written
    /// anew. Otherwise the record is dropped and the live map stays as it is.
    pub fn recover_one(
        &mut self,
        saved: &ServiceState,
        services: &Vec<Service>,
        alive: bool,
        now: Timestamp,
    ) -> (action: RecoverAction)
        requires
            old(self).wf(),
        ensures
            final(self).wf(),
            final(self).same_settings(old(self)),
            alive && last_with_id(service_views(services@), saved@.service_id) is Some ==> {
                &&& action == RecoverAction::Monitor { pid: saved.pid }
                &&& final(self)@ == old(self)@.insert(
                    saved@.service_id,
                    recovered_view(
                        last_with_id(service_views(services@), saved@.service_id).unwrap(),
                        saved.pid,
                        now,
                    ),
                )
                &&& final(self).persisted() == without(
                    old(self).persisted(),
                    saved@.service_id,
                ).push(saved@)
            },
            !(alive && last_with_id(service_views(services@), saved@.service_id) is Some) ==> {
                &&& action == RecoverAction::Dropped
                &&& final(self)@ == old(self)@
                &&& final(self).persisted() == without(old(self).persisted(), saved@.service_id)
            },
    {
        let known = Self::lookup(services, saved.service_id.as_str());
        match known {
            Some(i) => {
                if alive {
                    proof {
                        Self::lemma_found_id(service_views(services@), saved@.service_id);
                    }
                    let mut service = services[i].clone();
                    service.status = ServiceStatus::Running;
                    service.updated_at = now;
                    let managed = ManagedProcess {
                        service,
                        has_handle: false,
                        start_time: Some(now),
                        restart_count: 0,
                        pid: Some(saved.pid),
                    };
                    self.insert(managed);
                    self.state_persistence.add_or_update_service(saved.clone());
                    return RecoverAction::Monitor { pid: saved.pid };
                }
            },
            None => {},
        }
        self.state_persistence.remove_service(saved.service_id.as_str());
        RecoverAction::Dropped
    }

    /// What `last_with_id` finds has the id asked for.
    pub proof fn lemma_found_id(services: Seq<ServiceView>, id: Seq<char>)
        ensures
            last_with_id(services, id) matches Some(s) ==> s.id == id,
        decreases services.len(),
    {
        if services.len() > 0 && services.last().id != id {
            Self::lemma_found_id(services.drop_last(), id);
        }
    }

    /// Recovery at boot, given for each record whether the process table
    /// still holds its process. `saved_states` are the records read from the
    /// state file; they become the persisted records, and each is then
    /// recovered in turn as in `recover_one`. Returned are the processes to
    /// watch. Whatever `alive` tells: every process to watch is managed
    /// without a handle and with status `Running`, no managed process is
    /// lost, and the persisted records left are among those read.
    pub fn recover_with(
        &mut self,
        saved_states: Vec<ServiceState>,
        services: &Vec<Service>,
        alive: &Vec<bool>,
        now: Timestamp,
    ) -> (watch: Vec<Recovered>)
        requires
            old(self).wf(),
        ensures
            final(self).wf(),
            final(self).same_settings(old(self)),
            (RecoveryState {
                live: final(self)@,
                persisted: final(self).persisted(),
                watch: recovered_views(watch@),
            }) == recover_upto(
                RecoveryState {
                    live: old(self)@,
                    persisted: state_views(saved_states@),
                    watch: Seq::empty(),
                },
                state_views(saved_states@),
                service_views(services@),
                alive@,
                now,
                saved_states@.len(),
            ),
            records_among(final(self).persisted(), state_views(saved_states@)),
            forall|k: Seq<char>| #[trigger]
                old(self)@.dom().contains(k) ==> final(self)@.dom().contains(k),
            forall|i: int|
                0 <= i < watch@.len() ==> {
                    &&& final(self)@.dom().contains((#[trigger] watch@[i]).service_id@)
                    &&& !final(self)@[watch@[i].service_id@].has_handle
                    &&& final(self)@[watch@[i].service_id@].service.status
                        == ServiceStatus::Running
                },
    {
        let ghost read = state_views(saved_states@);
        let ghost known = service_views(services@);
        let ghost start = RecoveryState { live: self@, persisted: read, watch: Seq::empty() };
        let snapshot = saved_states;
        let mut copy: Vec<ServiceState> = Vec::new();
        let mut c: usize = 0;
        while c < snapshot.len()
            invariant
                0 <= c <= snapshot@.len(),
                state_views(copy@) == state_views(snapshot@).take(c as int),
            decreases snapshot@.len() - c,
        {
            let r = snapshot[c].clone();
            proof {
                let all = state_views(snapshot@);
                assert(state_views(copy@.push(r)) =~= state_views(copy@).push(r@));
                assert(all.take(c as int + 1) =~= all.take(c as int).push(all[c as int]));
            }
            copy.push(r);
            c = c + 1;
        }
        proof {
            assert(state_views(snapshot@).take(c as int) =~= state_views(snapshot@));
        }
        self.state_persistence.save_state(copy);
        let mut watch: Vec<Recovered> = Vec::new();
        let mut i: usize = 0;
        proof {
            assert(recovered_views(watch@) =~= Seq::<(Seq<char>, u32)>::empty());
        }
        while i < snapshot.len()
            invariant
                0 <= i <= snapshot@.len(),
                self.wf(),
                self.same_settings(old(self)),
                read == state_views(snapshot@),
                known == service_views(services@),
                start == (RecoveryState { live: old(self)@, persisted: read, watch: Seq::empty() }),
                (RecoveryState {
                    live: self@,
                    persisted: self.persisted(),
                    watch: recovered_views(watch@),
                }) == recover_upto(start, read, known, alive@, now, i as nat),
                records_among(self.persisted(), read),
                forall|k: Seq<char>| #[trigger]
                    old(self)@.dom().contains(k) ==> self@.dom().contains(k),
                forall|j: int|
                    0 <= j < watch@.len() ==> {
                        &&& self@.dom().contains((#[trigger] watch@[j]).service_id@)
                        &&& !self@[watch@[j].service_id@].has_handle
                        &&& self@[watch@[j].service_id@].service.status == ServiceStatus::Running
                    },
            decreases snapshot@.len() - i,
        {
            let saved = &snapshot[i];
            let lives = i < alive.len() && alive[i];
            let ghost before = self.persisted();
            let ghost map_before = self@;
            let ghost watch_before = recovered_views(watch@);
            let action = self.recover_one(saved, services, lives, now);
            proof {
                lemma_without_among(before, saved@.service_id);
                let rest = without(before, saved@.service_id);
                assert(read[i as int] == saved@);
                assert(lives == told_alive(alive@, i as int));
                assert forall|a: int| 0 <= a < self.persisted().len() implies read.contains(
                    #[trigger] self.persisted()[a],
                ) by {
                    if a < rest.len() {
                        assert(before.contains(rest[a]));
                        let b = choose|b: int| 0 <= b < before.len() && before[b] == rest[a];
                        assert(read.contains(before[b]));
                    }
                }
            }
            match action {
                RecoverAction::Monitor { pid } => {
                    let entry = Recovered { service_id: saved.service_id.clone(), pid };
                    proof {
                        assert(recovered_views(watch@.push(entry)) =~= watch_before.push(
                            (saved@.service_id, saved.pid),
                        ));
                        assert forall|j: int| 0 <= j < watch@.push(entry).len() implies {
                            &&& self@.dom().contains((#[trigger] watch@.push(entry)[j]).service_id@)
                            &&& !self@[watch@.push(entry)[j].service_id@].has_handle
                            &&& self@[watch@.push(entry)[j].service_id@].service.status
                                == ServiceStatus::Running
                        } by {
                            if j < watch@.len() {
                                assert(watch@.push(entry)[j] == watch@[j]);
                                assert(map_before.dom().contains(watch@[j].service_id@));
                            }
                        }
                    }
                    watch.push(entry);
                },
                RecoverAction::Dropped => {},
            }
            i = i + 1;
        }
        watch
    }

    /// Recovery at boot: the process table is read for the process of each
    /// record, and the outcome is that of `recover_with` for what the table
    /// shows.
    pub fn recover_processes(
        &mut self,
        saved_states: Vec<ServiceState>,
        services: &Vec<Service>,
        now: Timestamp,
    ) -> (watch: Vec<Recovered>)
        requires
            old(self).wf(),
        ensures
            final(self).wf(),
            final(self).same_settings(old(self)),
            exists|alive: Seq<bool>|
                #![trigger recover_upto(
                    RecoveryState {
                        live: old(self)@,
                        persisted: state_views(saved_states@),
                        watch: Seq::empty(),
                    },
                    state_views(saved_states@),
                    service_views(services@),
                    alive,
                    now,
                    saved_states@.len(),
                )]
                (RecoveryState {
                    live: final(self)@,
                    persisted: final(self).persisted(),
                    watch: recovered_views(watch@),
                }) == recover_upto(
                    RecoveryState {
                        live: old(self)@,
                        persisted: state_views(saved_states@),
                        watch: Seq::empty(),
                    },
                    state_views(saved_states@),
                    service_views(services@),
                    alive,
                    now,
                    saved_states@.len(),
                ),
            records_among(final(self).persisted(), state_views(saved_states@)),
            forall|k: Seq<char>| #[trigger]
                old(self)@.dom().contains(k) ==> final(self)@.dom().contains(k),
            forall|i: int|
                0 <= i < watch@.len() ==> {
                    &&& final(self)@.dom().contains((#[trigger] watch@[i]).service_id@)
                    &&& !final(self)@[watch@[i].service_id@].has_handle
                    &&& final(self)@[watch@[i].service_id@].service.status
                        == ServiceStatus::Running
                },
    {
        let mut alive: Vec<bool> = Vec::new();
        let mut i: usize = 0;
        while i < saved_states.len()
            invariant
                0 <= i <= saved_states@.len(),
            decreases saved_states@.len() - i,
        {
            alive.push(process_memory(saved_states[i].pid).is_some());
            i = i + 1;
        }
        self.recover_with(saved_states, services, &alive, now)
    }

    /// One look of the monitor of a recovered process, given whether the
    /// process table still holds the process. The monitor ends when the
    /// service is no longer managed. When the process is gone, the service
    /// becomes `Stopped`, its persisted record is dropped and the monitor
    /// ends.
    pub fn recovered_tick(&mut self, service_id: &str, alive: bool, now: Timestamp) -> (action:
        MonitorAction)
        requires
            old(self).wf(),
        ensures
            final(self).wf(),
            final(self).same_settings(old(self)),
            !old(self)@.dom().contains(service_id@) ==> {
                &&& action == MonitorAction::Stop
                &&& final(self)@ == old(self)@
                &&& final(self).persisted() == old(self).persisted()
            },
            old(self)@.dom().contains(service_id@) && alive ==> {
                &&& action == MonitorAction::Continue
                &&& final(self)@ == old(self)@
                &&& final(self).persisted() == old(self).persisted()
            },
            old(self)@.dom().contains(service_id@) && !alive ==> {
                &&& action == MonitorAction::Stop
                &&& final(self)@ == old(self)@.insert(
                    service_id@,
                    with_status(old(self)@[service_id@], ServiceStatus::Stopped, now),
                )
                &&& final(self).persisted() == without(old(self).persisted(), service_id@)
            },
    {
        match self.find(service_id) {
            None => MonitorAction::Stop,
            Some(at) => {
                if alive {
                    MonitorAction::Continue
                } else {
                    let mut m = self.processes[at].clone();
                    m.service.status = ServiceStatus::Stopped;
                    m.service.updated_at = now;
                    self.replace_at(at, m);
                    self.state_persistence.remove_service(service_id);
                    MonitorAction::Stop
                }
            },
        }
    }

    /// One look of the monitor of the recovered process `pid`: the process
    /// table is read, and the outcome is that of `recovered_tick` for what it
    /// shows.
    pub fn monitor_recovered_process(&mut self, service_id: &str, pid: u32, now: Timestamp) -> (action:
        MonitorAction)
        requires
            old(self).wf(),
        ensures
            final(self).wf(),
            final(self).same_settings(old(self)),
            !old(self)@.dom().contains(service_id@) ==> {
                &&& action == MonitorAction::Stop
                &&& final(self)@ == old(self)@
                &&& final(self).persisted() == old(self).persisted()
            },
            old(self)@.dom().contains(service_id@) ==> {
                ||| {
                    &&& action == MonitorAction::Continue
                    &&& final(self)@ == old(self)@
                    &&& final(self).persisted() == old(self).persisted()
                }
                ||| {
                    &&& action == MonitorAction::Stop
                    &&& final(self)@ == old(self)@.insert(
                        service_id@,
                        with_status(old(self)@[service_id@], ServiceStatus::Stopped, now),
                    )
                    &&& final(self).persisted() == without(old(self).persisted(), service_id@)
                }
            },
    {
        let alive = process_memory(pid).is_some();
        self.recovered_tick(service_id, alive, now)
    }

    /// What is known of a managed service at `now`, given the memory that the
    /// process table shows for its process, if it shows the process at all. A
    /// service that is not managed has no information.
    pub fn process_info(&self, service_id: &str, memory: Option<u64>, now: Timestamp) -> (r: Option<
        ProcessInfo,
    >)
        requires
            self.wf(),
        ensures
            r is Some <==> self@.dom().contains(service_id@),
            r matches Some(info) ==> {
                &&& info.pid == self@[service_id@].pid
                &&& info.status == self@[service_id@].service.status
                &&& info.uptime == match self@[service_id@].start_time {
                    Some(t) => uptime_secs(t, now),
                    None => 0,
                }
                &&& info.memory_usage == match (self@[service_id@].pid, memory) {
                    (Some(_), Some(bytes)) => bytes,
                    _ => 0,
                }
            },
    {
        match self.find(service_id) {
            None => None,
            Some(at) => {
                let m = &self.processes[at];
                let uptime = match &m.start_time {
                    Some(t) => uptime_between(t, &now),
                    None => 0,
                };
                let memory_usage = match (m.pid, memory) {
                    (Some(_), Some(bytes)) => bytes,
                    _ => 0,
                };
                Some(ProcessInfo { pid: m.pid, memory_usage, uptime, status: m.service.status })
            },
        }
    }

    /// What is known of a managed service at `now`; the memory is read from
    /// the process table.
    pub fn get_process_info(&self, service_id: &str, now: Timestamp) -> (r: Option<ProcessInfo>)
        requires
            self.wf(),
        ensures
            r is Some <==> self@.dom().contains(service_id@),
            r matches Some(info) ==> {
                &&& info.pid == self@[service_id@].pid
                &&& info.status == self@[service_id@].service.status
                &&& info.uptime == match self@[service_id@].start_time {
                    Some(t) => uptime_secs(t, now),
                    None => 0,
                }
                &&& self@[service_id@].pid is None ==> info.memory_usage == 0
            },
    {
        let memory = match self.find(service_id) {
            Some(at) => match self.processes[at].pid {
                Some(pid) => process_memory(pid),
                None => None,
            },
            None => None,
        };
        self.process_info(service_id, memory, now)
    }

    /// The process that a listing of a port's owners names first: the first
    /// line of the listing, read as a number. `success` tells whether the
    /// listing command ended well.
    pub fn check_port_in_use(success: bool, listing: &str) -> (r: Option<u32>)
        ensures
            r == listed_owner(success, listing@),
    {
        if !success {
            return None;
        }
        let whole = trim(listing);
        if whole.is_empty() {
            return None;
        }
        parse_u32(trim(first_line_of(whole)))
    }

    /// First step of freeing a port: its owner, if it has one, is asked to
    /// end.
    pub fn kill_process_by_port(owner: Option<u32>) -> (action: ReclaimAction)
        ensures
            action == match owner {
                Some(pid) => ReclaimAction::Terminate { pid },
                None => ReclaimAction::Nothing,
            },
    {
        match owner {
            Some(pid) => ReclaimAction::Terminate { pid },
            None => ReclaimAction::Nothing,
        }
    }

    /// Second step of freeing a port, after the grace period: if the port
    /// still has an owner, the process that was asked to end is ended by
    /// force.
    pub fn escalate_port_kill(asked: u32, owner_now: Option<u32>) -> (action: ReclaimAction)
        ensures
            action == if owner_now is Some {
                ReclaimAction::Kill { pid: asked }
            } else {
                ReclaimAction::Nothing
            },
    {
        match owner_now {
            Some(_) => ReclaimAction::Kill { pid: asked },
            None => ReclaimAction::Nothing,
        }
    }
}

} // verus!
