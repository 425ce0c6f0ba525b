//! The record of which services are believed to be running. The records are
//! kept here as a list; writing the list to its file and reading it back is
//! left to the caller.

use vstd::prelude::*;
use crate::models::{env_view, EnvVar, Timestamp};
use crate::plain::text_eq;

verus! {

/// What is remembered of one running service.
#[derive(Debug)]
pub struct ServiceState {
    pub service_id: String,
    pub pid: u32,
    pub started_at: Timestamp,
    pub command: String,
    pub working_dir: String,
    pub environment: Vec<EnvVar>,
}

/// What a record holds, with its texts as sequences of characters.
pub struct ServiceStateView {
    pub service_id: Seq<char>,
    pub pid: u32,
    pub started_at: Timestamp,
    pub command: Seq<char>,
    pub working_dir: Seq<char>,
    pub environment: Seq<(Seq<char>, Seq<char>)>,
}

impl View for ServiceState {
    type V = ServiceStateView;

    open spec fn view(&self) -> ServiceStateView {
        ServiceStateView {
            service_id: self.service_id@,
            pid: self.pid,
            started_at: self.started_at,
            command: self.command@,
            working_dir: self.working_dir@,
            environment: env_view(self.environment@),
        }
    }
}

impl Clone for ServiceState {
    fn clone(&self) -> (r: Self)
        ensures
            r@ == self@,
    {
        ServiceState {
            service_id: self.service_id.clone(),
            pid: self.pid,
            started_at: self.started_at,
            command: self.command.clone(),
            working_dir: self.working_dir.clone(),
            environment: self.environment.clone(),
        }
    }
}

/// The records of a list, each by its view.
pub open spec fn state_views(records: Seq<ServiceState>) -> Seq<ServiceStateView> {
    records.map_values(|r: ServiceState| r@)
}

/// The record is of another service than `service_id`.
pub open spec fn of_other(service_id: Seq<char>) -> spec_fn(ServiceStateView) -> bool {
    |r: ServiceStateView| r.service_id != service_id
}

/// The records without those of `service_id`, the others in their order.
pub open spec fn without(records: Seq<ServiceStateView>, service_id: Seq<char>) -> Seq<
    ServiceStateView,
> {
    records.filter(of_other(service_id))
}

/// Some record is of `service_id`.
pub open spec fn has_record(records: Seq<ServiceStateView>, service_id: Seq<char>) -> bool {
    exists|i: int| 0 <= i < records.len() && (#[trigger] records[i]).service_id == service_id
}

/// After the records of a service are taken out, none of that service is
/// left, and the records of every other service are there as before.
pub proof fn lemma_without(records: Seq<ServiceStateView>, service_id: Seq<char>)
    ensures
        !has_record(without(records, service_id), service_id),
        forall|other: Seq<char>|
            other != service_id ==> (#[trigger] has_record(without(records, service_id), other)
                == has_record(records, other)),
        without(records, service_id).len() <= records.len(),
        !has_record(records, service_id) ==> without(records, service_id) == records,
    decreases records.len(),
{
    reveal(Seq::filter);
    let rest = without(records, service_id);
    if records.len() > 0 {
        let init = records.drop_last();
        let last = records.last();
        lemma_without(init, service_id);
        let rest_init = without(init, service_id);
        if has_record(rest, service_id) {
            let i = choose|i: int|
                0 <= i < rest.len() && (#[trigger] rest[i]).service_id == service_id;
            if i < rest_init.len() {
                assert(rest_init[i].service_id == service_id);
            }
        }
        assert forall|other: Seq<char>| other != service_id implies (#[trigger] has_record(
            rest,
            other,
        ) == has_record(records, other)) by {
            if has_record(rest, other) {
                let i = choose|i: int| 0 <= i < rest.len() && (#[trigger] rest[i]).service_id == other;
                if i < rest_init.len() {
                    assert(rest_init[i].service_id == other);
                    assert(has_record(rest_init, other));
                    assert(has_record(init, other));
                    let j = choose|j: int|
                        0 <= j < init.len() && (#[trigger] init[j]).service_id == other;
                    assert(records[j].service_id == other);
                } else {
                    assert(records[records.len() - 1].service_id == other);
                }
            }
            if has_record(records, other) {
                let j = choose|j: int|
                    0 <= j < records.len() && (#[trigger] records[j]).service_id == other;
                if j < init.len() {
                    assert(init[j].service_id == other);
                    assert(has_record(rest_init, other));
                    let i = choose|i: int|
                        0 <= i < rest_init.len() && (#[trigger] rest_init[i]).service_id == other;
                    assert(rest[i].service_id == other);
                } else {
                    assert(rest[rest.len() - 1].service_id == other);
                }
            }
        }
        if !has_record(records, service_id) {
            assert(!has_record(init, service_id)) by {
                if has_record(init, service_id) {
                    let j = choose|j: int|
                        0 <= j < init.len() && (#[trigger] init[j]).service_id == service_id;
                    assert(records[j].service_id == service_id);
                }
            }
            assert(records[records.len() - 1].service_id != service_id);
            assert(rest =~= records);
        }
    } else {
        assert(rest =~= records);
    }
}

/// All records of `part` are records of `whole`.
pub open spec fn records_among(part: Seq<ServiceStateView>, whole: Seq<ServiceStateView>) -> bool {
    forall|i: int| 0 <= i < part.len() ==> whole.contains(#[trigger] part[i])
}

/// Taking the records of a service out leaves only records that were there.
pub proof fn lemma_without_among(records: Seq<ServiceStateView>, service_id: Seq<char>)
    ensures
        records_among(without(records, service_id), records),
    decreases records.len(),
{
    reveal(Seq::filter);
    if records.len() > 0 {
        let init = records.drop_last();
        lemma_without_among(init, service_id);
        let rest = without(records, service_id);
        let rest_init = without(init, service_id);
        assert forall|i: int| 0 <= i < rest.len() implies records.contains(#[trigger] rest[i]) by {
            if i < rest_init.len() {
                assert(init.contains(rest_init[i]));
                let j = choose|j: int| 0 <= j < init.len() && init[j] == rest_init[i];
                assert(records[j] == rest[i]);
            } else {
                assert(records[records.len() - 1] == rest[i]);
            }
        }
    }
}

/// The persisted records and the file they belong to.
pub struct StatePersistence {
    state_file: String,
    services: Vec<ServiceState>,
}

impl StatePersistence {
    /// The path of the state file.
    pub closed spec fn file(&self) -> Seq<char> {
        self.state_file@
    }

    /// The records, in the order in which they were last written.
    pub closed spec fn records(&self) -> Seq<ServiceStateView> {
        state_views(self.services@)
    }

    /// A store for the file at `state_file`, without records.
    pub fn new(state_file: String) -> (p: Self)
        ensures
            p.file() == state_file@,
            p.records() == Seq::<ServiceStateView>::empty(),
    {
        let p = StatePersistence { state_file, services: Vec::new() };
        assert(p.records() =~= Seq::<ServiceStateView>::empty());
        p
    }

    /// The path of the state file.
    pub fn state_file(&self) -> (r: &str)
        ensures
            r@ == self.file(),
    {
        self.state_file.as_str()
    }

    /// Replaces all records by `services`.
    pub fn save_state(&mut self, services: Vec<ServiceState>)
        ensures
            final(self).file() == old(self).file(),
            final(self).records() == state_views(services@),
    {
        self.services = services;
    }

    /// The records as they stand.
    pub fn load_state(&self) -> (r: Vec<ServiceState>)
        ensures
            state_views(r@) == self.records(),
    {
        let mut out: Vec<ServiceState> = Vec::new();
        let mut i: usize = 0;
        while i < self.services.len()
            invariant
                0 <= i <= self.services@.len(),
                state_views(out@) == state_views(self.services@).take(i as int),
            decreases self.services@.len() - i,
        {
            let r = self.services[i].clone();
            proof {
                let all = state_views(self.services@);
                assert(state_views(out@.push(r)) =~= state_views(out@).push(r@));
                assert(all.take(i as int + 1) =~= all.take(i as int).push(all[i as int]));
            }
            out.push(r);
            i = i + 1;
        }
        proof {
            assert(state_views(self.services@).take(i as int) =~= state_views(self.services@));
        }
        out
    }

    /// Takes out every record of `service_id`; the others keep their order.
    pub fn remove_service(&mut self, service_id: &str)
        ensures
            final(self).file() == old(self).file(),
            final(self).records() == without(old(self).records(), service_id@),
    {
        let ghost before = state_views(self.services@);
        let ghost pred = of_other(service_id@);
        let mut kept: Vec<ServiceState> = Vec::new();
        let mut i: usize = 0;
        proof {
            assert(before.take(0) =~= Seq::<ServiceStateView>::empty());
            assert(state_views(kept@) =~= before.take(0).filter(pred));
        }
        while i < self.services.len()
            invariant
                0 <= i <= self.services@.len(),
                before == state_views(self.services@),
                pred == of_other(service_id@),
                state_views(kept@) == before.take(i as int).filter(pred),
            decreases self.services@.len() - i,
        {
            let other = !text_eq(self.services[i].service_id.as_str(), service_id);
            proof {
                let next = before.take(i as int + 1);
                assert(next.drop_last() =~= before.take(i as int));
                assert(next.last() == self.services@[i as int]@);
                reveal(Seq::filter);
            }
            if other {
                let r = self.services[i].clone();
                proof {
                    assert(state_views(kept@.push(r)) =~= state_views(kept@).push(r@));
                }
                kept.push(r);
            }
            i = i + 1;
        }
        proof {
            assert(before.take(i as int) =~= before);
        }
        self.services = kept;
    }

    /// Puts `service_state` in the place of whatever was recorded of its
    /// service: earlier records of the service go, and the new one is added
    /// at the end.
    pub fn add_or_update_service(&mut self, service_state: ServiceState)
        ensures
            final(self).file() == old(self).file(),
            final(self).records() == without(old(self).records(), service_state@.service_id).push(
                service_state@,
            ),
    {
        self.remove_service(service_state.service_id.as_str());
        proof {
            assert(state_views(self.services@.push(service_state)) =~= state_views(
                self.services@,
            ).push(service_state@));
        }
        self.services.push(service_state);
    }
}

} // verus!
