//! Fan-out of log entries to live subscribers: one bounded channel per
//! service. A channel numbers its entries as they are published and keeps
//! the newest of them; a subscriber remembers the number it reads next. So a
//! new subscriber sees only what is published after it subscribed, and a
//! slow one loses the oldest entries it has not read, without holding up the
//! publisher or any other subscriber.

use vstd::prelude::*;
use crate::keyed::{as_map, distinct_keys, lemma_place, lemma_push, lemma_update, place_of};
use crate::log_manager::last_n;
use crate::models::{entry_views, LogEntry, LogEntryView};
use crate::plain::text_eq;

verus! {

/// How many entries a channel keeps for its subscribers.
pub const CHANNEL_CAPACITY: usize = 1000;

/// The channel of one service.
#[derive(Debug)]
pub struct Channel {
    pub service_id: String,
    /// How many entries were published so far.
    pub published: u64,
    /// The newest entries, oldest first.
    pub retained: Vec<LogEntry>,
}

/// A channel as numbers and entries: entry number `published -
/// retained.len()` is the first of `retained`.
pub struct ChannelView {
    pub published: nat,
    pub retained: Seq<LogEntryView>,
}

impl ChannelView {
    /// The number of the oldest entry that is still kept.
    pub open spec fn oldest(self) -> int {
        self.published - self.retained.len()
    }

    /// The channel keeps no more than its capacity and no more than was
    /// published.
    pub open spec fn wf(self) -> bool {
        self.retained.len() <= CHANNEL_CAPACITY && self.retained.len() <= self.published
    }

    /// The channel after `e` was published: `e` is the newest entry, and
    /// where the channel was full the oldest one is gone. A channel that has
    /// run out of numbers takes no more entries.
    pub open spec fn publish(self, e: LogEntryView) -> ChannelView {
        if self.published >= u64::MAX {
            self
        } else if self.retained.len() >= CHANNEL_CAPACITY {
            ChannelView { published: self.published + 1, retained: self.retained.skip(1).push(e) }
        } else {
            ChannelView { published: self.published + 1, retained: self.retained.push(e) }
        }
    }

    /// The channel after all of `entries` were published, in their order.
    pub open spec fn publish_all(self, entries: Seq<LogEntryView>) -> ChannelView
        decreases entries.len(),
    {
        if entries.len() == 0 {
            self
        } else {
            self.publish_all(entries.drop_last()).publish(entries.last())
        }
    }

    /// The number from which a subscriber that wants entry `next` is served:
    /// `next` itself where that entry is still kept or yet to come, else the
    /// oldest entry kept.
    pub open spec fn serve_from(self, next: u64) -> int {
        if next < self.oldest() {
            self.oldest()
        } else if next > self.published {
            self.published as int
        } else {
            next as int
        }
    }

    /// The entries handed to a subscriber that wants entry `next`.
    pub open spec fn pending(self, next: u64) -> Seq<LogEntryView> {
        self.retained.skip(self.serve_from(next) - self.oldest())
    }

    /// How many entries a subscriber that wants entry `next` has lost.
    pub open spec fn missed(self, next: u64) -> int {
        if next < self.oldest() {
            self.oldest() - next
        } else {
            0
        }
    }
}

/// Publishing keeps a channel well formed; as long as the numbers last it
/// counts every entry, and it keeps the newest entries up to the capacity.
pub proof fn lemma_publish_all(ch: ChannelView, entries: Seq<LogEntryView>)
    requires
        ch.wf(),
        ch.published + entries.len() <= u64::MAX,
    ensures
        ch.publish_all(entries).wf(),
        ch.publish_all(entries).published == ch.published + entries.len(),
        ch.publish_all(entries).retained == last_n(
            ch.retained + entries,
            CHANNEL_CAPACITY as int,
        ),
    decreases entries.len(),
{
    if entries.len() == 0 {
        assert(ch.retained + entries =~= ch.retained);
        assert(last_n(ch.retained, CHANNEL_CAPACITY as int) =~= ch.retained);
    } else {
        let init = entries.drop_last();
        lemma_publish_all(ch, init);
        let mid = ch.publish_all(init);
        let all = ch.retained + entries;
        assert(ch.retained + init =~= all.drop_last());
        assert(mid.publish(entries.last()).retained =~= last_n(all, CHANNEL_CAPACITY as int));
    }
}

/// A subscriber that subscribes and then asks after further entries were
/// published gets only entries published after it subscribed, in the order
/// of their publishing: all of them where they are no more than the channel
/// keeps, else the newest of them, the others being counted as missed.
/// Nothing published before the subscription is ever handed to it.
pub proof fn lemma_late_subscriber(ch: ChannelView, later: Seq<LogEntryView>)
    requires
        ch.wf(),
        ch.published + later.len() <= u64::MAX,
    ensures
        ch.publish_all(later).pending(ch.published as u64) == last_n(
            later,
            CHANNEL_CAPACITY as int,
        ),
        ch.publish_all(later).missed(ch.published as u64) == later.len() - last_n(
            later,
            CHANNEL_CAPACITY as int,
        ).len(),
        ch.pending(ch.published as u64) == Seq::<LogEntryView>::empty(),
{
    lemma_publish_all(ch, later);
    let end = ch.publish_all(later);
    let all = ch.retained + later;
    assert(end.pending(ch.published as u64) =~= last_n(later, CHANNEL_CAPACITY as int));
    assert(ch.pending(ch.published as u64) =~= Seq::<LogEntryView>::empty());
}

/// A subscriber's place in the channel of a service.
#[derive(Debug)]
pub struct Subscription {
    pub service_id: String,
    /// The number of the entry to read next.
    pub next: u64,
}

/// What a subscriber gets when it asks.
#[derive(Debug)]
pub struct Delivery {
    /// The entries not yet read that the channel still keeps, oldest first.
    pub entries: Vec<LogEntry>,
    /// How many entries were lost to this subscriber since it last asked.
    pub missed: u64,
}

/// The id that tells one channel from another.
pub open spec fn channel_key() -> spec_fn(Channel) -> Seq<char> {
    |c: Channel| c.service_id@
}

/// What the map keeps of a channel.
pub open spec fn channel_value() -> spec_fn(Channel) -> ChannelView {
    |c: Channel| ChannelView { published: c.published as nat, retained: entry_views(c.retained@) }
}

/// The channels of all services.
pub struct LogHub {
    channels: Vec<Channel>,
}

impl View for LogHub {
    type V = Map<Seq<char>, ChannelView>;

    closed spec fn view(&self) -> Map<Seq<char>, ChannelView> {
        as_map(self.channels@, channel_key(), channel_value())
    }
}

impl LogHub {
    /// No service has two channels, and every channel is well formed.
    pub closed spec fn wf(&self) -> bool {
        &&& distinct_keys(self.channels@, channel_key())
        &&& forall|i: int|
            0 <= i < self.channels@.len() ==> channel_value()(#[trigger] self.channels@[i]).wf()
    }

    /// In a well-formed hub every channel is well formed.
    pub proof fn lemma_wf(&self)
        requires
            self.wf(),
        ensures
            forall|k: Seq<char>| #[trigger] self@.dom().contains(k) ==> self@[k].wf(),
    {
        assert forall|k: Seq<char>| #[trigger] self@.dom().contains(k) implies self@[k].wf() by {
            let p = place_of(self.channels@, channel_key(), k);
            assert(channel_key()(self.channels@[p]) == k);
        }
    }

    /// A hub without channels.
    pub fn new() -> (h: Self)
        ensures
            h.wf(),
            h@ == Map::<Seq<char>, ChannelView>::empty(),
    {
        let h = LogHub { channels: Vec::new() };
        assert(h@ =~= Map::<Seq<char>, ChannelView>::empty());
        h
    }

    fn find(&self, service_id: &str) -> (r: Option<usize>)
        requires
            self.wf(),
        ensures
            match r {
                Some(i) => i < self.channels@.len() && self.channels@[i as int].service_id@
                    == service_id@ && self@.dom().contains(service_id@) && self@[service_id@]
                    == channel_value()(self.channels@[i as int]),
                None => !self@.dom().contains(service_id@),
            },
    {
        let mut i: usize = 0;
        while i < self.channels.len()
            invariant
                0 <= i <= self.channels.len(),
                self.wf(),
                forall|j: int|
                    0 <= j < i ==> (#[trigger] self.channels@[j]).service_id@ != service_id@,
            decreases self.channels.len() - i,
        {
            if text_eq(self.channels[i].service_id.as_str(), service_id) {
                proof {
                    lemma_place(self.channels@, channel_key(), channel_value(), i as int);
                }
                return Some(i);
            }
            i = i + 1;
        }
        None
    }

    /// Opens the channel of a service. A service that has one keeps it.
    pub fn open_channel(&mut self, service_id: String)
        requires
            old(self).wf(),
        ensures
            final(self).wf(),
            final(self)@ == if old(self)@.dom().contains(service_id@) {
                old(self)@
            } else {
                old(self)@.insert(
                    service_id@,
                    ChannelView { published: 0, retained: Seq::empty() },
                )
            },
    {
        match self.find(service_id.as_str()) {
            Some(_) => {},
            None => {
                let c = Channel { service_id, published: 0, retained: Vec::new() };
                proof {
                    assert(entry_views(c.retained@) =~= Seq::<LogEntryView>::empty());
                    lemma_push(self.channels@, channel_key(), channel_value(), c);
                }
                self.channels.push(c);
            },
        }
    }

    /// Publishes an entry on the channel of its service. Without such a
    /// channel the entry is dropped.
    pub fn publish(&mut self, entry: LogEntry)
        requires
            old(self).wf(),
        ensures
            final(self).wf(),
            final(self)@ == if old(self)@.dom().contains(entry@.service_id) {
                old(self)@.insert(
                    entry@.service_id,
                    old(self)@[entry@.service_id].publish(entry@),
                )
            } else {
                old(self)@
            },
    {
        let at = match self.find(entry.service_id.as_str()) {
            Some(i) => i,
            None => {
                return ;
            },
        };
        let ghost before = channel_value()(self.channels@[at as int]);
        proof {
            self.lemma_wf();
        }
        if self.channels[at].published == u64::MAX {
            proof {
                assert(self@.insert(entry@.service_id, before) =~= self@);
            }
            return ;
        }
        let mut retained: Vec<LogEntry> = Vec::new();
        let skip: usize = if self.channels[at].retained.len() >= CHANNEL_CAPACITY {
            1
        } else {
            0
        };
        let mut i: usize = skip;
        while i < self.channels[at].retained.len()
            invariant
                skip <= i <= self.channels[at as int].retained@.len(),
                at < self.channels@.len(),
                entry_views(retained@) == before.retained.subrange(skip as int, i as int),
                before == channel_value()(self.channels@[at as int]),
            decreases self.channels[at as int].retained@.len() - i,
        {
            let e = self.channels[at].retained[i].clone();
            proof {
                assert(entry_views(retained@.push(e)) =~= entry_views(retained@).push(e@));
                assert(before.retained[i as int] == e@);
                assert(before.retained.subrange(skip as int, i as int + 1)
                    =~= before.retained.subrange(skip as int, i as int).push(e@));
            }
            retained.push(e);
            i = i + 1;
        }
        proof {
            assert(before.retained.subrange(skip as int, before.retained.len() as int)
                =~= before.retained.skip(skip as int));
            assert(before.retained.skip(0) =~= before.retained);
            assert(entry_views(retained@.push(entry)) =~= entry_views(retained@).push(entry@));
        }
        retained.push(entry);
        let c = Channel {
            service_id: self.channels[at].service_id.clone(),
            published: self.channels[at].published + 1,
            retained,
        };
        proof {
            assert(channel_value()(c) == before.publish(entry@));
            lemma_update(self.channels@, channel_key(), channel_value(), at as int, c);
        }
        self.channels.set(at, c);
    }

    /// A subscription to the channel of a service, if it has one. It starts
    /// behind everything published so far.
    pub fn subscribe(&self, service_id: &str) -> (r: Option<Subscription>)
        requires
            self.wf(),
        ensures
            r is Some <==> self@.dom().contains(service_id@),
            r matches Some(sub) ==> sub.service_id@ == service_id@ && sub.next
                == self@[service_id@].published,
    {
        match self.find(service_id) {
            Some(i) => Some(
                Subscription {
                    service_id: self.channels[i].service_id.clone(),
                    next: self.channels[i].published,
                },
            ),
            None => None,
        }
    }

    /// A subscription to every channel there is.
    pub fn subscribe_all(&self) -> (subs: Vec<Subscription>)
        requires
            self.wf(),
        ensures
            forall|i: int|
                0 <= i < subs@.len() ==> self@.dom().contains((#[trigger] subs@[i]).service_id@)
                    && subs@[i].next == self@[subs@[i].service_id@].published,
            forall|i: int, j: int|
                0 <= i < j < subs@.len() ==> (#[trigger] subs@[i]).service_id@ != (
                #[trigger] subs@[j]).service_id@,
            forall|k: Seq<char>|
                self@.dom().contains(k) ==> exists|i: int|
                    0 <= i < subs@.len() && (#[trigger] subs@[i]).service_id@ == k,
    {
        let mut subs: Vec<Subscription> = Vec::new();
        let mut i: usize = 0;
        while i < self.channels.len()
            invariant
                0 <= i <= self.channels.len(),
                self.wf(),
                subs@.len() == i,
                forall|j: int|
                    0 <= j < i ==> (#[trigger] subs@[j]).service_id@
                        == self.channels@[j].service_id@ && subs@[j].next
                        == self.channels@[j].published,
            decreases self.channels.len() - i,
        {
            subs.push(
                Subscription {
                    service_id: self.channels[i].service_id.clone(),
                    next: self.channels[i].published,
                },
            );
            i = i + 1;
        }
        proof {
            assert forall|a: int| 0 <= a < subs@.len() implies self@.dom().contains(
                (#[trigger] subs@[a]).service_id@,
            ) && subs@[a].next == self@[subs@[a].service_id@].published by {
                lemma_place(self.channels@, channel_key(), channel_value(), a);
            }
            assert forall|a: int, b: int| 0 <= a < b < subs@.len() implies (
            #[trigger] subs@[a]).service_id@ != (#[trigger] subs@[b]).service_id@ by {
                assert(channel_key()(self.channels@[a]) != channel_key()(self.channels@[b]));
            }
            assert forall|k: Seq<char>| self@.dom().contains(k) implies exists|a: int|
                0 <= a < subs@.len() && (#[trigger] subs@[a]).service_id@ == k by {
                let p = place_of(self.channels@, channel_key(), k);
                assert(channel_key()(self.channels@[p]) == k);
                assert(subs@[p].service_id@ == k);
            }
        }
        subs
    }

    /// Hands a subscriber what it has not read yet and moves it behind the
    /// newest entry. Entries that the channel no longer keeps are counted as
    /// missed. A subscription to a channel that does not exist gets nothing
    /// and stays as it is.
    pub fn receive(&self, sub: &mut Subscription) -> (d: Delivery)
        requires
            self.wf(),
        ensures
            final(sub).service_id == old(sub).service_id,
            self@.dom().contains(old(sub).service_id@) ==> {
                &&& entry_views(d.entries@) == self@[old(sub).service_id@].pending(old(sub).next)
                &&& d.missed == self@[old(sub).service_id@].missed(old(sub).next)
                &&& final(sub).next == self@[old(sub).service_id@].published
            },
            !self@.dom().contains(old(sub).service_id@) ==> {
                &&& d.entries@.len() == 0
                &&& d.missed == 0
                &&& final(sub).next == old(sub).next
            },
    {
        let at = match self.find(sub.service_id.as_str()) {
            Some(i) => i,
            None => {
                return Delivery { entries: Vec::new(), missed: 0 };
            },
        };
        proof {
            self.lemma_wf();
        }
        let channel = &self.channels[at];
        let ghost view = channel_value()(*channel);
        let kept = channel.retained.len() as u64;
        let oldest: u64 = channel.published - kept;
        let (from, missed): (u64, u64) = if sub.next < oldest {
            (oldest, oldest - sub.next)
        } else if sub.next > channel.published {
            (channel.published, 0)
        } else {
            (sub.next, 0)
        };
        let start: usize = (from - oldest) as usize;
        let mut entries: Vec<LogEntry> = Vec::new();
        let mut i: usize = start;
        while i < channel.retained.len()
            invariant
                start <= i <= channel.retained@.len(),
                entry_views(entries@) == entry_views(channel.retained@).subrange(
                    start as int,
                    i as int,
                ),
            decreases channel.retained@.len() - i,
        {
            let e = channel.retained[i].clone();
            proof {
                let all = entry_views(channel.retained@);
                assert(entry_views(entries@.push(e)) =~= entry_views(entries@).push(e@));
                assert(all[i as int] == e@);
                assert(all.subrange(start as int, i as int + 1) =~= all.subrange(
                    start as int,
                    i as int,
                ).push(e@));
            }
            entries.push(e);
            i = i + 1;
        }
        proof {
            assert(entry_views(channel.retained@).subrange(
                start as int,
                channel.retained@.len() as int,
            ) =~= view.retained.skip(start as int));
        }
        sub.next = channel.published;
        Delivery { entries, missed }
    }
}

} // verus!
