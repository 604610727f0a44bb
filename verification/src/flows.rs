//! NAT state tables of the egress gate: bounded, each flow at most once, each with
//! the time of its last activity.

use vstd::prelude::*;
use crate::ip::IpAddr;

verus! {

/// One guest flow. A ping flow has the echo identifier for its guest port,
/// and 0 for its destination port.
#[derive(Clone, Copy, Debug, PartialEq, Eq, Structural, Hash)]
pub struct FlowKey {
    pub guest_port: u16,
    pub dst_ip: IpAddr,
    pub dst_port: u16,
}

/// Whether some entry is for `key`.
pub open spec fn tracks(entries: Seq<(FlowKey, u64)>, key: FlowKey) -> bool {
    exists|i: int| 0 <= i < entries.len() && (#[trigger] entries[i]).0 == key
}

/// No flow stands twice in `entries`.
pub open spec fn each_once(entries: Seq<(FlowKey, u64)>) -> bool {
    forall|i: int, j: int|
        0 <= i < j < entries.len() ==> (#[trigger] entries[i]).0 != (#[trigger] entries[j]).0
}

/// `entries` with the last activity of `key`, if it is there, at `now`.
pub open spec fn touched(entries: Seq<(FlowKey, u64)>, key: FlowKey, now: u64) -> Seq<
    (FlowKey, u64),
> {
    entries.map_values(
        |e: (FlowKey, u64)|
            if e.0 == key {
                (key, now)
            } else {
                e
            },
    )
}

pub open spec fn is_other(entry: (FlowKey, u64), key: FlowKey) -> bool {
    entry.0 != key
}

/// `entries` without `key`.
pub open spec fn without(entries: Seq<(FlowKey, u64)>, key: FlowKey) -> Seq<(FlowKey, u64)> {
    entries.filter(|e: (FlowKey, u64)| is_other(e, key))
}

/// Whether more than `idle` has passed at `now` since the last activity.
pub open spec fn is_idle(entry: (FlowKey, u64), now: u64, idle: u64) -> bool {
    now - entry.1 > idle
}

pub open spec fn still_active(entries: Seq<(FlowKey, u64)>, now: u64, idle: u64) -> Seq<
    (FlowKey, u64),
> {
    entries.filter(|e: (FlowKey, u64)| !is_idle(e, now, idle))
}

pub open spec fn gone_idle(entries: Seq<(FlowKey, u64)>, now: u64, idle: u64) -> Seq<
    (FlowKey, u64),
> {
    entries.filter(|e: (FlowKey, u64)| is_idle(e, now, idle))
}

/// The flows of `entries`.
pub open spec fn keys_of(entries: Seq<(FlowKey, u64)>) -> Seq<FlowKey> {
    entries.map_values(|e: (FlowKey, u64)| e.0)
}

/// A table of at most `cap` flows.
#[derive(Debug)]
pub struct FlowTable {
    entries: Vec<(FlowKey, u64)>,
    cap: usize,
}

impl View for FlowTable {
    type V = Seq<(FlowKey, u64)>;

    closed spec fn view(&self) -> Seq<(FlowKey, u64)> {
        self.entries@
    }
}

impl FlowTable {
    /// The most flows that the table holds.
    pub closed spec fn limit(self) -> nat {
        self.cap as nat
    }

    pub open spec fn wf(self) -> bool {
        each_once(self@) && self@.len() <= self.limit()
    }

    pub fn new(cap: usize) -> (table: FlowTable)
        ensures
            table.wf(),
            table@ == Seq::<(FlowKey, u64)>::empty(),
            table.limit() == cap,
    {
        FlowTable { entries: Vec::new(), cap }
    }

    fn find(&self, key: FlowKey) -> (at: Option<usize>)
        ensures
            match at {
                Some(i) => i < self@.len() && self@[i as int].0 == key,
                None => !tracks(self@, key),
            },
    {
        let mut i: usize = 0;
        while i < self.entries.len()
            invariant
                i <= self.entries@.len(),
                forall|j: int| 0 <= j < i ==> (#[trigger] self.entries@[j]).0 != key,
            decreases self.entries@.len() - i,
        {
            if self.entries[i].0 == key {
                return Some(i);
            }
            i = i + 1;
        }
        None
    }

    pub fn contains(&self, key: FlowKey) -> (yes: bool)
        ensures
            yes == tracks(self@, key),
    {
        self.find(key).is_some()
    }

    pub fn is_full(&self) -> (yes: bool)
        requires
            self.wf(),
        ensures
            yes == (self@.len() == self.limit()),
    {
        self.entries.len() == self.cap
    }

    /// Adds a flow that is not there yet.
    pub fn insert(&mut self, key: FlowKey, now: u64)
        requires
            old(self).wf(),
            !tracks(old(self)@, key),
            old(self)@.len() < old(self).limit(),
        ensures
            final(self).wf(),
            final(self).limit() == old(self).limit(),
            final(self)@ == old(self)@.push((key, now)),
    {
        self.entries.push((key, now));
    }

    /// Sets the last activity of a flow; of one that is not there, nothing.
    pub fn touch(&mut self, key: FlowKey, now: u64)
        requires
            old(self).wf(),
        ensures
            final(self).wf(),
            final(self).limit() == old(self).limit(),
            final(self)@ == touched(old(self)@, key, now),
    {
        let ghost before = self@;
        match self.find(key) {
            Some(i) => {
                self.entries[i] = (key, now);
                assert forall|j: int| 0 <= j < before.len() && j != i implies (
                #[trigger] before[j]).0 != key by {
                    if j < i {
                        assert(before[j].0 != before[i as int].0);
                    } else {
                        assert(before[i as int].0 != before[j].0);
                    }
                }
                assert(self@ =~= touched(before, key, now));
            },
            None => {
                assert forall|j: int| 0 <= j < before.len() implies (#[trigger] before[j]).0
                    != key by {}
                assert(self@ =~= touched(before, key, now));
            },
        }
    }

    /// Takes a flow out; one that is not there changes nothing.
    pub fn remove(&mut self, key: FlowKey)
        requires
            old(self).wf(),
        ensures
            final(self).wf(),
            final(self).limit() == old(self).limit(),
            final(self)@ == without(old(self)@, key),
            !tracks(final(self)@, key),
    {
        let ghost before = self@;
        let ghost others = |e: (FlowKey, u64)| is_other(e, key);
        match self.find(key) {
            Some(i) => {
                self.entries.remove(i);
                proof {
                    assert forall|j: int| 0 <= j < before.len() && j != i implies others(
                        #[trigger] before[j],
                    ) by {
                        if j < i {
                            assert(before[j].0 != before[i as int].0);
                        } else {
                            assert(before[i as int].0 != before[j].0);
                        }
                    }
                    filter_of_one_out(before, others, i as int);
                }
            },
            None => {
                proof {
                    assert forall|j: int| 0 <= j < before.len() implies others(
                        #[trigger] before[j],
                    ) by {}
                    filter_of_all(before, others);
                }
            },
        }
    }

    /// Takes out every flow that has been idle for more than `idle`, and
    /// returns them.
    pub fn expire(&mut self, now: u64, idle: u64) -> (expired: Vec<FlowKey>)
        requires
            old(self).wf(),
        ensures
            final(self).wf(),
            final(self).limit() == old(self).limit(),
            final(self)@ == still_active(old(self)@, now, idle),
            expired@ == keys_of(gone_idle(old(self)@, now, idle)),
    {
        let ghost before = self@;
        let ghost active = |e: (FlowKey, u64)| !is_idle(e, now, idle);
        let ghost lost = |e: (FlowKey, u64)| is_idle(e, now, idle);
        let mut kept: Vec<(FlowKey, u64)> = Vec::new();
        let mut expired: Vec<FlowKey> = Vec::new();
        let mut i: usize = 0;
        proof {
            reveal(Seq::filter);
            assert(before.subrange(0, 0) =~= Seq::empty());
            assert(keys_of(before.subrange(0, 0).filter(lost)) =~= Seq::empty());
        }
        while i < self.entries.len()
            invariant
                i <= self.entries@.len(),
                self.entries@ == before,
                active == (|e: (FlowKey, u64)| !is_idle(e, now, idle)),
                lost == (|e: (FlowKey, u64)| is_idle(e, now, idle)),
                kept@ == before.subrange(0, i as int).filter(active),
                expired@ == keys_of(before.subrange(0, i as int).filter(lost)),
                kept@.len() <= i,
            decreases self.entries@.len() - i,
        {
            let entry: (FlowKey, u64) = self.entries[i];
            let ghost expired_before = before.subrange(0, i as int).filter(lost);
            proof {
                reveal(Seq::filter);
                assert(before.subrange(0, i + 1).drop_last() =~= before.subrange(0, i as int));
            }
            if now >= entry.1 && now - entry.1 > idle {
                expired.push(entry.0);
                assert(expired@ =~= keys_of(expired_before.push(entry)));
            } else {
                kept.push(entry);
            }
            i = i + 1;
        }
        assert(before.subrange(0, i as int) =~= before);
        self.entries = kept;
        proof {
            filter_keeps_each_once(before, active);
        }
        expired
    }
}

/// Filtering out exactly the entry at `i` removes it.
proof fn filter_of_one_out(
    entries: Seq<(FlowKey, u64)>,
    keep: spec_fn((FlowKey, u64)) -> bool,
    i: int,
)
    requires
        0 <= i < entries.len(),
        !keep(entries[i]),
        forall|j: int| 0 <= j < entries.len() && j != i ==> keep(#[trigger] entries[j]),
    ensures
        entries.filter(keep) == entries.remove(i),
    decreases entries.len(),
{
    reveal(Seq::filter);
    let front = entries.drop_last();
    if i == entries.len() - 1 {
        filter_of_all(front, keep);
        assert(entries.remove(i) =~= front);
    } else {
        filter_of_one_out(front, keep, i);
        assert(entries.remove(i) =~= front.remove(i).push(entries.last()));
    }
}

proof fn filter_of_all(entries: Seq<(FlowKey, u64)>, keep: spec_fn((FlowKey, u64)) -> bool)
    requires
        forall|j: int| 0 <= j < entries.len() ==> keep(#[trigger] entries[j]),
    ensures
        entries.filter(keep) == entries,
    decreases entries.len(),
{
    reveal(Seq::filter);
    if entries.len() > 0 {
        filter_of_all(entries.drop_last(), keep);
        assert(entries.drop_last().push(entries.last()) =~= entries);
    }
}

proof fn filter_keeps_each_once(
    entries: Seq<(FlowKey, u64)>,
    keep: spec_fn((FlowKey, u64)) -> bool,
)
    requires
        each_once(entries),
    ensures
        each_once(entries.filter(keep)),
        forall|key: FlowKey| tracks(entries.filter(keep), key) ==> tracks(entries, key),
    decreases entries.len(),
{
    reveal(Seq::filter);
    if entries.len() > 0 {
        let front = entries.drop_last();
        filter_keeps_each_once(front, keep);
        let kept = entries.filter(keep);
        assert forall|key: FlowKey| tracks(front, key) implies tracks(entries, key)
            && entries.last().0 != key by {
            let i = choose|i: int| 0 <= i < front.len() && (#[trigger] front[i]).0 == key;
            assert(entries[i].0 == key);
            assert(entries[i].0 != entries[entries.len() - 1].0);
        }
        assert forall|i: int, j: int| 0 <= i < j < kept.len() implies (#[trigger] kept[i]).0 != (
        #[trigger] kept[j]).0 by {
            let shorter = front.filter(keep);
            if j < shorter.len() {
                assert(shorter[i].0 != shorter[j].0);
            } else {
                assert(shorter[i].0 == kept[i].0);
                assert(tracks(shorter, kept[i].0));
                assert(tracks(front, kept[i].0));
            }
        }
        assert forall|key: FlowKey| tracks(kept, key) implies tracks(entries, key) by {
            let i = choose|i: int| 0 <= i < kept.len() && (#[trigger] kept[i]).0 == key;
            if i < front.filter(keep).len() {
                assert(front.filter(keep)[i].0 == key);
                assert(tracks(front.filter(keep), key));
            } else {
                assert(entries[entries.len() - 1].0 == key);
            }
        }
    }
}

// ---------------------------------------------------------------------------
// Laws
// ---------------------------------------------------------------------------

/// What each operation on a table does, told entry by entry: an entry of
/// another flow is not touched, one of the flow itself gets the new time or is
/// taken out; an entry goes idle once more than `idle` has passed since its
/// time, and stays until then.
pub proof fn operations_work_entry_by_entry(
    key: FlowKey,
    entry: (FlowKey, u64),
    now: u64,
    idle: u64,
)
    ensures
        touched(seq![entry], key, now) == seq![
            (
                entry.0,
                if entry.0 == key {
                    now
                } else {
                    entry.1
                },
            ),
        ],
        without(seq![entry], key) == (if entry.0 == key {
            Seq::empty()
        } else {
            seq![entry]
        }),
        still_active(seq![entry], now, idle) == (if now <= entry.1 + idle {
            seq![entry]
        } else {
            Seq::empty()
        }),
        gone_idle(seq![entry], now, idle) == (if now <= entry.1 + idle {
            Seq::empty()
        } else {
            seq![entry]
        }),
        keys_of(seq![entry]) == seq![entry.0],
        tracks(seq![entry], key) == (entry.0 == key),
{
    let one = seq![entry];
    reveal_with_fuel(Seq::filter, 2);
    assert(one.drop_last() =~= Seq::empty());
    assert(one[0] == entry);
    assert(touched(one, key, now) =~= seq![
        (
            entry.0,
            if entry.0 == key {
                now
            } else {
                entry.1
            },
        ),
    ]);
    assert(without(one, key) =~= if entry.0 == key {
        Seq::empty()
    } else {
        one
    });
    assert(still_active(one, now, idle) =~= if now <= entry.1 + idle {
        one
    } else {
        Seq::empty()
    });
    assert(gone_idle(one, now, idle) =~= if now <= entry.1 + idle {
        Seq::empty()
    } else {
        one
    });
    assert(keys_of(one) =~= seq![entry.0]);
}

/// What an operation does to a table, it does to each part of it, in order.
pub proof fn operations_work_in_order(
    front: Seq<(FlowKey, u64)>,
    back: Seq<(FlowKey, u64)>,
    key: FlowKey,
    now: u64,
    idle: u64,
)
    ensures
        touched(front + back, key, now) == touched(front, key, now) + touched(back, key, now),
        without(front + back, key) == without(front, key) + without(back, key),
        still_active(front + back, now, idle) == still_active(front, now, idle) + still_active(
            back,
            now,
            idle,
        ),
        gone_idle(front + back, now, idle) == gone_idle(front, now, idle) + gone_idle(
            back,
            now,
            idle,
        ),
        keys_of(front + back) == keys_of(front) + keys_of(back),
        tracks(front + back, key) == (tracks(front, key) || tracks(back, key)),
{
    let all = front + back;
    Seq::filter_distributes_over_add(front, back, |e: (FlowKey, u64)| is_other(e, key));
    Seq::filter_distributes_over_add(front, back, |e: (FlowKey, u64)| !is_idle(e, now, idle));
    Seq::filter_distributes_over_add(front, back, |e: (FlowKey, u64)| is_idle(e, now, idle));
    assert(touched(all, key, now) =~= touched(front, key, now) + touched(back, key, now));
    assert(keys_of(all) =~= keys_of(front) + keys_of(back));
    if tracks(front, key) {
        let i = choose|i: int| 0 <= i < front.len() && (#[trigger] front[i]).0 == key;
        assert(all[i].0 == key);
    }
    if tracks(back, key) {
        let i = choose|i: int| 0 <= i < back.len() && (#[trigger] back[i]).0 == key;
        assert(all[front.len() + i].0 == key);
    }
    if tracks(all, key) {
        let i = choose|i: int| 0 <= i < all.len() && (#[trigger] all[i]).0 == key;
        if i < front.len() {
            assert(front[i].0 == key);
        } else {
            assert(back[i - front.len()].0 == key);
        }
    }
}

} // verus!
