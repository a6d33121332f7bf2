//! Which machines are still there.
use vstd::prelude::*;
use crate::names::{distinct, NameMap};
use crate::text::{texts, Text};

verus! {

/// When each machine was last heard of. Times are in nanoseconds after some
/// fixed point.
pub struct ClusterHealthMonitor {
    heartbeats: NameMap<u64>,
    timeout: u64,
}

/// A machine last heard of at `last` is given up at `now`.
pub open spec fn overdue(last: u64, now: u64, timeout: u64) -> bool {
    now - last > timeout
}

impl ClusterHealthMonitor {
    /// When each machine was last heard of.
    pub closed spec fn beats(self) -> Map<Text, u64> {
        self.heartbeats@
    }

    /// How long a machine may be silent.
    pub closed spec fn patience(self) -> u64 {
        self.timeout
    }

    /// Nothing was heard yet.
    pub fn new(timeout: u64) -> (m: Self)
        ensures
            m.beats() == Map::<Text, u64>::empty(),
            m.patience() == timeout,
    {
        ClusterHealthMonitor { heartbeats: NameMap::new(), timeout }
    }

    /// A machine was heard of at `now`.
    pub fn record_heartbeat(&mut self, node_id: &str, now: u64)
        ensures
            final(self).beats() == old(self).beats().insert(node_id@, now),
            final(self).patience() == old(self).patience(),
    {
        self.heartbeats.insert(node_id.to_string(), now);
    }

    /// Gives up the machines that were silent for too long, and names them.
    pub fn check_failures(&mut self, now: u64) -> (failed: Vec<String>)
        ensures
            final(self).patience() == old(self).patience(),
            texts(failed@).no_duplicates(),
            forall|id: Text| #[trigger]
                texts(failed@).contains(id) <==> old(self).beats().contains_key(id) && overdue(
                    old(self).beats()[id],
                    now,
                    old(self).patience(),
                ),
            forall|id: Text| #[trigger]
                final(self).beats().contains_key(id) <==> old(self).beats().contains_key(id)
                    && !overdue(old(self).beats()[id], now, old(self).patience()),
            forall|id: Text| #[trigger]
                final(self).beats().contains_key(id) ==> final(self).beats()[id]
                    == old(self).beats()[id],
    {
        let ghost before = self.beats();
        let failed = overdue_names(&self.heartbeats, now, self.timeout);
        let mut i: usize = 0;
        while i < failed.len()
            invariant
                i <= failed@.len(),
                self.patience() == old(self).patience(),
                forall|id: Text| #[trigger]
                    self.beats().contains_key(id) <==> before.contains_key(id) && !texts(
                        failed@,
                    ).take(i as int).contains(id),
                forall|id: Text| #[trigger]
                    self.beats().contains_key(id) ==> self.beats()[id] == before[id],
            decreases failed@.len() - i,
        {
            let ghost gone = texts(failed@).take(i as int);
            let ghost next = texts(failed@).take(i + 1);
            let ghost name = failed@[i as int]@;
            assert(next =~= gone.push(name));
            let ghost held = self.beats();
            assert forall|id: Text| #[trigger]
                next.contains(id) <==> (gone.contains(id) || id == name) by {
                if gone.contains(id) {
                    let k = choose|k: int| 0 <= k < gone.len() && gone[k] == id;
                    assert(next[k] == id);
                }
                if id == name {
                    assert(next[i as int] == id);
                }
                if next.contains(id) && id != name {
                    let k = choose|k: int| 0 <= k < next.len() && next[k] == id;
                    assert(gone[k] == id);
                }
            }
            let _ = self.heartbeats.remove(&failed[i]);
            assert(self.beats() == held.remove(name));
            assert forall|id: Text| #[trigger] self.beats().contains_key(id) <==> before.contains_key(
                id,
            ) && !next.contains(id) by {
                assert(held.contains_key(id) <==> before.contains_key(id) && !gone.contains(id));
                assert(next.contains(id) <==> (gone.contains(id) || id == name));
            }
            assert forall|id: Text| #[trigger] self.beats().contains_key(id) implies self.beats()[id]
                == before[id] by {
                assert(held.contains_key(id));
            }
            i += 1;
        }
        assert(texts(failed@).take(i as int) =~= texts(failed@));
        failed
    }
}

fn overdue_names(beats: &NameMap<u64>, now: u64, timeout: u64) -> (out: Vec<String>)
    ensures
        texts(out@).no_duplicates(),
        forall|id: Text| #[trigger]
            texts(out@).contains(id) <==> beats@.contains_key(id) && overdue(
                beats@[id],
                now,
                timeout,
            ),
{
    let n: usize = beats.len();
    proof {
        beats.lemma_items();
    }
    let ghost items = beats.items();
    let mut out: Vec<String> = Vec::new();
    let mut i: usize = 0;
    while i < n
        invariant
            i <= n,
            n == items.len(),
            items == beats.items(),
            distinct(items),
            texts(out@).no_duplicates(),
            forall|id: Text| #[trigger]
                texts(out@).contains(id) <==> exists|k: int|
                    0 <= k < i && (#[trigger] items[k]).0@ == id && overdue(
                        items[k].1,
                        now,
                        timeout,
                    ),
        decreases n - i,
    {
        let last = *beats.value_at(i);
        let ghost before = out@;
        let ghost name = items[i as int].0@;
        if now > last && now - last > timeout {
            out.push(beats.name_at(i).clone());
            assert(texts(out@) =~= texts(before).push(name));
            assert(!texts(before).contains(name)) by {
                if texts(before).contains(name) {
                    let k = choose|k: int|
                        0 <= k < i && (#[trigger] items[k]).0@ == name && overdue(
                            items[k].1,
                            now,
                            timeout,
                        );
                    assert(items[k].0@ != items[i as int].0@);
                }
            }
            assert(texts(out@)[before.len() as int] == name);
        }
        assert forall|id: Text| #[trigger] texts(out@).contains(id) <==> exists|k: int|
            0 <= k < i + 1 && (#[trigger] items[k]).0@ == id && overdue(items[k].1, now, timeout) by {
            if texts(out@).contains(id) {
                let p = choose|p: int| 0 <= p < texts(out@).len() && texts(out@)[p] == id;
                if p < before.len() {
                    assert(texts(before)[p] == id);
                    assert(texts(before).contains(id));
                    let k = choose|k: int|
                        0 <= k < i && (#[trigger] items[k]).0@ == id && overdue(
                            items[k].1,
                            now,
                            timeout,
                        );
                    assert(items[k].0@ == id);
                } else {
                    assert(items[i as int].0@ == id);
                }
            }
            if exists|k: int|
                0 <= k < i + 1 && (#[trigger] items[k]).0@ == id && overdue(items[k].1, now, timeout) {
                let k = choose|k: int|
                    0 <= k < i + 1 && (#[trigger] items[k]).0@ == id && overdue(
                        items[k].1,
                        now,
                        timeout,
                    );
                if k < i {
                    assert(texts(before).contains(id));
                    let p = choose|p: int| 0 <= p < texts(before).len() && texts(before)[p] == id;
                    assert(texts(out@)[p] == id);
                }
            }
        }
        i += 1;
    }
    assert forall|id: Text| #[trigger] texts(out@).contains(id) <==> beats@.contains_key(id)
        && overdue(beats@[id], now, timeout) by {
        if beats@.contains_key(id) {
            let k = choose|k: int| 0 <= k < items.len() && (#[trigger] items[k]).0@ == id;
            assert(beats@[id] == items[k].1);
        }
        if texts(out@).contains(id) {
            let k = choose|k: int|
                0 <= k < n && (#[trigger] items[k]).0@ == id && overdue(items[k].1, now, timeout);
            assert(beats@[items[k].0@] == items[k].1);
        }
    }
    out
}

/// A machine that was heard of within the time allowed is not given up.
pub proof fn law_heard_is_kept(last: u64, now: u64, timeout: u64)
    requires
        now <= last + timeout,
    ensures
        !overdue(last, now, timeout),
{
}

/// A machine is given up exactly if it has been silent for longer than the
/// time allowed.
pub proof fn law_silence(last: u64, now: u64, timeout: u64)
    ensures
        overdue(last, now, timeout) <==> now > last + timeout,
{
}

} // verus!
