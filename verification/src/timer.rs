//! The host-side timer wheel: named timers with replace-on-set that fire
//! on tick.
//!
//! Time is counted in integer ticks of the embedder's choosing (the
//! session transport hands milliseconds down). A timer whose remaining
//! time is covered by a tick fires and is removed; the expired ids come
//! back in insertion order.

use vstd::prelude::*;

verus! {

/// One named timer and its remaining time.
struct TimeEntry {
    id: u16,
    remaining_time: u64,
}

/// The timer wheel.
pub struct Timer {
    list_of_timers: Vec<TimeEntry>,
}

/// Whether an id is present among the entries.
pub open spec fn has_id(s: Seq<(u16, u64)>, id: u16) -> bool {
    exists|i: int| 0 <= i < s.len() && s[i].0 == id
}

/// The entries with the given id removed, order kept.
pub open spec fn remove_id(s: Seq<(u16, u64)>, id: u16) -> Seq<(u16, u64)>
    decreases s.len(),
{
    if s.len() == 0 {
        seq![]
    } else if s.last().0 == id {
        remove_id(s.drop_last(), id)
    } else {
        remove_id(s.drop_last(), id).push(s.last())
    }
}

/// The entries after setting a timer: any prior timer with the id is
/// replaced, and the new one is appended.
pub open spec fn spec_set(s: Seq<(u16, u64)>, id: u16, remaining_time: u64) -> Seq<(u16, u64)> {
    remove_id(s, id).push((id, remaining_time))
}

/// The ids that a tick of `delta` fires, in insertion order.
pub open spec fn expired_ids(s: Seq<(u16, u64)>, delta: u64) -> Seq<u16>
    decreases s.len(),
{
    if s.len() == 0 {
        seq![]
    } else if s.last().1 <= delta {
        expired_ids(s.drop_last(), delta).push(s.last().0)
    } else {
        expired_ids(s.drop_last(), delta)
    }
}

/// The entries that survive a tick of `delta`, each with the tick
/// subtracted.
pub open spec fn surviving(s: Seq<(u16, u64)>, delta: u64) -> Seq<(u16, u64)>
    decreases s.len(),
{
    if s.len() == 0 {
        seq![]
    } else if s.last().1 <= delta {
        surviving(s.drop_last(), delta)
    } else {
        surviving(s.drop_last(), delta).push((s.last().0, (s.last().1 - delta) as u64))
    }
}

impl Timer {
    /// The timers as pairs of id and remaining time, in insertion order.
    pub closed spec fn entries(self) -> Seq<(u16, u64)> {
        self.list_of_timers@.map_values(|e: TimeEntry| (e.id, e.remaining_time))
    }

    /// An empty timer wheel.
    pub fn new() -> (r: Timer)
        ensures
            r.entries() == Seq::<(u16, u64)>::empty(),
    {
        let r = Timer { list_of_timers: Vec::new() };
        proof {
            assert(r.entries() =~= Seq::<(u16, u64)>::empty());
        }
        r
    }

    /// Starts a timer; a timer with the same id is replaced.
    pub fn start_timer(&mut self, id: u16, remaining_time: u64)
        ensures
            final(self).entries() == spec_set(old(self).entries(), id, remaining_time),
    {
        self.retain_other_ids(id);
        self.list_of_timers.push(TimeEntry { id, remaining_time });
        proof {
            assert(final(self).entries() =~= spec_set(old(self).entries(), id, remaining_time));
        }
    }

    /// Cancels a timer; nothing happens if the id is absent.
    pub fn cancel_timer(&mut self, id: u16)
        ensures
            final(self).entries() == remove_id(old(self).entries(), id),
    {
        self.retain_other_ids(id);
    }

    /// Removes every entry with the given id, keeping the order.
    fn retain_other_ids(&mut self, id: u16)
        ensures
            final(self).entries() == remove_id(old(self).entries(), id),
    {
        let n = self.list_of_timers.len();
        let mut kept: Vec<TimeEntry> = Vec::new();
        let mut i: usize = 0;
        proof {
            assert(old(self).entries().take(0) =~= Seq::<(u16, u64)>::empty());
            assert(remove_id(old(self).entries().take(0), id) =~= Seq::<(u16, u64)>::empty());
            assert(kept@.map_values(|e: TimeEntry| (e.id, e.remaining_time)) =~= Seq::<(
                u16,
                u64,
            )>::empty());
        }
        while i < n
            invariant
                n == self.list_of_timers@.len(),
                i <= n,
                self.list_of_timers@ == old(self).list_of_timers@,
                kept@.map_values(|e: TimeEntry| (e.id, e.remaining_time)) == remove_id(
                    old(self).entries().take(i as int),
                    id,
                ),
            decreases n - i,
        {
            let e = &self.list_of_timers[i];
            proof {
                let pre = old(self).entries().take(i as int);
                let cur = old(self).entries().take(i + 1);
                assert(cur.drop_last() =~= pre);
                assert(cur.last() == (e.id, e.remaining_time));
            }
            if e.id != id {
                let copy = TimeEntry { id: e.id, remaining_time: e.remaining_time };
                kept.push(copy);
            }
            proof {
                assert(kept@.map_values(|en: TimeEntry| (en.id, en.remaining_time)) =~= remove_id(
                    old(self).entries().take(i + 1),
                    id,
                ));
            }
            i = i + 1;
        }
        self.list_of_timers = kept;
        proof {
            assert(old(self).entries().take(n as int) =~= old(self).entries());
        }
    }

    /// Advances every timer by `delta`; the timers this covers fire: their
    /// ids come back in insertion order and their entries are removed.
    pub fn update_and_get_list(&mut self, delta: u64) -> (r: Vec<u16>)
        ensures
            r@ == expired_ids(old(self).entries(), delta),
            final(self).entries() == surviving(old(self).entries(), delta),
    {
        let n = self.list_of_timers.len();
        let mut kept: Vec<TimeEntry> = Vec::new();
        let mut fired: Vec<u16> = Vec::new();
        let mut i: usize = 0;
        proof {
            assert(old(self).entries().take(0) =~= Seq::<(u16, u64)>::empty());
            assert(expired_ids(old(self).entries().take(0), delta) =~= Seq::<u16>::empty());
            assert(surviving(old(self).entries().take(0), delta) =~= Seq::<(u16, u64)>::empty());
            assert(kept@.map_values(|e: TimeEntry| (e.id, e.remaining_time)) =~= Seq::<(
                u16,
                u64,
            )>::empty());
        }
        while i < n
            invariant
                n == self.list_of_timers@.len(),
                i <= n,
                self.list_of_timers@ == old(self).list_of_timers@,
                fired@ == expired_ids(old(self).entries().take(i as int), delta),
                kept@.map_values(|e: TimeEntry| (e.id, e.remaining_time)) == surviving(
                    old(self).entries().take(i as int),
                    delta,
                ),
            decreases n - i,
        {
            let e = &self.list_of_timers[i];
            proof {
                let pre = old(self).entries().take(i as int);
                let cur = old(self).entries().take(i + 1);
                assert(cur.drop_last() =~= pre);
                assert(cur.last() == (e.id, e.remaining_time));
            }
            if e.remaining_time <= delta {
                fired.push(e.id);
            } else {
                let copy = TimeEntry { id: e.id, remaining_time: e.remaining_time - delta };
                kept.push(copy);
            }
            proof {
                assert(fired@ =~= expired_ids(old(self).entries().take(i + 1), delta));
                assert(kept@.map_values(|en: TimeEntry| (en.id, en.remaining_time)) =~= surviving(
                    old(self).entries().take(i + 1),
                    delta,
                ));
            }
            i = i + 1;
        }
        self.list_of_timers = kept;
        proof {
            assert(old(self).entries().take(n as int) =~= old(self).entries());
        }
        fired
    }
}

/// Removal leaves no entry with the removed id and keeps every other
/// entry.
pub proof fn lemma_remove_id(s: Seq<(u16, u64)>, id: u16)
    ensures
        !has_id(remove_id(s, id), id),
    decreases s.len(),
{
    if s.len() == 0 {
    } else {
        lemma_remove_id(s.drop_last(), id);
        if s.last().0 != id {
            let r = remove_id(s.drop_last(), id).push(s.last());
            assert forall|i: int| 0 <= i < r.len() implies r[i].0 != id by {
                if i < r.len() - 1 {
                    assert(r[i] == remove_id(s.drop_last(), id)[i]);
                    assert(!has_id(remove_id(s.drop_last(), id), id));
                }
            }
        }
    }
}

/// A tick fires only ids that are present.
pub proof fn lemma_expired_of_absent(s: Seq<(u16, u64)>, id: u16, delta: u64)
    requires
        !has_id(s, id),
    ensures
        !expired_ids(s, delta).contains(id),
    decreases s.len(),
{
    if s.len() > 0 {
        assert forall|i: int| 0 <= i < s.drop_last().len() implies s.drop_last()[i].0 != id by {
            assert(s.drop_last()[i] == s[i]);
        }
        lemma_expired_of_absent(s.drop_last(), id, delta);
        assert(s.last().0 != id);
    }
}

/// Timer replacement: after setting an id, a tick fires that id exactly
/// when it covers the duration of the last set, whatever was set before.
pub proof fn lemma_timer_replacement(s: Seq<(u16, u64)>, id: u16, duration: u64, delta: u64)
    ensures
        expired_ids(spec_set(s, id, duration), delta).contains(id) <==> delta >= duration,
{
    let t = spec_set(s, id, duration);
    assert(t.last() == (id, duration));
    assert(t.drop_last() =~= remove_id(s, id));
    lemma_remove_id(s, id);
    lemma_expired_of_absent(remove_id(s, id), id, delta);
    if duration <= delta {
        let e = expired_ids(t, delta);
        assert(e.last() == id);
        assert(e.contains(id));
    } else {
        assert(expired_ids(t, delta) == expired_ids(remove_id(s, id), delta));
    }
}

/// Cancelling an id that was never set changes nothing.
pub proof fn lemma_cancel_never_set(s: Seq<(u16, u64)>, id: u16)
    requires
        !has_id(s, id),
    ensures
        remove_id(s, id) == s,
    decreases s.len(),
{
    if s.len() > 0 {
        assert forall|i: int| 0 <= i < s.drop_last().len() implies s.drop_last()[i].0 != id by {
            assert(s.drop_last()[i] == s[i]);
        }
        lemma_cancel_never_set(s.drop_last(), id);
        assert(s.last().0 != id);
        assert(remove_id(s, id) =~= s);
    }
}

/// Setting an id and cancelling it before any tick leaves nothing of it:
/// no later tick fires the id, however large.
pub proof fn lemma_set_cancel_tick(s: Seq<(u16, u64)>, id: u16, duration: u64, delta: u64)
    ensures
        !expired_ids(remove_id(spec_set(s, id, duration), id), delta).contains(id),
{
    lemma_remove_id(spec_set(s, id, duration), id);
    lemma_expired_of_absent(remove_id(spec_set(s, id, duration), id), id, delta);
}

} // verus!
