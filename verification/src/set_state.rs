//! Planning of core state transitions.
//!
//! The mutator computes, against one consistent [`CPUState`] snapshot, the
//! minimal sequence of privileged writes a request needs.  Each planned
//! write is one [`CoreWrite`]; performing it (writing `"1"` or `"0"` to the
//! core's control file under raised privileges) is the caller's business,
//! as is tallying which writes succeeded.  Core 0 is immutable by policy:
//! no plan ever contains it.

use vstd::prelude::*;
use crate::core_list::CoreSet;
use crate::cpu_state::{CPUState, count_true};

verus! {

/// One required transition: bring `core` online or take it offline.
#[derive(Clone, Copy, Debug, PartialEq, Eq, Structural)]
pub struct CoreWrite {
    /// The core to write to.
    pub core: usize,
    /// The desired state: `true` for online.
    pub online: bool,
}

/// A mapping from core index to desired online state.
#[derive(Debug)]
pub struct DesiredStateMap {
    /// The `(core, desired_online)` pairs, each core at most once.
    pub entries: Vec<(usize, bool)>,
}

impl DesiredStateMap {
    /// Whether some entry covers `core`.
    pub open spec fn has_key(&self, core: usize) -> bool {
        exists|i: int| 0 <= i < self.entries@.len() && (#[trigger] self.entries@[i]).0 == core
    }

    /// Well-formed: no core is covered twice.
    pub open spec fn wf(&self) -> bool {
        forall|i: int, j: int|
            0 <= i < j < self.entries@.len() ==> (#[trigger] self.entries@[i]).0 != (
            #[trigger] self.entries@[j]).0
    }

    /// The empty map.
    pub fn new() -> (r: DesiredStateMap)
        ensures
            r.wf(),
            r.entries@.len() == 0,
    {
        DesiredStateMap { entries: Vec::new() }
    }

    /// Records that `core` should be in state `online`.
    pub fn set(&mut self, core: usize, online: bool)
        requires
            old(self).wf(),
            !old(self).has_key(core),
        ensures
            final(self).wf(),
            final(self).entries@ == old(self).entries@.push((core, online)),
    {
        proof {
            let n = self.entries@.len() as int;
            assert forall|i: int, j: int|
                0 <= i < j < self.entries@.push((core, online)).len() implies (#[trigger] self
                .entries@.push((core, online))[i]).0 != (#[trigger] self.entries@.push(
                (core, online),
            )[j]).0 by {
                if j == n {
                    assert(self.entries@[i].0 != core);
                }
            }
        }
        self.entries.push((core, online));
    }
}

/// The write the single-core request `(core, online)` needs against the
/// snapshot `st`: none when the core is 0, not present, or already in the
/// requested state.
pub open spec fn plan_one_spec(st: &CPUState, core: usize, online: bool) -> Option<CoreWrite> {
    if core == 0 {
        None
    } else if core >= st.total_cores {
        None
    } else if st.ordered_core_states@[core as int] == online {
        None
    } else {
        Some(CoreWrite { core, online })
    }
}

/// The writes a batch request needs: one per entry that requires a change,
/// in entry order.
pub open spec fn plan_batch_spec(st: &CPUState, entries: Seq<(usize, bool)>) -> Seq<CoreWrite>
    decreases entries.len(),
{
    if entries.len() == 0 {
        Seq::empty()
    } else {
        let rest = plan_batch_spec(st, entries.drop_last());
        match plan_one_spec(st, entries.last().0, entries.last().1) {
            Some(w) => rest.push(w),
            None => rest,
        }
    }
}

/// The writes that bring every present core up to `n` (exclusive) online,
/// except core 0: one per core currently offline, in index order.
pub open spec fn plan_reset_upto(st: &CPUState, n: int) -> Seq<CoreWrite>
    decreases n,
{
    if n <= 0 {
        Seq::empty()
    } else {
        let rest = plan_reset_upto(st, n - 1);
        if n - 1 != 0 && !st.ordered_core_states@[n - 1] {
            rest.push(CoreWrite { core: (n - 1) as usize, online: true })
        } else {
            rest
        }
    }
}

/// The writes that bring every present core except core 0 online.
pub open spec fn plan_reset_spec(st: &CPUState) -> Seq<CoreWrite> {
    plan_reset_upto(st, st.total_cores as int)
}

/// Every write of a batch plan is a genuine change to a present, non-zero
/// core, and comes from some entry.
pub proof fn lemma_plan_batch_writes(st: &CPUState, entries: Seq<(usize, bool)>)
    ensures
        forall|i: int|
            0 <= i < plan_batch_spec(st, entries).len() ==> {
                let w = #[trigger] plan_batch_spec(st, entries)[i];
                &&& w.core != 0
                &&& w.core < st.total_cores
                &&& st.ordered_core_states@[w.core as int] != w.online
                &&& entries.contains((w.core, w.online))
            },
    decreases entries.len(),
{
    if entries.len() > 0 {
        lemma_plan_batch_writes(st, entries.drop_last());
        let rest = plan_batch_spec(st, entries.drop_last());
        let cur = plan_batch_spec(st, entries);
        assert forall|x: (usize, bool)| entries.drop_last().contains(x) implies entries.contains(
            x,
        ) by {
            let i = choose|i: int|
                0 <= i < entries.drop_last().len() && entries.drop_last()[i] == x;
            assert(entries[i] == x);
        }
        assert(entries[entries.len() - 1] == entries.last());
        assert forall|i: int| 0 <= i < cur.len() implies {
            let w = #[trigger] cur[i];
            &&& w.core != 0
            &&& w.core < st.total_cores
            &&& st.ordered_core_states@[w.core as int] != w.online
            &&& entries.contains((w.core, w.online))
        } by {
            if i < rest.len() {
                assert(cur[i] == rest[i]);
            } else {
                assert(plan_one_spec(st, entries.last().0, entries.last().1) is Some);
                assert(cur[i] == plan_one_spec(st, entries.last().0, entries.last().1)->0);
            }
        }
    }
}

/// Every write of a reset plan brings a present, non-zero, offline core
/// online; and every such core has its write.
pub proof fn lemma_plan_reset_writes(st: &CPUState, n: int)
    requires
        n <= st.total_cores,
    ensures
        forall|i: int|
            0 <= i < plan_reset_upto(st, n).len() ==> {
                let w = #[trigger] plan_reset_upto(st, n)[i];
                &&& 0 < w.core < n
                &&& !st.ordered_core_states@[w.core as int]
                &&& w.online
            },
        forall|c: int|
            0 < c < n && !st.ordered_core_states@[c] ==> plan_reset_upto(st, n).contains(
                CoreWrite { core: c as usize, online: true },
            ),
    decreases n,
{
    if n > 0 {
        lemma_plan_reset_writes(st, n - 1);
        let prev = plan_reset_upto(st, n - 1);
        let cur = plan_reset_upto(st, n);
        assert forall|c: int|
            0 < c < n && !st.ordered_core_states@[c] implies cur.contains(
            CoreWrite { core: c as usize, online: true },
        ) by {
            if c < n - 1 {
                let i = choose|i: int|
                    0 <= i < prev.len() && prev[i] == CoreWrite { core: c as usize, online: true };
                assert(cur[i] == CoreWrite { core: c as usize, online: true });
            } else {
                assert(cur[cur.len() - 1] == CoreWrite { core: c as usize, online: true });
            }
        }
    }
}

/// Computes the write the single-core request needs, if any.
///
/// Requests for core 0, for a core the snapshot does not know (`core >=
/// total_cores`), and for a state the core already has are no-ops, not
/// errors: they need no write.
pub fn set_core_state(state: &CPUState, core: usize, is_online: bool) -> (r: Option<CoreWrite>)
    requires
        state.wf(),
    ensures
        r == plan_one_spec(state, core, is_online),
        core == 0 ==> r is None,
        r matches Some(w) ==> w.core == core && w.online == is_online && core != 0 && core
            < state.total_cores && state.ordered_core_states@[core as int] != is_online,
{
    // Don't ever change state of the core 0.
    if core == 0 {
        return None;
    }
    if core >= state.total_cores {
        return None;
    }
    if state.ordered_core_states[core] == is_online {
        return None;
    }
    Some(CoreWrite { core, online: is_online })
}

/// Computes the writes the batch request needs, against the one snapshot
/// `state`: core 0 and entries already matching the snapshot are skipped,
/// every other present entry becomes a write.
pub fn set_cores(state: &CPUState, desired: &DesiredStateMap) -> (r: Vec<CoreWrite>)
    requires
        state.wf(),
    ensures
        r@ == plan_batch_spec(state, desired.entries@),
        forall|i: int|
            0 <= i < r@.len() ==> {
                let w = #[trigger] r@[i];
                &&& w.core != 0
                &&& w.core < state.total_cores
                &&& state.ordered_core_states@[w.core as int] != w.online
                &&& desired.entries@.contains((w.core, w.online))
            },
{
    let n = desired.entries.len();
    let mut r: Vec<CoreWrite> = Vec::new();
    let mut i: usize = 0;
    while i < n
        invariant
            i <= n == desired.entries@.len(),
            state.wf(),
            r@ == plan_batch_spec(state, desired.entries@.take(i as int)),
        decreases n - i,
    {
        let (core, online) = desired.entries[i];
        proof {
            assert(desired.entries@.take(i + 1).drop_last() =~= desired.entries@.take(i as int));
            assert(desired.entries@.take(i + 1).last() == (core, online));
        }
        match set_core_state(state, core, online) {
            Some(w) => {
                r.push(w);
            }
            None => {}
        }
        i = i + 1;
    }
    proof {
        assert(desired.entries@.take(n as int) =~= desired.entries@);
        lemma_plan_batch_writes(state, desired.entries@);
    }
    r
}

/// Computes the writes that reset every present core to online: one write
/// per offline core, skipping core 0 unconditionally.
pub fn reset_cores(state: &CPUState) -> (r: Vec<CoreWrite>)
    requires
        state.wf(),
    ensures
        r@ == plan_reset_spec(state),
        forall|i: int|
            0 <= i < r@.len() ==> {
                let w = #[trigger] r@[i];
                &&& 0 < w.core < state.total_cores
                &&& !state.ordered_core_states@[w.core as int]
                &&& w.online
            },
        forall|c: int|
            0 < c < state.total_cores && !state.ordered_core_states@[c] ==> r@.contains(
                CoreWrite { core: c as usize, online: true },
            ),
{
    let n = state.total_cores;
    let mut r: Vec<CoreWrite> = Vec::new();
    let mut i: usize = 0;
    while i < n
        invariant
            i <= n == state.total_cores,
            state.wf(),
            r@ == plan_reset_upto(state, i as int),
        decreases n - i,
    {
        if i != 0 && !state.ordered_core_states[i] {
            r.push(CoreWrite { core: i, online: true });
        }
        i = i + 1;
    }
    proof {
        lemma_plan_reset_writes(state, n as int);
    }
    r
}

/// A desired map putting the first `n` cores of a `total`-core system
/// online and the rest offline; `n` beyond the total means all online.
pub fn first_n_online(total: usize, n: usize) -> (r: DesiredStateMap)
    ensures
        r.wf(),
        r.entries@.len() == total,
        forall|i: int| 0 <= i < total ==> #[trigger] r.entries@[i] == (i as usize, i < n),
{
    let mut r: Vec<(usize, bool)> = Vec::new();
    let mut i: usize = 0;
    while i < total
        invariant
            i <= total,
            r@.len() == i,
            forall|j: int| 0 <= j < i ==> #[trigger] r@[j] == (j as usize, j < n),
        decreases total - i,
    {
        r.push((i, i < n));
        i = i + 1;
    }
    DesiredStateMap { entries: r }
}

/// A desired map putting exactly the cores of `set` online among the
/// `total` present cores, and every other present core offline.
pub fn from_core_set(total: usize, set: &CoreSet) -> (r: DesiredStateMap)
    ensures
        r.wf(),
        r.entries@.len() == total,
        forall|i: int|
            0 <= i < total ==> #[trigger] r.entries@[i] == (i as usize, set@.contains(i)),
{
    let mut r: Vec<(usize, bool)> = Vec::new();
    let mut i: usize = 0;
    while i < total
        invariant
            i <= total,
            r@.len() == i,
            forall|j: int| 0 <= j < i ==> #[trigger] r@[j] == (j as usize, set@.contains(j)),
        decreases total - i,
    {
        let on = set.contains(i);
        r.push((i, on));
        i = i + 1;
    }
    DesiredStateMap { entries: r }
}

/// Tallies a batch: how many of the attempted writes succeeded.
pub fn count_successes(outcomes: &Vec<bool>) -> (r: usize)
    ensures
        r as int == count_true(outcomes@),
{
    let n = outcomes.len();
    let mut r: usize = 0;
    let mut i: usize = 0;
    while i < n
        invariant
            i <= n == outcomes@.len(),
            r as int == count_true(outcomes@.take(i as int)),
            r <= i,
        decreases n - i,
    {
        proof {
            assert(outcomes@.take(i + 1).drop_last() =~= outcomes@.take(i as int));
        }
        if outcomes[i] {
            r = r + 1;
        }
        i = i + 1;
    }
    proof {
        assert(outcomes@.take(n as int) =~= outcomes@);
    }
    r
}

/// A transition, once performed, is not planned again: re-planning the
/// same request against the snapshot that reflects the performed write
/// yields no write.  With the snapshot re-read between calls, a request
/// changes state at most once; the second call is a no-op.
pub proof fn lemma_set_core_state_idempotent(
    st: &CPUState,
    st2: &CPUState,
    core: usize,
    online: bool,
)
    requires
        st.wf(),
        plan_one_spec(st, core, online) is Some,
        st2.total_cores == st.total_cores,
        st2.ordered_core_states@ == st.ordered_core_states@.update(core as int, online),
    ensures
        plan_one_spec(st2, core, online) is None,
{
}

/// The desired map that asks for the first `n` cores online.
pub open spec fn all_online_entries(n: int) -> Seq<(usize, bool)> {
    Seq::new(n as nat, |i: int| (i as usize, true))
}

/// A reset is a batch: the writes that reset the cores up to `n` are
/// exactly the writes of the batch request that desires every one of them
/// online (core 0 being skipped by both paths alike).
pub proof fn lemma_reset_is_batch_all_online(st: &CPUState, n: int)
    requires
        0 <= n <= st.total_cores,
    ensures
        plan_batch_spec(st, all_online_entries(n)) == plan_reset_upto(st, n),
    decreases n,
{
    if n > 0 {
        lemma_reset_is_batch_all_online(st, n - 1);
        assert(all_online_entries(n).drop_last() =~= all_online_entries(n - 1));
        assert(all_online_entries(n).last() == ((n - 1) as usize, true));
    }
}

/// A desired map that agrees with the current snapshot plans no write at
/// all: applying it changes nothing and its tally is zero.
pub proof fn lemma_set_cores_matching_noop(st: &CPUState, entries: Seq<(usize, bool)>)
    requires
        forall|i: int|
            0 <= i < entries.len() ==> ((#[trigger] entries[i]).0 >= st.total_cores
                || st.ordered_core_states@[entries[i].0 as int] == entries[i].1),
    ensures
        plan_batch_spec(st, entries) == Seq::<CoreWrite>::empty(),
    decreases entries.len(),
{
    if entries.len() > 0 {
        assert(entries[entries.len() - 1] == entries.last());
        lemma_set_cores_matching_noop(st, entries.drop_last());
    }
}

} // verus!
