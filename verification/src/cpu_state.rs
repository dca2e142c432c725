//! The snapshot of the system's core topology.
//!
//! [`get_state`] reconciles the present-core and online-core sources (each
//! given as the text of its kernel pseudo-file, in core-range notation)
//! into an ordered-by-index state vector with its derived counts.

use vstd::prelude::*;
use crate::core_list::{parse, strip, notation_ok, notation_cores};
use crate::CoresError;

verus! {

/// How many entries of `s` are `true`.
pub open spec fn count_true(s: Seq<bool>) -> int
    decreases s.len(),
{
    if s.len() == 0 {
        0
    } else {
        count_true(s.drop_last()) + if s.last() {
            1int
        } else {
            0int
        }
    }
}

/// `count_true` never exceeds the length.
pub proof fn lemma_count_true_le_len(s: Seq<bool>)
    ensures
        0 <= count_true(s) <= s.len(),
    decreases s.len(),
{
    if s.len() > 0 {
        lemma_count_true_le_len(s.drop_last());
    }
}

/// Setting one entry to `true` raises the count exactly when it was `false`.
pub proof fn lemma_count_true_update(s: Seq<bool>, j: int)
    requires
        0 <= j < s.len(),
    ensures
        count_true(s.update(j, true)) == count_true(s) + if s[j] {
            0int
        } else {
            1int
        },
    decreases s.len(),
{
    if j == s.len() - 1 {
        assert(s.update(j, true).drop_last() =~= s.drop_last());
    } else {
        assert(s.update(j, true).drop_last() =~= s.drop_last().update(j, true));
        lemma_count_true_update(s.drop_last(), j);
    }
}

/// Represents the state of the CPU(s) on the system.
#[derive(Debug)]
pub struct CPUState {
    /// The total number of cores on the system.
    pub total_cores: usize,
    /// The number of cores that are enabled.
    pub cores_online: usize,
    /// The number of cores that are disabled.
    pub cores_offline: usize,
    /// The state of each core, indexed by core: `true` means online.
    pub ordered_core_states: Vec<bool>,
}

impl CPUState {
    /// Well-formed: the vector covers every present core and the counts
    /// agree with it.
    pub open spec fn wf(&self) -> bool {
        &&& self.ordered_core_states@.len() == self.total_cores
        &&& self.cores_online as int == count_true(self.ordered_core_states@)
        &&& self.cores_online <= self.total_cores
        &&& self.cores_offline as int == self.total_cores - self.cores_online
    }
}

/// Builds the snapshot from the text of the present-core source and of the
/// online-core source.
///
/// The total is the number of present cores; each core found in the online
/// source is marked online.  When either text is not well-formed notation,
/// or an online index is out of the present range, the topology is not
/// understood and [`CoresError::UnreadableTopology`] is returned.
pub fn get_state(present: &str, online: &str) -> (r: Result<CPUState, CoresError>)
    ensures
        r is Ok <==> (notation_ok(strip(present@)) && notation_ok(strip(online@)) && forall|x: int|
            notation_cores(strip(online@)).contains(x) ==> 0 <= x < notation_cores(
                strip(present@),
            ).len()),
        r matches Ok(st) ==> {
            &&& st.wf()
            &&& st.total_cores == notation_cores(strip(present@)).len()
            &&& st.cores_online == notation_cores(strip(online@)).len()
            &&& forall|i: int|
                0 <= i < st.total_cores ==> (st.ordered_core_states@[i] <==> notation_cores(
                    strip(online@),
                ).contains(i))
        },
        r is Err ==> r->Err_0 == CoresError::UnreadableTopology,
{
    let cores_present = match parse(present) {
        Ok(s) => s,
        Err(_) => {
            return Err(CoresError::UnreadableTopology);
        }
    };
    let cores_online_set = match parse(online) {
        Ok(s) => s,
        Err(_) => {
            return Err(CoresError::UnreadableTopology);
        }
    };
    proof {
        cores_online_set.lemma_members_nonneg();
    }
    let total_cores = cores_present.len();

    // A vector of booleans representing the state of each core.
    let mut states: Vec<bool> = Vec::new();
    let mut i: usize = 0;
    while i < total_cores
        invariant
            i <= total_cores,
            states@.len() == i,
            forall|j: int| 0 <= j < i ==> !states@[j],
            count_true(states@) == 0,
        decreases total_cores - i,
    {
        let ghost s0 = states@;
        states.push(false);
        proof {
            assert(states@.drop_last() =~= s0);
        }
        i = i + 1;
    }

    let k = cores_online_set.len();
    let ghost oseq = cores_online_set.seq();
    let mut i: usize = 0;
    while i < k
        invariant
            i <= k,
            k == oseq.len(),
            oseq == cores_online_set.seq(),
            cores_online_set.wf(),
            cores_online_set@ == notation_cores(strip(online@)),
            total_cores as int == notation_cores(strip(present@)).len(),
            notation_ok(strip(present@)),
            notation_ok(strip(online@)),
            states@.len() == total_cores,
            forall|l: int| 0 <= l < i ==> 0 <= #[trigger] oseq[l] < total_cores,
            forall|j: int|
                0 <= j < total_cores ==> (#[trigger] states@[j] <==> oseq.take(i as int).contains(
                    j,
                )),
            count_true(states@) == i,
        decreases k - i,
    {
        let core = cores_online_set.get(i);
        if core >= total_cores {
            proof {
                assert(cores_online_set@.contains(core as int));
            }
            return Err(CoresError::UnreadableTopology);
        }
        let ghost s0 = states@;
        proof {
            // `core` is not yet marked: the marked indices are exactly the
            // first `i` members, and `core` is member `i` of a
            // duplicate-free sequence.
            assert(!s0[core as int]) by {
                if s0[core as int] {
                    let l = choose|l: int|
                        0 <= l < oseq.take(i as int).len() && oseq.take(i as int)[l] == core as int;
                    assert(oseq[l] == oseq[i as int]);
                    assert(false);
                }
            }
            lemma_count_true_update(s0, core as int);
        }
        states.set(core, true);
        proof {
            assert forall|j: int| 0 <= j < total_cores implies (#[trigger] states@[j] <==> oseq.take(
                i + 1,
            ).contains(j)) by {
                if j == core as int {
                    assert(oseq.take(i + 1)[i as int] == j);
                } else {
                    assert(states@[j] == s0[j]);
                    assert(forall|l: int|
                        0 <= l < i ==> oseq.take(i as int)[l] == #[trigger] oseq.take(i + 1)[l]);
                    if oseq.take(i + 1).contains(j) {
                        let l = choose|l: int| 0 <= l < i + 1 && #[trigger] oseq.take(i + 1)[l] == j;
                        assert(oseq.take(i as int)[l] == j);
                    }
                    if oseq.take(i as int).contains(j) {
                        let l = choose|l: int| 0 <= l < i && #[trigger] oseq.take(i as int)[l] == j;
                        assert(oseq.take(i + 1)[l] == j);
                    }
                }
            }
        }
        i = i + 1;
    }
    proof {
        assert(oseq.take(k as int) =~= oseq);
        assert forall|x: int| cores_online_set@.contains(x) implies 0 <= x < total_cores by {
            let l = choose|l: int| 0 <= l < oseq.len() && #[trigger] oseq[l] == x;
        }
        lemma_count_true_le_len(states@);
    }
    let cores_online = k;

    Ok(
        CPUState {
            total_cores,
            cores_online,
            cores_offline: total_cores - cores_online,
            ordered_core_states: states,
        },
    )
}

} // verus!
