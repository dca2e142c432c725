use cores::cpu_state::{get_state, CPUState};
use cores::set_state::{
    count_successes, first_n_online, from_core_set, reset_cores, set_core_state, set_cores,
    CoreWrite, DesiredStateMap,
};
use cores::core_list::parse;
use cores::CoresError;

fn snapshot(states: &[bool]) -> CPUState {
    let online = states.iter().filter(|s| **s).count();
    CPUState {
        total_cores: states.len(),
        cores_online: online,
        cores_offline: states.len() - online,
        ordered_core_states: states.to_vec(),
    }
}

#[test]
fn test_get_state_basic() {
    let st = get_state("0-3", "0-1").unwrap();
    assert_eq!(st.total_cores, 4);
    assert_eq!(st.cores_online, 2);
    assert_eq!(st.cores_offline, 2);
    assert_eq!(st.ordered_core_states, vec![true, true, false, false]);
}

#[test]
fn test_get_state_trailing_newline() {
    // The kernel sources are newline-terminated.
    let st = get_state("0-1\n", "0\n").unwrap();
    assert_eq!(st.total_cores, 2);
    assert_eq!(st.cores_online, 1);
    assert_eq!(st.ordered_core_states, vec![true, false]);
}

#[test]
fn test_get_state_sparse_online() {
    let st = get_state("0-5", "0,2,4-5").unwrap();
    assert_eq!(st.total_cores, 6);
    assert_eq!(st.cores_online, 4);
    assert_eq!(st.cores_offline, 2);
    assert_eq!(
        st.ordered_core_states,
        vec![true, false, true, false, true, true]
    );
}

#[test]
fn test_get_state_unreadable_topology() {
    assert_eq!(
        get_state("garbage", "0").unwrap_err(),
        CoresError::UnreadableTopology
    );
    assert_eq!(
        get_state("0-3", "oops").unwrap_err(),
        CoresError::UnreadableTopology
    );
    // An online index out of the present range is not understood either.
    assert_eq!(
        get_state("0-3", "0-9").unwrap_err(),
        CoresError::UnreadableTopology
    );
}

#[test]
fn test_set_core_state_zero_is_noop() {
    // Core 0 is immutable whatever the snapshot says.
    let st = snapshot(&[true, true, false, false]);
    assert_eq!(set_core_state(&st, 0, false), None);
    assert_eq!(set_core_state(&st, 0, true), None);
}

#[test]
fn test_set_core_state_missing_core_is_noop() {
    // One past the last present core: reported as a no-op, not a panic.
    let st = snapshot(&[true, true, true, true]);
    assert_eq!(set_core_state(&st, 4, false), None);
    assert_eq!(set_core_state(&st, 100, true), None);
}

#[test]
fn test_set_core_state_matching_state_is_noop() {
    let st = snapshot(&[true, true, false, false]);
    assert_eq!(set_core_state(&st, 1, true), None);
    assert_eq!(set_core_state(&st, 2, false), None);
}

#[test]
fn test_set_core_state_plans_change() {
    let st = snapshot(&[true, true, false, false]);
    assert_eq!(
        set_core_state(&st, 2, true),
        Some(CoreWrite {
            core: 2,
            online: true
        })
    );
    assert_eq!(
        set_core_state(&st, 1, false),
        Some(CoreWrite {
            core: 1,
            online: false
        })
    );
}

#[test]
fn test_set_core_state_idempotent() {
    // After the planned write is performed and the snapshot re-read, the
    // same request plans nothing more.
    let st = snapshot(&[true, false]);
    let w = set_core_state(&st, 1, true).unwrap();
    let st2 = snapshot(&[true, w.online]);
    assert_eq!(set_core_state(&st2, 1, true), None);
}

#[test]
fn test_set_cores_matching_map_plans_nothing() {
    let st = snapshot(&[true, false, true]);
    let mut desired = DesiredStateMap::new();
    desired.set(0, true);
    desired.set(1, false);
    desired.set(2, true);
    let writes = set_cores(&st, &desired);
    assert!(writes.is_empty());
    assert_eq!(count_successes(&vec![]), 0);
}

#[test]
fn test_set_cores_plans_only_changes() {
    let st = snapshot(&[true, true, false, false]);
    let mut desired = DesiredStateMap::new();
    desired.set(0, false); // core 0: skipped by policy
    desired.set(1, false); // change
    desired.set(2, false); // already matches
    desired.set(3, true); // change
    let writes = set_cores(&st, &desired);
    assert_eq!(
        writes,
        vec![
            CoreWrite {
                core: 1,
                online: false
            },
            CoreWrite {
                core: 3,
                online: true
            },
        ]
    );
}

#[test]
fn test_reset_cores_scenario() {
    // Present {0,1,2,3}, online {0,1}: the reset brings 2 and 3 online,
    // counts two changes, and never touches core 0.
    let st = get_state("0-3", "0-1").unwrap();
    let writes = reset_cores(&st);
    assert_eq!(
        writes,
        vec![
            CoreWrite {
                core: 2,
                online: true
            },
            CoreWrite {
                core: 3,
                online: true
            },
        ]
    );
    assert!(writes.iter().all(|w| w.core != 0));
    // Every write succeeded: the tally is 2.
    let outcomes: Vec<bool> = writes.iter().map(|_| true).collect();
    assert_eq!(count_successes(&outcomes), 2);
}

#[test]
fn test_reset_cores_all_online_plans_nothing() {
    let st = get_state("0-3", "0-3").unwrap();
    assert!(reset_cores(&st).is_empty());
}

#[test]
fn test_first_n_online_scenario() {
    // "First 3 online" on a 4-core system.
    let desired = first_n_online(4, 3);
    assert_eq!(
        desired.entries,
        vec![(0, true), (1, true), (2, true), (3, false)]
    );
    // Against an all-online snapshot exactly core 3 changes.
    let st = snapshot(&[true, true, true, true]);
    let writes = set_cores(&st, &desired);
    assert_eq!(
        writes,
        vec![CoreWrite {
            core: 3,
            online: false
        }]
    );
    let outcomes: Vec<bool> = writes.iter().map(|_| true).collect();
    assert_eq!(count_successes(&outcomes), 1);
}

#[test]
fn test_first_n_online_clamps() {
    let desired = first_n_online(2, 9);
    assert_eq!(desired.entries, vec![(0, true), (1, true)]);
}

#[test]
fn test_from_core_set() {
    let set = parse("0,2").unwrap();
    let desired = from_core_set(4, &set);
    assert_eq!(
        desired.entries,
        vec![(0, true), (1, false), (2, true), (3, false)]
    );
}

#[test]
fn test_count_successes_mixed() {
    assert_eq!(count_successes(&vec![true, false, true, true]), 3);
}
