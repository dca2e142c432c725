use cores::cpu_state::{get_state, CPUState};
use cores::render::{render, usize_to_string};

fn two_core_state() -> CPUState {
    get_state("0-1", "0").unwrap()
}

#[test]
fn test_usize_to_string() {
    assert_eq!(usize_to_string(0), "0");
    assert_eq!(usize_to_string(7), "7");
    assert_eq!(usize_to_string(10), "10");
    assert_eq!(usize_to_string(907), "907");
}

#[test]
fn test_render_json() {
    let st = two_core_state();
    assert_eq!(
        render(&st, true),
        "{\"total\":2,\"online\":1,\"offline\":1,\"cores_online\":{\"0\":true,\"1\":false}}\n"
    );
}

#[test]
fn test_render_json_larger() {
    let st = get_state("0-3", "0,2-3").unwrap();
    assert_eq!(
        render(&st, true),
        "{\"total\":4,\"online\":3,\"offline\":1,\"cores_online\":{\"0\":true,\"1\":false,\"2\":true,\"3\":true}}\n"
    );
}

#[test]
fn test_render_text() {
    let st = two_core_state();
    let rule = "---------------------------------------\n";
    let expected = format!(
        "{rule}CPU CORES\n{rule}- total:   2\n- online:  1\n- offline: 1\n{rule}- [core 0]: on (always) \n- [core 1]: off \n{rule}"
    );
    assert_eq!(render(&st, false), expected);
}

#[test]
fn test_render_text_plain_online_core() {
    // A non-zero online core is rendered without the "(always)" mark.
    let st = get_state("0-1", "0-1").unwrap();
    let out = render(&st, false);
    assert!(out.contains("- [core 1]: on  \n"));
}
