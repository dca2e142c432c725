//! Rendering of a [`CPUState`] snapshot.
//!
//! [`render`] produces the exact text the presentation layer prints:
//! either a human-readable table or a single JSON object.  Both forms end
//! with a newline.

use vstd::prelude::*;
use crate::cpu_state::CPUState;

verus! {

/// The character of one decimal digit.
pub open spec fn digit_char(d: int) -> char {
    if d == 0 {
        '0'
    } else if d == 1 {
        '1'
    } else if d == 2 {
        '2'
    } else if d == 3 {
        '3'
    } else if d == 4 {
        '4'
    } else if d == 5 {
        '5'
    } else if d == 6 {
        '6'
    } else if d == 7 {
        '7'
    } else if d == 8 {
        '8'
    } else {
        '9'
    }
}

/// The decimal numeral of `n`, most significant digit first.
pub open spec fn decimal(n: int) -> Seq<char>
    decreases n,
{
    if n < 10 {
        seq![digit_char(n)]
    } else {
        decimal(n / 10).push(digit_char(n % 10))
    }
}

/// `true` or `false`, as JSON spells them.
pub open spec fn bool_text(b: bool) -> Seq<char> {
    if b {
        "true"@
    } else {
        "false"@
    }
}

/// One `"i":state` member of the JSON per-core object.
pub open spec fn json_entry(i: int, b: bool) -> Seq<char> {
    "\""@ + decimal(i) + "\":"@ + bool_text(b)
}

/// The first `n` members of the JSON per-core object, comma-separated.
pub open spec fn json_entries(states: Seq<bool>, n: int) -> Seq<char>
    decreases n,
{
    if n <= 0 {
        Seq::empty()
    } else if n == 1 {
        json_entry(0, states[0])
    } else {
        json_entries(states, n - 1) + ","@ + json_entry(n - 1, states[n - 1])
    }
}

/// The whole JSON rendering of a snapshot.
pub open spec fn json_render(st: &CPUState) -> Seq<char> {
    "{\"total\":"@ + decimal(st.total_cores as int) + ",\"online\":"@ + decimal(
        st.cores_online as int,
    ) + ",\"offline\":"@ + decimal(st.cores_offline as int) + ",\"cores_online\":{"@ + json_entries(
        st.ordered_core_states@,
        st.ordered_core_states@.len() as int,
    ) + "}}\n"@
}

/// The horizontal rule of the human-readable table.
pub open spec fn rule_line() -> Seq<char> {
    "---------------------------------------\n"@
}

/// The per-core line of the human-readable table.
pub open spec fn core_line(i: int, b: bool) -> Seq<char> {
    "- [core "@ + decimal(i) + "]: "@ + (if b {
        if i == 0 {
            "on (always) \n"@
        } else {
            "on  \n"@
        }
    } else {
        "off \n"@
    })
}

/// The first `n` per-core lines of the human-readable table.
pub open spec fn core_lines(states: Seq<bool>, n: int) -> Seq<char>
    decreases n,
{
    if n <= 0 {
        Seq::empty()
    } else {
        core_lines(states, n - 1) + core_line(n - 1, states[n - 1])
    }
}

/// The whole human-readable rendering of a snapshot.
pub open spec fn text_render(st: &CPUState) -> Seq<char> {
    rule_line() + "CPU CORES\n"@ + rule_line() + "- total:   "@ + decimal(st.total_cores as int)
        + "\n"@ + "- online:  "@ + decimal(st.cores_online as int) + "\n"@ + "- offline: "@
        + decimal(st.cores_offline as int) + "\n"@ + rule_line() + core_lines(
        st.ordered_core_states@,
        st.ordered_core_states@.len() as int,
    ) + rule_line()
}

/// The one-character string of a decimal digit.
fn digit_str(d: usize) -> (r: &'static str)
    requires
        d < 10,
    ensures
        r@ == seq![digit_char(d as int)],
{
    if d == 0 {
        proof {
            reveal_strlit("0");
        }
        assert("0"@ =~= seq![digit_char(0)]);
        "0"
    } else if d == 1 {
        proof {
            reveal_strlit("1");
        }
        assert("1"@ =~= seq![digit_char(1)]);
        "1"
    } else if d == 2 {
        proof {
            reveal_strlit("2");
        }
        assert("2"@ =~= seq![digit_char(2)]);
        "2"
    } else if d == 3 {
        proof {
            reveal_strlit("3");
        }
        assert("3"@ =~= seq![digit_char(3)]);
        "3"
    } else if d == 4 {
        proof {
            reveal_strlit("4");
        }
        assert("4"@ =~= seq![digit_char(4)]);
        "4"
    } else if d == 5 {
        proof {
            reveal_strlit("5");
        }
        assert("5"@ =~= seq![digit_char(5)]);
        "5"
    } else if d == 6 {
        proof {
            reveal_strlit("6");
        }
        assert("6"@ =~= seq![digit_char(6)]);
        "6"
    } else if d == 7 {
        proof {
            reveal_strlit("7");
        }
        assert("7"@ =~= seq![digit_char(7)]);
        "7"
    } else if d == 8 {
        proof {
            reveal_strlit("8");
        }
        assert("8"@ =~= seq![digit_char(8)]);
        "8"
    } else {
        proof {
            reveal_strlit("9");
        }
        assert("9"@ =~= seq![digit_char(9)]);
        "9"
    }
}

/// The decimal numeral of `n` as a string.
pub fn usize_to_string(n: usize) -> (r: String)
    ensures
        r@ == decimal(n as int),
    decreases n,
{
    if n < 10 {
        String::from_str(digit_str(n))
    } else {
        let mut r = usize_to_string(n / 10);
        r.append(digit_str(n % 10));
        proof {
            assert(r@ =~= decimal(n as int));
        }
        r
    }
}

/// `true` or `false`.
fn bool_str(b: bool) -> (r: &'static str)
    ensures
        r@ == bool_text(b),
{
    if b {
        "true"
    } else {
        "false"
    }
}

/// Renders the snapshot as one JSON object.
fn render_as_json(state: &CPUState) -> (r: String)
    ensures
        r@ == json_render(state),
{
    let ghost states = state.ordered_core_states@;
    let mut out = String::from_str("{\"total\":");
    let t = usize_to_string(state.total_cores);
    out.append(t.as_str());
    out.append(",\"online\":");
    let t = usize_to_string(state.cores_online);
    out.append(t.as_str());
    out.append(",\"offline\":");
    let t = usize_to_string(state.cores_offline);
    out.append(t.as_str());
    out.append(",\"cores_online\":{");
    let ghost head = out@;

    let n = state.ordered_core_states.len();
    let mut i: usize = 0;
    proof {
        assert(out@ =~= head + json_entries(states, 0));
    }
    while i < n
        invariant
            i <= n == states.len(),
            states == state.ordered_core_states@,
            out@ == head + json_entries(states, i as int),
        decreases n - i,
    {
        if i > 0 {
            out.append(",");
        }
        out.append("\"");
        let t = usize_to_string(i);
        out.append(t.as_str());
        out.append("\":");
        out.append(bool_str(state.ordered_core_states[i]));
        proof {
            assert(out@ =~= head + json_entries(states, i + 1));
        }
        i = i + 1;
    }
    out.append("}}\n");
    proof {
        assert(out@ =~= json_render(state));
    }
    out
}

/// Renders the snapshot as the human-readable table.
fn render_as_text(state: &CPUState) -> (r: String)
    ensures
        r@ == text_render(state),
{
    let ghost states = state.ordered_core_states@;
    let rule = "---------------------------------------\n";
    let mut out = String::from_str(rule);
    out.append("CPU CORES\n");
    out.append(rule);
    out.append("- total:   ");
    let t = usize_to_string(state.total_cores);
    out.append(t.as_str());
    out.append("\n");
    out.append("- online:  ");
    let t = usize_to_string(state.cores_online);
    out.append(t.as_str());
    out.append("\n");
    out.append("- offline: ");
    let t = usize_to_string(state.cores_offline);
    out.append(t.as_str());
    out.append("\n");
    out.append(rule);
    let ghost head = out@;

    let n = state.ordered_core_states.len();
    let mut i: usize = 0;
    proof {
        assert(out@ =~= head + core_lines(states, 0));
    }
    while i < n
        invariant
            i <= n == states.len(),
            states == state.ordered_core_states@,
            out@ == head + core_lines(states, i as int),
        decreases n - i,
    {
        out.append("- [core ");
        let t = usize_to_string(i);
        out.append(t.as_str());
        out.append("]: ");
        let on = state.ordered_core_states[i];
        if on {
            if i == 0 {
                out.append("on (always) \n");
            } else {
                out.append("on  \n");
            }
        } else {
            out.append("off \n");
        }
        proof {
            assert(out@ =~= head + core_lines(states, i + 1));
        }
        i = i + 1;
    }
    out.append(rule);
    proof {
        assert(out@ =~= text_render(state));
    }
    out
}

/// Renders the CPU state in the desired format: JSON when `as_json` is
/// set, the human-readable table otherwise.
pub fn render(state: &CPUState, as_json: bool) -> (r: String)
    ensures
        as_json ==> r@ == json_render(state),
        !as_json ==> r@ == text_render(state),
{
    if as_json {
        render_as_json(state)
    } else {
        render_as_text(state)
    }
}

} // verus!
