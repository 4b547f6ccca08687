//! Validation and argument normalisation for control-plane requests
//! (the `con-cli` socket bridge): tab selection, key names, timeouts.
use vstd::prelude::*;
use vstd::string::StringExecFns;
use crate::naming::{decimal, decimal_chars};
use crate::text::{
    ascii_lower_seq, chars_eq, chars_of, concat_chars, lower_chars, string_of, trim_seq, trim_str,
};

verus! {

/// Why a control request was refused.
#[derive(Debug, Clone, PartialEq, Eq)]
pub enum ControlError {
    /// A 1-based tab index outside `1..=tab_count`.
    TabIndexOutOfRange { index: usize, tab_count: usize },
    /// `tabs.close` would remove the last tab of the window.
    RefuseCloseLastTab,
    /// A key name that `surfaces.send_key` does not know (trimmed).
    UnsupportedSurfaceKey { key: String },
    /// `agent.ask` with a prompt that is empty after trimming.
    EmptyAgentPrompt,
    /// `agent.ask` on a tab (1-based) that already has one in flight.
    AgentRequestPending { tab_index: usize },
    /// A deferred request's tab (1-based) closed before the request ran.
    TabNoLongerAvailable { tab_index: usize },
}

/// The bytes a named key produces, for a lowercased key name.
pub open spec fn named_key_bytes(lower: Seq<char>) -> Option<Seq<u8>> {
    if lower == "escape"@ || lower == "esc"@ {
        Some(seq![0x1bu8])
    } else if lower == "enter"@ || lower == "return"@ {
        Some(seq![0x0au8])
    } else if lower == "tab"@ {
        Some(seq![0x09u8])
    } else if lower == "backspace"@ {
        Some(seq![0x7fu8])
    } else if lower == "ctrl-c"@ || lower == "control-c"@ || lower == "c-c"@ {
        Some(seq![0x03u8])
    } else if lower == "ctrl-d"@ || lower == "control-d"@ || lower == "c-d"@ {
        Some(seq![0x04u8])
    } else {
        None
    }
}

/// The interrupt and end-of-file keys: every spelling of Ctrl-C (`ctrl-c`,
/// `control-c`, `c-c`) writes exactly the byte 0x03, and every spelling of
/// Ctrl-D (`ctrl-d`, `control-d`, `c-d`) exactly 0x04, in any ASCII case and
/// around any whitespace.
pub proof fn law_control_keys(key: Seq<char>)
    ensures
        ({
            let k = ascii_lower_seq(trim_seq(key));
            &&& (k == "ctrl-c"@ || k == "control-c"@ || k == "c-c"@) ==> surface_key_spec(key) == Ok::<
                Seq<u8>,
                Seq<char>,
            >(seq![0x03u8])
            &&& (k == "ctrl-d"@ || k == "control-d"@ || k == "c-d"@) ==> surface_key_spec(key) == Ok::<
                Seq<u8>,
                Seq<char>,
            >(seq![0x04u8])
        }),
{
    reveal_strlit("escape");
    reveal_strlit("esc");
    reveal_strlit("enter");
    reveal_strlit("return");
    reveal_strlit("tab");
    reveal_strlit("backspace");
    reveal_strlit("ctrl-c");
    reveal_strlit("control-c");
    reveal_strlit("c-c");
    reveal_strlit("ctrl-d");
    reveal_strlit("control-d");
    reveal_strlit("c-d");
    let k = ascii_lower_seq(trim_seq(key));
    if k == "ctrl-c"@ || k == "control-c"@ || k == "c-c"@ {
        assert(k[0] == 'c');
        assert(k[k.len() - 1] == 'c');
        assert(k != "escape"@ && k != "esc"@ && k != "enter"@ && k != "return"@);
        assert(k != "tab"@ && k != "backspace"@);
    }
    if k == "ctrl-d"@ || k == "control-d"@ || k == "c-d"@ {
        assert(k[0] == 'c');
        assert(k[k.len() - 1] == 'd');
        assert(k != "escape"@ && k != "esc"@ && k != "enter"@ && k != "return"@);
        assert(k != "tab"@ && k != "backspace"@);
        assert("ctrl-c"@[5] == 'c' && "control-c"@[8] == 'c' && "c-c"@[2] == 'c');
        assert(k != "ctrl-c"@ && k != "control-c"@ && k != "c-c"@);
    }
}

/// What `surfaces.send_key` writes for `key`: a named key (matched after
/// trimming, ignoring ASCII case), else a single literal character as UTF-8,
/// else an error carrying the trimmed key.
pub open spec fn surface_key_spec(key: Seq<char>) -> Result<Seq<u8>, Seq<char>> {
    let k = trim_seq(key);
    match named_key_bytes(ascii_lower_seq(k)) {
        Some(bytes) => Ok(bytes),
        None => if k.len() == 1 {
            Ok(vstd::utf8::encode_utf8(k))
        } else {
            Err(k)
        },
    }
}

fn is_lit(v: &Vec<char>, lit: &str) -> (r: bool)
    ensures
        r == (v@ == lit@),
{
    let l = chars_of(lit);
    chars_eq(v.as_slice(), l.as_slice())
}

fn named_key(lower: &Vec<char>) -> (r: Option<Vec<u8>>)
    ensures
        match named_key_bytes(lower@) {
            Some(b) => r matches Some(v) && v@ == b,
            None => r is None,
        },
{
    if is_lit(lower, "escape") || is_lit(lower, "esc") {
        Some(vec![0x1bu8])
    } else if is_lit(lower, "enter") || is_lit(lower, "return") {
        Some(vec![0x0au8])
    } else if is_lit(lower, "tab") {
        Some(vec![0x09u8])
    } else if is_lit(lower, "backspace") {
        Some(vec![0x7fu8])
    } else if is_lit(lower, "ctrl-c") || is_lit(lower, "control-c") || is_lit(lower, "c-c") {
        Some(vec![0x03u8])
    } else if is_lit(lower, "ctrl-d") || is_lit(lower, "control-d") || is_lit(lower, "c-d") {
        Some(vec![0x04u8])
    } else {
        None
    }
}

/// The bytes to write to a surface for a `surfaces.send_key` key name.
pub fn surface_key_bytes(key: &str) -> (r: Result<Vec<u8>, ControlError>)
    ensures
        r is Ok <==> surface_key_spec(key@) is Ok,
        r matches Ok(b) ==> surface_key_spec(key@) == Ok::<Seq<u8>, Seq<char>>(b@),
        r matches Err(e) ==> (e matches ControlError::UnsupportedSurfaceKey { key: k } && k@
            == trim_seq(key@)),
{
    let k = trim_str(key);
    let lower = lower_chars(&k);
    match named_key(&lower) {
        Some(bytes) => Ok(bytes),
        None => {
            let ks = string_of(k.as_slice());
            if k.len() == 1 {
                let bytes = ks.as_str().as_bytes();
                Ok(vstd::slice::slice_to_vec(bytes))
            } else {
                Err(ControlError::UnsupportedSurfaceKey { key: ks })
            }
        },
    }
}

/// The 0-based tab a control request addresses: the 1-based `tab_index` when
/// given, else the active tab.
pub fn resolve_control_tab_index(tab_index: Option<usize>, tab_count: usize, active_tab: usize) -> (r:
    Result<usize, ControlError>)
    ensures
        match tab_index {
            Some(i) => if i == 0 || i > tab_count {
                r == Err::<usize, ControlError>(
                    ControlError::TabIndexOutOfRange { index: i, tab_count },
                )
            } else {
                r == Ok::<usize, ControlError>((i - 1) as usize)
            },
            None => r == Ok::<usize, ControlError>(active_tab),
        },
{
    match tab_index {
        Some(index) => {
            if index == 0 || index > tab_count {
                Err(ControlError::TabIndexOutOfRange { index, tab_count })
            } else {
                Ok(index - 1)
            }
        },
        None => Ok(active_tab),
    }
}

/// Whether a deferred `tabs.close` for 0-based `tab_idx` may proceed, checked
/// when the request is flushed: never the last tab, and only a tab that still
/// exists.
pub fn check_deferred_tab_close(tab_idx: usize, tab_count: usize) -> (r: Result<(), ControlError>)
    requires
        tab_idx < usize::MAX,
    ensures
        tab_count <= 1 ==> r == Err::<(), ControlError>(ControlError::RefuseCloseLastTab),
        tab_count > 1 && tab_idx >= tab_count ==> r == Err::<(), ControlError>(
            ControlError::TabIndexOutOfRange { index: (tab_idx + 1) as usize, tab_count },
        ),
        tab_count > 1 && tab_idx < tab_count ==> r is Ok,
{
    if tab_count <= 1 {
        return Err(ControlError::RefuseCloseLastTab);
    }
    if tab_idx >= tab_count {
        return Err(ControlError::TabIndexOutOfRange { index: tab_idx + 1, tab_count });
    }
    Ok(())
}

/// Check an `agent.ask` for the tab at 0-based `tab_idx`: the prompt must
/// not be blank, and the tab must not already have a request in flight.
pub fn validate_agent_ask(prompt: &str, tab_idx: usize, has_pending: bool) -> (r: Result<
    (),
    ControlError,
>)
    requires
        tab_idx < usize::MAX,
    ensures
        trim_seq(prompt@).len() == 0 ==> r == Err::<(), ControlError>(ControlError::EmptyAgentPrompt),
        trim_seq(prompt@).len() > 0 && has_pending ==> r == Err::<(), ControlError>(
            ControlError::AgentRequestPending { tab_index: (tab_idx + 1) as usize },
        ),
        trim_seq(prompt@).len() > 0 && !has_pending ==> r is Ok,
{
    let t = trim_str(prompt);
    if t.len() == 0 {
        return Err(ControlError::EmptyAgentPrompt);
    }
    if has_pending {
        return Err(ControlError::AgentRequestPending { tab_index: tab_idx + 1 });
    }
    Ok(())
}

/// `x` clamped to `lo..=hi`.
pub open spec fn clamp_spec(x: u64, lo: u64, hi: u64) -> u64 {
    if x < lo {
        lo
    } else if x > hi {
        hi
    } else {
        x
    }
}

fn clamp_u64(x: u64, lo: u64, hi: u64) -> (r: u64)
    requires
        lo <= hi,
    ensures
        r == clamp_spec(x, lo, hi),
{
    if x < lo {
        lo
    } else if x > hi {
        hi
    } else {
        x
    }
}

/// The timeout of an `agent.ask`, when one is given: between 5 and 600 s.
pub fn agent_timeout_secs(timeout_secs: Option<u64>) -> (r: Option<u64>)
    ensures
        r == (match timeout_secs {
            Some(t) => Some(clamp_spec(t, 5, 600)),
            None => None,
        }),
{
    match timeout_secs {
        Some(t) => Some(clamp_u64(t, 5, 600)),
        None => None,
    }
}

/// The timeout of `surfaces.wait_ready`: 10 s by default, between 1 and
/// 300 s.
pub fn surface_wait_timeout_secs(timeout_secs: Option<u64>) -> (r: u64)
    ensures
        r == clamp_spec(
            match timeout_secs {
                Some(t) => t,
                None => 10,
            },
            1,
            300,
        ),
{
    let t = match timeout_secs {
        Some(t) => t,
        None => 10,
    };
    clamp_u64(t, 1, 300)
}

/// How a `surfaces.wait_ready` poll ends: `ready` once the surface is up,
/// alive and has shell integration; `timeout` once time is up; else it goes
/// on (`None`).
pub fn surface_wait_status(
    surface_ready: bool,
    alive: bool,
    shell_integration: bool,
    timed_out: bool,
) -> (r: Option<&'static str>)
    ensures
        surface_ready && alive && shell_integration ==> r == Some("ready"),
        !(surface_ready && alive && shell_integration) && timed_out ==> r == Some("timeout"),
        !(surface_ready && alive && shell_integration) && !timed_out ==> r is None,
{
    if surface_ready && alive && shell_integration {
        Some("ready")
    } else if timed_out {
        Some("timeout")
    } else {
        None
    }
}

/// Whether a deferred surface request may still run in the tab at 0-based
/// `tab_idx`, checked when the request is flushed.
pub fn check_tab_still_open(tab_idx: usize, tab_count: usize) -> (r: Result<(), ControlError>)
    requires
        tab_idx < usize::MAX,
    ensures
        tab_idx < tab_count ==> r is Ok,
        tab_idx >= tab_count ==> r == Err::<(), ControlError>(
            ControlError::TabNoLongerAvailable { tab_index: (tab_idx + 1) as usize },
        ),
{
    if tab_idx >= tab_count {
        Err(ControlError::TabNoLongerAvailable { tab_index: tab_idx + 1 })
    } else {
        Ok(())
    }
}

/// The owner recorded for a surface that `surfaces.split` creates: the one
/// given, else `con-cli`.
pub fn split_owner(owner: Option<String>) -> (r: String)
    ensures
        owner matches Some(o) ==> r@ == o@,
        owner is None ==> r@ == "con-cli"@,
{
    match owner {
        Some(o) => o,
        None => String::from_str("con-cli"),
    }
}

/// `a`, the decimal `n`, then `b`.
pub open spec fn with_number(a: Seq<char>, n: nat, b: Seq<char>) -> Seq<char> {
    a + decimal(n) + b
}

fn number_text(a: &str, n: usize, b: &str) -> (r: String)
    ensures
        r@ == with_number(a@, n as nat, b@),
{
    let ac = chars_of(a);
    let d = decimal_chars(n);
    let bc = chars_of(b);
    let x = concat_chars(ac.as_slice(), d.as_slice());
    let y = concat_chars(x.as_slice(), bc.as_slice());
    string_of(y.as_slice())
}

/// The text a refused control request is answered with.
pub open spec fn control_error_text(e: ControlError) -> Seq<char> {
    match e {
        ControlError::TabIndexOutOfRange { index, tab_count } => "Tab index "@ + decimal(
            index as nat,
        ) + " is out of range. Valid tabs are 1..="@ + decimal(tab_count as nat) + "."@,
        ControlError::RefuseCloseLastTab => "refusing to close the last tab over the control plane"@,
        ControlError::UnsupportedSurfaceKey { key } => "Unsupported surface key `"@ + key@
            + "`. Supported keys: escape, enter, tab, backspace, ctrl-c, ctrl-d."@,
        ControlError::EmptyAgentPrompt => "agent.ask requires a non-empty prompt"@,
        ControlError::AgentRequestPending { tab_index } => with_number(
            "Tab "@,
            tab_index as nat,
            " already has a pending con-cli agent request"@,
        ),
        ControlError::TabNoLongerAvailable { tab_index } => with_number(
            "Tab "@,
            tab_index as nat,
            " is no longer available."@,
        ),
    }
}

impl ControlError {
    /// The text this refusal is answered with (see [`control_error_text`]).
    pub fn message(&self) -> (r: String)
        ensures
            r@ == control_error_text(*self),
    {
        match self {
            ControlError::TabIndexOutOfRange { index, tab_count } => {
                let head = number_text("Tab index ", *index, " is out of range. Valid tabs are 1..=");
                let hc = chars_of(head.as_str());
                let dc = decimal_chars(*tab_count);
                let dot = chars_of(".");
                let x = concat_chars(hc.as_slice(), dc.as_slice());
                let all = concat_chars(x.as_slice(), dot.as_slice());
                proof {
                    assert(all@ =~= control_error_text(*self));
                }
                string_of(all.as_slice())
            },
            ControlError::RefuseCloseLastTab => String::from_str(
                "refusing to close the last tab over the control plane",
            ),
            ControlError::UnsupportedSurfaceKey { key } => {
                let a = chars_of("Unsupported surface key `");
                let k = chars_of(key.as_str());
                let b = chars_of("`. Supported keys: escape, enter, tab, backspace, ctrl-c, ctrl-d.");
                let x = concat_chars(a.as_slice(), k.as_slice());
                let y = concat_chars(x.as_slice(), b.as_slice());
                string_of(y.as_slice())
            },
            ControlError::EmptyAgentPrompt => String::from_str("agent.ask requires a non-empty prompt"),
            ControlError::AgentRequestPending { tab_index } => number_text(
                "Tab ",
                *tab_index,
                " already has a pending con-cli agent request",
            ),
            ControlError::TabNoLongerAvailable { tab_index } => number_text(
                "Tab ",
                *tab_index,
                " is no longer available.",
            ),
        }
    }
}

/// The text an agent prompt is answered with when its tab (0-based
/// `closed_tab_idx`) closes before the agent replied.
pub fn agent_cancelled_message(closed_tab_idx: usize) -> (r: String)
    requires
        closed_tab_idx < usize::MAX,
    ensures
        r@ == with_number(
            "Tab "@,
            closed_tab_idx as nat + 1,
            " was closed while agent.ask was still pending"@,
        ),
{
    number_text("Tab ", closed_tab_idx + 1, " was closed while agent.ask was still pending")
}

/// The text a deferred surface request (`method`) is answered with when its
/// tab (0-based `closed_tab_idx`) closes before it ran.
pub fn surface_cancelled_message(closed_tab_idx: usize, method: &str) -> (r: String)
    requires
        closed_tab_idx < usize::MAX,
    ensures
        r@ == with_number("Tab "@, closed_tab_idx as nat + 1, " was closed while "@) + method@
            + " was pending"@,
{
    let head = number_text("Tab ", closed_tab_idx + 1, " was closed while ");
    let hc = chars_of(head.as_str());
    let mc = chars_of(method);
    let tc = chars_of(" was pending");
    let x = concat_chars(hc.as_slice(), mc.as_slice());
    let y = concat_chars(x.as_slice(), tc.as_slice());
    string_of(y.as_slice())
}

} // verus!
