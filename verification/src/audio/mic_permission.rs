//! The consent to use the microphone that macOS asks of its user.
//!
//! A tool's own access may be denied silently, so the daemon asks first, and a job can wait for
//! the answer. Other systems have no such gate.

use vstd::prelude::*;

use crate::text;
#[allow(unused_imports)]
use crate::text::decimal;

verus! {

/// Seconds that a capture waits for the user's answer.
pub const DIALOG_WAIT_SECS: u64 = 120;

/// The system's number for a question that was never asked.
pub const NOT_DETERMINED: i64 = 0;

/// The system's number for a permission that was given.
pub const AUTHORIZED: i64 = 3;

/// What is known of the permission.
#[derive(Debug, Clone, Copy, PartialEq, Eq, Structural)]
pub enum Gate {
    /// This system has no such gate.
    Absent,
    /// The permission cannot be queried.
    Unknown,
    /// The system's number for the permission.
    Status(i64),
}

/// Why a dialog may never appear.
pub open spec fn hint(mux: Option<Seq<char>>) -> Seq<char> {
    match mux {
        Some(m) => "no dialog will appear: this daemon was started from "@ + m
            + ", and macOS attributes the request to "@ + m
            + " rather than to dialf. Start it from a plain Terminal window, or install it as a service (`dialf service install --user`), and try again"@,
        None => "if no dialog appeared, start the daemon from a plain Terminal window (not tmux/screen/ssh, where macOS shows nothing) or as a service; if one did appear, approve it (enable `dialf` in System Settings → Privacy & Security → Microphone)"@,
    }
}

/// Why a dialog may never appear, given the multiplexer from which the daemon was started.
pub fn no_dialog_hint(mux: Option<&str>) -> (r: String)
    ensures
        r@ == hint(crate::config::opt_text(mux)),
{
    match mux {
        Some(m) => {
            let mut s = text::cat3(
                "no dialog will appear: this daemon was started from ",
                m,
                ", and macOS attributes the request to ",
            );
            s.append(m);
            s.append(
                " rather than to dialf. Start it from a plain Terminal window, or install it as a service (`dialf service install --user`), and try again",
            );
            s
        },
        None => "if no dialog appeared, start the daemon from a plain Terminal window (not tmux/screen/ssh, where macOS shows nothing) or as a service; if one did appear, approve it (enable `dialf` in System Settings → Privacy & Security → Microphone)".to_owned(),
    }
}

/// Whether the microphone may be used, as a word.
pub open spec fn gate_label(gate: Gate) -> Seq<char> {
    match gate {
        Gate::Absent => "not_applicable"@,
        Gate::Unknown => "unknown"@,
        Gate::Status(n) => if n == AUTHORIZED {
            "authorized"@
        } else if n == NOT_DETERMINED {
            "not_determined"@
        } else {
            "denied"@
        },
    }
}

/// The permission as a stable word.
pub fn status_label(gate: Gate) -> (r: &'static str)
    ensures
        r@ == gate_label(gate),
{
    match gate {
        Gate::Absent => "not_applicable",
        Gate::Unknown => "unknown",
        Gate::Status(n) => if n == AUTHORIZED {
            "authorized"
        } else if n == NOT_DETERMINED {
            "not_determined"
        } else {
            "denied"
        },
    }
}

/// What to do when the daemon starts.
#[derive(Debug)]
pub enum Preflight {
    Nothing,
    /// The permission cannot be queried.
    Unavailable,
    Authorized,
    /// Ask now, without waiting; with a warning where no dialog will appear.
    Ask(Option<String>),
    Denied,
}

/// Decides what to do when the daemon starts: a question that was never asked is asked at once,
/// rather than in the middle of a call.
pub fn preflight(gate: Gate, mux: Option<&str>) -> (r: Preflight)
    ensures
        match gate {
            Gate::Absent => r is Nothing,
            Gate::Unknown => r is Unavailable,
            Gate::Status(n) => if n == AUTHORIZED {
                r is Authorized
            } else if n == NOT_DETERMINED {
                &&& r matches Preflight::Ask(w)
                &&& match (mux, w) {
                    (Some(m), Some(t)) => t@ == "microphone: "@ + hint(Some(m@)),
                    (None, None) => true,
                    _ => false,
                }
            } else {
                r is Denied
            },
        },
{
    match gate {
        Gate::Absent => Preflight::Nothing,
        Gate::Unknown => Preflight::Unavailable,
        Gate::Status(n) => if n == AUTHORIZED {
            Preflight::Authorized
        } else if n == NOT_DETERMINED {
            match mux {
                Some(m) => Preflight::Ask(
                    Some(text::cat("microphone: ", &no_dialog_hint(Some(m)))),
                ),
                None => Preflight::Ask(None),
            }
        } else {
            Preflight::Denied
        },
    }
}

/// What to do before a capture.
#[derive(Debug)]
pub enum Consent {
    Granted,
    /// Ask, wait [`DIALOG_WAIT_SECS`], and go on with [`answered`].
    Ask,
    /// Fail with this text.
    Denied(String),
}

/// Decides what to do before a capture. A permission that cannot be queried lets the capture
/// tool fail by itself; a denied one fails at once, for the system will not ask again.
pub fn ensure_consent(gate: Gate) -> (r: Consent)
    ensures
        match gate {
            Gate::Status(n) => if n == AUTHORIZED {
                r is Granted
            } else if n == NOT_DETERMINED {
                r is Ask
            } else {
                &&& r matches Consent::Denied(e)
                &&& e@ == "Microphone permission denied for the daemon — macOS will not ask again for this binary, so enable `dialf` in System Settings → Privacy & Security → Microphone (the grant is per-binary: after an upgrade the entry you want is the newest one), then restart the daemon"@
            },
            _ => r is Granted,
        },
{
    match gate {
        Gate::Status(n) => if n == AUTHORIZED {
            Consent::Granted
        } else if n == NOT_DETERMINED {
            Consent::Ask
        } else {
            Consent::Denied(
                "Microphone permission denied for the daemon — macOS will not ask again for this binary, so enable `dialf` in System Settings → Privacy & Security → Microphone (the grant is per-binary: after an upgrade the entry you want is the newest one), then restart the daemon".to_owned(),
            )
        },
        _ => Consent::Granted,
    }
}

/// The result of asking: the user's answer, or none in time.
pub fn answered(answer: Option<bool>, mux: Option<&str>) -> (r: Result<(), String>)
    ensures
        match answer {
            Some(true) => r is Ok,
            Some(false) => r matches Err(e) && e@
                == "Microphone permission denied — enable `dialf` in System Settings → Privacy & Security → Microphone, then retry"@,
            None => r matches Err(e) && e@ == "No answer to the microphone request after "@
                + decimal(DIALOG_WAIT_SECS as nat) + "s — "@ + hint(crate::config::opt_text(mux)),
        },
{
    match answer {
        Some(true) => Ok(()),
        Some(false) => Err(
            "Microphone permission denied — enable `dialf` in System Settings → Privacy & Security → Microphone, then retry".to_owned(),
        ),
        None => {
            let mut s = text::cat3(
                "No answer to the microphone request after ",
                &text::decimal_of(DIALOG_WAIT_SECS),
                "s — ",
            );
            s.append(&no_dialog_hint(mux));
            Err(s)
        },
    }
}

/// What the system's numbers mean: three grants the microphone, zero was never asked, and every
/// other one denies it. A system without such a gate, or one that cannot be asked, is told as such.
pub proof fn law_only_three_grants_the_microphone(n: i64)
    ensures
        gate_label(Gate::Status(3)) == "authorized"@,
        gate_label(Gate::Status(0)) == "not_determined"@,
        n != 3 && n != 0 ==> gate_label(Gate::Status(n)) == "denied"@,
        gate_label(Gate::Absent) == "not_applicable"@,
        gate_label(Gate::Unknown) == "unknown"@,
{
}

/// The hint names the multiplexer that keeps the dialog away, where there is one.
pub proof fn law_the_hint_names_the_multiplexer(m: Seq<char>)
    ensures
        hint(Some(m)) == "no dialog will appear: this daemon was started from "@ + m
            + ", and macOS attributes the request to "@ + m
            + " rather than to dialf. Start it from a plain Terminal window, or install it as a service (`dialf service install --user`), and try again"@,
        hint(None)
            == "if no dialog appeared, start the daemon from a plain Terminal window (not tmux/screen/ssh, where macOS shows nothing) or as a service; if one did appear, approve it (enable `dialf` in System Settings → Privacy & Security → Microphone)"@,
{
}

} // verus!
