use vstd::prelude::*;

use crate::text::{str_chars, string_from_chars, push_chars};

verus! {

/// Why the guest stopped running.
#[derive(Clone, Debug)]
pub enum VmExitReason {
    Hlt,
    Shutdown,
    InternalError,
    Unhandled(String),
}

/// How a run of the guest ended.
#[derive(Clone, Debug)]
pub struct VmExitInfo {
    pub reason: VmExitReason,
}

/// The text by which an exit reason is shown.
pub open spec fn reason_text(r: VmExitReason) -> Seq<char> {
    match r {
        VmExitReason::Hlt => "hlt"@,
        VmExitReason::Shutdown => "shutdown"@,
        VmExitReason::InternalError => "internal-error"@,
        VmExitReason::Unhandled(msg) => "unhandled: "@ + msg@,
    }
}

impl VmExitReason {
    /// The text by which the reason is shown.
    pub fn describe(&self) -> (r: String)
        ensures
            r@ == reason_text(*self),
    {
        match self {
            VmExitReason::Hlt => String::from_str("hlt"),
            VmExitReason::Shutdown => String::from_str("shutdown"),
            VmExitReason::InternalError => String::from_str("internal-error"),
            VmExitReason::Unhandled(msg) => {
                let mut t = str_chars("unhandled: ");
                let m = str_chars(msg.as_str());
                push_chars(&mut t, m.as_slice());
                string_from_chars(t.as_slice())
            },
        }
    }
}

impl VmExitInfo {
    pub fn hlt() -> (r: Self)
        ensures
            r.reason is Hlt,
    {
        VmExitInfo { reason: VmExitReason::Hlt }
    }

    pub fn shutdown() -> (r: Self)
        ensures
            r.reason is Shutdown,
    {
        VmExitInfo { reason: VmExitReason::Shutdown }
    }

    /// The text by which the exit is shown: that of its reason.
    pub fn describe(&self) -> (r: String)
        ensures
            r@ == reason_text(self.reason),
    {
        self.reason.describe()
    }
}

} // verus!
