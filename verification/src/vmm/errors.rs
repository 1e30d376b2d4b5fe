use vstd::prelude::*;

use crate::text::{str_chars, string_from_chars, push_chars};

verus! {

/// `std::io::Error`, carried through from failed host calls.
#[verifier::external_type_specification]
#[verifier::external_body]
pub struct ExIoError(std::io::Error);

/// The error that `kvm_ioctls` reports for a failed KVM call.
#[verifier::external_type_specification]
#[verifier::external_body]
pub struct ExKvmError(kvm_ioctls::Error);

/// Everything that can go wrong while configuring, loading or running a guest.
#[derive(Debug)]
pub enum VmmonError {
    Config(String),
    Io(std::io::Error),
    Kvm(kvm_ioctls::Error),
    Elf(String),
    Boot(String),
    Unsupported(String),
}

impl VmmonError {
    pub fn config(msg: String) -> (e: Self)
        ensures
            e matches VmmonError::Config(m) && m@ == msg@,
    {
        VmmonError::Config(msg)
    }

    pub fn elf(msg: String) -> (e: Self)
        ensures
            e matches VmmonError::Elf(m) && m@ == msg@,
    {
        VmmonError::Elf(msg)
    }

    pub fn boot(msg: String) -> (e: Self)
        ensures
            e matches VmmonError::Boot(m) && m@ == msg@,
    {
        VmmonError::Boot(msg)
    }

    pub fn unsupported(msg: String) -> (e: Self)
        ensures
            e matches VmmonError::Unsupported(m) && m@ == msg@,
    {
        VmmonError::Unsupported(msg)
    }
}

/// The text of an I/O error (`Display` of `std::io::Error`). It comes from the
/// operating system's description of the error, so nothing is said of it.
#[verifier::external_body]
fn io_error_text(e: &std::io::Error) -> String {
    e.to_string()
}

/// The text of a KVM error (`Display` of `kvm_ioctls::Error`), which describes an
/// operating-system error number; nothing is said of it.
#[verifier::external_body]
fn kvm_error_text(e: &kvm_ioctls::Error) -> String {
    e.to_string()
}

fn prefixed(prefix: &str, rest: &String) -> (r: String)
    ensures
        r@ == prefix@ + rest@,
{
    let mut t = str_chars(prefix);
    let more = str_chars(rest.as_str());
    push_chars(&mut t, more.as_slice());
    string_from_chars(t.as_slice())
}

impl VmmonError {
    /// The text by which the error is shown: its kind, then its message.
    pub fn describe(&self) -> (r: String)
        ensures
            self matches VmmonError::Config(m) ==> r@ == "config error: "@ + m@,
            self matches VmmonError::Elf(m) ==> r@ == "elf error: "@ + m@,
            self matches VmmonError::Boot(m) ==> r@ == "boot error: "@ + m@,
            self matches VmmonError::Unsupported(m) ==> r@ == "unsupported: "@ + m@,
            self is Io ==> exists|t: Seq<char>| r@ == "io error: "@ + t,
            self is Kvm ==> exists|t: Seq<char>| r@ == "kvm error: "@ + t,
    {
        match self {
            VmmonError::Config(m) => prefixed("config error: ", m),
            VmmonError::Io(e) => prefixed("io error: ", &io_error_text(e)),
            VmmonError::Kvm(e) => prefixed("kvm error: ", &kvm_error_text(e)),
            VmmonError::Elf(m) => prefixed("elf error: ", m),
            VmmonError::Boot(m) => prefixed("boot error: ", m),
            VmmonError::Unsupported(m) => prefixed("unsupported: ", m),
        }
    }
}

impl From<std::io::Error> for VmmonError {
    fn from(e: std::io::Error) -> (r: Self) {
        VmmonError::Io(e)
    }
}

impl vstd::std_specs::convert::FromSpecImpl<std::io::Error> for VmmonError {
    open spec fn obeys_from_spec() -> bool {
        true
    }

    open spec fn from_spec(e: std::io::Error) -> Self {
        VmmonError::Io(e)
    }
}

impl From<kvm_ioctls::Error> for VmmonError {
    fn from(e: kvm_ioctls::Error) -> (r: Self) {
        VmmonError::Kvm(e)
    }
}

impl vstd::std_specs::convert::FromSpecImpl<kvm_ioctls::Error> for VmmonError {
    open spec fn obeys_from_spec() -> bool {
        true
    }

    open spec fn from_spec(e: kvm_ioctls::Error) -> Self {
        VmmonError::Kvm(e)
    }
}

} // verus!
