//! `nix::sys::signal::Signal`: the signal that ended a process.
use nix::sys::signal::Signal;
use vstd::prelude::*;

verus! {

/// `nix::sys::signal::Signal`, an operating system signal.
#[verifier::external_type_specification]
#[verifier::external_body]
pub struct ExSignal(Signal);

/// The text that `Signal` is displayed as: its name, such as `SIGTERM`.
pub uninterp spec fn signal_name(sig: Signal) -> Seq<char>;

/// `c` is a capital letter or a digit.
pub open spec fn is_capital_or_digit(c: char) -> bool {
    'A' <= c <= 'Z' || '0' <= c <= '9'
}

/// `<Signal as Display>::fmt`: the signal's name, made of capital letters and digits.
#[verifier::external_body]
pub(crate) fn signal_text(sig: &Signal) -> (text: String)
    ensures
        text@ == signal_name(*sig),
        forall|i: int| 0 <= i < text@.len() ==> is_capital_or_digit(#[trigger] text@[i]),
{
    sig.to_string()
}

} // verus!
