//! The error value of `anyhow` that checking returns when it fails.
use vstd::prelude::*;

verus! {

#[verifier::external_type_specification]
#[verifier::external_body]
pub struct ExAnyhowError(anyhow::Error);

/// The text that an `anyhow` error displays.
pub uninterp spec fn error_text(e: anyhow::Error) -> Seq<char>;

/// `anyhow::Error::msg`: an error that displays `message`. The error may
/// also carry a backtrace, which depends on the environment; nothing is said
/// of it.
#[verifier::external_body]
pub(crate) fn error_from_message(message: String) -> (e: anyhow::Error)
    ensures
        error_text(e) == message@,
{
    anyhow::Error::msg(message)
}

} // verus!
