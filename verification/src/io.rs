//! Help with reads that would block or that a signal interrupts.

use vstd::prelude::*;

verus! {

/// The error type of the standard library's input and output.
#[verifier::external_type_specification]
#[verifier::external_body]
pub struct ExIoError(std::io::Error);

/// `std::io::Error::kind`, held against `WouldBlock`: whether the error says
/// that the operation would have had to wait.
#[verifier::external_body]
fn is_would_block(error: &std::io::Error) -> bool {
    error.kind() == std::io::ErrorKind::WouldBlock
}

/// `std::io::Error::kind`, held against `Interrupted`: whether the error
/// says that a signal interrupted the operation.
#[verifier::external_body]
fn is_interrupted(error: &std::io::Error) -> bool {
    error.kind() == std::io::ErrorKind::Interrupted
}

/// Turns a result into one with an optional value: a value is kept, and an
/// error is kept unless it is to be absorbed, which gives no value and no error.
pub fn absorb<T, E>(result: Result<T, E>, absorbed: bool) -> (outcome: Result<Option<T>, E>)
    ensures
        outcome == match result {
            Ok(value) => Ok::<Option<T>, E>(Some(value)),
            Err(error) => if absorbed {
                Ok::<Option<T>, E>(None)
            } else {
                Err::<Option<T>, E>(error)
            },
        },
{
    match result {
        Ok(value) => Ok(Some(value)),
        Err(error) => if absorbed {
            Ok(None)
        } else {
            Err(error)
        },
    }
}

/// Turns the error of an operation that would have had to wait into "no
/// value yet". A value and any other error pass through.
pub fn try_nonblocking<T>(result: std::io::Result<T>) -> (outcome: std::io::Result<Option<T>>)
    ensures
        result matches Ok(value) ==> outcome == Ok::<Option<T>, std::io::Error>(Some(value)),
        result matches Err(error) ==> outcome == Ok::<Option<T>, std::io::Error>(None) || outcome
            == Err::<Option<T>, std::io::Error>(error),
{
    let absorbed = match &result {
        Ok(_) => false,
        Err(error) => is_would_block(error),
    };
    absorb(result, absorbed)
}

/// Turns the error of an operation that a signal interrupted into "no value
/// yet". A value and any other error pass through.
pub fn try_uninterrupted<T>(result: std::io::Result<T>) -> (outcome: std::io::Result<Option<T>>)
    ensures
        result matches Ok(value) ==> outcome == Ok::<Option<T>, std::io::Error>(Some(value)),
        result matches Err(error) ==> outcome == Ok::<Option<T>, std::io::Error>(None) || outcome
            == Err::<Option<T>, std::io::Error>(error),
{
    let absorbed = match &result {
        Ok(_) => false,
        Err(error) => is_interrupted(error),
    };
    absorb(result, absorbed)
}

} // verus!
