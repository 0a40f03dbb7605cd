//! What each operation answers, given what the storage answered.
//!
//! The operations of the store differ in what they make of a failure: some
//! pass it on, others take it for an absent value. These functions hold
//! that part of each operation. They do not look at the error, so they
//! serve any storage, whatever its error type is.

use crate::encoding::{decode_list, decoded_list};
use vstd::prelude::*;

verus! {

/// What initialising a key does after it has tried to read the key.
pub enum InitStep {
    /// The key has this value, which is the answer; nothing is written.
    Existing(String),
    /// The key has no value that could be read: the default is to be
    /// written.
    WriteDefault,
}

/// Whether a key has a value: whether reading it succeeded. A failure of
/// any kind means that it has none.
pub fn has_outcome<E>(found: &Result<String, E>) -> (present: bool)
    ensures
        present == (found is Ok),
{
    match found {
        Ok(_) => true,
        Err(_) => false,
    }
}

/// The items of a key's list: those that the value holds, if reading it
/// succeeded, and none after a failure of any kind.
pub fn read_list_outcome<E>(found: Result<String, E>) -> (items: Vec<String>)
    ensures
        items.deep_view() == match found {
            Ok(contents) => decoded_list(contents@),
            Err(_) => Seq::<Seq<char>>::empty(),
        },
{
    match found {
        Ok(contents) => decode_list(contents.as_str()),
        Err(_) => Vec::new(),
    }
}

/// What initialising a key does once it has tried to read it: a value
/// that was read is the answer, and after a failure of any kind the
/// default is to be written.
pub fn init_after_read<E>(found: Result<String, E>) -> (step: InitStep)
    ensures
        step == match found {
            Ok(existing) => InitStep::Existing(existing),
            Err(_) => InitStep::WriteDefault,
        },
{
    match found {
        Ok(existing) => InitStep::Existing(existing),
        Err(_) => InitStep::WriteDefault,
    }
}

/// What initialising a key answers once it has tried to write the
/// default: the default, if it was written, and else the failure itself.
pub fn init_after_write<E>(written: Result<(), E>, default_value: &str) -> (value: Result<
    String,
    E,
>)
    ensures
        match written {
            Ok(_) => value is Ok && value->Ok_0@ == default_value@,
            Err(error) => value == Err::<String, E>(error),
        },
{
    match written {
        Ok(_) => Ok(default_value.to_owned()),
        Err(error) => Err(error),
    }
}

/// What clearing a key answers once it has tried to remove the value:
/// success, whether the value was removed or not.
pub fn clear_outcome<E>(removed: Result<(), E>) -> (cleared: Result<(), E>)
    ensures
        cleared is Ok,
{
    Ok(())
}

} // verus!
