//! Status codes of the search engine.

use vstd::prelude::*;

verus! {

/// The engine's status for success. A token callback that returns it asks for
/// the next token.
pub const SQLITE_OK: i32 = 0;

/// The engine's status for a generic failure.
pub const SQLITE_ERROR: i32 = 1;

/// Tells an absent analyzer result from a present one. What the analyzer
/// returned is handed on; where it returned nothing, the analyzer's last
/// error text is the error.
pub fn check<T>(value: Option<T>, error_text: String) -> (checked: Result<T, String>)
    ensures
        value matches Some(v) ==> checked == Ok::<T, String>(v),
        value is None ==> checked == Err::<T, String>(error_text),
{
    match value {
        Some(v) => Ok(v),
        None => Err(error_text),
    }
}

} // verus!
