use vstd::prelude::*;
use vstd::string::*;
use crate::text::{signed_decimal, signed_decimal_string};

verus! {

/// Result code of a successful libmdbx call.
pub const MDBX_SUCCESS: i32 = 0;

/// Result code that libmdbx uses for a successful call that answers "true".
pub const MDBX_RESULT_TRUE: i32 = -1;

/// Result code of a lookup that found nothing.
pub const MDBX_NOTFOUND: i32 = -30798;

/// An error reported by libmdbx, carrying its result code.
#[derive(Debug, Clone, Copy, PartialEq, Eq, Structural)]
pub struct Error(pub i32);

/// The codes that the library treats as success.
pub open spec fn is_ok_code(code: i32) -> bool {
    code == MDBX_SUCCESS || code == MDBX_RESULT_TRUE
}

/// Turns a libmdbx result code into a `Result`: success and "true" are `Ok`,
/// every other code is an `Error` that carries it.
pub fn err(code: i32) -> (r: Result<(), Error>)
    ensures
        is_ok_code(code) <==> r is Ok,
        r matches Err(e) ==> e.0 == code,
{
    if code == MDBX_SUCCESS || code == MDBX_RESULT_TRUE {
        Ok(())
    } else {
        Err(Error(code))
    }
}

/// What a lookup or delete answers for a result code: `Ok(true)` when the
/// item was there, `Ok(false)` when it was not found, an `Error` otherwise.
pub fn found(code: i32) -> (r: Result<bool, Error>)
    ensures
        code == MDBX_SUCCESS ==> r == Ok::<bool, Error>(true),
        code == MDBX_NOTFOUND ==> r == Ok::<bool, Error>(false),
        code != MDBX_SUCCESS && code != MDBX_NOTFOUND ==> r == Err::<bool, Error>(Error(code)),
{
    if code == MDBX_SUCCESS {
        Ok(true)
    } else if code == MDBX_NOTFOUND {
        Ok(false)
    } else {
        Err(Error(code))
    }
}

impl Error {
    /// The message shown for this error, given libmdbx's description of its
    /// code: the description followed by ` ( code : N )`.
    pub fn message(&self, reason: &str) -> (r: String)
        ensures
            r@ == reason@ + " ( code : "@ + signed_decimal(self.0 as int) + " )"@,
    {
        let mut s = String::from_str(reason);
        s.append(" ( code : ");
        let d = signed_decimal_string(self.0 as i64);
        s.append(d.as_str());
        s.append(" )");
        s
    }
}

} // verus!
