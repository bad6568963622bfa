use vstd::prelude::*;
use std::borrow::Cow;
use crate::err::MDBX_SUCCESS;

verus! {

/// A read value, given the code that libmdbx's dirty-page test gave for it:
/// copied when the code is success, borrowed from the page otherwise.
pub fn cow_val<'a>(val: &'a [u8], dirty_code: i32) -> (r: Cow<'a, [u8]>)
    ensures
        r@ == val@,
        dirty_code == MDBX_SUCCESS <==> r is Owned,
{
    if dirty_code == MDBX_SUCCESS {
        Cow::Owned(vstd::slice::slice_to_vec(val))
    } else {
        Cow::Borrowed(val)
    }
}

} // verus!
