use mdbx::err::{err, found, Error, MDBX_NOTFOUND, MDBX_RESULT_TRUE, MDBX_SUCCESS};
use mdbx::types::{get_result, ByteOrder};
use mdbx::val::cow_val;
use std::borrow::Cow;

#[test]
fn err_accepts_success_and_true() {
    assert_eq!(err(MDBX_SUCCESS), Ok(()));
    assert_eq!(err(MDBX_RESULT_TRUE), Ok(()));
    assert_eq!(err(MDBX_NOTFOUND), Err(Error(MDBX_NOTFOUND)));
    assert_eq!(err(22), Err(Error(22)));
}

#[test]
fn found_distinguishes_missing_from_errors() {
    assert_eq!(found(MDBX_SUCCESS), Ok(true));
    assert_eq!(found(MDBX_NOTFOUND), Ok(false));
    assert_eq!(found(MDBX_RESULT_TRUE), Err(Error(MDBX_RESULT_TRUE)));
    assert_eq!(get_result::<u32>(MDBX_SUCCESS, &[1, 0, 0, 0], MDBX_SUCCESS, ByteOrder::Little), Ok(Some(1)));
    assert_eq!(get_result::<u32>(MDBX_NOTFOUND, &[], MDBX_SUCCESS, ByteOrder::Little), Ok(None));
    assert_eq!(get_result::<bool>(-30778, &[], MDBX_SUCCESS, ByteOrder::Big), Err(Error(-30778)));
}

#[test]
fn error_message_names_the_code() {
    assert_eq!(Error(MDBX_NOTFOUND).message("MDBX_NOTFOUND: No matching key/data pair found"),
        "MDBX_NOTFOUND: No matching key/data pair found ( code : -30798 )");
    assert_eq!(Error(12).message("Cannot allocate memory"), "Cannot allocate memory ( code : 12 )");
}

#[test]
fn cow_val_copies_only_on_success() {
    let data = [1u8, 2, 3];
    match cow_val(&data, MDBX_SUCCESS) {
        Cow::Owned(v) => assert_eq!(v, vec![1, 2, 3]),
        Cow::Borrowed(_) => panic!("expected a copy"),
    }
    match cow_val(&data, MDBX_RESULT_TRUE) {
        Cow::Borrowed(b) => assert_eq!(b, &data),
        Cow::Owned(_) => panic!("expected a borrow"),
    }
}
