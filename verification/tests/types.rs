use mdbx::err::{MDBX_RESULT_TRUE, MDBX_SUCCESS};
use std::borrow::Cow;
use mdbx::types::{read_uint, write_uint, Bin, ByteOrder, FromMdbx, Str, ToAsRef};

fn store<K, T: ToAsRef<K>>(x: &T, o: ByteOrder) -> Vec<u8> {
    x.to_as_ref(o)
}

#[test]
fn u32_bytes_in_each_order() {
    assert_eq!(store::<u32, u32>(&0x0102_0304, ByteOrder::Little), vec![4, 3, 2, 1]);
    assert_eq!(store::<u32, u32>(&0x0102_0304, ByteOrder::Big), vec![1, 2, 3, 4]);
    assert_eq!(u32::from_mdbx(&[4, 3, 2, 1], MDBX_SUCCESS, ByteOrder::Little), 0x0102_0304);
    assert_eq!(u32::from_mdbx(&[1, 2, 3, 4], MDBX_SUCCESS, ByteOrder::Big), 0x0102_0304);
}

#[test]
fn native_order_matches_std() {
    let native = if u16::from_ne_bytes([1, 0]) == 1 { ByteOrder::Little } else { ByteOrder::Big };
    assert_eq!(store::<u64, u64>(&0xdead_beef_0bad_f00d, native), 0xdead_beef_0bad_f00du64.to_ne_bytes().to_vec());
    assert_eq!(store::<i16, i16>(&-2, native), (-2i16).to_ne_bytes().to_vec());
    assert_eq!(store::<usize, usize>(&12345, native), 12345usize.to_ne_bytes().to_vec());
    assert_eq!(store::<isize, isize>(&-12345, native), (-12345isize).to_ne_bytes().to_vec());
    assert_eq!(i128::from_mdbx(&i128::MIN.to_ne_bytes(), MDBX_SUCCESS, native), i128::MIN);
    assert_eq!(u128::from_mdbx(&u128::MAX.to_ne_bytes(), MDBX_SUCCESS, native), u128::MAX);
}

#[test]
fn signed_twos_complement() {
    assert_eq!(store::<i16, i16>(&-2, ByteOrder::Little), vec![0xfe, 0xff]);
    assert_eq!(store::<i8, i8>(&-128, ByteOrder::Big), vec![0x80]);
    assert_eq!(i8::from_mdbx(&[0xff], MDBX_SUCCESS, ByteOrder::Little), -1);
    assert_eq!(i64::from_mdbx(&[0x80, 0, 0, 0, 0, 0, 0, 0], MDBX_SUCCESS, ByteOrder::Big), i64::MIN);
    assert_eq!(i32::from_mdbx(&[0xff, 0xff, 0xff, 0x7f], MDBX_SUCCESS, ByteOrder::Little), i32::MAX);
}

#[test]
fn integers_round_trip() {
    for o in [ByteOrder::Little, ByteOrder::Big] {
        for x in [0u64, 1, 255, 256, u64::MAX, 0x0123_4567_89ab_cdef] {
            assert_eq!(u64::from_mdbx(&store::<u64, u64>(&x, o), MDBX_SUCCESS, o), x);
        }
        for x in [0i128, -1, i128::MIN, i128::MAX, 42] {
            assert_eq!(i128::from_mdbx(&store::<i128, i128>(&x, o), MDBX_SUCCESS, o), x);
        }
        for x in [0u8, 7, 255] {
            assert_eq!(u8::from_mdbx(&store::<u8, u8>(&x, o), MDBX_SUCCESS, o), x);
        }
        for x in [i16::MIN, -1, 0, i16::MAX] {
            assert_eq!(i16::from_mdbx(&store::<i16, i16>(&x, o), MDBX_SUCCESS, o), x);
        }
        for x in [0u16, 0xabcd] {
            assert_eq!(u16::from_mdbx(&store::<u16, u16>(&x, o), MDBX_SUCCESS, o), x);
        }
        for x in [0u128, u128::MAX] {
            assert_eq!(u128::from_mdbx(&store::<u128, u128>(&x, o), MDBX_SUCCESS, o), x);
        }
        for x in [usize::MAX, 3] {
            assert_eq!(usize::from_mdbx(&store::<usize, usize>(&x, o), MDBX_SUCCESS, o), x);
        }
        for x in [isize::MIN, -3] {
            assert_eq!(isize::from_mdbx(&store::<isize, isize>(&x, o), MDBX_SUCCESS, o), x);
        }
    }
}

#[test]
fn bools_are_one_byte() {
    assert_eq!(store::<bool, bool>(&true, ByteOrder::Little), vec![1]);
    assert_eq!(store::<bool, bool>(&false, ByteOrder::Big), vec![0]);
    assert!(bool::from_mdbx(&[7, 0], MDBX_SUCCESS, ByteOrder::Little));
    assert!(!bool::from_mdbx(&[0], MDBX_SUCCESS, ByteOrder::Little));
}

#[test]
fn raw_uint_helpers() {
    assert_eq!(write_uint(0x1234, 3, ByteOrder::Big), vec![0, 0x12, 0x34]);
    assert_eq!(write_uint(0x1_0000, 2, ByteOrder::Little), vec![0, 0]);
    assert_eq!(read_uint(&[0x34, 0x12, 0], ByteOrder::Little), 0x1234);
    assert_eq!(read_uint(&[], ByteOrder::Big), 0);
}

#[test]
fn bin_and_str_keep_bytes() {
    let b = Bin::from_mdbx(&[1, 2, 3], MDBX_SUCCESS, ByteOrder::Little);
    assert!(b.eq_bytes(&[1, 2, 3]));
    assert!(!b.eq_bytes(&[1, 2]));
    assert_eq!(b.as_bytes(), &[1, 2, 3]);
    assert_eq!(b.render(), "[1, 2, 3]");
    assert_eq!(Bin(Cow::Owned(vec![])).render(), "[]");
    let stored = store::<Str, String>(&"地球".to_string(), ByteOrder::Little);
    assert_eq!(stored, "地球".as_bytes().to_vec());
    let s = Str::from_mdbx(&stored, MDBX_SUCCESS, ByteOrder::Little);
    assert_eq!(s.as_str(), "地球");
    assert!(s.eq_bytes("地球".as_bytes()));
    assert_eq!(s.into_string(), "地球");
    let t = Bin::from_mdbx("海洋".as_bytes(), MDBX_SUCCESS, ByteOrder::Big);
    assert_eq!(t.into_string(), "海洋");
    assert_eq!(store::<Bin, Vec<u8>>(&vec![9, 8], ByteOrder::Big), vec![9, 8]);
    assert_eq!(store::<Bin, String>(&"ab".to_string(), ByteOrder::Big), vec![b'a', b'b']);
    assert_eq!(store::<Str, Vec<u8>>(&vec![5], ByteOrder::Little), vec![5]);
}

#[test]
fn borrowed_and_array_keys() {
    assert_eq!(store::<Bin, [u8; 2]>(&[2, 3], ByteOrder::Little), vec![2, 3]);
    assert_eq!(store::<Bin, &[u8]>(&&[4u8][..], ByteOrder::Little), vec![4]);
    assert_eq!(store::<Str, &str>(&"月亮", ByteOrder::Big), "月亮".as_bytes().to_vec());
    assert_eq!(store::<Bin, &str>(&"", ByteOrder::Big), Vec::<u8>::new());
    assert_eq!(store::<Str, [u8; 0]>(&[], ByteOrder::Big), Vec::<u8>::new());
}

#[test]
fn accepts_checks_sizes() {
    assert!(u64::accepts(&[0; 8]));
    assert!(!u64::accepts(&[0; 7]));
    assert!(bool::accepts(&[1]));
    assert!(!bool::accepts(&[]));
    assert!(Bin::accepts(&[]));
    assert!(usize::accepts(&0usize.to_ne_bytes()));
    assert!(!i16::accepts(&[1, 2, 3]));
}

#[test]
fn bin_views() {
    let b = Bin(Cow::Borrowed(&[0x61, 0x62]));
    assert_eq!(b.as_array::<2>(), &[0x61, 0x62]);
    assert_eq!(b.as_str(), "ab");
}

#[test]
fn bin_borrows_unless_the_dirty_test_succeeds() {
    let data = [1u8, 2];
    let owned = Bin::from_mdbx(&data, MDBX_SUCCESS, ByteOrder::Little);
    assert!(matches!(owned.0, Cow::Owned(_)));
    let borrowed = Str::from_mdbx(&data, MDBX_RESULT_TRUE, ByteOrder::Little);
    assert!(matches!(borrowed.0, Cow::Borrowed(_)));
    assert!(borrowed.eq_bytes(&[1, 2]));
    assert_eq!(store::<Bin, &[u8; 1]>(&&[3u8], ByteOrder::Little), vec![3]);
}
