use lib::{
    morloc_into_i16, morloc_into_i32, morloc_into_i64, morloc_into_int, morloc_into_u16, morloc_into_u32,
    morloc_into_u64, morloc_size, morloc_to_index, morloc_try_i16, morloc_try_i32, morloc_try_i64, morloc_try_i8,
    morloc_try_int, morloc_try_u16, morloc_try_u32, morloc_try_u64, morloc_try_u8, MorlocTryTo,
};

#[test]
fn widening_casts() {
    assert_eq!(morloc_into_u16(&200u8), 200);
    assert_eq!(morloc_into_u32(&65535u16), 65535);
    assert_eq!(morloc_into_u64(&4000000000u32), 4000000000);
    assert_eq!(morloc_into_i16(&-100i8), -100);
    assert_eq!(morloc_into_i32(&-30000i16), -30000);
    assert_eq!(morloc_into_i64(&-2000000000i32), -2000000000);
    assert_eq!(morloc_into_int(&u32::MAX), 4294967295);
    assert_eq!(morloc_into_i64(&250u8), 250);
}

#[test]
fn narrowing_casts_truncate() {
    assert_eq!(morloc_into_u16(&70000i64), 70000u32 as u16);
    assert_eq!(morloc_into_i16(&-1i64), -1);
    assert_eq!(morloc_into_u32(&-1i32), u32::MAX);
}

#[test]
fn checked_conversions_in_range() {
    assert_eq!(morloc_try_u8(&255i64), 255);
    assert_eq!(morloc_try_u16(&1000i32), 1000);
    assert_eq!(morloc_try_u32(&7u64), 7);
    assert_eq!(morloc_try_u64(&9i8), 9);
    assert_eq!(morloc_try_i8(&-128i64), -128);
    assert_eq!(morloc_try_i16(&-5i8), -5);
    assert_eq!(morloc_try_i32(&2147483647u64), 2147483647);
    assert_eq!(morloc_try_i64(&123u64), 123);
    assert_eq!(morloc_try_int(&-9i16), -9);
}

#[test]
fn checked_conversions_report_range() {
    assert_eq!(256i64.m_try_u8(), None);
    assert_eq!((-1i64).m_try_u8(), None);
    assert_eq!((-1i8).m_try_u64(), None);
    assert_eq!(u64::MAX.m_try_i64(), None);
    assert_eq!(128u8.m_try_i8(), None);
    assert_eq!(127u8.m_try_i8(), Some(127));
    assert_eq!(i64::MIN.m_try_i32(), None);
    assert_eq!((-32768i64).m_try_i16(), Some(-32768));
}

#[test]
fn sizes() {
    assert_eq!(morloc_size(&vec![1, 2, 3]), 3);
    assert_eq!(morloc_size(&Vec::<i64>::new()), 0);
    assert_eq!(morloc_size(&String::from("hello")), 5);
    // the size of a string counts its UTF-8 bytes
    assert_eq!(morloc_size(&String::from("héllo")), 6);
}

#[test]
fn to_index() {
    assert_eq!(morloc_to_index(&5u8), Some(5));
    assert_eq!(morloc_to_index(&-3i32), Some(-3));
    assert_eq!(morloc_to_index(&Some(7u16)), Some(7));
    assert_eq!(morloc_to_index(&None::<i64>), None);
    assert_eq!(morloc_to_index(&u64::MAX), Some(-1));
}
