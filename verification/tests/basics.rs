use lib::{
    morloc_abs, morloc_add, morloc_and, morloc_div, morloc_eq, morloc_id, morloc_int_div, morloc_int_mod, morloc_le,
    morloc_mul, morloc_neg, morloc_not, morloc_or, morloc_pack_unit, morloc_pow, morloc_sub, morloc_unpack_unit,
};

#[test]
fn booleans() {
    assert_eq!(morloc_not(true), false);
    assert_eq!(morloc_not(false), true);
    assert_eq!(morloc_and(true, false), false);
    assert_eq!(morloc_and(true, true), true);
    assert_eq!(morloc_or(false, false), false);
    assert_eq!(morloc_or(false, true), true);
}

#[test]
fn identity_and_comparison() {
    assert_eq!(morloc_id(&String::from("abc")), "abc");
    assert_eq!(morloc_id(&42i64), 42);
    assert!(morloc_eq(&3i32, &3i32));
    assert!(!morloc_eq(&3i32, &4i32));
    assert!(morloc_eq(&String::from("x"), &String::from("x")));
    assert!(morloc_le(&3i64, &3i64));
    assert!(morloc_le(&2i64, &3i64));
    assert!(!morloc_le(&4i64, &3i64));
    assert!(morloc_le(&1.5f64, &2.5f64));
    assert!(!morloc_le(&f64::NAN, &1.0f64));
}

#[test]
fn arithmetic() {
    assert_eq!(morloc_add(&2i64, &3i64), 5);
    assert_eq!(morloc_sub(&2i64, &3i64), -1);
    assert_eq!(morloc_mul(&-4i32, &3i32), -12);
    assert_eq!(morloc_div(&7u8, &2u8), 3);
    assert_eq!(morloc_div(&7.0f64, &2.0f64), 3.5);
    assert_eq!(morloc_add(&0.5f64, &0.25f64), 0.75);
}

#[test]
fn int_div_mod_truncate_toward_zero() {
    assert_eq!(morloc_int_div(&7i64, &2i64), 3);
    assert_eq!(morloc_int_mod(&7i64, &2i64), 1);
    assert_eq!(morloc_int_div(&-7i64, &2i64), -3);
    assert_eq!(morloc_int_mod(&-7i64, &2i64), -1);
    assert_eq!(morloc_int_div(&7i64, &-2i64), -3);
    assert_eq!(morloc_int_mod(&7i64, &-2i64), 1);
    assert_eq!(morloc_int_div(&-7i64, &-2i64), 3);
    assert_eq!(morloc_int_mod(&-7i64, &-2i64), -1);
    // q * y + r == x
    for (x, y) in [(17i64, 5i64), (-17, 5), (17, -5), (-17, -5), (0, 3)] {
        let q = morloc_int_div(&x, &y);
        let r = morloc_int_mod(&x, &y);
        assert_eq!(q * y + r, x);
        assert!(r.abs() < y.abs());
        assert!(r == 0 || (r < 0) == (x < 0));
    }
}

#[test]
fn neg_signed_and_unsigned() {
    assert_eq!(morloc_neg(&5i32), -5);
    assert_eq!(morloc_neg(&-5i64), 5);
    assert_eq!(morloc_neg(&0i8), 0);
    // unsigned neg wraps, as (-1) * x does modulo the width
    assert_eq!(morloc_neg(&1u8), 255);
    assert_eq!(morloc_neg(&0u8), 0);
    assert_eq!(morloc_neg(&200u8), 56);
    assert_eq!(morloc_neg(&1u64), u64::MAX);
    // negating twice gives the value back
    for x in [0u16, 1, 7, 40000, u16::MAX] {
        assert_eq!(morloc_neg(&morloc_neg(&x)), x);
        assert_eq!(x.wrapping_add(morloc_neg(&x)), 0);
    }
    for x in [i32::MIN + 1, -3, 0, 9, i32::MAX] {
        assert_eq!(morloc_neg(&morloc_neg(&x)), x);
    }
}

#[test]
fn abs_values() {
    assert_eq!(morloc_abs(&-7i16), 7);
    assert_eq!(morloc_abs(&7i16), 7);
    assert_eq!(morloc_abs(&0i64), 0);
    assert_eq!(morloc_abs(&i8::MAX), 127);
    assert_eq!(morloc_abs(&200u8), 200);
}

#[test]
fn integer_power() {
    assert_eq!(morloc_pow(&2i64, &10i64), 1024);
    assert_eq!(morloc_pow(&-3i32, &3i32), -27);
    assert_eq!(morloc_pow(&-3i32, &4i32), 81);
    assert_eq!(morloc_pow(&7u8, &0u8), 1);
    assert_eq!(morloc_pow(&0u64, &5u64), 0);
    assert_eq!(morloc_pow(&0i16, &0i16), 1);
    assert_eq!(morloc_pow(&1i8, &-1i8), 1);
    assert_eq!(morloc_pow(&-1i8, &-1i8), -1);
    assert_eq!(morloc_pow(&-1i64, &6i64), 1);
    assert_eq!(morloc_pow(&2u64, &63u64), 1u64 << 63);
    assert_eq!(morloc_pow(&-2i64, &63i64), i64::MIN);
    assert_eq!(morloc_pow(&3u8, &5u8), 243);
}

#[test]
fn units() {
    morloc_pack_unit(17);
    assert_eq!(morloc_unpack_unit(()), 0);
}

#[test]
fn div_mod_identity_on_every_width() {
    assert_eq!(morloc_int_div(&-7i8, &2i8) * 2 + morloc_int_mod(&-7i8, &2i8), -7);
    assert_eq!(morloc_int_mod(&-7i8, &2i8), -1);
    assert_eq!(morloc_int_mod(&7i16, &-2i16), 1);
    assert_eq!(morloc_int_div(&i32::MIN, &1i32), i32::MIN);
    assert_eq!(morloc_int_mod(&-9i32, &4i32), -1);
    assert_eq!(morloc_int_div(&17u8, &5u8), 3);
    assert_eq!(morloc_int_mod(&17u16, &5u16), 2);
    assert_eq!(morloc_int_div(&u32::MAX, &2u32) * 2 + morloc_int_mod(&u32::MAX, &2u32), u32::MAX);
    assert_eq!(morloc_int_mod(&u64::MAX, &10u64), 5);
}
