use vstd::prelude::*;
use vstd::utf8::encode_utf8;

verus! {

// ---------------------------------------------------------------------------
// TotalInto: a plain `as` cast between integer types (exact on the widenings
// the instances are meant for, truncating otherwise)
// ---------------------------------------------------------------------------

pub trait MorlocInto: Copy + Sized {
    /// The value as a mathematical integer.
    spec fn into_source(self) -> int;

    fn as_u16(self) -> (r: u16)
        ensures
            r == self.into_source() as u16,
    ;

    fn as_u32(self) -> (r: u32)
        ensures
            r == self.into_source() as u32,
    ;

    fn as_u64(self) -> (r: u64)
        ensures
            r == self.into_source() as u64,
    ;

    fn as_i16(self) -> (r: i16)
        ensures
            r == self.into_source() as i16,
    ;

    fn as_i32(self) -> (r: i32)
        ensures
            r == self.into_source() as i32,
    ;

    fn as_i64(self) -> (r: i64)
        ensures
            r == self.into_source() as i64,
    ;
}

impl MorlocInto for i8 {
    open spec fn into_source(self) -> int {
        self as int
    }

    fn as_u16(self) -> (r: u16) {
        self as u16
    }

    fn as_u32(self) -> (r: u32) {
        self as u32
    }

    fn as_u64(self) -> (r: u64) {
        self as u64
    }

    fn as_i16(self) -> (r: i16) {
        self as i16
    }

    fn as_i32(self) -> (r: i32) {
        self as i32
    }

    fn as_i64(self) -> (r: i64) {
        self as i64
    }
}

impl MorlocInto for i16 {
    open spec fn into_source(self) -> int {
        self as int
    }

    fn as_u16(self) -> (r: u16) {
        self as u16
    }

    fn as_u32(self) -> (r: u32) {
        self as u32
    }

    fn as_u64(self) -> (r: u64) {
        self as u64
    }

    fn as_i16(self) -> (r: i16) {
        self as i16
    }

    fn as_i32(self) -> (r: i32) {
        self as i32
    }

    fn as_i64(self) -> (r: i64) {
        self as i64
    }
}

impl MorlocInto for i32 {
    open spec fn into_source(self) -> int {
        self as int
    }

    fn as_u16(self) -> (r: u16) {
        self as u16
    }

    fn as_u32(self) -> (r: u32) {
        self as u32
    }

    fn as_u64(self) -> (r: u64) {
        self as u64
    }

    fn as_i16(self) -> (r: i16) {
        self as i16
    }

    fn as_i32(self) -> (r: i32) {
        self as i32
    }

    fn as_i64(self) -> (r: i64) {
        self as i64
    }
}

impl MorlocInto for i64 {
    open spec fn into_source(self) -> int {
        self as int
    }

    fn as_u16(self) -> (r: u16) {
        self as u16
    }

    fn as_u32(self) -> (r: u32) {
        self as u32
    }

    fn as_u64(self) -> (r: u64) {
        self as u64
    }

    fn as_i16(self) -> (r: i16) {
        self as i16
    }

    fn as_i32(self) -> (r: i32) {
        self as i32
    }

    fn as_i64(self) -> (r: i64) {
        self as i64
    }
}

impl MorlocInto for u8 {
    open spec fn into_source(self) -> int {
        self as int
    }

    fn as_u16(self) -> (r: u16) {
        self as u16
    }

    fn as_u32(self) -> (r: u32) {
        self as u32
    }

    fn as_u64(self) -> (r: u64) {
        self as u64
    }

    fn as_i16(self) -> (r: i16) {
        self as i16
    }

    fn as_i32(self) -> (r: i32) {
        self as i32
    }

    fn as_i64(self) -> (r: i64) {
        self as i64
    }
}

impl MorlocInto for u16 {
    open spec fn into_source(self) -> int {
        self as int
    }

    fn as_u16(self) -> (r: u16) {
        self as u16
    }

    fn as_u32(self) -> (r: u32) {
        self as u32
    }

    fn as_u64(self) -> (r: u64) {
        self as u64
    }

    fn as_i16(self) -> (r: i16) {
        self as i16
    }

    fn as_i32(self) -> (r: i32) {
        self as i32
    }

    fn as_i64(self) -> (r: i64) {
        self as i64
    }
}

impl MorlocInto for u32 {
    open spec fn into_source(self) -> int {
        self as int
    }

    fn as_u16(self) -> (r: u16) {
        self as u16
    }

    fn as_u32(self) -> (r: u32) {
        self as u32
    }

    fn as_u64(self) -> (r: u64) {
        self as u64
    }

    fn as_i16(self) -> (r: i16) {
        self as i16
    }

    fn as_i32(self) -> (r: i32) {
        self as i32
    }

    fn as_i64(self) -> (r: i64) {
        self as i64
    }
}

impl MorlocInto for u64 {
    open spec fn into_source(self) -> int {
        self as int
    }

    fn as_u16(self) -> (r: u16) {
        self as u16
    }

    fn as_u32(self) -> (r: u32) {
        self as u32
    }

    fn as_u64(self) -> (r: u64) {
        self as u64
    }

    fn as_i16(self) -> (r: i16) {
        self as i16
    }

    fn as_i32(self) -> (r: i32) {
        self as i32
    }

    fn as_i64(self) -> (r: i64) {
        self as i64
    }
}

pub fn morloc_into_u16<F: MorlocInto>(x: &F) -> (r: u16)
    ensures
        r == x.into_source() as u16,
{
    x.as_u16()
}

pub fn morloc_into_u32<F: MorlocInto>(x: &F) -> (r: u32)
    ensures
        r == x.into_source() as u32,
{
    x.as_u32()
}

pub fn morloc_into_u64<F: MorlocInto>(x: &F) -> (r: u64)
    ensures
        r == x.into_source() as u64,
{
    x.as_u64()
}

pub fn morloc_into_i16<F: MorlocInto>(x: &F) -> (r: i16)
    ensures
        r == x.into_source() as i16,
{
    x.as_i16()
}

pub fn morloc_into_i32<F: MorlocInto>(x: &F) -> (r: i32)
    ensures
        r == x.into_source() as i32,
{
    x.as_i32()
}

pub fn morloc_into_i64<F: MorlocInto>(x: &F) -> (r: i64)
    ensures
        r == x.into_source() as i64,
{
    x.as_i64()
}

pub fn morloc_into_int<F: MorlocInto>(x: &F) -> (r: i64)
    ensures
        r == x.into_source() as i64,
{
    x.as_i64()
}

/// The casts are exact wherever the value fits the target type, so on every widening.
pub proof fn law_into_exact_when_in_range<F: MorlocInto>(x: F)
    ensures
        u16::MIN <= x.into_source() <= u16::MAX ==> x.into_source() as u16 == x.into_source(),
        u32::MIN <= x.into_source() <= u32::MAX ==> x.into_source() as u32 == x.into_source(),
        u64::MIN <= x.into_source() <= u64::MAX ==> x.into_source() as u64 == x.into_source(),
        i16::MIN <= x.into_source() <= i16::MAX ==> x.into_source() as i16 == x.into_source(),
        i32::MIN <= x.into_source() <= i32::MAX ==> x.into_source() as i32 == x.into_source(),
        i64::MIN <= x.into_source() <= i64::MAX ==> x.into_source() as i64 == x.into_source(),
{
}

// ---------------------------------------------------------------------------
// PartialInto: a range-checked conversion between integer types
// ---------------------------------------------------------------------------

/// `v` as a `u8`, where it is in that type's range.
pub open spec fn fit_u8(v: int) -> Option<u8> {
    if u8::MIN <= v <= u8::MAX {
        Some(v as u8)
    } else {
        None
    }
}

fn narrow_u8(v: i128) -> (r: Option<u8>)
    ensures
        r == fit_u8(v as int),
{
    if u8::MIN as i128 <= v && v <= u8::MAX as i128 {
        Some(v as u8)
    } else {
        None
    }
}

/// `v` as a `u16`, where it is in that type's range.
pub open spec fn fit_u16(v: int) -> Option<u16> {
    if u16::MIN <= v <= u16::MAX {
        Some(v as u16)
    } else {
        None
    }
}

fn narrow_u16(v: i128) -> (r: Option<u16>)
    ensures
        r == fit_u16(v as int),
{
    if u16::MIN as i128 <= v && v <= u16::MAX as i128 {
        Some(v as u16)
    } else {
        None
    }
}

/// `v` as a `u32`, where it is in that type's range.
pub open spec fn fit_u32(v: int) -> Option<u32> {
    if u32::MIN <= v <= u32::MAX {
        Some(v as u32)
    } else {
        None
    }
}

fn narrow_u32(v: i128) -> (r: Option<u32>)
    ensures
        r == fit_u32(v as int),
{
    if u32::MIN as i128 <= v && v <= u32::MAX as i128 {
        Some(v as u32)
    } else {
        None
    }
}

/// `v` as a `u64`, where it is in that type's range.
pub open spec fn fit_u64(v: int) -> Option<u64> {
    if u64::MIN <= v <= u64::MAX {
        Some(v as u64)
    } else {
        None
    }
}

fn narrow_u64(v: i128) -> (r: Option<u64>)
    ensures
        r == fit_u64(v as int),
{
    if u64::MIN as i128 <= v && v <= u64::MAX as i128 {
        Some(v as u64)
    } else {
        None
    }
}

/// `v` as a `i8`, where it is in that type's range.
pub open spec fn fit_i8(v: int) -> Option<i8> {
    if i8::MIN <= v <= i8::MAX {
        Some(v as i8)
    } else {
        None
    }
}

fn narrow_i8(v: i128) -> (r: Option<i8>)
    ensures
        r == fit_i8(v as int),
{
    if i8::MIN as i128 <= v && v <= i8::MAX as i128 {
        Some(v as i8)
    } else {
        None
    }
}

/// `v` as a `i16`, where it is in that type's range.
pub open spec fn fit_i16(v: int) -> Option<i16> {
    if i16::MIN <= v <= i16::MAX {
        Some(v as i16)
    } else {
        None
    }
}

fn narrow_i16(v: i128) -> (r: Option<i16>)
    ensures
        r == fit_i16(v as int),
{
    if i16::MIN as i128 <= v && v <= i16::MAX as i128 {
        Some(v as i16)
    } else {
        None
    }
}

/// `v` as a `i32`, where it is in that type's range.
pub open spec fn fit_i32(v: int) -> Option<i32> {
    if i32::MIN <= v <= i32::MAX {
        Some(v as i32)
    } else {
        None
    }
}

fn narrow_i32(v: i128) -> (r: Option<i32>)
    ensures
        r == fit_i32(v as int),
{
    if i32::MIN as i128 <= v && v <= i32::MAX as i128 {
        Some(v as i32)
    } else {
        None
    }
}

/// `v` as a `i64`, where it is in that type's range.
pub open spec fn fit_i64(v: int) -> Option<i64> {
    if i64::MIN <= v <= i64::MAX {
        Some(v as i64)
    } else {
        None
    }
}

fn narrow_i64(v: i128) -> (r: Option<i64>)
    ensures
        r == fit_i64(v as int),
{
    if i64::MIN as i128 <= v && v <= i64::MAX as i128 {
        Some(v as i64)
    } else {
        None
    }
}

/// A checked conversion succeeds exactly on the values in the target type's range, and then
/// keeps the value: negative values included, for the signed targets.
pub proof fn law_checked_conversion_keeps_value(v: int)
    ensures
        fit_i8(v) is Some <==> i8::MIN <= v <= i8::MAX,
        fit_i8(v) matches Some(w) ==> w as int == v,
        fit_i16(v) is Some <==> i16::MIN <= v <= i16::MAX,
        fit_i16(v) matches Some(w) ==> w as int == v,
        fit_i32(v) is Some <==> i32::MIN <= v <= i32::MAX,
        fit_i32(v) matches Some(w) ==> w as int == v,
        fit_i64(v) is Some <==> i64::MIN <= v <= i64::MAX,
        fit_i64(v) matches Some(w) ==> w as int == v,
        fit_u8(v) is Some <==> u8::MIN <= v <= u8::MAX,
        fit_u8(v) matches Some(w) ==> w as int == v,
        fit_u16(v) is Some <==> u16::MIN <= v <= u16::MAX,
        fit_u16(v) matches Some(w) ==> w as int == v,
        fit_u32(v) is Some <==> u32::MIN <= v <= u32::MAX,
        fit_u32(v) matches Some(w) ==> w as int == v,
        fit_u64(v) is Some <==> u64::MIN <= v <= u64::MAX,
        fit_u64(v) matches Some(w) ==> w as int == v,
{
}

pub trait MorlocTryTo: Copy + Sized {
    /// The value as a mathematical integer.
    spec fn try_source(self) -> int;

    fn m_try_u8(self) -> (r: Option<u8>)
        ensures
            r == fit_u8(self.try_source()),
    ;

    fn m_try_u16(self) -> (r: Option<u16>)
        ensures
            r == fit_u16(self.try_source()),
    ;

    fn m_try_u32(self) -> (r: Option<u32>)
        ensures
            r == fit_u32(self.try_source()),
    ;

    fn m_try_u64(self) -> (r: Option<u64>)
        ensures
            r == fit_u64(self.try_source()),
    ;

    fn m_try_i8(self) -> (r: Option<i8>)
        ensures
            r == fit_i8(self.try_source()),
    ;

    fn m_try_i16(self) -> (r: Option<i16>)
        ensures
            r == fit_i16(self.try_source()),
    ;

    fn m_try_i32(self) -> (r: Option<i32>)
        ensures
            r == fit_i32(self.try_source()),
    ;

    fn m_try_i64(self) -> (r: Option<i64>)
        ensures
            r == fit_i64(self.try_source()),
    ;
}

impl MorlocTryTo for i8 {
    open spec fn try_source(self) -> int {
        self as int
    }

    fn m_try_u8(self) -> (r: Option<u8>) {
        narrow_u8(self as i128)
    }

    fn m_try_u16(self) -> (r: Option<u16>) {
        narrow_u16(self as i128)
    }

    fn m_try_u32(self) -> (r: Option<u32>) {
        narrow_u32(self as i128)
    }

    fn m_try_u64(self) -> (r: Option<u64>) {
        narrow_u64(self as i128)
    }

    fn m_try_i8(self) -> (r: Option<i8>) {
        narrow_i8(self as i128)
    }

    fn m_try_i16(self) -> (r: Option<i16>) {
        narrow_i16(self as i128)
    }

    fn m_try_i32(self) -> (r: Option<i32>) {
        narrow_i32(self as i128)
    }

    fn m_try_i64(self) -> (r: Option<i64>) {
        narrow_i64(self as i128)
    }
}

impl MorlocTryTo for i16 {
    open spec fn try_source(self) -> int {
        self as int
    }

    fn m_try_u8(self) -> (r: Option<u8>) {
        narrow_u8(self as i128)
    }

    fn m_try_u16(self) -> (r: Option<u16>) {
        narrow_u16(self as i128)
    }

    fn m_try_u32(self) -> (r: Option<u32>) {
        narrow_u32(self as i128)
    }

    fn m_try_u64(self) -> (r: Option<u64>) {
        narrow_u64(self as i128)
    }

    fn m_try_i8(self) -> (r: Option<i8>) {
        narrow_i8(self as i128)
    }

    fn m_try_i16(self) -> (r: Option<i16>) {
        narrow_i16(self as i128)
    }

    fn m_try_i32(self) -> (r: Option<i32>) {
        narrow_i32(self as i128)
    }

    fn m_try_i64(self) -> (r: Option<i64>) {
        narrow_i64(self as i128)
    }
}

impl MorlocTryTo for i32 {
    open spec fn try_source(self) -> int {
        self as int
    }

    fn m_try_u8(self) -> (r: Option<u8>) {
        narrow_u8(self as i128)
    }

    fn m_try_u16(self) -> (r: Option<u16>) {
        narrow_u16(self as i128)
    }

    fn m_try_u32(self) -> (r: Option<u32>) {
        narrow_u32(self as i128)
    }

    fn m_try_u64(self) -> (r: Option<u64>) {
        narrow_u64(self as i128)
    }

    fn m_try_i8(self) -> (r: Option<i8>) {
        narrow_i8(self as i128)
    }

    fn m_try_i16(self) -> (r: Option<i16>) {
        narrow_i16(self as i128)
    }

    fn m_try_i32(self) -> (r: Option<i32>) {
        narrow_i32(self as i128)
    }

    fn m_try_i64(self) -> (r: Option<i64>) {
        narrow_i64(self as i128)
    }
}

impl MorlocTryTo for i64 {
    open spec fn try_source(self) -> int {
        self as int
    }

    fn m_try_u8(self) -> (r: Option<u8>) {
        narrow_u8(self as i128)
    }

    fn m_try_u16(self) -> (r: Option<u16>) {
        narrow_u16(self as i128)
    }

    fn m_try_u32(self) -> (r: Option<u32>) {
        narrow_u32(self as i128)
    }

    fn m_try_u64(self) -> (r: Option<u64>) {
        narrow_u64(self as i128)
    }

    fn m_try_i8(self) -> (r: Option<i8>) {
        narrow_i8(self as i128)
    }

    fn m_try_i16(self) -> (r: Option<i16>) {
        narrow_i16(self as i128)
    }

    fn m_try_i32(self) -> (r: Option<i32>) {
        narrow_i32(self as i128)
    }

    fn m_try_i64(self) -> (r: Option<i64>) {
        narrow_i64(self as i128)
    }
}

impl MorlocTryTo for u8 {
    open spec fn try_source(self) -> int {
        self as int
    }

    fn m_try_u8(self) -> (r: Option<u8>) {
        narrow_u8(self as i128)
    }

    fn m_try_u16(self) -> (r: Option<u16>) {
        narrow_u16(self as i128)
    }

    fn m_try_u32(self) -> (r: Option<u32>) {
        narrow_u32(self as i128)
    }

    fn m_try_u64(self) -> (r: Option<u64>) {
        narrow_u64(self as i128)
    }

    fn m_try_i8(self) -> (r: Option<i8>) {
        narrow_i8(self as i128)
    }

    fn m_try_i16(self) -> (r: Option<i16>) {
        narrow_i16(self as i128)
    }

    fn m_try_i32(self) -> (r: Option<i32>) {
        narrow_i32(self as i128)
    }

    fn m_try_i64(self) -> (r: Option<i64>) {
        narrow_i64(self as i128)
    }
}

impl MorlocTryTo for u16 {
    open spec fn try_source(self) -> int {
        self as int
    }

    fn m_try_u8(self) -> (r: Option<u8>) {
        narrow_u8(self as i128)
    }

    fn m_try_u16(self) -> (r: Option<u16>) {
        narrow_u16(self as i128)
    }

    fn m_try_u32(self) -> (r: Option<u32>) {
        narrow_u32(self as i128)
    }

    fn m_try_u64(self) -> (r: Option<u64>) {
        narrow_u64(self as i128)
    }

    fn m_try_i8(self) -> (r: Option<i8>) {
        narrow_i8(self as i128)
    }

    fn m_try_i16(self) -> (r: Option<i16>) {
        narrow_i16(self as i128)
    }

    fn m_try_i32(self) -> (r: Option<i32>) {
        narrow_i32(self as i128)
    }

    fn m_try_i64(self) -> (r: Option<i64>) {
        narrow_i64(self as i128)
    }
}

impl MorlocTryTo for u32 {
    open spec fn try_source(self) -> int {
        self as int
    }

    fn m_try_u8(self) -> (r: Option<u8>) {
        narrow_u8(self as i128)
    }

    fn m_try_u16(self) -> (r: Option<u16>) {
        narrow_u16(self as i128)
    }

    fn m_try_u32(self) -> (r: Option<u32>) {
        narrow_u32(self as i128)
    }

    fn m_try_u64(self) -> (r: Option<u64>) {
        narrow_u64(self as i128)
    }

    fn m_try_i8(self) -> (r: Option<i8>) {
        narrow_i8(self as i128)
    }

    fn m_try_i16(self) -> (r: Option<i16>) {
        narrow_i16(self as i128)
    }

    fn m_try_i32(self) -> (r: Option<i32>) {
        narrow_i32(self as i128)
    }

    fn m_try_i64(self) -> (r: Option<i64>) {
        narrow_i64(self as i128)
    }
}

impl MorlocTryTo for u64 {
    open spec fn try_source(self) -> int {
        self as int
    }

    fn m_try_u8(self) -> (r: Option<u8>) {
        narrow_u8(self as i128)
    }

    fn m_try_u16(self) -> (r: Option<u16>) {
        narrow_u16(self as i128)
    }

    fn m_try_u32(self) -> (r: Option<u32>) {
        narrow_u32(self as i128)
    }

    fn m_try_u64(self) -> (r: Option<u64>) {
        narrow_u64(self as i128)
    }

    fn m_try_i8(self) -> (r: Option<i8>) {
        narrow_i8(self as i128)
    }

    fn m_try_i16(self) -> (r: Option<i16>) {
        narrow_i16(self as i128)
    }

    fn m_try_i32(self) -> (r: Option<i32>) {
        narrow_i32(self as i128)
    }

    fn m_try_i64(self) -> (r: Option<i64>) {
        narrow_i64(self as i128)
    }
}

/// The value as a `u8`; a value out of that range is refused.
pub fn morloc_try_u8<F: MorlocTryTo>(x: &F) -> (r: u8)
    requires
        fit_u8(x.try_source()) is Some,
    ensures
        fit_u8(x.try_source()) == Some(r),
{
    match x.m_try_u8() {
        Some(v) => v,
        None => {
            proof {
                assert(false);
            }
            0
        }
    }
}

/// The value as a `u16`; a value out of that range is refused.
pub fn morloc_try_u16<F: MorlocTryTo>(x: &F) -> (r: u16)
    requires
        fit_u16(x.try_source()) is Some,
    ensures
        fit_u16(x.try_source()) == Some(r),
{
    match x.m_try_u16() {
        Some(v) => v,
        None => {
            proof {
                assert(false);
            }
            0
        }
    }
}

/// The value as a `u32`; a value out of that range is refused.
pub fn morloc_try_u32<F: MorlocTryTo>(x: &F) -> (r: u32)
    requires
        fit_u32(x.try_source()) is Some,
    ensures
        fit_u32(x.try_source()) == Some(r),
{
    match x.m_try_u32() {
        Some(v) => v,
        None => {
            proof {
                assert(false);
            }
            0
        }
    }
}

/// The value as a `u64`; a value out of that range is refused.
pub fn morloc_try_u64<F: MorlocTryTo>(x: &F) -> (r: u64)
    requires
        fit_u64(x.try_source()) is Some,
    ensures
        fit_u64(x.try_source()) == Some(r),
{
    match x.m_try_u64() {
        Some(v) => v,
        None => {
            proof {
                assert(false);
            }
            0
        }
    }
}

/// The value as a `i8`; a value out of that range is refused.
pub fn morloc_try_i8<F: MorlocTryTo>(x: &F) -> (r: i8)
    requires
        fit_i8(x.try_source()) is Some,
    ensures
        fit_i8(x.try_source()) == Some(r),
{
    match x.m_try_i8() {
        Some(v) => v,
        None => {
            proof {
                assert(false);
            }
            0
        }
    }
}

/// The value as a `i16`; a value out of that range is refused.
pub fn morloc_try_i16<F: MorlocTryTo>(x: &F) -> (r: i16)
    requires
        fit_i16(x.try_source()) is Some,
    ensures
        fit_i16(x.try_source()) == Some(r),
{
    match x.m_try_i16() {
        Some(v) => v,
        None => {
            proof {
                assert(false);
            }
            0
        }
    }
}

/// The value as a `i32`; a value out of that range is refused.
pub fn morloc_try_i32<F: MorlocTryTo>(x: &F) -> (r: i32)
    requires
        fit_i32(x.try_source()) is Some,
    ensures
        fit_i32(x.try_source()) == Some(r),
{
    match x.m_try_i32() {
        Some(v) => v,
        None => {
            proof {
                assert(false);
            }
            0
        }
    }
}

/// The value as a `i64`; a value out of that range is refused.
pub fn morloc_try_i64<F: MorlocTryTo>(x: &F) -> (r: i64)
    requires
        fit_i64(x.try_source()) is Some,
    ensures
        fit_i64(x.try_source()) == Some(r),
{
    match x.m_try_i64() {
        Some(v) => v,
        None => {
            proof {
                assert(false);
            }
            0
        }
    }
}

/// The value as a `i64`; a value out of that range is refused.
pub fn morloc_try_int<F: MorlocTryTo>(x: &F) -> (r: i64)
    requires
        fit_i64(x.try_source()) is Some,
    ensures
        fit_i64(x.try_source()) == Some(r),
{
    match x.m_try_i64() {
        Some(v) => v,
        None => {
            proof {
                assert(false);
            }
            0
        }
    }
}

/// Each conversion starts from the value itself, its sign included.
pub proof fn law_conversions_start_from_the_value(a: i8, b: i16, c: i32, d: i64, e: u8, f: u16, g: u32, h: u64)
    ensures
        a.try_source() == a as int,
        a.into_source() == a as int,
        b.try_source() == b as int,
        b.into_source() == b as int,
        c.try_source() == c as int,
        c.into_source() == c as int,
        d.try_source() == d as int,
        d.into_source() == d as int,
        e.try_source() == e as int,
        e.into_source() == e as int,
        f.try_source() == f as int,
        f.into_source() == f as int,
        g.try_source() == g as int,
        g.into_source() == g as int,
        h.try_source() == h as int,
        h.into_source() == h as int,
{
}

// ---------------------------------------------------------------------------
// Sizeable: one size over the sizeable types
// ---------------------------------------------------------------------------

pub trait MorlocLen {
    /// The size: the number of elements of a list, the number of UTF-8 bytes of a string.
    spec fn size_of(&self) -> nat;

    fn m_len(&self) -> (r: u64)
        ensures
            r == self.size_of(),
    ;
}

impl<A> MorlocLen for Vec<A> {
    open spec fn size_of(&self) -> nat {
        self@.len()
    }

    fn m_len(&self) -> (r: u64) {
        self.len() as u64
    }
}

impl MorlocLen for String {
    /// The number of UTF-8 bytes, as the `usize` that holds a length in memory.
    open spec fn size_of(&self) -> nat {
        (encode_utf8(self@).len() as usize) as nat
    }

    fn m_len(&self) -> (r: u64) {
        self.as_str().len() as u64
    }
}

pub fn morloc_size<F: MorlocLen>(x: &F) -> (r: u64)
    ensures
        r == x.size_of(),
{
    x.m_len()
}

// ---------------------------------------------------------------------------
// IndexLike: an index-like value, or an optional one, as `Option<i64>`
// ---------------------------------------------------------------------------

pub trait MorlocToIndex {
    /// The index this value stands for, if any.
    spec fn index_of(&self) -> Option<i64>;

    fn m_to_index(&self) -> (r: Option<i64>)
        ensures
            r == self.index_of(),
    ;
}

impl MorlocToIndex for i8 {
    open spec fn index_of(&self) -> Option<i64> {
        Some(*self as i64)
    }

    fn m_to_index(&self) -> (r: Option<i64>) {
        Some(*self as i64)
    }
}

impl MorlocToIndex for Option<i8> {
    open spec fn index_of(&self) -> Option<i64> {
        match *self {
            Some(v) => Some(v as i64),
            None => None,
        }
    }

    fn m_to_index(&self) -> (r: Option<i64>) {
        match *self {
            Some(v) => Some(v as i64),
            None => None,
        }
    }
}

impl MorlocToIndex for i16 {
    open spec fn index_of(&self) -> Option<i64> {
        Some(*self as i64)
    }

    fn m_to_index(&self) -> (r: Option<i64>) {
        Some(*self as i64)
    }
}

impl MorlocToIndex for Option<i16> {
    open spec fn index_of(&self) -> Option<i64> {
        match *self {
            Some(v) => Some(v as i64),
            None => None,
        }
    }

    fn m_to_index(&self) -> (r: Option<i64>) {
        match *self {
            Some(v) => Some(v as i64),
            None => None,
        }
    }
}

impl MorlocToIndex for i32 {
    open spec fn index_of(&self) -> Option<i64> {
        Some(*self as i64)
    }

    fn m_to_index(&self) -> (r: Option<i64>) {
        Some(*self as i64)
    }
}

impl MorlocToIndex for Option<i32> {
    open spec fn index_of(&self) -> Option<i64> {
        match *self {
            Some(v) => Some(v as i64),
            None => None,
        }
    }

    fn m_to_index(&self) -> (r: Option<i64>) {
        match *self {
            Some(v) => Some(v as i64),
            None => None,
        }
    }
}

impl MorlocToIndex for i64 {
    open spec fn index_of(&self) -> Option<i64> {
        Some(*self as i64)
    }

    fn m_to_index(&self) -> (r: Option<i64>) {
        Some(*self as i64)
    }
}

impl MorlocToIndex for Option<i64> {
    open spec fn index_of(&self) -> Option<i64> {
        match *self {
            Some(v) => Some(v as i64),
            None => None,
        }
    }

    fn m_to_index(&self) -> (r: Option<i64>) {
        match *self {
            Some(v) => Some(v as i64),
            None => None,
        }
    }
}

impl MorlocToIndex for u8 {
    open spec fn index_of(&self) -> Option<i64> {
        Some(*self as i64)
    }

    fn m_to_index(&self) -> (r: Option<i64>) {
        Some(*self as i64)
    }
}

impl MorlocToIndex for Option<u8> {
    open spec fn index_of(&self) -> Option<i64> {
        match *self {
            Some(v) => Some(v as i64),
            None => None,
        }
    }

    fn m_to_index(&self) -> (r: Option<i64>) {
        match *self {
            Some(v) => Some(v as i64),
            None => None,
        }
    }
}

impl MorlocToIndex for u16 {
    open spec fn index_of(&self) -> Option<i64> {
        Some(*self as i64)
    }

    fn m_to_index(&self) -> (r: Option<i64>) {
        Some(*self as i64)
    }
}

impl MorlocToIndex for Option<u16> {
    open spec fn index_of(&self) -> Option<i64> {
        match *self {
            Some(v) => Some(v as i64),
            None => None,
        }
    }

    fn m_to_index(&self) -> (r: Option<i64>) {
        match *self {
            Some(v) => Some(v as i64),
            None => None,
        }
    }
}

impl MorlocToIndex for u32 {
    open spec fn index_of(&self) -> Option<i64> {
        Some(*self as i64)
    }

    fn m_to_index(&self) -> (r: Option<i64>) {
        Some(*self as i64)
    }
}

impl MorlocToIndex for Option<u32> {
    open spec fn index_of(&self) -> Option<i64> {
        match *self {
            Some(v) => Some(v as i64),
            None => None,
        }
    }

    fn m_to_index(&self) -> (r: Option<i64>) {
        match *self {
            Some(v) => Some(v as i64),
            None => None,
        }
    }
}

impl MorlocToIndex for u64 {
    open spec fn index_of(&self) -> Option<i64> {
        Some(*self as i64)
    }

    fn m_to_index(&self) -> (r: Option<i64>) {
        Some(*self as i64)
    }
}

impl MorlocToIndex for Option<u64> {
    open spec fn index_of(&self) -> Option<i64> {
        match *self {
            Some(v) => Some(v as i64),
            None => None,
        }
    }

    fn m_to_index(&self) -> (r: Option<i64>) {
        match *self {
            Some(v) => Some(v as i64),
            None => None,
        }
    }
}

/// An index keeps its value and its sign, so a negative one still counts from the end; an
/// absent optional index stays absent.
pub proof fn law_index_keeps_value(a: i8, b: i16, c: i32, d: i64, e: u8, f: u16, g: u32, h: u64, oa: Option<i8>, ob: Option<i16>, oc: Option<i32>, od: Option<i64>, oe: Option<u8>, of: Option<u16>, og: Option<u32>, oh: Option<u64>)
    ensures
        a.index_of() matches Some(w) && w as int == a as int,
        oa is None ==> oa.index_of() is None,
        oa matches Some(v) ==> (oa.index_of() matches Some(w) && w as int == v as int),
        b.index_of() matches Some(w) && w as int == b as int,
        ob is None ==> ob.index_of() is None,
        ob matches Some(v) ==> (ob.index_of() matches Some(w) && w as int == v as int),
        c.index_of() matches Some(w) && w as int == c as int,
        oc is None ==> oc.index_of() is None,
        oc matches Some(v) ==> (oc.index_of() matches Some(w) && w as int == v as int),
        d.index_of() matches Some(w) && w as int == d as int,
        od is None ==> od.index_of() is None,
        od matches Some(v) ==> (od.index_of() matches Some(w) && w as int == v as int),
        e.index_of() matches Some(w) && w as int == e as int,
        oe is None ==> oe.index_of() is None,
        oe matches Some(v) ==> (oe.index_of() matches Some(w) && w as int == v as int),
        f.index_of() matches Some(w) && w as int == f as int,
        of is None ==> of.index_of() is None,
        of matches Some(v) ==> (of.index_of() matches Some(w) && w as int == v as int),
        g.index_of() matches Some(w) && w as int == g as int,
        og is None ==> og.index_of() is None,
        og matches Some(v) ==> (og.index_of() matches Some(w) && w as int == v as int),
        h <= i64::MAX ==> (h.index_of() matches Some(w) && w as int == h as int),
        oh is None ==> oh.index_of() is None,
        oh matches Some(v) ==> (v <= i64::MAX ==> (oh.index_of() matches Some(w) && w as int == v as int)),
        oh matches Some(v) ==> oh.index_of() is Some,
{
}

pub fn morloc_to_index<I: MorlocToIndex>(x: &I) -> (r: Option<i64>)
    ensures
        r == x.index_of(),
{
    x.m_to_index()
}

} // verus!
