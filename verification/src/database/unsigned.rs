//! Unsigned identifiers and counts kept in signed columns of the same width.
//!
//! A `PsqlU<u64>` travels to the store as the `i64` with the same bit pattern,
//! and a `PsqlU<u32>` as the `i32` with the same bit pattern. The conversions
//! are stated here as two's-complement arithmetic and proved to round-trip.

use crate::text::{decimal, u64_to_text};
use vstd::prelude::*;
use vstd::std_specs::convert::FromSpecImpl;

verus! {

/// An unsigned number that is stored in a signed column of the same width.
#[derive(Debug, Clone, Copy, PartialEq, Eq, PartialOrd, Ord)]
pub struct PsqlU<N>(pub N);

/// An unsigned 64-bit number in a signed 64-bit column.
pub type PsqlU64 = PsqlU<u64>;

/// An unsigned 32-bit number in a signed 32-bit column.
pub type PsqlU32 = PsqlU<u32>;

/// The signed 64-bit number with the bit pattern of `x`.
pub open spec fn signed_of_u64(x: u64) -> i64 {
    if x <= 0x7fff_ffff_ffff_ffff {
        x as i64
    } else {
        (x - 0x1_0000_0000_0000_0000) as i64
    }
}

/// The unsigned 64-bit number with the bit pattern of `v`.
pub open spec fn unsigned_of_i64(v: i64) -> u64 {
    if v >= 0 {
        v as u64
    } else {
        (v + 0x1_0000_0000_0000_0000) as u64
    }
}

/// The signed 32-bit number with the bit pattern of `x`.
pub open spec fn signed_of_u32(x: u32) -> i32 {
    if x <= 0x7fff_ffff {
        x as i32
    } else {
        (x - 0x1_0000_0000) as i32
    }
}

/// The unsigned 32-bit number with the bit pattern of `v`.
pub open spec fn unsigned_of_i32(v: i32) -> u32 {
    if v >= 0 {
        v as u32
    } else {
        (v + 0x1_0000_0000) as u32
    }
}

/// Reads an unsigned 64-bit number out of its signed column value.
pub fn decode_u64(v: i64) -> (r: u64)
    ensures
        r == unsigned_of_i64(v),
{
    if v >= 0 {
        v as u64
    } else {
        let low: i64 = v - i64::MIN;
        (low as u64) + 0x8000_0000_0000_0000u64
    }
}

/// Writes an unsigned 64-bit number as its signed column value.
pub fn encode_u64(x: u64) -> (r: i64)
    ensures
        r == signed_of_u64(x),
{
    if x <= 0x7fff_ffff_ffff_ffffu64 {
        x as i64
    } else {
        let low: u64 = x - 0x8000_0000_0000_0000u64;
        (low as i64) + i64::MIN
    }
}

/// Reads an unsigned 32-bit number out of its signed column value.
pub fn decode_u32(v: i32) -> (r: u32)
    ensures
        r == unsigned_of_i32(v),
{
    if v >= 0 {
        v as u32
    } else {
        let low: i32 = v - i32::MIN;
        (low as u32) + 0x8000_0000u32
    }
}

/// Writes an unsigned 32-bit number as its signed column value.
pub fn encode_u32(x: u32) -> (r: i32)
    ensures
        r == signed_of_u32(x),
{
    if x <= 0x7fff_ffffu32 {
        x as i32
    } else {
        let low: u32 = x - 0x8000_0000u32;
        (low as i32) + i32::MIN
    }
}

impl From<u64> for PsqlU<u64> {
    fn from(value: u64) -> (r: Self) {
        PsqlU(value)
    }
}

impl FromSpecImpl<u64> for PsqlU<u64> {
    open spec fn obeys_from_spec() -> bool {
        true
    }

    open spec fn from_spec(value: u64) -> Self {
        PsqlU(value)
    }
}

impl From<PsqlU<u64>> for u64 {
    fn from(value: PsqlU<u64>) -> (r: Self) {
        value.0
    }
}

impl FromSpecImpl<PsqlU<u64>> for u64 {
    open spec fn obeys_from_spec() -> bool {
        true
    }

    open spec fn from_spec(value: PsqlU<u64>) -> Self {
        value.0
    }
}

impl From<i64> for PsqlU<u64> {
    fn from(value: i64) -> (r: Self) {
        PsqlU(decode_u64(value))
    }
}

impl FromSpecImpl<i64> for PsqlU<u64> {
    open spec fn obeys_from_spec() -> bool {
        true
    }

    open spec fn from_spec(value: i64) -> Self {
        PsqlU(unsigned_of_i64(value))
    }
}

impl From<PsqlU<u64>> for i64 {
    fn from(value: PsqlU<u64>) -> (r: Self) {
        encode_u64(value.0)
    }
}

impl FromSpecImpl<PsqlU<u64>> for i64 {
    open spec fn obeys_from_spec() -> bool {
        true
    }

    open spec fn from_spec(value: PsqlU<u64>) -> Self {
        signed_of_u64(value.0)
    }
}

impl From<u32> for PsqlU<u32> {
    fn from(value: u32) -> (r: Self) {
        PsqlU(value)
    }
}

impl FromSpecImpl<u32> for PsqlU<u32> {
    open spec fn obeys_from_spec() -> bool {
        true
    }

    open spec fn from_spec(value: u32) -> Self {
        PsqlU(value)
    }
}

impl From<PsqlU<u32>> for u32 {
    fn from(value: PsqlU<u32>) -> (r: Self) {
        value.0
    }
}

impl FromSpecImpl<PsqlU<u32>> for u32 {
    open spec fn obeys_from_spec() -> bool {
        true
    }

    open spec fn from_spec(value: PsqlU<u32>) -> Self {
        value.0
    }
}

impl From<i32> for PsqlU<u32> {
    fn from(value: i32) -> (r: Self) {
        PsqlU(decode_u32(value))
    }
}

impl FromSpecImpl<i32> for PsqlU<u32> {
    open spec fn obeys_from_spec() -> bool {
        true
    }

    open spec fn from_spec(value: i32) -> Self {
        PsqlU(unsigned_of_i32(value))
    }
}

impl From<PsqlU<u32>> for i32 {
    fn from(value: PsqlU<u32>) -> (r: Self) {
        encode_u32(value.0)
    }
}

impl FromSpecImpl<PsqlU<u32>> for i32 {
    open spec fn obeys_from_spec() -> bool {
        true
    }

    open spec fn from_spec(value: PsqlU<u32>) -> Self {
        signed_of_u32(value.0)
    }
}

impl PsqlU<u64> {
    /// Writes the number in decimal.
    pub fn to_text(&self) -> (r: String)
        ensures
            r@ == decimal(self.0 as nat),
    {
        u64_to_text(self.0)
    }
}

impl PsqlU<u32> {
    /// Writes the number in decimal.
    pub fn to_text(&self) -> (r: String)
        ensures
            r@ == decimal(self.0 as nat),
    {
        u64_to_text(self.0 as u64)
    }
}

/// Every unsigned 64-bit number comes back unchanged from its signed column
/// value, and every signed column value from the number read out of it.
pub proof fn lemma_round_trip_u64(x: u64, v: i64)
    ensures
        unsigned_of_i64(signed_of_u64(x)) == x,
        signed_of_u64(unsigned_of_i64(v)) == v,
{
}

/// Every unsigned 32-bit number comes back unchanged from its signed column
/// value, and every signed column value from the number read out of it.
pub proof fn lemma_round_trip_u32(x: u32, v: i32)
    ensures
        unsigned_of_i32(signed_of_u32(x)) == x,
        signed_of_u32(unsigned_of_i32(v)) == v,
{
}

} // verus!
