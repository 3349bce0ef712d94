//! The machine word that every stack slot holds.

use vstd::prelude::*;

verus! {

/// One 64-bit stack word.
///
/// A word carries no tag. The instruction that reads a slot decides whether
/// the bits are a signed integer, the bit pattern of an IEEE-754 double, or
/// the code address of a procedure; each reading has one accessor below.
#[derive(Clone, Copy, PartialEq, Eq, Structural, Debug)]
pub struct Value {
    pub bits: u64,
}

impl Value {
    /// The word that holds the signed integer `v` (two's complement).
    pub open spec fn of_s64(v: i64) -> Value {
        Value { bits: v as u64 }
    }

    /// The word read as a signed integer.
    pub open spec fn spec_s64(self) -> i64 {
        self.bits as i64
    }

    /// The all-zero word, which fresh stack memory holds.
    pub fn zero() -> (r: Value)
        ensures
            r.bits == 0,
    {
        Value { bits: 0 }
    }

    /// Stores a signed integer.
    pub fn from_s64(v: i64) -> (r: Value)
        ensures
            r == Value::of_s64(v),
            r.spec_s64() == v,
    {
        proof {
            lemma_s64_round_trip(v);
        }
        Value { bits: v as u64 }
    }

    /// Reads the word as a signed integer. Meaningful where the slot was last
    /// written by an integer instruction.
    #[verifier::when_used_as_spec(spec_s64)]
    pub fn s64(self) -> (v: i64)
        ensures
            v == self.spec_s64(),
    {
        self.bits as i64
    }

    /// Stores the bit pattern of a double.
    pub fn from_float_bits(bits: u64) -> (r: Value)
        ensures
            r.bits == bits,
    {
        Value { bits }
    }

    /// Reads the word as the bit pattern of a double. Meaningful where the
    /// slot was last written by a floating-point instruction.
    pub fn float_bits(self) -> (bits: u64)
        ensures
            bits == self.bits,
    {
        self.bits
    }

    /// Stores a procedure reference, given as the code address of the
    /// procedure's first byte.
    pub fn from_proc(addr: u64) -> (r: Value)
        ensures
            r.bits == addr,
    {
        Value { bits: addr }
    }

    /// Reads the word as a procedure reference. Meaningful where the slot was
    /// last written by `LOAD_PROC`.
    pub fn proc(self) -> (addr: u64)
        ensures
            addr == self.bits,
    {
        self.bits
    }
}

/// Writing a signed integer into a word and reading it back gives the integer.
pub proof fn lemma_s64_round_trip(v: i64)
    ensures
        Value::of_s64(v).spec_s64() == v,
{
    assert((v as u64) as i64 == v) by (bit_vector);
}

} // verus!
