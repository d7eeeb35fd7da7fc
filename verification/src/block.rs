//! Blocks as the job sees them: a number, a timestamp and a base fee.

use vstd::prelude::*;

verus! {

/// Two to the power of 128: the weight of the high half of a [`Uint256`].
pub open spec fn two_pow_128() -> nat {
    0x1_0000_0000_0000_0000_0000_0000_0000_0000nat
}

/// An unsigned 256-bit integer, held as two 128-bit halves.
#[derive(Clone, Copy, Debug, PartialEq, Eq, Structural)]
pub struct Uint256 {
    pub high: u128,
    pub low: u128,
}

impl View for Uint256 {
    type V = nat;

    /// The number that the two halves stand for.
    open spec fn view(&self) -> nat {
        self.high as nat * two_pow_128() + self.low as nat
    }
}

impl Uint256 {
    /// The value whose high half is zero and whose low half is `value`.
    pub fn from_u64(value: u64) -> (r: Uint256)
        ensures
            r@ == value as nat,
            r.high == 0,
            r.low == value,
    {
        Uint256 { high: 0, low: value as u128 }
    }

    /// The value whose high half is zero and whose low half is `value`.
    pub fn from_u128(value: u128) -> (r: Uint256)
        ensures
            r@ == value as nat,
            r.high == 0,
            r.low == value,
    {
        Uint256 { high: 0, low: value }
    }

    /// Whether the number is zero.
    pub fn is_zero(&self) -> (b: bool)
        ensures
            b == (self@ == 0),
    {
        proof {
            lemma_view_bounds(*self);
        }
        self.high == 0 && self.low == 0
    }

    /// The number as a `u64`, where it fits in one.
    pub fn to_u64(&self) -> (r: Option<u64>)
        ensures
            match r {
                Some(v) => v as nat == self@,
                None => self@ > u64::MAX as nat,
            },
    {
        proof {
            lemma_view_bounds(*self);
        }
        if self.high == 0 && self.low <= u64::MAX as u128 {
            Some(self.low as u64)
        } else {
            None
        }
    }
}

/// The number of wei in one gwei.
pub const WEI_PER_GWEI: u64 = 1_000_000_000;

/// An amount of whole gwei, in wei.
pub fn to_gwei(amount: u64) -> (wei: Uint256)
    ensures
        wei@ == amount as nat * WEI_PER_GWEI as nat,
        wei.high == 0,
        wei.low == amount * WEI_PER_GWEI,
{
    assert(amount * WEI_PER_GWEI <= u64::MAX * WEI_PER_GWEI) by (nonlinear_arith)
        requires
            0 <= amount <= u64::MAX,
    ;
    Uint256 { high: 0, low: amount as u128 * WEI_PER_GWEI as u128 }
}

/// The view of a value with a non-zero high half is at least two to the
/// power of 128, and the view of any value is at least its low half.
pub proof fn lemma_view_bounds(x: Uint256)
    ensures
        x@ >= x.low as nat,
        x.high == 0 ==> x@ == x.low as nat,
        x.high > 0 ==> x@ >= two_pow_128(),
        x@ < two_pow_128() * two_pow_128(),
{
    let h = x.high as nat;
    let w = two_pow_128();
    assert(h >= 1 ==> h * w >= w) by (nonlinear_arith)
        requires
            w > 0,
    ;
    assert(h * w + w <= w * w) by (nonlinear_arith)
        requires
            h + 1 <= w,
    ;
}

/// One block of the chain, as observed or synthesized.
#[derive(Clone, Copy, Debug, PartialEq, Eq)]
pub struct Block {
    /// The block's height, where it is known.
    pub number: Option<u64>,
    /// Unix seconds.
    pub timestamp: u64,
    /// The base fee per gas, where the block carries one.
    pub base_fee_per_gas: Option<Uint256>,
}

impl Block {
    /// Whether the block carries a base fee that is greater than zero.
    pub open spec fn has_positive_fee(self) -> bool {
        self.base_fee_per_gas matches Some(fee) && fee@ > 0
    }
}

/// The timestamps of a series of blocks, in order.
pub open spec fn timestamps(series: Seq<Block>) -> Seq<u64> {
    Seq::new(series.len(), |i: int| series[i].timestamp)
}

} // verus!
