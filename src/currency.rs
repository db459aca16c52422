//! Money matters: currency units and the storage deposit formula.

use vstd::prelude::*;

verus! {

/// Count of the smallest indivisible unit of the currency.
pub type Balance = u128;

/// The number of balance units per one ROC (10^12).
pub const UNITS_PER_ROC: Balance = 1_000_000_000_000;

/// One ROC, in balance units.
pub const ROC: Balance = UNITS_PER_ROC;

/// ROC has no dollar value; for these configurations one ROC counts as one dollar,
/// and a ROC holds this many millicents.
pub const MILLICENTS_PER_ROC: Balance = 100_000;

/// One thousandth of a cent, in balance units.
pub const MILLICENTS: Balance = UNITS_PER_ROC / MILLICENTS_PER_ROC;

/// One cent, in balance units.
pub const CENTS: Balance = MILLICENTS * 1000;

/// One dollar, in balance units.
pub const DOLLARS: Balance = CENTS * 100;

/// Price of one stored item.
pub const DEPOSIT_PER_ITEM: Balance = 20 * DOLLARS;

/// Price of one stored byte.
pub const DEPOSIT_PER_BYTE: Balance = 100 * MILLICENTS;

/// The deposit reserved for `items` storage entries holding `bytes` bytes in all.
pub open spec fn deposit_value(items: int, bytes: int) -> int {
    items * DEPOSIT_PER_ITEM + bytes * DEPOSIT_PER_BYTE
}

/// The deposit for `items` storage entries that hold `bytes` bytes in all.
///
/// Both prices are fixed, so the largest inputs stay far below `Balance::MAX`.
pub fn deposit(items: u32, bytes: u32) -> (r: Balance)
    ensures
        r == deposit_value(items as int, bytes as int),
{
    assert(items * DEPOSIT_PER_ITEM <= 0xffff_ffff * DEPOSIT_PER_ITEM) by (nonlinear_arith)
        requires
            items <= 0xffff_ffff,
    ;
    assert(bytes * DEPOSIT_PER_BYTE <= 0xffff_ffff * DEPOSIT_PER_BYTE) by (nonlinear_arith)
        requires
            bytes <= 0xffff_ffff,
    ;
    (items as Balance) * DEPOSIT_PER_ITEM + (bytes as Balance) * DEPOSIT_PER_BYTE
}

/// The deposit is additive: the deposit for two sets of entries taken together is
/// the sum of their deposits.
pub proof fn lemma_deposit_additive(a: int, b: int, c: int, d: int)
    ensures
        deposit_value(a + c, b + d) == deposit_value(a, b) + deposit_value(c, d),
{
    assert((a + c) * DEPOSIT_PER_ITEM == a * DEPOSIT_PER_ITEM + c * DEPOSIT_PER_ITEM)
        by (nonlinear_arith);
    assert((b + d) * DEPOSIT_PER_BYTE == b * DEPOSIT_PER_BYTE + d * DEPOSIT_PER_BYTE)
        by (nonlinear_arith);
}

} // verus!
