//! Money as a whole number of nanos, a nano being one billionth of a currency unit.
//!
//! All arithmetic on amounts is exact. An operation whose result cannot be held gives
//! `None`; the one operation that rounds, taking a share at a rate, rounds down.

use vstd::prelude::*;
use crate::decimal::{
    billionths_text,
    billionths_to_text,
    billionths_value,
    lemma_billionths_text_reads_back,
    parse_billionths,
};

verus! {

/// How many nanos make one currency unit.
pub const NANOS_PER_UNIT: i128 = 1_000_000_000;

/// The denominator of a rate: rates are given in thousandths.
pub const PER_MILLE: i128 = 1000;

/// An amount of money, possibly negative, counted in nanos.
#[derive(Clone, Copy, Debug, PartialEq, Eq, Structural)]
pub struct Amount {
    pub nanos: i128,
}

impl View for Amount {
    type V = int;

    open spec fn view(&self) -> int {
        self.nanos as int
    }
}

/// Whether a number of nanos can be held by an `Amount`.
pub open spec fn fits(nanos: int) -> bool {
    i128::MIN <= nanos <= i128::MAX
}

/// The size of a number of nanos, whatever its sign.
pub open spec fn magnitude(nanos: int) -> int {
    if nanos < 0 {
        -nanos
    } else {
        nanos
    }
}

/// The largest size of a daily rate, and of a year's gross profit so far, for which the
/// figures of an invoice are sure to be held: a million million million million million
/// nanos.
pub const MODERATE: i128 = 1_000_000_000_000_000_000_000_000_000_000;

/// The part of `nanos` that a rate of `per_mille` thousandths takes, rounded down.
pub open spec fn share(nanos: int, per_mille: int) -> int {
    (nanos * per_mille) / 1000
}

/// The number of nanos that `text` stands for, where it is the text of an amount that can
/// be held: an optional minus sign, the digits of the whole currency units, and optionally
/// a point with one to nine digits behind it.
pub open spec fn amount_value(text: Seq<char>) -> Option<int> {
    match billionths_value(text) {
        Some(nanos) => if fits(nanos) {
            Some(nanos)
        } else {
            None
        },
        None => None,
    }
}

impl Amount {
    /// No money.
    pub fn zero() -> (r: Amount)
        ensures
            r@ == 0,
    {
        Amount { nanos: 0 }
    }

    /// The amount of `units` whole currency units.
    pub fn from_units(units: i64) -> (r: Amount)
        ensures
            r@ == units * NANOS_PER_UNIT,
    {
        let wide: i128 = units as i128;
        assert(-0x8000_0000_0000_0000 * 1_000_000_000 <= wide * 1_000_000_000
            <= 0x8000_0000_0000_0000 * 1_000_000_000) by (nonlinear_arith)
            requires
                -0x8000_0000_0000_0000 <= wide <= 0x8000_0000_0000_0000,
        ;
        Amount { nanos: wide * NANOS_PER_UNIT }
    }

    /// The sum, unless it cannot be held.
    pub fn plus(self, other: Amount) -> (r: Option<Amount>)
        ensures
            r.is_some() <==> fits(self@ + other@),
            r matches Some(sum) ==> sum@ == self@ + other@,
    {
        match self.nanos.checked_add(other.nanos) {
            Some(nanos) => Some(Amount { nanos }),
            None => None,
        }
    }

    /// The difference, unless it cannot be held.
    pub fn minus(self, other: Amount) -> (r: Option<Amount>)
        ensures
            r.is_some() <==> fits(self@ - other@),
            r matches Some(difference) ==> difference@ == self@ - other@,
    {
        match self.nanos.checked_sub(other.nanos) {
            Some(nanos) => Some(Amount { nanos }),
            None => None,
        }
    }

    /// The amount taken `count` times.
    pub fn times(self, count: u8) -> (r: Option<Amount>)
        ensures
            r.is_some() <==> fits(self@ * count),
            r matches Some(product) ==> product@ == self@ * count,
    {
        match self.nanos.checked_mul(count as i128) {
            Some(nanos) => Some(Amount { nanos }),
            None => None,
        }
    }

    /// The part that a rate of `per_mille` thousandths takes, rounded down; `None` when
    /// the product of the two cannot be held.
    pub fn share(self, per_mille: u16) -> (r: Option<Amount>)
        ensures
            r.is_some() <==> fits(self@ * per_mille),
            r matches Some(part) ==> part@ == share(self@, per_mille as int),
    {
        match self.nanos.checked_mul(per_mille as i128) {
            Some(product) => {
                let quotient: Option<i128> = product.checked_div_euclid(PER_MILLE);
                assert(i128::MIN <= (product as int) / 1000 <= i128::MAX) by (nonlinear_arith)
                    requires
                        i128::MIN <= product <= i128::MAX,
                ;
                match quotient {
                    Some(nanos) => Some(Amount { nanos }),
                    None => None,
                }
            },
            None => None,
        }
    }
}

impl Amount {
    /// The amount in currency units as decimal text, with as many digits behind the point
    /// as it takes, and no point where it takes none.
    pub fn to_text(self) -> (r: String)
        ensures
            r@ == billionths_text(self@),
    {
        billionths_to_text(self.nanos)
    }

    /// Reads an amount in currency units from decimal text.
    pub fn parse(text: &str) -> (r: Option<Amount>)
        ensures
            r.is_some() <==> amount_value(text@) is Some,
            r matches Some(amount) ==> amount_value(text@) == Some(amount@),
    {
        match parse_billionths(text) {
            Some(nanos) => Some(Amount { nanos }),
            None => None,
        }
    }
}

/// The text of an amount that can be held reads back as that amount.
pub proof fn lemma_amount_text_reads_back(nanos: int)
    requires
        fits(nanos),
    ensures
        amount_value(billionths_text(nanos)) == Some(nanos),
{
    lemma_billionths_text_reads_back(nanos);
}

/// A share of a whole number of thousands of nanos is exact: nothing is rounded away.
pub proof fn lemma_share_of_thousands_is_exact(nanos: int, per_mille: int)
    requires
        nanos % 1000 == 0,
    ensures
        share(nanos, per_mille) * 1000 == nanos * per_mille,
{
    let thousands = nanos / 1000;
    assert(nanos == thousands * 1000);
    assert(nanos * per_mille == (thousands * per_mille) * 1000) by (nonlinear_arith)
        requires
            nanos == thousands * 1000,
    ;
    assert(((thousands * per_mille) * 1000) / 1000 == thousands * per_mille) by (nonlinear_arith);
}

} // verus!
