//! The table of marginal tax buckets and the split of a profit over them.

use vstd::prelude::*;
use crate::amount::{Amount, fits, magnitude, NANOS_PER_UNIT};

verus! {

/// One marginal band of the income tax: profit up to `to` whole currency units is taxed at
/// `per_mille` thousandths. The top band has no `to`.
#[derive(Clone, Copy, Debug, PartialEq, Eq)]
pub struct TaxBucket {
    pub to: Option<u32>,
    pub per_mille: u16,
}

/// The part of a profit that falls to one bucket, with that bucket's rate.
#[derive(Clone, Copy, Debug, PartialEq, Eq)]
pub struct BracketAllocation {
    pub amount: Amount,
    pub per_mille: u16,
}

/// What a `BracketAllocation` stands for: a number of nanos and a rate in thousandths.
pub struct Portion {
    pub amount: int,
    pub per_mille: int,
}

impl View for BracketAllocation {
    type V = Portion;

    open spec fn view(&self) -> Portion {
        Portion { amount: self.amount@, per_mille: self.per_mille as int }
    }
}

/// The portions that a vector of allocations stands for.
pub open spec fn portions(allocations: Seq<BracketAllocation>) -> Seq<Portion> {
    allocations.map_values(|a: BracketAllocation| a@)
}

/// The sum of the amounts of `portions`.
pub open spec fn amounts_sum(portions: Seq<Portion>) -> int
    decreases portions.len(),
{
    if portions.len() == 0 {
        0
    } else {
        amounts_sum(portions.drop_last()) + portions.last().amount
    }
}

/// The buckets in force, lowest first.
pub open spec fn bucket_table() -> Seq<TaxBucket> {
    seq![
        TaxBucket { to: Some(13_870u32), per_mille: 250 },
        TaxBucket { to: Some(24_480u32), per_mille: 400 },
        TaxBucket { to: Some(42_370u32), per_mille: 450 },
        TaxBucket { to: None, per_mille: 500 },
    ]
}

/// A table is in order when only its last bucket is unbounded, the bounds before it rise
/// strictly, and no rate exceeds the whole.
pub open spec fn table_in_order(table: Seq<TaxBucket>) -> bool {
    &&& table.len() >= 1
    &&& table.last().to is None
    &&& forall|i: int| 0 <= i < table.len() - 1 ==> (#[trigger] table[i]).to is Some
    &&& forall|i: int, j: int|
        0 <= i < j < table.len() - 1 ==> (#[trigger] table[i]).to->0 < (#[trigger] table[j]).to->0
    &&& forall|i: int| 0 <= i < table.len() ==> (#[trigger] table[i]).per_mille <= 1000
}

/// The upper bound of a bucket in nanos.
pub open spec fn bound_nanos(to: u32) -> int {
    to * NANOS_PER_UNIT
}

/// The walk over `table` from bucket `start` on, for a profit that lies between `prior` and
/// `upper`, of which `remaining` is still to be placed.
///
/// A bucket whose bound lies below `prior` gets nothing. A bucket whose bound lies above
/// `upper`, or that has no bound, gets all that remains and ends the walk. Any other bucket
/// gets the distance from `upper` down to its bound, which is never positive, and the walk
/// goes on with that much more to place. Both tests look at `prior` and `upper` as they
/// were at the start, whatever has been placed since.
pub open spec fn allocation_from(
    table: Seq<TaxBucket>,
    start: int,
    prior: int,
    upper: int,
    remaining: int,
) -> Seq<Portion>
    decreases table.len() - start,
{
    if start < 0 || start >= table.len() {
        Seq::empty()
    } else {
        let rate = table[start].per_mille as int;
        match table[start].to {
            None => seq![Portion { amount: remaining, per_mille: rate }],
            Some(to) => {
                if prior > bound_nanos(to) {
                    allocation_from(table, start + 1, prior, upper, remaining)
                } else if upper < bound_nanos(to) {
                    seq![Portion { amount: remaining, per_mille: rate }]
                } else {
                    let placed = bound_nanos(to) - upper;
                    seq![Portion { amount: placed, per_mille: rate }] + allocation_from(
                        table,
                        start + 1,
                        prior,
                        upper,
                        remaining - placed,
                    )
                }
            },
        }
    }
}

/// The split of a new profit of `new` nanos, earned on top of `prior` nanos, over the
/// buckets in force. A profit of zero has no portions.
pub open spec fn allocation(prior: int, new: int) -> Seq<Portion> {
    if new == 0 {
        Seq::empty()
    } else {
        allocation_from(bucket_table(), 0, prior, prior + new, new)
    }
}

/// Whether the split of `new` on top of `prior` can be held: the upper edge of the profit
/// and every portion.
pub open spec fn allocation_fits(prior: int, new: int) -> bool {
    &&& fits(prior + new)
    &&& forall|i: int|
        0 <= i < allocation(prior, new).len() ==> fits((#[trigger] allocation(prior, new)[i]).amount)
}

/// The buckets in force are in order.
pub proof fn lemma_bucket_table_in_order()
    ensures
        table_in_order(bucket_table()),
{
}

/// The portions of a walk add up to what was still to be placed when it began, provided the
/// table ends in an unbounded bucket.
pub proof fn lemma_walk_sums_to_remaining(
    table: Seq<TaxBucket>,
    start: int,
    prior: int,
    upper: int,
    remaining: int,
)
    requires
        table_in_order(table),
        0 <= start < table.len(),
    ensures
        amounts_sum(allocation_from(table, start, prior, upper, remaining)) == remaining,
    decreases table.len() - start,
{
    let rate = table[start].per_mille as int;
    let whole = seq![Portion { amount: remaining, per_mille: rate }];
    assert(whole.drop_last() =~= Seq::<Portion>::empty());
    assert(amounts_sum(whole.drop_last()) == 0);
    assert(amounts_sum(whole) == remaining);
    match table[start].to {
        None => {},
        Some(to) => {
            assert(start < table.len() - 1);
            if prior > bound_nanos(to) {
                lemma_walk_sums_to_remaining(table, start + 1, prior, upper, remaining);
            } else if upper < bound_nanos(to) {
            } else {
                let placed = bound_nanos(to) - upper;
                let rest = allocation_from(table, start + 1, prior, upper, remaining - placed);
                lemma_walk_sums_to_remaining(table, start + 1, prior, upper, remaining - placed);
                lemma_amounts_sum_prepend(Portion { amount: placed, per_mille: rate }, rest);
            }
        },
    }
}

/// A portion put in front adds its amount to the sum.
pub proof fn lemma_amounts_sum_prepend(first: Portion, rest: Seq<Portion>)
    ensures
        amounts_sum(seq![first] + rest) == first.amount + amounts_sum(rest),
    decreases rest.len(),
{
    let all = seq![first] + rest;
    if rest.len() == 0 {
        assert(all.drop_last() =~= Seq::<Portion>::empty());
        assert(amounts_sum(all.drop_last()) == 0);
    } else {
        assert(all.drop_last() =~= seq![first] + rest.drop_last());
        lemma_amounts_sum_prepend(first, rest.drop_last());
    }
}

/// The portions of a split add up to the new profit, whatever the prior profit.
pub proof fn lemma_allocation_sums_to_new_profit(prior: int, new: int)
    ensures
        amounts_sum(allocation(prior, new)) == new,
{
    if new != 0 {
        lemma_bucket_table_in_order();
        lemma_walk_sums_to_remaining(bucket_table(), 0, prior, prior + new, new);
    }
}

/// A walk ends with a portion that is at least what was still to be placed when it began:
/// nothing that a bucket gets on the way is positive.
pub proof fn lemma_walk_ends_at_least_remaining(
    table: Seq<TaxBucket>,
    start: int,
    prior: int,
    upper: int,
    remaining: int,
)
    requires
        table_in_order(table),
        0 <= start < table.len(),
    ensures
        allocation_from(table, start, prior, upper, remaining).len() >= 1,
        allocation_from(table, start, prior, upper, remaining).last().amount >= remaining,
    decreases table.len() - start,
{
    match table[start].to {
        None => {},
        Some(to) => {
            assert(start < table.len() - 1);
            if prior > bound_nanos(to) {
                lemma_walk_ends_at_least_remaining(table, start + 1, prior, upper, remaining);
            } else if upper < bound_nanos(to) {
            } else {
                let placed = bound_nanos(to) - upper;
                lemma_walk_ends_at_least_remaining(
                    table,
                    start + 1,
                    prior,
                    upper,
                    remaining - placed,
                );
            }
        },
    }
}

/// A walk whose upper edge reaches every bound that is left ends in the unbounded bucket.
pub proof fn lemma_walk_reaches_last_bucket(
    table: Seq<TaxBucket>,
    start: int,
    prior: int,
    upper: int,
    remaining: int,
)
    requires
        table_in_order(table),
        0 <= start < table.len(),
        forall|i: int|
            start <= i < table.len() - 1 ==> bound_nanos((#[trigger] table[i]).to->0) <= upper,
    ensures
        allocation_from(table, start, prior, upper, remaining).len() >= 1,
        allocation_from(table, start, prior, upper, remaining).last().per_mille
            == table.last().per_mille,
    decreases table.len() - start,
{
    match table[start].to {
        None => {
            assert(start == table.len() - 1);
        },
        Some(to) => {
            assert(start < table.len() - 1);
            if prior > bound_nanos(to) {
                lemma_walk_reaches_last_bucket(table, start + 1, prior, upper, remaining);
            } else {
                let placed = bound_nanos(to) - upper;
                lemma_walk_reaches_last_bucket(table, start + 1, prior, upper, remaining - placed);
            }
        },
    }
}

/// A walk has no more portions than buckets are left. Each portion has the rate of a
/// bucket, and is no larger than what was to be placed and, for each bucket left, the
/// length of the profit taken together.
pub proof fn lemma_walk_bounded(
    table: Seq<TaxBucket>,
    start: int,
    prior: int,
    upper: int,
    remaining: int,
)
    requires
        table_in_order(table),
        0 <= start <= table.len(),
    ensures
        allocation_from(table, start, prior, upper, remaining).len() <= table.len() - start,
        forall|i: int|
            0 <= i < allocation_from(table, start, prior, upper, remaining).len() ==> {
                let portion = #[trigger] allocation_from(table, start, prior, upper, remaining)[i];
                &&& 0 <= portion.per_mille <= 1000
                &&& magnitude(portion.amount) <= magnitude(remaining) + (table.len() - start)
                    * magnitude(upper - prior)
            },
    decreases table.len() - start,
{
    let walk = allocation_from(table, start, prior, upper, remaining);
    let length = magnitude(upper - prior);
    let left = table.len() - start;
    if start < table.len() {
        assert(left * length == (left - 1) * length + length) by (nonlinear_arith);
        assert((left - 1) * length >= 0) by (nonlinear_arith)
            requires
                left >= 1,
                length >= 0,
        ;
        match table[start].to {
            None => {},
            Some(to) => {
                if prior > bound_nanos(to) {
                    lemma_walk_bounded(table, start + 1, prior, upper, remaining);
                } else if upper < bound_nanos(to) {
                } else {
                    let placed = bound_nanos(to) - upper;
                    let rest = allocation_from(table, start + 1, prior, upper, remaining - placed);
                    lemma_walk_bounded(table, start + 1, prior, upper, remaining - placed);
                    assert forall|i: int| 0 <= i < walk.len() implies {
                        let portion = #[trigger] walk[i];
                        &&& 0 <= portion.per_mille <= 1000
                        &&& magnitude(portion.amount) <= magnitude(remaining) + left * length
                    } by {
                        if i > 0 {
                            assert(walk[i] == rest[i - 1]);
                        }
                    }
                }
            },
        }
    }
}

/// What the bucket at place `bucket` gets when the upper edge of the profit has reached its
/// bound: the distance from the edge down to the bound.
pub open spec fn placed_in(table: Seq<TaxBucket>, bucket: int, upper: int) -> int {
    bound_nanos(table[bucket].to->0) - upper
}

/// What the buckets from place `first` up to, not including, place `last` get together when
/// the upper edge has reached all their bounds.
pub open spec fn placed_sum(table: Seq<TaxBucket>, first: int, last: int, upper: int) -> int
    decreases last - first,
{
    if first >= last {
        0
    } else {
        placed_in(table, first, upper) + placed_sum(table, first + 1, last, upper)
    }
}

/// The portions of a profit whose upper edge has reached the bounds of the buckets from
/// `first` up to `last`, and not that of `last`: each of those buckets gets the distance from
/// the edge down to its bound, and `last` gets what was to be placed less all of that.
pub open spec fn straddling_walk(
    table: Seq<TaxBucket>,
    first: int,
    last: int,
    upper: int,
    remaining: int,
) -> Seq<Portion> {
    Seq::new(
        (last - first + 1) as nat,
        |j: int|
            if j < last - first {
                Portion {
                    amount: placed_in(table, first + j, upper),
                    per_mille: table[first + j].per_mille as int,
                }
            } else {
                Portion {
                    amount: remaining - placed_sum(table, first, last, upper),
                    per_mille: table[last].per_mille as int,
                }
            },
    )
}

/// Where the bounds before `first` lie below the profit, those from `first` up to `last`
/// within it, and that of `last` above it or nowhere, a walk that begins at or before
/// `last` gives the portions of the buckets from `first`, or from where it begins if that
/// is later, to `last`.
pub proof fn lemma_walk_is_straddling_walk(
    table: Seq<TaxBucket>,
    start: int,
    prior: int,
    upper: int,
    remaining: int,
    first: int,
    last: int,
)
    requires
        table_in_order(table),
        0 <= start <= last < table.len(),
        0 <= first <= last,
        forall|i: int| 0 <= i < first ==> bound_nanos((#[trigger] table[i]).to->0) < prior,
        forall|i: int|
            first <= i < last ==> prior <= bound_nanos((#[trigger] table[i]).to->0) <= upper,
        table[last].to is None || (prior <= bound_nanos(table[last].to->0) && upper < bound_nanos(
            table[last].to->0,
        )),
    ensures
        allocation_from(table, start, prior, upper, remaining) == straddling_walk(
            table,
            if start < first {
                first
            } else {
                start
            },
            last,
            upper,
            remaining,
        ),
    decreases last - start,
{
    let walk = allocation_from(table, start, prior, upper, remaining);
    if start == last {
        assert(walk =~= straddling_walk(table, last, last, upper, remaining));
    } else if start < first {
        lemma_walk_is_straddling_walk(table, start + 1, prior, upper, remaining, first, last);
    } else {
        let placed = placed_in(table, start, upper);
        lemma_walk_is_straddling_walk(
            table,
            start + 1,
            prior,
            upper,
            remaining - placed,
            first,
            last,
        );
        assert(walk =~= straddling_walk(table, start, last, upper, remaining));
    }
}

/// The split of a profit in one statement: where the bounds of the buckets in force before
/// `first` lie below the profit, those from `first` up to `last` within it, and that of
/// `last` above it or nowhere, the buckets from `first` up to `last` get a portion each that
/// is zero or less, and `last` gets the profit and all of that on top.
pub proof fn lemma_allocation_is_straddling_walk(prior: int, new: int, first: int, last: int)
    requires
        new != 0,
        0 <= first <= last < bucket_table().len(),
        forall|i: int|
            0 <= i < first ==> bound_nanos((#[trigger] bucket_table()[i]).to->0) < prior,
        forall|i: int|
            first <= i < last ==> prior <= bound_nanos((#[trigger] bucket_table()[i]).to->0)
                <= prior + new,
        bucket_table()[last].to is None || (prior <= bound_nanos(bucket_table()[last].to->0)
            && prior + new < bound_nanos(bucket_table()[last].to->0)),
    ensures
        allocation(prior, new) == straddling_walk(bucket_table(), first, last, prior + new, new),
        forall|j: int|
            0 <= j < last - first ==> (#[trigger] allocation(prior, new)[j]).amount <= 0,
{
    lemma_bucket_table_in_order();
    lemma_walk_is_straddling_walk(bucket_table(), 0, prior, prior + new, new, first, last);
}

/// A profit that lies wholly below the first bound goes to the first bucket in one portion.
pub proof fn lemma_allocation_below_first_bound(prior: int, new: int)
    requires
        new != 0,
        prior <= bound_nanos(13_870),
        prior + new < bound_nanos(13_870),
    ensures
        allocation(prior, new) == seq![Portion { amount: new, per_mille: 250 }],
{
}

/// A profit whose upper edge reaches the last bound has its last portion in the unbounded
/// bucket, at half.
pub proof fn lemma_allocation_reaches_top_bucket(prior: int, new: int)
    requires
        new != 0,
        prior + new >= bound_nanos(42_370),
    ensures
        allocation(prior, new).len() >= 1,
        allocation(prior, new).last().per_mille == 500,
{
    lemma_bucket_table_in_order();
    lemma_walk_reaches_last_bucket(bucket_table(), 0, prior, prior + new, new);
}

/// The buckets in force.
pub fn tax_buckets() -> (r: Vec<TaxBucket>)
    ensures
        r@ == bucket_table(),
        table_in_order(r@),
{
    let mut table: Vec<TaxBucket> = Vec::new();
    table.push(TaxBucket { to: Some(13_870), per_mille: 250 });
    table.push(TaxBucket { to: Some(24_480), per_mille: 400 });
    table.push(TaxBucket { to: Some(42_370), per_mille: 450 });
    table.push(TaxBucket { to: None, per_mille: 500 });
    assert(table@ =~= bucket_table());
    table
}

/// Splits `gross_profit`, earned on top of `total_gross_profit`, over the buckets in force.
///
/// The result is `None` exactly when the upper edge of the profit or one of the portions
/// cannot be held.
pub fn appliable_tax_buckets(total_gross_profit: Amount, gross_profit: Amount) -> (r: Option<
    Vec<BracketAllocation>,
>)
    ensures
        r.is_some() <==> allocation_fits(total_gross_profit@, gross_profit@),
        r matches Some(allocations) ==> {
            &&& portions(allocations@) == allocation(total_gross_profit@, gross_profit@)
            &&& amounts_sum(portions(allocations@)) == gross_profit@
        },
{
    let ghost prior = total_gross_profit@;
    let ghost new = gross_profit@;
    let mut allocations: Vec<BracketAllocation> = Vec::new();
    proof {
        lemma_allocation_sums_to_new_profit(prior, new);
    }
    if gross_profit.nanos == 0 {
        assert(portions(allocations@) =~= allocation(prior, new));
        return Some(allocations);
    }
    let upper = match total_gross_profit.plus(gross_profit) {
        Some(upper) => upper,
        None => {
            return None;
        },
    };
    let table = tax_buckets();
    let mut remaining = gross_profit;
    let mut i: usize = 0;
    while i < table.len()
        invariant
            i <= table.len(),
            table@ == bucket_table(),
            table_in_order(table@),
            new != 0,
            upper@ == prior + new,
            prior == total_gross_profit@,
            new == gross_profit@,
            amounts_sum(allocation(prior, new)) == new,
            portions(allocations@) + allocation_from(table@, i as int, prior, upper@, remaining@)
                == allocation(prior, new),
        decreases table.len() - i,
    {
        let bucket = table[i];
        let ghost walk = allocation_from(table@, i as int, prior, upper@, remaining@);
        let ghost before = portions(allocations@);
        match bucket.to {
            None => {
                allocations.push(BracketAllocation { amount: remaining, per_mille: bucket.per_mille });
                assert(portions(allocations@) =~= before + walk);
                proof {
                    lemma_all_held(allocations@);
                }
                return Some(allocations);
            },
            Some(to) => {
                assert(0 <= to * 1_000_000_000 <= 0xffff_ffff * 1_000_000_000) by (nonlinear_arith)
                    requires
                        0 <= to <= 0xffff_ffff,
                ;
                let bound: i128 = to as i128 * NANOS_PER_UNIT;
                if total_gross_profit.nanos > bound {
                } else if upper.nanos < bound {
                    allocations.push(
                        BracketAllocation { amount: remaining, per_mille: bucket.per_mille },
                    );
                    assert(portions(allocations@) =~= before + walk);
                    proof {
                        lemma_all_held(allocations@);
                    }
                    return Some(allocations);
                } else {
                    let placed = Amount { nanos: bound - upper.nanos };
                    allocations.push(
                        BracketAllocation { amount: placed, per_mille: bucket.per_mille },
                    );
                    let ghost after = allocation_from(
                        table@,
                        i + 1,
                        prior,
                        upper@,
                        remaining@ - placed@,
                    );
                    assert(portions(allocations@) =~= before + seq![
                        Portion { amount: placed@, per_mille: bucket.per_mille as int },
                    ]);
                    assert(portions(allocations@) + after =~= before + walk);
                    remaining = match remaining.minus(placed) {
                        Some(more) => more,
                        None => {
                            proof {
                                lemma_walk_ends_at_least_remaining(
                                    table@,
                                    i + 1,
                                    prior,
                                    upper@,
                                    remaining@ - placed@,
                                );
                                let all = allocation(prior, new);
                                assert(all.last() == after.last());
                                assert(!fits(all[all.len() - 1].amount));
                            }
                            return None;
                        },
                    };
                }
            },
        }
        i += 1;
    }
    assert(portions(allocations@) =~= allocation(prior, new));
    proof {
        lemma_all_held(allocations@);
    }
    Some(allocations)
}

/// Every portion that a vector of allocations stands for can be held.
proof fn lemma_all_held(allocations: Seq<BracketAllocation>)
    ensures
        forall|i: int|
            0 <= i < portions(allocations).len() ==> fits((#[trigger] portions(allocations)[i]).amount),
{
}

} // verus!
