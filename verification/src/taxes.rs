//! The income tax on the portions of a profit, and the social contribution on what is left.

use vstd::prelude::*;
use crate::amount::{Amount, MODERATE, fits, magnitude, share};
use crate::brackets::{
    BracketAllocation,
    Portion,
    allocation,
    allocation_fits,
    allocation_from,
    appliable_tax_buckets,
    bound_nanos,
    bucket_table,
    lemma_allocation_below_first_bound,
    lemma_bucket_table_in_order,
    lemma_walk_bounded,
    portions,
};
use crate::invoice::{Column, Invoice, column_total, column_total_fits, total_of};

verus! {

/// The rate of the social contribution, in thousandths.
pub const SOCIAL_CONTRIBUTION_PER_MILLE: u16 = 205;

/// The income tax on `portions`: each portion's share at its own rate, added up.
pub open spec fn government_tax(portions: Seq<Portion>) -> int
    decreases portions.len(),
{
    if portions.len() == 0 {
        0
    } else {
        government_tax(portions.drop_last()) + share(
            portions.last().amount,
            portions.last().per_mille,
        )
    }
}

/// What is counted as left of `portions` after the income tax: each portion's amount less
/// the tax on all portions up to and including it, added up. The tax on an early portion is
/// thus taken off again with every later one.
pub open spec fn profit_after_government_tax(portions: Seq<Portion>) -> int
    decreases portions.len(),
{
    if portions.len() == 0 {
        0
    } else {
        profit_after_government_tax(portions.drop_last()) + (portions.last().amount
            - government_tax(portions))
    }
}

/// Whether the figures for portion `k` can be held: its amount times its rate, the tax up
/// to and including it, its amount less that tax, and the sum of what is left so far.
pub open spec fn government_step_fits(portions: Seq<Portion>, k: int) -> bool {
    &&& fits(portions[k].amount * portions[k].per_mille)
    &&& fits(government_tax(portions.take(k + 1)))
    &&& fits(portions[k].amount - government_tax(portions.take(k + 1)))
    &&& fits(profit_after_government_tax(portions.take(k + 1)))
}

/// Whether the figures for every portion can be held.
pub open spec fn government_tax_fits(portions: Seq<Portion>) -> bool {
    forall|k: int| 0 <= k < portions.len() ==> #[trigger] government_step_fits(portions, k)
}

/// The social contribution on `profit` nanos.
pub open spec fn social_contribution(profit: int) -> int {
    share(profit, SOCIAL_CONTRIBUTION_PER_MILLE as int)
}

/// The figures of one invoice: its gross profit, and how the taxes part it.
#[derive(Clone, Copy, Debug, PartialEq, Eq)]
pub struct TaxFigures {
    pub gross_profit: Amount,
    pub net_profit: Amount,
    pub government_tax: Amount,
    pub social_contribution_tax: Amount,
}

/// What `TaxFigures` stand for, in nanos.
pub struct TaxFiguresView {
    pub gross_profit: int,
    pub net_profit: int,
    pub government_tax: int,
    pub social_contribution_tax: int,
}

impl View for TaxFigures {
    type V = TaxFiguresView;

    open spec fn view(&self) -> TaxFiguresView {
        TaxFiguresView {
            gross_profit: self.gross_profit@,
            net_profit: self.net_profit@,
            government_tax: self.government_tax@,
            social_contribution_tax: self.social_contribution_tax@,
        }
    }
}

/// The figures of an invoice for `days_worked` days at `daily_rate` nanos a day, made when
/// `prior` nanos of gross profit have been invoiced before it in the year.
///
/// The gross profit is split over the buckets on top of `prior`; the income tax is taken on
/// the portions; the social contribution is taken on what is counted as left after the
/// income tax, and the net profit is what the contribution leaves of that.
pub open spec fn taxes(days_worked: int, daily_rate: int, prior: int) -> TaxFiguresView {
    let gross_profit = days_worked * daily_rate;
    let split = allocation(prior, gross_profit);
    let left = profit_after_government_tax(split);
    TaxFiguresView {
        gross_profit,
        net_profit: left - social_contribution(left),
        government_tax: government_tax(split),
        social_contribution_tax: social_contribution(left),
    }
}

/// Whether the figures of such an invoice, and all that is worked out on the way to them,
/// can be held.
pub open spec fn taxes_fit(days_worked: int, daily_rate: int, prior: int) -> bool {
    let gross_profit = days_worked * daily_rate;
    let split = allocation(prior, gross_profit);
    &&& fits(gross_profit)
    &&& allocation_fits(prior, gross_profit)
    &&& government_tax_fits(split)
    &&& fits(profit_after_government_tax(split) * SOCIAL_CONTRIBUTION_PER_MILLE)
}

/// What is counted as left of `allocations` after the income tax, and the income tax, in
/// that order.
///
/// The result is `None` exactly when one of the figures on the way cannot be held.
pub fn calc_government_tax(allocations: &Vec<BracketAllocation>) -> (r: Option<(Amount, Amount)>)
    ensures
        r.is_some() <==> government_tax_fits(portions(allocations@)),
        r matches Some((profit, tax)) ==> {
            &&& profit@ == profit_after_government_tax(portions(allocations@))
            &&& tax@ == government_tax(portions(allocations@))
        },
{
    let ghost all = portions(allocations@);
    let mut profit_after_government_tax = Amount::zero();
    let mut government_tax = Amount::zero();
    let mut k: usize = 0;
    while k < allocations.len()
        invariant
            k <= allocations.len(),
            all == portions(allocations@),
            government_tax@ == self::government_tax(all.take(k as int)),
            profit_after_government_tax@ == self::profit_after_government_tax(all.take(k as int)),
            forall|j: int| 0 <= j < k ==> #[trigger] government_step_fits(all, j),
        decreases allocations.len() - k,
    {
        let allocation = allocations[k];
        proof {
            assert(all.take(k + 1).drop_last() =~= all.take(k as int));
            assert(all.take(k + 1).last() == all[k as int]);
            assert(all[k as int] == allocation@);
        }
        let part = match allocation.amount.share(allocation.per_mille) {
            Some(part) => part,
            None => {
                assert(!government_step_fits(all, k as int));
                return None;
            },
        };
        government_tax = match government_tax.plus(part) {
            Some(tax) => tax,
            None => {
                assert(!government_step_fits(all, k as int));
                return None;
            },
        };
        let kept = match allocation.amount.minus(government_tax) {
            Some(kept) => kept,
            None => {
                assert(!government_step_fits(all, k as int));
                return None;
            },
        };
        profit_after_government_tax = match profit_after_government_tax.plus(kept) {
            Some(profit) => profit,
            None => {
                assert(!government_step_fits(all, k as int));
                return None;
            },
        };
        assert(government_step_fits(all, k as int));
        k += 1;
    }
    assert(all.take(k as int) =~= all);
    Some((profit_after_government_tax, government_tax))
}

/// The net profit that the social contribution leaves of `profit_after_government_tax`,
/// and the social contribution, in that order.
///
/// The result is `None` exactly when the profit times the rate cannot be held.
pub fn calc_social_contribution(profit_after_government_tax: Amount) -> (r: Option<
    (Amount, Amount),
>)
    ensures
        r.is_some() <==> fits(profit_after_government_tax@ * SOCIAL_CONTRIBUTION_PER_MILLE),
        r matches Some((net_profit, contribution)) ==> {
            &&& contribution@ == social_contribution(profit_after_government_tax@)
            &&& net_profit@ == profit_after_government_tax@ - contribution@
        },
{
    let contribution = match profit_after_government_tax.share(SOCIAL_CONTRIBUTION_PER_MILLE) {
        Some(contribution) => contribution,
        None => {
            return None;
        },
    };
    proof {
        lemma_share_between(profit_after_government_tax@, SOCIAL_CONTRIBUTION_PER_MILLE as int);
    }
    let net_profit = Amount { nanos: profit_after_government_tax.nanos - contribution.nanos };
    Some((net_profit, contribution))
}

/// The figures of an invoice for `days_worked` days at `daily_rate` a day, made after
/// `invoices` in the same year.
///
/// The result is `None` exactly when the gross profits of `invoices` cannot be added up or
/// one of the figures cannot be held.
pub fn calc_taxes(days_worked: u8, daily_rate: Amount, invoices: &Vec<Invoice>) -> (r: Option<
    TaxFigures,
>)
    ensures
        r.is_some() <==> {
            &&& column_total_fits(invoices.deep_view(), Column::GrossProfit)
            &&& taxes_fit(
                days_worked as int,
                daily_rate@,
                column_total(invoices.deep_view(), Column::GrossProfit),
            )
        },
        r matches Some(figures) ==> figures@ == taxes(
            days_worked as int,
            daily_rate@,
            column_total(invoices.deep_view(), Column::GrossProfit),
        ),
{
    let total_gross_profit = match total_of(invoices, Column::GrossProfit) {
        Some(total) => total,
        None => {
            return None;
        },
    };
    let gross_profit = match daily_rate.times(days_worked) {
        Some(gross_profit) => gross_profit,
        None => {
            assert(daily_rate@ * days_worked == days_worked * daily_rate@) by (nonlinear_arith);
            return None;
        },
    };
    assert(gross_profit@ == days_worked * daily_rate@) by (nonlinear_arith)
        requires
            gross_profit@ == daily_rate@ * days_worked,
    ;
    let allocations = match appliable_tax_buckets(total_gross_profit, gross_profit) {
        Some(allocations) => allocations,
        None => {
            return None;
        },
    };
    let (profit_after_government_tax, government_tax) = match calc_government_tax(&allocations) {
        Some(pair) => pair,
        None => {
            return None;
        },
    };
    let (net_profit, social_contribution_tax) = match calc_social_contribution(
        profit_after_government_tax,
    ) {
        Some(pair) => pair,
        None => {
            return None;
        },
    };
    Some(TaxFigures { gross_profit, net_profit, government_tax, social_contribution_tax })
}

/// At a rate of no more than the whole, a share lies between zero and the amount.
pub proof fn lemma_share_between(nanos: int, per_mille: int)
    requires
        0 <= per_mille <= 1000,
    ensures
        nanos >= 0 ==> 0 <= share(nanos, per_mille) <= nanos,
        nanos <= 0 ==> nanos <= share(nanos, per_mille) <= 0,
{
    assert(nanos >= 0 ==> 0 <= (nanos * per_mille) / 1000 <= nanos) by (nonlinear_arith)
        requires
            0 <= per_mille <= 1000,
    ;
    assert(nanos <= 0 ==> nanos <= (nanos * per_mille) / 1000 <= 0) by (nonlinear_arith)
        requires
            0 <= per_mille <= 1000,
    ;
}

/// On a single portion the income tax is the portion's share at its rate, and what is left
/// is the rest of the portion.
pub proof fn lemma_government_tax_on_one_portion(portion: Portion)
    ensures
        government_tax(seq![portion]) == share(portion.amount, portion.per_mille),
        profit_after_government_tax(seq![portion]) == portion.amount - share(
            portion.amount,
            portion.per_mille,
        ),
{
    let one = seq![portion];
    assert(one.drop_last() =~= Seq::<Portion>::empty());
    assert(government_tax(one.drop_last()) == 0);
    assert(profit_after_government_tax(one.drop_last()) == 0);
}

/// An invoice whose gross profit lies wholly below the first bound is taxed at the first
/// rate: the income tax is a quarter of the gross profit, the social contribution is taken
/// on the other three quarters, and the net profit is what is left of those.
pub proof fn lemma_taxes_below_first_bound(days_worked: int, daily_rate: int, prior: int)
    requires
        days_worked * daily_rate != 0,
        prior <= bound_nanos(13_870),
        prior + days_worked * daily_rate < bound_nanos(13_870),
    ensures
        ({
            let gross_profit = days_worked * daily_rate;
            let government_tax = share(gross_profit, 250);
            let social_contribution_tax = social_contribution(gross_profit - government_tax);
            taxes(days_worked, daily_rate, prior) == (TaxFiguresView {
                gross_profit,
                net_profit: gross_profit - government_tax - social_contribution_tax,
                government_tax,
                social_contribution_tax,
            })
        }),
{
    let gross_profit = days_worked * daily_rate;
    lemma_allocation_below_first_bound(prior, gross_profit);
    lemma_government_tax_on_one_portion(Portion { amount: gross_profit, per_mille: 250 });
}

/// Whether every one of `portions` has a rate of no more than the whole and an amount of no
/// more than `most` in size.
pub open spec fn portions_within(portions: Seq<Portion>, most: int) -> bool {
    forall|i: int|
        0 <= i < portions.len() ==> 0 <= (#[trigger] portions[i]).per_mille <= 1000 && magnitude(
            portions[i].amount,
        ) <= most
}

/// The income tax on portions of no more than `most` each is no more than `most` for each
/// portion, and what is counted as left no more than `most` for each portion and each
/// portion and one more.
pub proof fn lemma_government_figures_bounded(portions: Seq<Portion>, most: int)
    requires
        portions_within(portions, most),
    ensures
        magnitude(government_tax(portions)) <= portions.len() * most,
        magnitude(profit_after_government_tax(portions)) <= portions.len() * (portions.len() + 1)
            * most,
    decreases portions.len(),
{
    let n = portions.len() as int;
    if n > 0 {
        let before = portions.drop_last();
        let last = portions.last();
        assert(portions_within(before, most)) by {
            assert forall|i: int| 0 <= i < before.len() implies 0 <= (
            #[trigger] before[i]).per_mille <= 1000 && magnitude(before[i].amount) <= most by {
                assert(before[i] == portions[i]);
            }
        }
        lemma_government_figures_bounded(before, most);
        lemma_share_between(last.amount, last.per_mille);
        assert(n * most == (n - 1) * most + most) by (nonlinear_arith);
        assert((n - 1) * n * most + (n + 1) * most <= n * (n + 1) * most) by (nonlinear_arith)
            requires
                n >= 1,
                most >= 0,
        ;
        assert((n + 1) * most == n * most + most) by (nonlinear_arith);
    } else {
        assert(0 * most == 0);
        assert(0 * (0 + 1) * most == 0);
    }
}

/// The figures of an invoice can be held when the daily rate and the gross profit invoiced
/// before are moderate; so can the two taxes added up.
pub proof fn lemma_moderate_taxes_fit(days_worked: int, daily_rate: int, prior: int)
    requires
        0 <= days_worked <= u8::MAX,
        magnitude(daily_rate) <= MODERATE,
        magnitude(prior) <= MODERATE,
    ensures
        taxes_fit(days_worked, daily_rate, prior),
        fits(
            taxes(days_worked, daily_rate, prior).government_tax + taxes(
                days_worked,
                daily_rate,
                prior,
            ).social_contribution_tax,
        ),
{
    let gross_profit = days_worked * daily_rate;
    let most = 5 * (255 * MODERATE);
    assert(magnitude(gross_profit) <= 255 * MODERATE) by (nonlinear_arith)
        requires
            gross_profit == days_worked * daily_rate,
            0 <= days_worked <= 255,
            magnitude(daily_rate) <= MODERATE,
    ;
    let split = allocation(prior, gross_profit);
    lemma_bucket_table_in_order();
    lemma_walk_bounded(bucket_table(), 0, prior, prior + gross_profit, gross_profit);
    assert(portions_within(split, most)) by {
        let length = magnitude(prior + gross_profit - prior);
        assert(bucket_table().len() == 4);
        assert((bucket_table().len() - 0) * length == 4 * length) by (nonlinear_arith)
            requires
                bucket_table().len() == 4,
        ;
        assert forall|i: int| 0 <= i < split.len() implies 0 <= (
        #[trigger] split[i]).per_mille <= 1000 && magnitude(split[i].amount) <= most by {
            assert(split == allocation_from(
                bucket_table(),
                0,
                prior,
                prior + gross_profit,
                gross_profit,
            ));
        }
    }
    assert(split.len() <= 4);
    assert forall|k: int| 0 <= k < split.len() implies #[trigger] government_step_fits(
        split,
        k,
    ) by {
        let upto = split.take(k + 1);
        assert(portions_within(upto, most)) by {
            assert forall|i: int| 0 <= i < upto.len() implies 0 <= (
            #[trigger] upto[i]).per_mille <= 1000 && magnitude(upto[i].amount) <= most by {
                assert(upto[i] == split[i]);
            }
        }
        lemma_government_figures_bounded(upto, most);
        let n = upto.len() as int;
        assert(n * most <= 4 * most && n * (n + 1) * most <= 20 * most) by (nonlinear_arith)
            requires
                0 <= n <= 4,
                most >= 0,
        ;
        assert(magnitude(split[k].amount * split[k].per_mille) <= 1000 * most)
            by (nonlinear_arith)
            requires
                0 <= split[k].per_mille <= 1000,
                magnitude(split[k].amount) <= most,
        ;
    }
    lemma_government_figures_bounded(split, most);
    let n = split.len() as int;
    assert(n * most <= 4 * most && n * (n + 1) * most <= 20 * most) by (nonlinear_arith)
        requires
            0 <= n <= 4,
            most >= 0,
    ;
    lemma_share_between(
        profit_after_government_tax(split),
        SOCIAL_CONTRIBUTION_PER_MILLE as int,
    );
}

} // verus!
