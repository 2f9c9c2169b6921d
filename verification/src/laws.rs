//! Laws that relate several ledger operations: monotonicity of a donor's
//! cumulative total across a sequence of accepted donations.

use vstd::prelude::*;

use crate::ledger::after_donation;
use crate::ledger::distinct_keys;
use crate::ledger::donation_accepted;
use crate::ledger::is_donor;
use crate::ledger::lemma_after_donation;
use crate::ledger::net_transfer;
use crate::ledger::total_of;
use crate::ledger::STORAGE_COST;

verus! {

/// Sum of a sequence of attached amounts.
pub open spec fn amount_sum(amounts: Seq<u128>) -> int
    decreases amounts.len(),
{
    if amounts.len() == 0 {
        0
    } else {
        amounts[0] + amount_sum(amounts.drop_first())
    }
}

/// A sum of amounts is never negative.
pub proof fn lemma_amount_sum_nonneg(amounts: Seq<u128>)
    ensures
        amount_sum(amounts) >= 0,
    decreases amounts.len(),
{
    if amounts.len() > 0 {
        lemma_amount_sum_nonneg(amounts.drop_first());
    }
}

/// The records after one donor attaches each amount of `amounts` in turn,
/// every donation accepted.
pub open spec fn apply_donations(s: Seq<(Seq<char>, u128)>, donor: Seq<char>, amounts: Seq<u128>) -> Seq<(Seq<char>, u128)>
    decreases amounts.len(),
{
    if amounts.len() == 0 {
        s
    } else {
        apply_donations(after_donation(s, donor, amounts[0]), donor, amounts.drop_first())
    }
}

/// No value is created or destroyed by the ledger: what one accepted
/// donation forwards to the beneficiary, plus the fee it retains, equals the
/// amount the donor attached; the fee is retained exactly on a first
/// donation.
pub proof fn lemma_value_conserved(s: Seq<(Seq<char>, u128)>, donor: Seq<char>, amount: u128)
    requires
        donation_accepted(s, donor, amount),
    ensures
        net_transfer(s, donor, amount)
            + (if is_donor(s, donor) { 0int } else { STORAGE_COST as int }) == amount,
{
}

/// Monotonicity, one step: an accepted donation never lowers the donor's
/// cumulative total.
pub proof fn lemma_total_nondecreasing(s: Seq<(Seq<char>, u128)>, donor: Seq<char>, amount: u128)
    requires
        distinct_keys(s),
    ensures
        total_of(after_donation(s, donor, amount), donor) >= total_of(s, donor),
{
    lemma_after_donation(s, donor, amount);
}

/// Monotonicity over a run of donations, with no proviso: however many
/// donations a donor makes, and even if the total saturates, the cumulative
/// total never goes down.
pub proof fn lemma_total_nondecreasing_across_run(s: Seq<(Seq<char>, u128)>, donor: Seq<char>, amounts: Seq<u128>)
    requires
        distinct_keys(s),
    ensures
        distinct_keys(apply_donations(s, donor, amounts)),
        total_of(apply_donations(s, donor, amounts), donor) >= total_of(s, donor),
    decreases amounts.len(),
{
    if amounts.len() > 0 {
        let s1 = after_donation(s, donor, amounts[0]);
        lemma_after_donation(s, donor, amounts[0]);
        lemma_total_nondecreasing_across_run(s1, donor, amounts.drop_first());
    }
}

/// Monotonicity over a run of donations: when one donor's donations are all
/// accepted — which only asks that the first one be, since the donor has a
/// record from then on — the donor's cumulative total afterwards equals the
/// total before plus the sum of all attached amounts, provided that sum
/// stays representable.
pub proof fn lemma_cumulative_total_is_sum(s: Seq<(Seq<char>, u128)>, donor: Seq<char>, amounts: Seq<u128>)
    requires
        distinct_keys(s),
        amounts.len() > 0 ==> donation_accepted(s, donor, amounts[0]),
        total_of(s, donor) + amount_sum(amounts) <= u128::MAX,
    ensures
        distinct_keys(apply_donations(s, donor, amounts)),
        amounts.len() > 0 ==> is_donor(apply_donations(s, donor, amounts), donor),
        total_of(apply_donations(s, donor, amounts), donor) == total_of(s, donor) + amount_sum(amounts),
    decreases amounts.len(),
{
    if amounts.len() > 0 {
        let a0 = amounts[0];
        let rest = amounts.drop_first();
        let s1 = after_donation(s, donor, a0);
        lemma_after_donation(s, donor, a0);
        lemma_amount_sum_nonneg(rest);
        assert(total_of(s, donor) + a0 <= u128::MAX);
        assert(total_of(s1, donor) == total_of(s, donor) + a0);
        lemma_cumulative_total_is_sum(s1, donor, rest);
        assert(apply_donations(s, donor, amounts) == apply_donations(s1, donor, rest));
        if rest.len() == 0 {
            assert(apply_donations(s1, donor, rest) == s1);
        }
    }
}

} // verus!
