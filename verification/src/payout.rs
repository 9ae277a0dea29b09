//! Closing a competition: the winner is fixed once, and the pot is paid out
//! in two rounds whose transfers may each fail.

use vstd::prelude::*;
use crate::contract::CompetitionContract;
use crate::prize::{
    all_pay_voted, leftover_payments, leftover_plan, lemma_leftover_pays_voted,
    lemma_leftover_total, lemma_paid_upto_bounds, lemma_primary_pays_voted, lemma_primary_total,
    lemma_voted_prefix, paid, paid_amount, primary_from, primary_payments, share_sum,
    winners_count,
};
use crate::ranking::{is_ranking_of, rank_artists, ranked, ranking_lines, tallies};
use crate::types::{
    ArtistRanking, Competition, CompetitionError, DistributionReport, Payment, Payout, Tally,
};

verus! {

impl Competition {
    /// The artists with their votes, ranked.
    pub open spec fn ranking(&self) -> Seq<Tally> {
        ranked(tallies(self.artists@, self.votes@))
    }

    /// The first of the ranking, if it has a vote.
    pub open spec fn leader(&self) -> Option<Tally> {
        let r = self.ranking();
        if r.len() > 0 && r[0].votes > 0 {
            Some(r[0])
        } else {
            None
        }
    }

    /// Whether the winner is still to be fixed at `now`.
    pub open spec fn finalization_due(&self, now: u64) -> bool {
        !self.finalized && now > self.vote_end
    }

    /// Whether there is something to distribute and somebody to get it.
    pub open spec fn distribution_due(&self) -> bool {
        self.pot > 0 && self.winner.is_some()
    }

    /// The payments of the first round; none where no distribution is due.
    pub open spec fn first_round(&self) -> Seq<Payment> {
        if self.distribution_due() {
            primary_from(self.ranking(), self.share_ratio@, self.pot, 0)
        } else {
            Seq::empty()
        }
    }

    /// The payments of the second round, once the first round's transfers
    /// have ended as `ok` tells; none where no distribution is due.
    pub open spec fn second_round(&self, ok: Seq<bool>) -> Seq<Payment> {
        if self.distribution_due() {
            leftover_plan(
                self.ranking(),
                self.share_ratio@,
                (self.pot - paid(self.first_round(), ok)) as u64,
            )
        } else {
            Seq::empty()
        }
    }

    /// Whether there is something to distribute and somebody to get it.
    pub fn is_distribution_due(&self) -> (due: bool)
        ensures
            due == self.distribution_due(),
    {
        self.pot > 0 && self.winner.is_some()
    }
}

/// The competition once finalization has been looked at `now`: where it is
/// due, the winner is fixed and the flag set; else nothing changes.
pub open spec fn finalized_at(c: Competition, now: u64) -> Competition {
    if c.finalization_due(now) {
        Competition {
            finalized: true,
            winner: match c.leader() {
                Some(t) => Some(t.artist),
                None => None,
            },
            ..c
        }
    } else {
        c
    }
}

/// The address whose profile gains a win when finalization is looked at
/// `now`.
pub open spec fn credit_at(c: Competition, now: u64) -> Option<String> {
    if c.finalization_due(now) {
        match c.leader() {
            Some(t) => Some(t.address),
            None => None,
        }
    } else {
        None
    }
}

/// Finalization happens once: after it has fired, looking again at any
/// time changes neither the winner nor the flag nor anything else, and
/// credits nobody.
pub proof fn lemma_finalize_once(c: Competition, now: u64, later: u64)
    requires
        c.finalization_due(now) || c.finalized,
    ensures
        finalized_at(c, now).finalized,
        finalized_at(finalized_at(c, now), later) == finalized_at(c, now),
        credit_at(finalized_at(c, now), later).is_none(),
{
}

/// Whatever transfers fail, the two rounds together pay out at most the
/// pot.
pub proof fn lemma_payouts_within_pot(c: Competition, first_ok: Seq<bool>, second_ok: Seq<bool>)
    requires
        c.wf(),
    ensures
        paid(c.first_round(), first_ok) + paid(c.second_round(first_ok), second_ok) <= c.pot,
{
    let first = c.first_round();
    let second = c.second_round(first_ok);
    if c.distribution_due() {
        lemma_primary_total(c.ranking(), c.share_ratio@, c.pot);
        lemma_paid_upto_bounds(first, first_ok, first.len() as int, first.len() as int);
        let leftover = (c.pot - paid(first, first_ok)) as u64;
        lemma_leftover_total(c.ranking(), c.share_ratio@, leftover);
        lemma_paid_upto_bounds(second, second_ok, second.len() as int, second.len() as int);
    }
}

/// An artist without votes is never paid, in neither round and whatever
/// transfers fail.
pub proof fn lemma_only_voted_are_paid(c: Competition, first_ok: Seq<bool>)
    ensures
        all_pay_voted(c.ranking(), c.first_round()),
        all_pay_voted(c.ranking(), c.second_round(first_ok)),
{
    let r = c.ranking();
    let sched = c.share_ratio@;
    lemma_primary_pays_voted(r, sched, c.pot, 0);
    let leftover = (c.pot - paid(c.first_round(), first_ok)) as u64;
    let n = winners_count(r, sched);
    lemma_voted_prefix(r, 0);
    lemma_leftover_pays_voted(r, sched, leftover, share_sum(sched, 0, n), n);
}

impl CompetitionContract {
    /// Fixes the winner if that is due at `now`, and returns the address
    /// whose profile has thereby won a competition.
    pub fn internal_finalize(comp: &mut Competition, now: u64) -> (credit: Option<String>)
        ensures
            *final(comp) == finalized_at(*old(comp), now),
            credit == credit_at(*old(comp), now),
    {
        if comp.finalized || now <= comp.vote_end {
            return None;
        }
        let r = rank_artists(&comp.artists, &comp.votes);
        let mut credit: Option<String> = None;
        if r.len() > 0 && r[0].votes > 0 {
            comp.winner = Some(r[0].artist.clone());
            credit = Some(r[0].address.clone());
        } else {
            comp.winner = None;
        }
        comp.finalized = true;
        credit
    }

    /// A payout request at `now`. Before the voting window has closed it is
    /// refused with `StateViolation`. After that the winner is fixed if it
    /// was not yet, and the answer tells whether a distribution is due: it
    /// is where the pot is not empty and there is a winner.
    pub fn pay_winners(comp: &mut Competition, now: u64) -> (r: Result<Payout, CompetitionError>)
        ensures
            now <= old(comp).vote_end ==> r == Err::<Payout, CompetitionError>(
                CompetitionError::StateViolation,
            ) && *final(comp) == *old(comp),
            now > old(comp).vote_end ==> *final(comp) == finalized_at(*old(comp), now) && r == Ok::<
                Payout,
                CompetitionError,
            >(
                Payout {
                    credit: credit_at(*old(comp), now),
                    due: final(comp).distribution_due(),
                },
            ),
    {
        if now <= comp.vote_end {
            return Err(CompetitionError::StateViolation);
        }
        let credit = Self::internal_finalize(comp, now);
        let due = comp.is_distribution_due();
        Ok(Payout { credit, due })
    }

    /// The payments of the first round, in the order in which they are to
    /// be attempted; none where no distribution is due.
    pub fn first_round(comp: &Competition) -> (out: Vec<Payment>)
        requires
            comp.wf(),
        ensures
            out@ == comp.first_round(),
    {
        if !comp.is_distribution_due() {
            return Vec::new();
        }
        let r = rank_artists(&comp.artists, &comp.votes);
        primary_payments(&r, &comp.share_ratio, comp.pot)
    }

    /// The payments of the second round. `first_ok[i]` tells whether
    /// payment `i` of the first round went through; a payment without an
    /// outcome counts as failed.
    pub fn second_round(comp: &Competition, first_ok: &Vec<bool>) -> (out: Vec<Payment>)
        requires
            comp.wf(),
        ensures
            out@ == comp.second_round(first_ok@),
    {
        if !comp.is_distribution_due() {
            return Vec::new();
        }
        let r = rank_artists(&comp.artists, &comp.votes);
        let first = primary_payments(&r, &comp.share_ratio, comp.pot);
        proof {
            lemma_primary_total(r@, comp.share_ratio@, comp.pot);
            lemma_paid_upto_bounds(first@, first_ok@, first@.len() as int, first@.len() as int);
        }
        let total_paid = paid_amount(&first, first_ok);
        leftover_payments(&r, &comp.share_ratio, comp.pot - total_paid)
    }

    /// Ends the distribution. Where one was due, the pot is emptied
    /// whatever transfers failed, and the report says what was paid in each
    /// round and what stays unpaid. Where none was due, nothing changes and
    /// nothing was paid.
    pub fn close_distribution(
        comp: &mut Competition,
        first_ok: &Vec<bool>,
        second_ok: &Vec<bool>,
    ) -> (report: DistributionReport)
        requires
            old(comp).wf(),
        ensures
            old(comp).distribution_due() ==> final(comp).pot == 0,
            *final(comp) == (Competition {
                pot: if old(comp).distribution_due() {
                    0
                } else {
                    old(comp).pot
                },
                ..*old(comp)
            }),
            report.pot == old(comp).pot,
            report.total_paid == paid(old(comp).first_round(), first_ok@),
            report.leftover_paid == paid(old(comp).second_round(first_ok@), second_ok@),
            report.total_paid + report.leftover_paid + report.unpaid == old(comp).pot,
    {
        if !comp.is_distribution_due() {
            return DistributionReport {
                pot: comp.pot,
                total_paid: 0,
                leftover_paid: 0,
                unpaid: comp.pot,
            };
        }
        let r = rank_artists(&comp.artists, &comp.votes);
        let first = primary_payments(&r, &comp.share_ratio, comp.pot);
        proof {
            lemma_primary_total(r@, comp.share_ratio@, comp.pot);
            lemma_paid_upto_bounds(first@, first_ok@, first@.len() as int, first@.len() as int);
        }
        let total_paid = paid_amount(&first, first_ok);
        let leftover = comp.pot - total_paid;
        let second = leftover_payments(&r, &comp.share_ratio, leftover);
        proof {
            lemma_leftover_total(r@, comp.share_ratio@, leftover);
            lemma_paid_upto_bounds(second@, second_ok@, second@.len() as int, second@.len() as int);
        }
        let leftover_paid = paid_amount(&second, second_ok);
        let pot = comp.pot;
        comp.pot = 0;
        DistributionReport { pot, total_paid, leftover_paid, unpaid: leftover - leftover_paid }
    }

    /// All contestants ranked by votes, from the winner to the last place.
    pub fn get_winner(comp: &Competition) -> (lines: Vec<ArtistRanking>)
        requires
            comp.artists.len() < u32::MAX,
        ensures
            is_ranking_of(lines@, comp.ranking()),
    {
        ranking_lines(&comp.artists, &comp.votes)
    }
}

} // verus!
