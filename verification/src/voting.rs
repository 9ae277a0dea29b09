//! Who may vote, and what a vote changes.

use vstd::prelude::*;
use crate::contract::{lemma_pow10_grows, pow10, ten_to, CompetitionContract};
use crate::ranking::{votes_for, votes_from};
use crate::types::{
    ArtistEntry, Competition, CompetitionError, VoteCount, VoteHistory, VoteLogEntry,
    VotingEligibility,
};

verus! {

/// The artist that the first entry of `voter` at or after index `i` names.
pub open spec fn vote_from(log: Seq<VoteLogEntry>, voter: Seq<char>, i: int) -> Option<String>
    decreases log.len() - i,
{
    if i < 0 || i >= log.len() {
        None
    } else if log[i].voter@ == voter {
        Some(log[i].artist)
    } else {
        vote_from(log, voter, i + 1)
    }
}

/// Whether `voter` has an entry in the log.
pub open spec fn voted(log: Seq<VoteLogEntry>, voter: Seq<char>) -> bool {
    vote_from(log, voter, 0).is_some()
}

/// Whether `name` is among the submitted artists.
pub open spec fn submitted(artists: Seq<ArtistEntry>, name: Seq<char>) -> bool {
    exists|i: int| 0 <= i < artists.len() && (#[trigger] artists[i]).name@ == name
}

/// What the eligibility check finds, given the token's minor units per
/// whole unit and the voter's balance in minor units.
pub open spec fn eligibility(
    c: Competition,
    voter: Seq<char>,
    now: u64,
    multiplier: u64,
    raw_balance: u64,
) -> VotingEligibility {
    let voting_active = c.vote_start <= now <= c.vote_end;
    let current_balance = (raw_balance / multiplier) as u64;
    let has_voted = voted(c.vote_log@, voter);
    VotingEligibility {
        can_vote: voting_active && current_balance >= c.min_vote_tokens && !has_voted,
        has_voted,
        current_balance,
        min_required: c.min_vote_tokens,
        voting_active,
    }
}

/// How a vote is answered before anything is written.
pub open spec fn vote_result(
    c: Competition,
    authorized: bool,
    voter: Seq<char>,
    artist: Seq<char>,
    now: u64,
    decimals: u32,
    raw_balance: u64,
) -> Result<(), CompetitionError> {
    if !authorized {
        Err(CompetitionError::Unauthorized)
    } else if pow10(decimals as nat) > u64::MAX {
        Err(CompetitionError::Overflow)
    } else if !eligibility(c, voter, now, pow10(decimals as nat) as u64, raw_balance).can_vote {
        Err(CompetitionError::NotEligible)
    } else if !submitted(c.artists@, artist) {
        Err(CompetitionError::UnknownArtist)
    } else if votes_for(c.votes@, artist) == u64::MAX {
        Err(CompetitionError::Overflow)
    } else {
        Ok(())
    }
}

/// What an accepted vote leaves behind: one more entry in the log, one more
/// vote for the artist and for nobody else, and nothing else touched.
pub open spec fn vote_recorded(
    before: Competition,
    after: Competition,
    voter: Seq<char>,
    artist: Seq<char>,
) -> bool {
    &&& after.vote_log@.len() == before.vote_log@.len() + 1
    &&& after.vote_log@.drop_last() == before.vote_log@
    &&& after.vote_log@.last().voter@ == voter
    &&& after.vote_log@.last().artist@ == artist
    &&& votes_for(after.votes@, artist) == votes_for(before.votes@, artist) + 1
    &&& forall|n: Seq<char>| n != artist ==> votes_for(after.votes@, n) == votes_for(before.votes@, n)
    &&& after == (Competition { votes: after.votes, vote_log: after.vote_log, ..before })
}

/// The history has grown by the record of this one vote.
pub open spec fn vote_logged(
    before: Seq<VoteHistory>,
    after: Seq<VoteHistory>,
    voter: Seq<char>,
    artist: Seq<char>,
    now: u64,
) -> bool {
    &&& after.len() == before.len() + 1
    &&& after.drop_last() == before
    &&& after.last().voter@ == voter
    &&& after.last().artist@ == artist
    &&& after.last().timestamp == now
}

/// A voter whose entry was just added is found in the log.
pub proof fn lemma_vote_from_push(log: Seq<VoteLogEntry>, e: VoteLogEntry, i: int)
    requires
        0 <= i <= log.len(),
    ensures
        vote_from(log.push(e), e.voter@, i).is_some(),
    decreases log.len() - i,
{
    if i < log.len() && log[i].voter@ != e.voter@ {
        lemma_vote_from_push(log, e, i + 1);
    }
}

/// One vote per voter: once a vote of `voter` is recorded, every further
/// vote that the voter authorizes is answered with `NotEligible`, whatever
/// the artist, the time and the balance, as long as the token's precision
/// can be worked with at all.
pub proof fn lemma_second_vote_refused(
    before: Competition,
    after: Competition,
    voter: Seq<char>,
    artist: Seq<char>,
    next_artist: Seq<char>,
    now: u64,
    decimals: u32,
    raw_balance: u64,
)
    requires
        vote_recorded(before, after, voter, artist),
        pow10(decimals as nat) <= u64::MAX,
    ensures
        vote_result(after, true, voter, next_artist, now, decimals, raw_balance) == Err::<
            (),
            CompetitionError,
        >(CompetitionError::NotEligible),
{
    let log = after.vote_log@;
    assert(log =~= log.drop_last().push(log.last()));
    lemma_vote_from_push(log.drop_last(), log.last(), 0);
}

/// No voter has two entries in the log.
pub open spec fn one_entry_each(log: Seq<VoteLogEntry>) -> bool {
    forall|i: int, j: int| 0 <= i < j < log.len() ==> log[i].voter@ != log[j].voter@
}

/// No voter has two records in the history.
pub open spec fn one_record_each(history: Seq<VoteHistory>) -> bool {
    forall|i: int, j: int| 0 <= i < j < history.len() ==> history[i].voter@ != history[j].voter@
}

/// Every voter with a record in the history has an entry in the log.
pub open spec fn all_logged(history: Seq<VoteHistory>, log: Seq<VoteLogEntry>) -> bool {
    forall|i: int| 0 <= i < history.len() ==> voted(log, (#[trigger] history[i]).voter@)
}

/// A voter has an entry in the log exactly when `vote_from` finds one.
pub proof fn lemma_vote_from_found(log: Seq<VoteLogEntry>, voter: Seq<char>, i: int)
    requires
        0 <= i <= log.len(),
    ensures
        vote_from(log, voter, i).is_some() <==> exists|k: int|
            i <= k < log.len() && (#[trigger] log[k]).voter@ == voter,
    decreases log.len() - i,
{
    if i < log.len() {
        if log[i].voter@ != voter {
            lemma_vote_from_found(log, voter, i + 1);
            if vote_from(log, voter, i).is_some() {
                let k = choose|k: int| i + 1 <= k < log.len() && (#[trigger] log[k]).voter@ == voter;
                assert(i <= k < log.len() && log[k].voter@ == voter);
            }
        } else {
            assert(i <= i < log.len() && log[i].voter@ == voter);
        }
    }
}

/// At most one record per voter: where no voter has two entries in the log
/// or two records in the history, and the history names only voters of the
/// log, an accepted vote leaves it so.
pub proof fn lemma_one_record_per_voter(
    before: Competition,
    after: Competition,
    history: Seq<VoteHistory>,
    grown: Seq<VoteHistory>,
    voter: Seq<char>,
    artist: Seq<char>,
    now: u64,
    decimals: u32,
    raw_balance: u64,
)
    requires
        one_entry_each(before.vote_log@),
        one_record_each(history),
        all_logged(history, before.vote_log@),
        vote_result(before, true, voter, artist, now, decimals, raw_balance).is_ok(),
        vote_recorded(before, after, voter, artist),
        vote_logged(history, grown, voter, artist, now),
    ensures
        one_entry_each(after.vote_log@),
        one_record_each(grown),
        all_logged(grown, after.vote_log@),
{
    let log = before.vote_log@;
    let new_log = after.vote_log@;
    lemma_vote_from_found(log, voter, 0);
    assert(!voted(log, voter));
    assert forall|i: int| 0 <= i < log.len() implies log[i].voter@ != voter by {
        if log[i].voter@ == voter {
            assert(0 <= i < log.len() && log[i].voter@ == voter);
        }
    }
    assert forall|i: int, j: int| 0 <= i < j < new_log.len() implies new_log[i].voter@
        != new_log[j].voter@ by {
        assert(new_log[i] == new_log.drop_last()[i]);
        if j < log.len() {
            assert(new_log[j] == new_log.drop_last()[j]);
        }
    }
    assert forall|i: int, j: int| 0 <= i < j < grown.len() implies grown[i].voter@
        != grown[j].voter@ by {
        assert(grown[i] == grown.drop_last()[i]);
        if j < history.len() {
            assert(grown[j] == grown.drop_last()[j]);
        } else {
            assert(voted(log, history[i].voter@));
        }
    }
    assert forall|i: int| 0 <= i < grown.len() implies voted(
        new_log,
        (#[trigger] grown[i]).voter@,
    ) by {
        let v = grown[i].voter@;
        lemma_vote_from_found(new_log, v, 0);
        if i < history.len() {
            assert(grown[i] == grown.drop_last()[i]);
            assert(voted(log, history[i].voter@));
            lemma_vote_from_found(log, v, 0);
            let k = choose|k: int| 0 <= k < log.len() && (#[trigger] log[k]).voter@ == v;
            assert(new_log[k] == new_log.drop_last()[k]);
            assert(0 <= k < new_log.len() && new_log[k].voter@ == v);
        } else {
            let k = new_log.len() - 1;
            assert(0 <= k < new_log.len() && new_log[k].voter@ == v);
        }
    }
}

/// The counts after one more vote for `name`, where `at` is the first entry
/// of that name and holds `fresh` afterwards.
proof fn lemma_votes_bumped(
    old_votes: Seq<VoteCount>,
    new_votes: Seq<VoteCount>,
    name: Seq<char>,
    at: int,
    n: Seq<char>,
    i: int,
)
    requires
        0 <= i <= at <= old_votes.len(),
        forall|k: int| 0 <= k < at ==> old_votes[k].artist@ != name,
        at < old_votes.len() ==> old_votes[at].artist@ == name && new_votes == old_votes.update(
            at,
            new_votes[at],
        ),
        at == old_votes.len() ==> new_votes == old_votes.push(new_votes[at]),
        new_votes.len() > at,
        new_votes[at].artist@ == name,
    ensures
        n == name ==> votes_from(old_votes, n, i) == (if at < old_votes.len() {
            old_votes[at].votes
        } else {
            0
        }) && votes_from(new_votes, n, i) == new_votes[at].votes,
        n != name ==> votes_from(new_votes, n, i) == votes_from(old_votes, n, i),
    decreases new_votes.len() - i,
{
    if i < at {
        lemma_votes_bumped(old_votes, new_votes, name, at, n, i + 1);
    } else if n != name {
        lemma_votes_same_tail(old_votes, new_votes, n, at + 1);
    }
}

/// Two lists of counts that agree from `i` on, the longer one without a
/// further entry for `n`, give `n` the same count from there.
proof fn lemma_votes_same_tail(a: Seq<VoteCount>, b: Seq<VoteCount>, n: Seq<char>, i: int)
    requires
        0 <= i,
        a.len() <= b.len(),
        forall|k: int| i <= k < a.len() ==> a[k] == b[k],
        forall|k: int| a.len() <= k < b.len() && i <= k ==> b[k].artist@ != n,
    ensures
        votes_from(b, n, i) == votes_from(a, n, i),
    decreases b.len() - i,
{
    if i < b.len() {
        lemma_votes_same_tail(a, b, n, i + 1);
    }
}

/// One more vote for `artist`.
fn add_vote(votes: &mut Vec<VoteCount>, artist: &String) -> (r: Result<(), CompetitionError>)
    ensures
        votes_for(old(votes)@, artist@) == u64::MAX ==> r == Err::<(), CompetitionError>(
            CompetitionError::Overflow,
        ) && *final(votes) == *old(votes),
        votes_for(old(votes)@, artist@) < u64::MAX ==> r.is_ok(),
        r.is_ok() ==> votes_for(final(votes)@, artist@) == votes_for(old(votes)@, artist@) + 1,
        r.is_ok() ==> forall|n: Seq<char>|
            n != artist@ ==> votes_for(final(votes)@, n) == votes_for(old(votes)@, n),
{
    let ghost before = votes@;
    let mut at: usize = 0;
    while at < votes.len() && votes[at].artist != *artist
        invariant
            at <= votes.len(),
            votes@ == before,
            forall|k: int| 0 <= k < at ==> before[k].artist@ != artist@,
        decreases votes.len() - at,
    {
        at += 1;
    }
    let count: u64 = if at < votes.len() {
        votes[at].votes
    } else {
        0
    };
    if count == u64::MAX {
        proof {
            let fresh = before.update(at as int, before[at as int]);
            assert(fresh =~= before);
            lemma_votes_bumped(before, fresh, artist@, at as int, artist@, 0);
        }
        return Err(CompetitionError::Overflow);
    }
    let entry = VoteCount { artist: artist.clone(), votes: count + 1 };
    if at < votes.len() {
        votes.set(at, entry);
    } else {
        votes.push(entry);
    }
    proof {
        assert forall|n: Seq<char>| true implies (n == artist@ ==> votes_for(votes@, n)
            == votes_for(before, n) + 1) && (n != artist@ ==> votes_for(votes@, n) == votes_for(
            before,
            n,
        )) by {
            lemma_votes_bumped(before, votes@, artist@, at as int, n, 0);
        }
    }
    Ok(())
}

/// Whether `name` is among the submitted artists.
pub fn is_submitted(artists: &Vec<ArtistEntry>, name: &String) -> (found: bool)
    ensures
        found == submitted(artists@, name@),
{
    let mut i: usize = 0;
    while i < artists.len()
        invariant
            i <= artists.len(),
            forall|k: int| 0 <= k < i ==> artists[k].name@ != name@,
        decreases artists.len() - i,
    {
        if artists[i].name == *name {
            return true;
        }
        i += 1;
    }
    false
}

impl CompetitionContract {
    /// The artist that `voter` voted for, if any.
    pub fn has_voted(comp: &Competition, voter: &String) -> (choice: Option<String>)
        ensures
            choice == vote_from(comp.vote_log@, voter@, 0),
    {
        let mut i: usize = 0;
        while i < comp.vote_log.len()
            invariant
                i <= comp.vote_log.len(),
                vote_from(comp.vote_log@, voter@, 0) == vote_from(comp.vote_log@, voter@, i as int),
            decreases comp.vote_log.len() - i,
        {
            if comp.vote_log[i].voter == *voter {
                return Some(comp.vote_log[i].artist.clone());
            }
            i += 1;
        }
        None
    }

    /// Whether `voter` may vote at `now`. `decimals` is the token's
    /// precision and `raw_balance` the voter's balance in minor units.
    /// Refused with `Overflow` where ten to the power of `decimals` does not
    /// fit in 64 bits.
    pub fn check_voting_eligibility(
        comp: &Competition,
        voter: &String,
        now: u64,
        decimals: u32,
        raw_balance: u64,
    ) -> (r: Result<VotingEligibility, CompetitionError>)
        ensures
            r == (if pow10(decimals as nat) <= u64::MAX {
                Ok(eligibility(*comp, voter@, now, pow10(decimals as nat) as u64, raw_balance))
            } else {
                Err(CompetitionError::Overflow)
            }),
    {
        let multiplier = match ten_to(decimals) {
            Some(m) => m,
            None => {
                return Err(CompetitionError::Overflow);
            },
        };
        proof {
            lemma_pow10_grows(0, decimals as nat);
        }
        let voting_active = now >= comp.vote_start && now <= comp.vote_end;
        let current_balance = raw_balance / multiplier;
        let has_voted = Self::has_voted(comp, voter).is_some();
        Ok(
            VotingEligibility {
                can_vote: voting_active && current_balance >= comp.min_vote_tokens && !has_voted,
                has_voted,
                current_balance,
                min_required: comp.min_vote_tokens,
                voting_active,
            },
        )
    }

    /// Casts the vote of `from` for `artist` at `now`. `authorized` tells
    /// whether the caller has proved to be `from`. Eligibility is worked
    /// out anew from `decimals` and `raw_balance`. A refused vote changes
    /// nothing; an accepted one is entered in the log, counted for the
    /// artist and appended to the history.
    pub fn vote(
        comp: &mut Competition,
        history: &mut Vec<VoteHistory>,
        authorized: bool,
        from: &String,
        artist: &String,
        now: u64,
        decimals: u32,
        raw_balance: u64,
    ) -> (r: Result<(), CompetitionError>)
        ensures
            r == vote_result(*old(comp), authorized, from@, artist@, now, decimals, raw_balance),
            r.is_err() ==> *final(comp) == *old(comp) && final(history)@ == old(history)@,
            r.is_ok() ==> vote_recorded(*old(comp), *final(comp), from@, artist@),
            r.is_ok() ==> vote_logged(old(history)@, final(history)@, from@, artist@, now),
    {
        if !authorized {
            return Err(CompetitionError::Unauthorized);
        }
        let eligible = match Self::check_voting_eligibility(comp, from, now, decimals, raw_balance) {
            Ok(e) => e,
            Err(e) => {
                return Err(e);
            },
        };
        if !eligible.can_vote {
            return Err(CompetitionError::NotEligible);
        }
        if !is_submitted(&comp.artists, artist) {
            return Err(CompetitionError::UnknownArtist);
        }
        match add_vote(&mut comp.votes, artist) {
            Ok(()) => {},
            Err(e) => {
                return Err(e);
            },
        }
        comp.vote_log.push(VoteLogEntry { voter: from.clone(), artist: artist.clone() });
        history.push(VoteHistory { voter: from.clone(), artist: artist.clone(), timestamp: now });
        proof {
            assert(comp.vote_log@.drop_last() =~= old(comp).vote_log@);
            assert(history@.drop_last() =~= old(history)@);
        }
        Ok(())
    }
}

} // verus!
