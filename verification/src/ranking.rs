//! Counting votes per artist and ranking the artists: most votes first,
//! equal counts in the order of submission.

use vstd::prelude::*;
use crate::types::{ArtistEntry, ArtistRanking, Tally, VoteCount};

verus! {

/// The count of the first entry for `name` at or after index `i`; 0 if none.
pub open spec fn votes_from(votes: Seq<VoteCount>, name: Seq<char>, i: int) -> u64
    decreases votes.len() - i,
{
    if i < 0 || i >= votes.len() {
        0
    } else if votes[i].artist@ == name {
        votes[i].votes
    } else {
        votes_from(votes, name, i + 1)
    }
}

/// The votes counted for `name`: a name without an entry has none.
pub open spec fn votes_for(votes: Seq<VoteCount>, name: Seq<char>) -> u64 {
    votes_from(votes, name, 0)
}

/// The index of the first artist named `name` at or after `i`; the length
/// if there is none.
pub open spec fn first_named(artists: Seq<ArtistEntry>, name: Seq<char>, i: int) -> int
    decreases artists.len() - i,
{
    if i < 0 || i >= artists.len() || artists[i].name@ == name {
        i
    } else {
        first_named(artists, name, i + 1)
    }
}

/// One tally per submitted artist, in the order of submission. A name is
/// paid at the address of the first artist who has it.
pub open spec fn tallies(artists: Seq<ArtistEntry>, votes: Seq<VoteCount>) -> Seq<Tally> {
    Seq::new(
        artists.len(),
        |i: int|
            Tally {
                address: artists[first_named(artists, artists[i].name@, 0)].address,
                artist: artists[i].name,
                votes: votes_for(votes, artists[i].name@),
            },
    )
}

/// The first index at or after `i` whose entry has fewer than `v` votes;
/// the length if there is none.
pub open spec fn place_from(r: Seq<Tally>, v: u64, i: int) -> int
    decreases r.len() - i,
{
    if i < 0 || i >= r.len() || r[i].votes < v {
        i
    } else {
        place_from(r, v, i + 1)
    }
}

/// The ranking of `t`: each entry in turn goes behind every entry ranked
/// so far that has at least as many votes.
pub open spec fn ranked(t: Seq<Tally>) -> Seq<Tally>
    decreases t.len(),
{
    if t.len() == 0 {
        Seq::empty()
    } else {
        let r = ranked(t.drop_last());
        r.insert(place_from(r, t.last().votes, 0), t.last())
    }
}

/// Whether `r` runs from most votes to fewest.
pub open spec fn descending(r: Seq<Tally>) -> bool {
    forall|i: int, j: int| 0 <= i < j < r.len() ==> r[i].votes >= r[j].votes
}

/// The votes counted for `name`.
pub fn count_votes(votes: &Vec<VoteCount>, name: &String) -> (n: u64)
    ensures
        n == votes_for(votes@, name@),
{
    let mut i: usize = 0;
    while i < votes.len()
        invariant
            i <= votes.len(),
            votes_for(votes@, name@) == votes_from(votes@, name@, i as int),
        decreases votes.len() - i,
    {
        if votes[i].artist == *name {
            return votes[i].votes;
        }
        i += 1;
    }
    0
}

/// The index of the first artist with the name of artist `i`.
fn find_named(artists: &Vec<ArtistEntry>, i: usize) -> (at: usize)
    requires
        i < artists.len(),
    ensures
        at == first_named(artists@, artists[i as int].name@, 0),
        at <= i,
{
    let mut at: usize = 0;
    while at < i && artists[at].name != artists[i].name
        invariant
            at <= i < artists.len(),
            first_named(artists@, artists[i as int].name@, 0) == first_named(
                artists@,
                artists[i as int].name@,
                at as int,
            ),
        decreases i - at,
    {
        at += 1;
    }
    at
}

/// Where an entry with `v` votes goes in the ranking `r`.
fn find_place(r: &Vec<Tally>, v: u64) -> (p: usize)
    ensures
        p == place_from(r@, v, 0),
        p <= r.len(),
{
    let mut p: usize = 0;
    while p < r.len() && r[p].votes >= v
        invariant
            p <= r.len(),
            place_from(r@, v, 0) == place_from(r@, v, p as int),
        decreases r.len() - p,
    {
        p += 1;
    }
    p
}

/// The artists of a competition with their votes, ranked.
pub fn rank_artists(artists: &Vec<ArtistEntry>, votes: &Vec<VoteCount>) -> (out: Vec<Tally>)
    ensures
        out@ == ranked(tallies(artists@, votes@)),
        out.len() == artists.len(),
{
    let ghost all = tallies(artists@, votes@);
    let mut out: Vec<Tally> = Vec::new();
    let mut i: usize = 0;
    while i < artists.len()
        invariant
            i <= artists.len(),
            all == tallies(artists@, votes@),
            out@ == ranked(all.take(i as int)),
            out.len() == i,
        decreases artists.len() - i,
    {
        let n = count_votes(votes, &artists[i].name);
        let payee = find_named(artists, i);
        let t = Tally {
            address: artists[payee].address.clone(),
            artist: artists[i].name.clone(),
            votes: n,
        };
        let p = find_place(&out, n);
        proof {
            let next = all.take(i + 1);
            assert(next.drop_last() =~= all.take(i as int));
            assert(next.last() == all[i as int]);
            assert(t == all[i as int]);
        }
        out.insert(p, t);
        i += 1;
    }
    proof {
        assert(all.take(artists.len() as int) =~= all);
    }
    out
}

/// The lines of the ranking for `r`: ranks count from 1, and the first line
/// is the winner's only if it has a vote.
pub open spec fn is_ranking_of(lines: Seq<ArtistRanking>, r: Seq<Tally>) -> bool {
    &&& lines.len() == r.len()
    &&& forall|i: int|
        0 <= i < r.len() ==> {
            &&& (#[trigger] lines[i]).artist == r[i].artist
            &&& lines[i].votes == r[i].votes
            &&& lines[i].rank == i + 1
            &&& lines[i].is_winner == (i == 0 && r[i].votes > 0)
        }
}

/// The ranking of the artists, from the winner to the last place.
pub fn ranking_lines(artists: &Vec<ArtistEntry>, votes: &Vec<VoteCount>) -> (lines: Vec<
    ArtistRanking,
>)
    requires
        artists.len() < u32::MAX,
    ensures
        is_ranking_of(lines@, ranked(tallies(artists@, votes@))),
{
    let r = rank_artists(artists, votes);
    let mut lines: Vec<ArtistRanking> = Vec::new();
    let mut i: usize = 0;
    while i < r.len()
        invariant
            i <= r.len(),
            r.len() < u32::MAX,
            lines.len() == i,
            forall|k: int|
                0 <= k < i ==> {
                    &&& (#[trigger] lines[k]).artist == r[k].artist
                    &&& lines[k].votes == r[k].votes
                    &&& lines[k].rank == k + 1
                    &&& lines[k].is_winner == (k == 0 && r[k].votes > 0)
                },
        decreases r.len() - i,
    {
        let line = ArtistRanking {
            artist: r[i].artist.clone(),
            votes: r[i].votes,
            rank: (i + 1) as u32,
            is_winner: i == 0 && r[i].votes > 0,
        };
        lines.push(line);
        i += 1;
    }
    lines
}

/// The test that picks the entries with exactly `v` votes.
pub open spec fn has_votes(v: u64) -> spec_fn(Tally) -> bool {
    |e: Tally| e.votes == v
}

/// `place_from` stops behind the entries that have at least `v` votes and
/// in front of one that has fewer.
pub proof fn lemma_place_from(r: Seq<Tally>, v: u64, i: int)
    requires
        0 <= i <= r.len(),
    ensures
        i <= place_from(r, v, i) <= r.len(),
        forall|k: int| i <= k < place_from(r, v, i) ==> r[k].votes >= v,
        place_from(r, v, i) < r.len() ==> r[place_from(r, v, i)].votes < v,
    decreases r.len() - i,
{
    if i < r.len() && r[i].votes >= v {
        lemma_place_from(r, v, i + 1);
    }
}

/// Ranking neither drops nor adds an entry.
pub proof fn lemma_ranked_len(t: Seq<Tally>)
    ensures
        ranked(t).len() == t.len(),
    decreases t.len(),
{
    if t.len() > 0 {
        let r = ranked(t.drop_last());
        lemma_ranked_len(t.drop_last());
        lemma_place_from(r, t.last().votes, 0);
    }
}

/// The ranking is ordered by votes: an entry never stands behind one with
/// fewer votes.
pub proof fn lemma_ranked_descending(t: Seq<Tally>)
    ensures
        descending(ranked(t)),
    decreases t.len(),
{
    if t.len() > 0 {
        let r = ranked(t.drop_last());
        let x = t.last();
        let p = place_from(r, x.votes, 0);
        lemma_ranked_descending(t.drop_last());
        lemma_place_from(r, x.votes, 0);
        let out = r.insert(p, x);
        assert forall|i: int, j: int| 0 <= i < j < out.len() implies out[i].votes
            >= out[j].votes by {
            if j > p {
                assert(out[j] == r[j - 1]);
                assert(r[p].votes >= r[j - 1].votes || p == j - 1);
            }
            if i > p {
                assert(out[i] == r[i - 1]);
            }
        }
    }
}

/// The ranking holds the same entries as its input, each as often.
pub proof fn lemma_ranked_permutation(t: Seq<Tally>)
    ensures
        ranked(t).to_multiset() =~= t.to_multiset(),
    decreases t.len(),
{
    broadcast use vstd::seq_lib::group_to_multiset_ensures;

    if t.len() > 0 {
        let r = ranked(t.drop_last());
        let x = t.last();
        let p = place_from(r, x.votes, 0);
        lemma_ranked_permutation(t.drop_last());
        lemma_place_from(r, x.votes, 0);
        let out = r.insert(p, x);
        assert(out.remove(p) =~= r);
        assert(out[p] == x);
        assert(out.contains(x));
        assert(out.to_multiset() =~= r.to_multiset().insert(x));
        assert(t =~= t.drop_last().push(x));
    }
}

/// The first of the ranking has the most votes: no entry has more.
pub proof fn lemma_first_has_most(t: Seq<Tally>, i: int)
    requires
        0 <= i < t.len(),
    ensures
        ranked(t).len() > 0,
        ranked(t)[0].votes >= t[i].votes,
{
    broadcast use vstd::seq_lib::group_to_multiset_ensures;

    lemma_ranked_len(t);
    lemma_ranked_descending(t);
    lemma_ranked_permutation(t);
    let r = ranked(t);
    assert(t.contains(t[i]));
    assert(t.to_multiset().count(t[i]) > 0);
    assert(r.to_multiset().count(t[i]) > 0);
    assert(r.contains(t[i]));
    let j = choose|j: int| 0 <= j < r.len() && r[j] == t[i];
    assert(r[0].votes >= r[j].votes);
}

/// No entry of `s` passes the test `has_votes(v)`, so the filter leaves nothing.
proof fn lemma_filter_none(s: Seq<Tally>, v: u64)
    requires
        forall|k: int| 0 <= k < s.len() ==> s[k].votes != v,
    ensures
        s.filter(has_votes(v)) =~= Seq::<Tally>::empty(),
    decreases s.len(),
{
    reveal_with_fuel(Seq::filter, 2);
    if s.len() > 0 {
        lemma_filter_none(s.drop_last(), v);
    }
}

/// Ties keep the order of submission: among the entries with `v` votes the
/// ranking has the order of its input.
pub proof fn lemma_ranked_stable(t: Seq<Tally>, v: u64)
    ensures
        ranked(t).filter(has_votes(v)) =~= t.filter(has_votes(v)),
    decreases t.len(),
{
    reveal_with_fuel(Seq::filter, 2);
    if t.len() > 0 {
        let r = ranked(t.drop_last());
        let x = t.last();
        let p = place_from(r, x.votes, 0);
        let f = has_votes(v);
        lemma_ranked_stable(t.drop_last(), v);
        lemma_ranked_descending(t.drop_last());
        lemma_place_from(r, x.votes, 0);
        let head = r.take(p);
        let tail = r.skip(p);
        assert(r =~= head + tail);
        assert(r.insert(p, x) =~= head.push(x) + tail);
        Seq::filter_distributes_over_add(head, tail, f);
        Seq::filter_distributes_over_add(head.push(x), tail, f);
        assert(head.push(x).drop_last() =~= head);
        if x.votes == v {
            assert forall|k: int| 0 <= k < tail.len() implies tail[k].votes != v by {
                assert(tail[k] == r[p + k]);
                assert(r[p].votes >= r[p + k].votes || k == 0);
            }
            lemma_filter_none(tail, v);
            assert(r.filter(f) =~= head.filter(f));
            assert(head.push(x).filter(f) =~= head.filter(f).push(x));
        } else {
            assert(head.push(x).filter(f) =~= head.filter(f));
        }
    }
}

} // verus!
