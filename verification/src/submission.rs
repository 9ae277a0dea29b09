//! Submitting artworks, taking an artist out of a competition, deleting a
//! competition, and a competition's phase at a given time.

use vstd::prelude::*;
use crate::contract::CompetitionContract;
use crate::payout::{credit_at, finalized_at};
use crate::types::{
    Admins, ArtistArtworks, ArtistEntry, ArtworkMetadata, Competition, CompetitionError,
    CompetitionStatus, VoteCount, VoteHistory, VoteLogEntry,
};
use crate::voting::{is_submitted, submitted};

verus! {

/// The seconds after the end of voting during which a competition is still
/// listed as active.
pub const LISTING_GRACE: u64 = 86400;

/// The test that lets every string but `id` through.
pub open spec fn other_id(id: Seq<char>) -> spec_fn(String) -> bool {
    |s: String| s@ != id
}

/// The test that lets every artist but `name` through.
pub open spec fn other_artist(name: Seq<char>) -> spec_fn(ArtistEntry) -> bool {
    |e: ArtistEntry| e.name@ != name
}

/// The test that lets every artist's artworks but those of `name` through.
pub open spec fn other_artworks(name: Seq<char>) -> spec_fn(ArtistArtworks) -> bool {
    |e: ArtistArtworks| e.artist@ != name
}

/// The test that lets every count but that of `name` through.
pub open spec fn other_count(name: Seq<char>) -> spec_fn(VoteCount) -> bool {
    |e: VoteCount| e.artist@ != name
}

/// The test that lets every vote but those for `name` through.
pub open spec fn other_record(name: Seq<char>) -> spec_fn(VoteHistory) -> bool {
    |e: VoteHistory| e.artist@ != name
}

/// Whether the history holds a vote of `voter` for `name`.
pub open spec fn voted_for(history: Seq<VoteHistory>, name: Seq<char>, voter: Seq<char>) -> bool {
    exists|i: int|
        0 <= i < history.len() && (#[trigger] history[i]).artist@ == name && history[i].voter@
            == voter
}

/// The test that lets through the log entries of those who did not vote
/// for `name`.
pub open spec fn other_voter(history: Seq<VoteHistory>, name: Seq<char>) -> spec_fn(
    VoteLogEntry,
) -> bool {
    |e: VoteLogEntry| !voted_for(history, name, e.voter@)
}

/// The address of the last entry named `name`.
pub open spec fn last_named(artists: Seq<ArtistEntry>, name: Seq<char>) -> Option<String>
    decreases artists.len(),
{
    if artists.len() == 0 {
        None
    } else if artists.last().name@ == name {
        Some(artists.last().address)
    } else {
        last_named(artists.drop_last(), name)
    }
}

/// Whether `from` submitted under `name`.
pub open spec fn submitted_by(artists: Seq<ArtistEntry>, name: Seq<char>, from: Seq<char>) -> bool {
    exists|i: int|
        0 <= i < artists.len() && (#[trigger] artists[i]).name@ == name && artists[i].address@
            == from
}

/// The index of the first entry for `name` at or after `i`; the length if
/// there is none.
pub open spec fn artworks_index(meta: Seq<ArtistArtworks>, name: Seq<char>, i: int) -> int
    decreases meta.len() - i,
{
    if i < 0 || i >= meta.len() || meta[i].artist@ == name {
        i
    } else {
        artworks_index(meta, name, i + 1)
    }
}

/// The artworks kept for `name`; none where the name has no entry.
pub open spec fn artworks_of(meta: Seq<ArtistArtworks>, name: Seq<char>) -> Seq<ArtworkMetadata> {
    let at = artworks_index(meta, name, 0);
    if 0 <= at < meta.len() {
        meta[at].artworks@
    } else {
        Seq::empty()
    }
}

/// Whether one of the artworks has this name, this description or this
/// image.
pub open spec fn clashes(
    artworks: Seq<ArtworkMetadata>,
    artwork_name: Seq<char>,
    description: Seq<char>,
    img_url: Seq<char>,
) -> bool {
    exists|i: int|
        0 <= i < artworks.len() && ((#[trigger] artworks[i]).artwork_name@ == artwork_name
            || artworks[i].description@ == description || artworks[i].img_url@ == img_url)
}

/// How a submission is answered before anything is written.
pub open spec fn submit_result(
    c: Competition,
    artist_name: Seq<char>,
    artwork_name: Seq<char>,
    description: Seq<char>,
    img_url: Seq<char>,
    now: u64,
) -> Result<(), CompetitionError> {
    if now < c.artist_add_start || now > c.artist_add_end {
        Err(CompetitionError::StateViolation)
    } else if submitted(c.artists@, artist_name) {
        Err(CompetitionError::AlreadyExists)
    } else if clashes(artworks_of(c.artist_metadata@, artist_name), artwork_name, description, img_url) {
        Err(CompetitionError::AlreadyExists)
    } else {
        Ok(())
    }
}

/// The artworks kept per artist after `added` went to the entry at `at`,
/// which is the first entry for `name` or a new one at the end.
pub open spec fn artworks_added(
    before: Seq<ArtistArtworks>,
    after: Seq<ArtistArtworks>,
    name: Seq<char>,
    artworks: Seq<ArtworkMetadata>,
) -> bool {
    let at = artworks_index(before, name, 0);
    &&& 0 <= at <= before.len()
    &&& after.len() == (if at < before.len() {
        before.len()
    } else {
        before.len() + 1
    })
    &&& forall|k: int| 0 <= k < before.len() && k != at ==> after[k] == before[k]
    &&& after[at].artist@ == name
    &&& after[at].artworks@ == artworks
}

/// The search for the artworks of a name ends within the list.
proof fn lemma_artworks_index(meta: Seq<ArtistArtworks>, name: Seq<char>, i: int)
    requires
        0 <= i <= meta.len(),
    ensures
        i <= artworks_index(meta, name, i) <= meta.len(),
    decreases meta.len() - i,
{
    if i < meta.len() && meta[i].artist@ != name {
        lemma_artworks_index(meta, name, i + 1);
    }
}

/// Where the search ends within the list, the entry has the name.
proof fn lemma_artworks_found(meta: Seq<ArtistArtworks>, name: Seq<char>, i: int)
    requires
        0 <= i <= meta.len(),
    ensures
        artworks_index(meta, name, i) < meta.len() ==> meta[artworks_index(meta, name, i)].artist@
            == name,
    decreases meta.len() - i,
{
    if i < meta.len() && meta[i].artist@ != name {
        lemma_artworks_found(meta, name, i + 1);
    }
}

/// Where the artworks of `name` are kept.
fn find_artworks(meta: &Vec<ArtistArtworks>, name: &String) -> (at: usize)
    ensures
        at == artworks_index(meta@, name@, 0),
        at <= meta.len(),
{
    let mut at: usize = 0;
    while at < meta.len() && meta[at].artist != *name
        invariant
            at <= meta.len(),
            artworks_index(meta@, name@, 0) == artworks_index(meta@, name@, at as int),
        decreases meta.len() - at,
    {
        at += 1;
    }
    at
}

/// Whether one of the artworks has this name, this description or this
/// image.
fn has_clash(
    artworks: &Vec<ArtworkMetadata>,
    artwork_name: &String,
    description: &String,
    img_url: &String,
) -> (found: bool)
    ensures
        found == clashes(artworks@, artwork_name@, description@, img_url@),
{
    let mut i: usize = 0;
    while i < artworks.len()
        invariant
            i <= artworks.len(),
            forall|k: int|
                0 <= k < i ==> !(artworks[k].artwork_name@ == artwork_name@
                    || artworks[k].description@ == description@ || artworks[k].img_url@
                    == img_url@),
        decreases artworks.len() - i,
    {
        if artworks[i].artwork_name == *artwork_name || artworks[i].description == *description
            || artworks[i].img_url == *img_url {
            return true;
        }
        i += 1;
    }
    false
}

/// Whether the history holds a vote of `voter` for `name`.
fn has_voted_for(history: &Vec<VoteHistory>, name: &String, voter: &String) -> (found: bool)
    ensures
        found == voted_for(history@, name@, voter@),
{
    let mut i: usize = 0;
    while i < history.len()
        invariant
            i <= history.len(),
            forall|k: int|
                0 <= k < i ==> !(history[k].artist@ == name@ && history[k].voter@ == voter@),
        decreases history.len() - i,
    {
        if history[i].artist == *name && history[i].voter == *voter {
            return true;
        }
        i += 1;
    }
    false
}

/// Whether `from` submitted under `name`.
fn is_submitted_by(artists: &Vec<ArtistEntry>, name: &String, from: &String) -> (found: bool)
    ensures
        found == submitted_by(artists@, name@, from@),
{
    let mut i: usize = 0;
    while i < artists.len()
        invariant
            i <= artists.len(),
            forall|k: int|
                0 <= k < i ==> !(artists[k].name@ == name@ && artists[k].address@ == from@),
        decreases artists.len() - i,
    {
        if artists[i].name == *name && artists[i].address == *from {
            return true;
        }
        i += 1;
    }
    false
}

/// While filtering in place, the next entry to look at is the same in the
/// list as it is now and in the list as it was.
proof fn lemma_filter_head<T>(all: Seq<T>, now: Seq<T>, i: int, j: int)
    requires
        0 <= i <= now.len(),
        0 <= j < all.len(),
        now.skip(i) == all.skip(j),
    ensures
        i < now.len(),
        now[i] == all[j],
{
    assert(all.skip(j).len() == all.len() - j);
    assert(now.skip(i).len() == now.len() - i);
    assert(now[i] == now.skip(i)[0]);
    assert(all[j] == all.skip(j)[0]);
}

/// One step of filtering in place: with `j` entries of `all` looked at and
/// `i` of them kept, the next entry is kept or dropped.
proof fn lemma_filter_step<T>(
    all: Seq<T>,
    now: Seq<T>,
    next: Seq<T>,
    f: spec_fn(T) -> bool,
    i: int,
    j: int,
)
    requires
        0 <= i <= j < all.len(),
        i < now.len(),
        now.take(i) == all.take(j).filter(f),
        now.skip(i) == all.skip(j),
        f(all[j]) ==> next == now,
        !f(all[j]) ==> next == now.remove(i),
    ensures
        f(all[j]) ==> next.take(i + 1) == all.take(j + 1).filter(f) && next.skip(i + 1)
            == all.skip(j + 1),
        !f(all[j]) ==> next.take(i) == all.take(j + 1).filter(f) && next.skip(i) == all.skip(
            j + 1,
        ),
{
    reveal_with_fuel(Seq::filter, 2);
    lemma_filter_head(all, now, i, j);
    assert(all.take(j + 1).drop_last() =~= all.take(j));
    assert(all.take(j + 1).last() == all[j]);
    assert(all.skip(j).len() == all.len() - j);
    assert(now.skip(i).len() == now.len() - i);
    let rest = all.skip(j + 1);
    assert(rest.len() == all.len() - j - 1);
    assert forall|k: int| 0 <= k < rest.len() implies now[i + 1 + k] == #[trigger] rest[k] by {
        assert(now.skip(i)[k + 1] == now[i + (k + 1)]);
        assert(all.skip(j)[k + 1] == all[j + (k + 1)]);
        assert(rest[k] == all[j + 1 + k]);
    }
    if f(all[j]) {
        assert(next.take(i + 1) =~= now.take(i).push(all[j]));
        assert(next.skip(i + 1) =~= rest);
    } else {
        assert(next.take(i) =~= now.take(i));
        assert(next.skip(i) =~= rest);
    }
}

/// Before anything has been looked at, nothing is kept.
proof fn lemma_filter_start<T>(all: Seq<T>, f: spec_fn(T) -> bool)
    ensures
        all.take(0) == all.take(0).filter(f),
        all.skip(0) == all,
{
    reveal_with_fuel(Seq::filter, 1);
    assert(all.take(0).filter(f) =~= all.take(0));
    assert(all.skip(0) =~= all);
}

/// The filtering is done when every entry has been looked at.
proof fn lemma_filter_done<T>(all: Seq<T>, now: Seq<T>, f: spec_fn(T) -> bool, i: int, j: int)
    requires
        0 <= i <= now.len(),
        i + all.len() - j == now.len(),
        j == all.len(),
        now.take(i) == all.take(j).filter(f),
        now.skip(i) == all.skip(j),
    ensures
        now == all.filter(f),
{
    assert(all.take(j) =~= all);
    assert(now.take(i) =~= now);
}

/// Takes `id` out of the index.
fn drop_id(ids: &mut Vec<String>, id: &String)
    ensures
        final(ids)@ == old(ids)@.filter(other_id(id@)),
{
    let ghost all = ids@;
    let ghost f = other_id(id@);
    let ghost mut j: int = 0;
    let mut i: usize = 0;
    proof {
        lemma_filter_start(all, f);
    }
    while i < ids.len()
        invariant
            0 <= i <= j <= all.len(),
            i <= ids.len(),
            ids.len() - i == all.len() - j,
            f == other_id(id@),
            ids@.take(i as int) == all.take(j).filter(f),
            ids@.skip(i as int) == all.skip(j),
        decreases ids.len() - i,
    {
        let ghost now = ids@;
        proof {
            lemma_filter_head(all, now, i as int, j);
        }
        if ids[i] == *id {
            ids.remove(i);
            proof {
                lemma_filter_step(all, now, ids@, f, i as int, j);
            }
        } else {
            proof {
                lemma_filter_step(all, now, ids@, f, i as int, j);
            }
            i += 1;
        }
        proof {
            j = j + 1;
        }
    }
    proof {
        lemma_filter_done(all, ids@, f, i as int, j);
    }
}

/// Takes the artworks of `name` out.
fn drop_artworks(list: &mut Vec<ArtistArtworks>, name: &String)
    ensures
        final(list)@ == old(list)@.filter(other_artworks(name@)),
{
    let ghost all = list@;
    let ghost f = other_artworks(name@);
    let ghost mut j: int = 0;
    let mut i: usize = 0;
    proof {
        lemma_filter_start(all, f);
    }
    while i < list.len()
        invariant
            0 <= i <= j <= all.len(),
            i <= list.len(),
            list.len() - i == all.len() - j,
            f == other_artworks(name@),
            list@.take(i as int) == all.take(j).filter(f),
            list@.skip(i as int) == all.skip(j),
        decreases list.len() - i,
    {
        let ghost now = list@;
        proof {
            lemma_filter_head(all, now, i as int, j);
        }
        if list[i].artist == *name {
            list.remove(i);
            proof {
                lemma_filter_step(all, now, list@, f, i as int, j);
            }
        } else {
            proof {
                lemma_filter_step(all, now, list@, f, i as int, j);
            }
            i += 1;
        }
        proof {
            j = j + 1;
        }
    }
    proof {
        lemma_filter_done(all, list@, f, i as int, j);
    }
}

/// Takes the count of `name` out.
fn drop_count(list: &mut Vec<VoteCount>, name: &String)
    ensures
        final(list)@ == old(list)@.filter(other_count(name@)),
{
    let ghost all = list@;
    let ghost f = other_count(name@);
    let ghost mut j: int = 0;
    let mut i: usize = 0;
    proof {
        lemma_filter_start(all, f);
    }
    while i < list.len()
        invariant
            0 <= i <= j <= all.len(),
            i <= list.len(),
            list.len() - i == all.len() - j,
            f == other_count(name@),
            list@.take(i as int) == all.take(j).filter(f),
            list@.skip(i as int) == all.skip(j),
        decreases list.len() - i,
    {
        let ghost now = list@;
        proof {
            lemma_filter_head(all, now, i as int, j);
        }
        if list[i].artist == *name {
            list.remove(i);
            proof {
                lemma_filter_step(all, now, list@, f, i as int, j);
            }
        } else {
            proof {
                lemma_filter_step(all, now, list@, f, i as int, j);
            }
            i += 1;
        }
        proof {
            j = j + 1;
        }
    }
    proof {
        lemma_filter_done(all, list@, f, i as int, j);
    }
}

/// Takes the votes for `name` out of the history.
fn drop_records(list: &mut Vec<VoteHistory>, name: &String)
    ensures
        final(list)@ == old(list)@.filter(other_record(name@)),
{
    let ghost all = list@;
    let ghost f = other_record(name@);
    let ghost mut j: int = 0;
    let mut i: usize = 0;
    proof {
        lemma_filter_start(all, f);
    }
    while i < list.len()
        invariant
            0 <= i <= j <= all.len(),
            i <= list.len(),
            list.len() - i == all.len() - j,
            f == other_record(name@),
            list@.take(i as int) == all.take(j).filter(f),
            list@.skip(i as int) == all.skip(j),
        decreases list.len() - i,
    {
        let ghost now = list@;
        proof {
            lemma_filter_head(all, now, i as int, j);
        }
        if list[i].artist == *name {
            list.remove(i);
            proof {
                lemma_filter_step(all, now, list@, f, i as int, j);
            }
        } else {
            proof {
                lemma_filter_step(all, now, list@, f, i as int, j);
            }
            i += 1;
        }
        proof {
            j = j + 1;
        }
    }
    proof {
        lemma_filter_done(all, list@, f, i as int, j);
    }
}

/// Takes out of the log the entries of those who voted for `name`.
fn drop_voters(list: &mut Vec<VoteLogEntry>, history: &Vec<VoteHistory>, name: &String)
    ensures
        final(list)@ == old(list)@.filter(other_voter(history@, name@)),
{
    let ghost all = list@;
    let ghost f = other_voter(history@, name@);
    let ghost mut j: int = 0;
    let mut i: usize = 0;
    proof {
        lemma_filter_start(all, f);
    }
    while i < list.len()
        invariant
            0 <= i <= j <= all.len(),
            i <= list.len(),
            list.len() - i == all.len() - j,
            f == other_voter(history@, name@),
            list@.take(i as int) == all.take(j).filter(f),
            list@.skip(i as int) == all.skip(j),
        decreases list.len() - i,
    {
        let ghost now = list@;
        proof {
            lemma_filter_head(all, now, i as int, j);
        }
        if has_voted_for(history, name, &list[i].voter) {
            list.remove(i);
            proof {
                lemma_filter_step(all, now, list@, f, i as int, j);
            }
        } else {
            proof {
                lemma_filter_step(all, now, list@, f, i as int, j);
            }
            i += 1;
        }
        proof {
            j = j + 1;
        }
    }
    proof {
        lemma_filter_done(all, list@, f, i as int, j);
    }
}

/// Takes the entries named `name` out and returns the address of the last
/// of them.
fn drop_artist(list: &mut Vec<ArtistEntry>, name: &String) -> (address: Option<String>)
    ensures
        final(list)@ == old(list)@.filter(other_artist(name@)),
        address == last_named(old(list)@, name@),
{
    let ghost all = list@;
    let ghost f = other_artist(name@);
    let ghost mut j: int = 0;
    let mut i: usize = 0;
    let mut address: Option<String> = None;
    proof {
        lemma_filter_start(all, f);
    }
    while i < list.len()
        invariant
            0 <= i <= j <= all.len(),
            i <= list.len(),
            list.len() - i == all.len() - j,
            f == other_artist(name@),
            list@.take(i as int) == all.take(j).filter(f),
            list@.skip(i as int) == all.skip(j),
            address == last_named(all.take(j), name@),
        decreases list.len() - i,
    {
        let ghost now = list@;
        proof {
            lemma_filter_head(all, now, i as int, j);
            assert(all.take(j + 1).drop_last() =~= all.take(j));
            assert(all.take(j + 1).last() == all[j]);
        }
        if list[i].name == *name {
            let gone = list.remove(i);
            address = Some(gone.address);
            proof {
                lemma_filter_step(all, now, list@, f, i as int, j);
            }
        } else {
            proof {
                lemma_filter_step(all, now, list@, f, i as int, j);
            }
            i += 1;
        }
        proof {
            j = j + 1;
        }
    }
    proof {
        lemma_filter_done(all, list@, f, i as int, j);
        assert(all.take(j) =~= all);
    }
    address
}

/// An entry named `name` has an address to return.
proof fn lemma_last_named(artists: Seq<ArtistEntry>, name: Seq<char>)
    ensures
        last_named(artists, name).is_some() == submitted(artists, name),
    decreases artists.len(),
{
    if artists.len() > 0 {
        lemma_last_named(artists.drop_last(), name);
        if artists.last().name@ != name {
            if submitted(artists, name) {
                let i = choose|i: int| 0 <= i < artists.len() && (#[trigger] artists[i]).name@ == name;
                assert(artists.drop_last()[i].name@ == name);
            }
            if submitted(artists.drop_last(), name) {
                let i = choose|i: int|
                    0 <= i < artists.drop_last().len() && (#[trigger] artists.drop_last()[i]).name@
                        == name;
                assert(artists[i].name@ == name);
            }
        } else {
            assert(artists[artists.len() - 1].name@ == name);
        }
    }
}

/// The artworks of one artist, each with the artist's name.
pub open spec fn named_artworks(entry: ArtistArtworks, n: int) -> Seq<(String, ArtworkMetadata)> {
    Seq::new(n as nat, |k: int| (entry.artist, entry.artworks@[k]))
}

/// The artworks of the first `n` artists, each with its artist's name.
pub open spec fn listing(meta: Seq<ArtistArtworks>, n: int) -> Seq<(String, ArtworkMetadata)>
    decreases n,
{
    if n <= 0 {
        Seq::empty()
    } else {
        listing(meta, n - 1) + named_artworks(meta[n - 1], meta[n - 1].artworks@.len() as int)
    }
}

/// The competition's phase at `now`: the status with the winner fixed if
/// that was due, the address whose profile has won by this read, and
/// whether the competition is listed as active.
pub open spec fn status_at(c: Competition, now: u64) -> (CompetitionStatus, Option<String>, bool) {
    let is_submission_active = c.artist_add_start <= now <= c.artist_add_end;
    let is_voting_active = c.vote_start <= now <= c.vote_end;
    (
        CompetitionStatus {
            id: c.id,
            competition: finalized_at(c, now),
            is_submission_active,
            is_voting_active,
            is_finalized: c.finalized || now > c.vote_end,
        },
        credit_at(c, now),
        is_submission_active || is_voting_active || now <= c.vote_end + LISTING_GRACE,
    )
}

impl CompetitionContract {
    /// The pot, in whole units.
    pub fn get_pot(comp: &Competition) -> (pot: u64)
        ensures
            pot == comp.pot,
    {
        comp.pot
    }

    /// The balance, in whole units, that a voter needs.
    pub fn get_min_vote_tokens(comp: &Competition) -> (min: u64)
        ensures
            min == comp.min_vote_tokens,
    {
        comp.min_vote_tokens
    }

    /// Every submitted artwork with the name of its artist.
    pub fn get_comp_artists(comp: &Competition) -> (out: Vec<(String, ArtworkMetadata)>)
        ensures
            out@ == listing(comp.artist_metadata@, comp.artist_metadata@.len() as int),
    {
        let mut out: Vec<(String, ArtworkMetadata)> = Vec::new();
        let mut i: usize = 0;
        while i < comp.artist_metadata.len()
            invariant
                i <= comp.artist_metadata.len(),
                out@ == listing(comp.artist_metadata@, i as int),
            decreases comp.artist_metadata.len() - i,
        {
            let entry = &comp.artist_metadata[i];
            let ghost before = out@;
            let mut k: usize = 0;
            while k < entry.artworks.len()
                invariant
                    k <= entry.artworks.len(),
                    out@ =~= before + named_artworks(*entry, k as int),
                decreases entry.artworks.len() - k,
            {
                let art = &entry.artworks[k];
                out.push(
                    (
                        entry.artist.clone(),
                        ArtworkMetadata {
                            artwork_name: art.artwork_name.clone(),
                            description: art.description.clone(),
                            img_url: art.img_url.clone(),
                        },
                    ),
                );
                k += 1;
            }
            i += 1;
        }
        out
    }

    /// Deletes a competition: its id leaves the index, and the pot, in
    /// whole units, is returned for the refund to the caller. Only an
    /// administrator may.
    pub fn delete_competition(
        admins: &Admins,
        from: &String,
        comp: &Competition,
        ids: &mut Vec<String>,
    ) -> (r: Result<u64, CompetitionError>)
        ensures
            !admins.admits(from@) ==> r == Err::<u64, CompetitionError>(
                CompetitionError::Unauthorized,
            ) && *final(ids) == *old(ids),
            admins.admits(from@) ==> r == Ok::<u64, CompetitionError>(comp.pot) && final(ids)@
                == old(ids)@.filter(other_id(comp.id@)),
    {
        if !admins.is_admin(from) {
            return Err(CompetitionError::Unauthorized);
        }
        drop_id(ids, &comp.id);
        Ok(comp.pot)
    }

    /// Takes an artist out of a competition, with the artworks, the count
    /// and the votes cast for the name; those who voted for it may vote
    /// again. Returns the address of the artist. Only an administrator may,
    /// and the name must be among the submissions.
    pub fn remove_artist(
        admins: &Admins,
        from: &String,
        comp: &mut Competition,
        history: &mut Vec<VoteHistory>,
        artist_name: &String,
    ) -> (r: Result<String, CompetitionError>)
        ensures
            !admins.admits(from@) ==> r == Err::<String, CompetitionError>(
                CompetitionError::Unauthorized,
            ),
            admins.admits(from@) && !submitted(old(comp).artists@, artist_name@) ==> r == Err::<
                String,
                CompetitionError,
            >(CompetitionError::NotFound),
            admins.admits(from@) && submitted(old(comp).artists@, artist_name@) ==> r.is_ok(),
            r.is_err() ==> *final(comp) == *old(comp) && *final(history) == *old(history),
            r matches Ok(address) ==> {
                &&& Some(address) == last_named(old(comp).artists@, artist_name@)
                &&& final(comp).artists@ == old(comp).artists@.filter(other_artist(artist_name@))
                &&& final(comp).artist_metadata@ == old(comp).artist_metadata@.filter(
                    other_artworks(artist_name@),
                )
                &&& final(comp).votes@ == old(comp).votes@.filter(other_count(artist_name@))
                &&& final(comp).vote_log@ == old(comp).vote_log@.filter(
                    other_voter(old(history)@, artist_name@),
                )
                &&& final(history)@ == old(history)@.filter(other_record(artist_name@))
                &&& *final(comp) == (Competition {
                    artists: final(comp).artists,
                    artist_metadata: final(comp).artist_metadata,
                    votes: final(comp).votes,
                    vote_log: final(comp).vote_log,
                    ..*old(comp)
                })
            },
    {
        if !admins.is_admin(from) {
            return Err(CompetitionError::Unauthorized);
        }
        if !is_submitted(&comp.artists, artist_name) {
            return Err(CompetitionError::NotFound);
        }
        proof {
            lemma_last_named(comp.artists@, artist_name@);
        }
        let address = drop_artist(&mut comp.artists, artist_name);
        drop_artworks(&mut comp.artist_metadata, artist_name);
        drop_count(&mut comp.votes, artist_name);
        drop_voters(&mut comp.vote_log, history, artist_name);
        drop_records(history, artist_name);
        match address {
            Some(a) => Ok(a),
            None => Err(CompetitionError::NotFound),
        }
    }

    /// The competition's phase at `now`. The winner is fixed first if that
    /// is due. Returns the status, the address whose profile has won by
    /// this, and whether the competition is listed as active: it is while
    /// submissions or votes are open and for a day after the end of voting.
    pub fn competition_status(comp: Competition, now: u64) -> (r: (
        CompetitionStatus,
        Option<String>,
        bool,
    ))
        ensures
            r == status_at(comp, now),
    {
        let mut competition = comp;
        let credit = Self::internal_finalize(&mut competition, now);
        let is_submission_active = now >= competition.artist_add_start && now
            <= competition.artist_add_end;
        let is_voting_active = now >= competition.vote_start && now <= competition.vote_end;
        let is_finalized = competition.finalized;
        let recent = now <= competition.vote_end || now - competition.vote_end <= LISTING_GRACE;
        let status = CompetitionStatus {
            id: competition.id.clone(),
            competition,
            is_submission_active,
            is_voting_active,
            is_finalized,
        };
        (status, credit, is_submission_active || is_voting_active || recent)
    }

    /// The phase at `now` of each of the competitions, in their order: for
    /// each the status, the address whose profile has won by this read, and
    /// whether the competition is listed as active.
    pub fn get_active_competitions(comps: Vec<Competition>, now: u64) -> (out: Vec<
        (CompetitionStatus, Option<String>, bool),
    >)
        ensures
            out@.len() == comps@.len(),
            forall|i: int| 0 <= i < comps@.len() ==> out@[i] == status_at(comps@[i], now),
    {
        let mut rest = comps;
        let mut out: Vec<(CompetitionStatus, Option<String>, bool)> = Vec::new();
        while rest.len() > 0
            invariant
                out@.len() + rest@.len() == comps@.len(),
                forall|i: int| 0 <= i < out@.len() ==> out@[i] == status_at(comps@[i], now),
                forall|i: int| 0 <= i < rest@.len() ==> rest@[i] == comps@[out@.len() + i],
            decreases rest.len(),
        {
            let comp = rest.remove(0);
            out.push(Self::competition_status(comp, now));
        }
        out
    }

    /// Submits an artwork under a new artist name at `now`. Refused with
    /// `StateViolation` outside the submission window, and with
    /// `AlreadyExists` where the name is taken or where an artwork kept for
    /// the name has the same name, description or image.
    pub fn submit_art(
        comp: &mut Competition,
        artist_address: String,
        artist_name: String,
        artwork_name: String,
        description: String,
        img_url: String,
        now: u64,
    ) -> (r: Result<(), CompetitionError>)
        ensures
            r == submit_result(
                *old(comp),
                artist_name@,
                artwork_name@,
                description@,
                img_url@,
                now,
            ),
            r.is_err() ==> *final(comp) == *old(comp),
            r.is_ok() ==> {
                &&& final(comp).artists@ == old(comp).artists@.push(
                    ArtistEntry { address: artist_address, name: artist_name },
                )
                &&& artworks_added(
                    old(comp).artist_metadata@,
                    final(comp).artist_metadata@,
                    artist_name@,
                    artworks_of(old(comp).artist_metadata@, artist_name@).push(
                        ArtworkMetadata { artwork_name, description, img_url },
                    ),
                )
                &&& *final(comp) == (Competition {
                    artists: final(comp).artists,
                    artist_metadata: final(comp).artist_metadata,
                    ..*old(comp)
                })
            },
    {
        if now < comp.artist_add_start || now > comp.artist_add_end {
            return Err(CompetitionError::StateViolation);
        }
        if is_submitted(&comp.artists, &artist_name) {
            return Err(CompetitionError::AlreadyExists);
        }
        let at = find_artworks(&comp.artist_metadata, &artist_name);
        if at < comp.artist_metadata.len() && has_clash(
            &comp.artist_metadata[at].artworks,
            &artwork_name,
            &description,
            &img_url,
        ) {
            return Err(CompetitionError::AlreadyExists);
        }
        let ghost before = comp.artist_metadata@;
        let ghost kept = artworks_of(before, artist_name@);
        let mut entry = if at < comp.artist_metadata.len() {
            comp.artist_metadata.remove(at)
        } else {
            ArtistArtworks { artist: artist_name.clone(), artworks: Vec::new() }
        };
        assert(entry.artworks@ =~= kept);
        assert(entry.artist@ == artist_name@) by {
            lemma_artworks_index(before, artist_name@, 0);
            lemma_artworks_found(before, artist_name@, 0);
        }
        entry.artworks.push(ArtworkMetadata { artwork_name, description, img_url });
        comp.artist_metadata.insert(at, entry);
        comp.artists.push(ArtistEntry { address: artist_address, name: artist_name });
        proof {
            let after = comp.artist_metadata@;
            assert(forall|k: int| 0 <= k < before.len() && k != at ==> after[k] == before[k]);
        }
        Ok(())
    }

    /// Changes the name or the description of the first artwork kept for
    /// `artist_name`. Refused with `Unauthorized` unless `from` submitted
    /// under that name, and with `NotFound` where no artworks are kept for
    /// it.
    pub fn update_submission_metadata(
        comp: &mut Competition,
        artist_name: &String,
        from: &String,
        artwork_name: Option<String>,
        description: Option<String>,
    ) -> (r: Result<(), CompetitionError>)
        ensures
            !submitted_by(old(comp).artists@, artist_name@, from@) ==> r == Err::<
                (),
                CompetitionError,
            >(CompetitionError::Unauthorized),
            submitted_by(old(comp).artists@, artist_name@, from@) && artworks_index(
                old(comp).artist_metadata@,
                artist_name@,
                0,
            ) >= old(comp).artist_metadata@.len() ==> r == Err::<(), CompetitionError>(
                CompetitionError::NotFound,
            ),
            submitted_by(old(comp).artists@, artist_name@, from@) && artworks_index(
                old(comp).artist_metadata@,
                artist_name@,
                0,
            ) < old(comp).artist_metadata@.len() ==> r.is_ok(),
            r.is_err() ==> *final(comp) == *old(comp),
            r.is_ok() ==> {
                let before = artworks_of(old(comp).artist_metadata@, artist_name@);
                let after = artworks_of(final(comp).artist_metadata@, artist_name@);
                &&& after.len() == before.len()
                &&& forall|k: int| 1 <= k < before.len() ==> after[k] == before[k]
                &&& before.len() > 0 ==> after[0].img_url == before[0].img_url && after[0].artwork_name
                    == (match artwork_name {
                    Some(n) => n,
                    None => before[0].artwork_name,
                }) && after[0].description == (match description {
                    Some(d) => d,
                    None => before[0].description,
                })
                &&& final(comp).artist_metadata@.len() == old(comp).artist_metadata@.len()
                &&& forall|k: int|
                    0 <= k < old(comp).artist_metadata@.len() && k != artworks_index(
                        old(comp).artist_metadata@,
                        artist_name@,
                        0,
                    ) ==> final(comp).artist_metadata@[k] == old(comp).artist_metadata@[k]
                &&& *final(comp) == (Competition {
                    artist_metadata: final(comp).artist_metadata,
                    ..*old(comp)
                })
            },
    {
        if !is_submitted_by(&comp.artists, artist_name, from) {
            return Err(CompetitionError::Unauthorized);
        }
        let at = find_artworks(&comp.artist_metadata, artist_name);
        if at >= comp.artist_metadata.len() {
            return Err(CompetitionError::NotFound);
        }
        let ghost old_meta = comp.artist_metadata@;
        let mut entry = comp.artist_metadata.remove(at);
        if entry.artworks.len() > 0 {
            let mut first = entry.artworks.remove(0);
            if let Some(n) = artwork_name {
                first.artwork_name = n;
            }
            if let Some(d) = description {
                first.description = d;
            }
            entry.artworks.insert(0, first);
        }
        comp.artist_metadata.insert(at, entry);
        proof {
            let new_meta = comp.artist_metadata@;
            assert(new_meta.len() == old_meta.len());
            assert(forall|k: int| 0 <= k < old_meta.len() && k != at ==> new_meta[k] == old_meta[k]);
            assert(new_meta[at as int].artist == old_meta[at as int].artist);
            lemma_artworks_index_same(old_meta, new_meta, artist_name@, at as int, 0);
        }
        Ok(())
    }
}

/// An entry changed in place, with its name kept, is found where it was.
proof fn lemma_artworks_index_same(
    a: Seq<ArtistArtworks>,
    b: Seq<ArtistArtworks>,
    name: Seq<char>,
    at: int,
    i: int,
)
    requires
        0 <= i <= at < a.len(),
        a.len() == b.len(),
        at == artworks_index(a, name, i),
        forall|k: int| 0 <= k < a.len() && k != at ==> b[k] == a[k],
        b[at].artist == a[at].artist,
    ensures
        artworks_index(b, name, i) == at,
    decreases a.len() - i,
{
    if i < at {
        if a[i].artist@ == name {
        } else {
            lemma_artworks_index_same(a, b, name, at, i + 1);
        }
    } else {
        lemma_artworks_index(a, name, i + 1);
    }
}

} // verus!
