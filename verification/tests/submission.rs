use bf_competition::contract::CompetitionContract;
use bf_competition::types::{
    Admins, ArtistArtworks, ArtistEntry, ArtworkMetadata, Competition, CompetitionError,
    VoteCount, VoteHistory, VoteLogEntry,
};

fn s(text: &str) -> String {
    text.to_string()
}

fn admins() -> Admins {
    Admins { admin1: s("GADMIN1"), admin2: s("GADMIN2") }
}

fn empty_competition() -> Competition {
    Competition {
        id: s("c1"),
        id_description: s("show"),
        token: s("CTOKEN"),
        artist_add_start: 100,
        artist_add_end: 200,
        vote_start: 300,
        vote_end: 400,
        min_vote_tokens: 1,
        artists: Vec::new(),
        votes: Vec::new(),
        vote_log: Vec::new(),
        finalized: false,
        winner: None,
        pot: 0,
        artist_metadata: Vec::new(),
        share_ratio: vec![50, 30, 20],
    }
}

fn submit(comp: &mut Competition, who: &str, name: &str, art: &str, now: u64) -> Result<(), CompetitionError> {
    CompetitionContract::submit_art(
        comp,
        s(who),
        s(name),
        s(art),
        format!("about {}", art),
        format!("https://img/{}", art),
        now,
    )
}

#[test]
fn submission_is_kept() {
    let mut comp = empty_competition();
    assert_eq!(submit(&mut comp, "GA", "A", "dawn", 100), Ok(()));
    assert_eq!(submit(&mut comp, "GB", "B", "dusk", 200), Ok(()));
    assert_eq!(comp.artists.len(), 2);
    assert_eq!((comp.artists[0].address.as_str(), comp.artists[0].name.as_str()), ("GA", "A"));
    assert_eq!((comp.artists[1].address.as_str(), comp.artists[1].name.as_str()), ("GB", "B"));
    assert_eq!(comp.artist_metadata.len(), 2);
    assert_eq!(comp.artist_metadata[1].artist, "B");
    assert_eq!(comp.artist_metadata[1].artworks.len(), 1);
    let art = &comp.artist_metadata[1].artworks[0];
    assert_eq!(
        (art.artwork_name.as_str(), art.description.as_str(), art.img_url.as_str()),
        ("dusk", "about dusk", "https://img/dusk")
    );
    let listing = CompetitionContract::get_comp_artists(&comp);
    let got: Vec<(String, String)> =
        listing.iter().map(|(n, a)| (n.clone(), a.artwork_name.clone())).collect();
    assert_eq!(got, vec![(s("A"), s("dawn")), (s("B"), s("dusk"))]);
}

#[test]
fn submission_outside_window_is_refused() {
    let mut comp = empty_competition();
    assert_eq!(submit(&mut comp, "GA", "A", "dawn", 99), Err(CompetitionError::StateViolation));
    assert_eq!(submit(&mut comp, "GA", "A", "dawn", 201), Err(CompetitionError::StateViolation));
    assert!(comp.artists.is_empty() && comp.artist_metadata.is_empty());
}

#[test]
fn artist_name_is_taken_once() {
    let mut comp = empty_competition();
    assert_eq!(submit(&mut comp, "GA", "A", "dawn", 150), Ok(()));
    assert_eq!(submit(&mut comp, "GB", "A", "dusk", 150), Err(CompetitionError::AlreadyExists));
    assert_eq!(comp.artists.len(), 1);
    assert_eq!(comp.artist_metadata[0].artworks.len(), 1);
}

#[test]
fn kept_artwork_must_not_repeat() {
    let mut comp = empty_competition();
    comp.artist_metadata.push(ArtistArtworks {
        artist: s("A"),
        artworks: vec![ArtworkMetadata {
            artwork_name: s("dawn"),
            description: s("about dawn"),
            img_url: s("https://img/dawn"),
        }],
    });
    let r = CompetitionContract::submit_art(&mut comp, s("GA"), s("A"), s("dawn"), s("x"), s("y"), 150);
    assert_eq!(r, Err(CompetitionError::AlreadyExists));
    let r = CompetitionContract::submit_art(
        &mut comp,
        s("GA"),
        s("A"),
        s("noon"),
        s("about dawn"),
        s("y"),
        150,
    );
    assert_eq!(r, Err(CompetitionError::AlreadyExists));
    let r = CompetitionContract::submit_art(
        &mut comp,
        s("GA"),
        s("A"),
        s("noon"),
        s("x"),
        s("https://img/dawn"),
        150,
    );
    assert_eq!(r, Err(CompetitionError::AlreadyExists));
    assert!(comp.artists.is_empty());
    let r = CompetitionContract::submit_art(&mut comp, s("GA"), s("A"), s("noon"), s("x"), s("y"), 150);
    assert_eq!(r, Ok(()));
    assert_eq!(comp.artist_metadata.len(), 1);
    assert_eq!(comp.artist_metadata[0].artworks.len(), 2);
    assert_eq!(comp.artist_metadata[0].artworks[1].artwork_name, "noon");
    assert_eq!(comp.artists.len(), 1);
}

#[test]
fn submitter_updates_first_artwork() {
    let mut comp = empty_competition();
    assert_eq!(submit(&mut comp, "GA", "A", "dawn", 150), Ok(()));
    let r = CompetitionContract::update_submission_metadata(
        &mut comp,
        &s("A"),
        &s("GB"),
        Some(s("noon")),
        None,
    );
    assert_eq!(r, Err(CompetitionError::Unauthorized));
    assert_eq!(comp.artist_metadata[0].artworks[0].artwork_name, "dawn");
    let r = CompetitionContract::update_submission_metadata(
        &mut comp,
        &s("A"),
        &s("GA"),
        Some(s("noon")),
        None,
    );
    assert_eq!(r, Ok(()));
    let art = &comp.artist_metadata[0].artworks[0];
    assert_eq!(
        (art.artwork_name.as_str(), art.description.as_str(), art.img_url.as_str()),
        ("noon", "about dawn", "https://img/dawn")
    );
    let r = CompetitionContract::update_submission_metadata(
        &mut comp,
        &s("A"),
        &s("GA"),
        None,
        Some(s("new words")),
    );
    assert_eq!(r, Ok(()));
    let art = &comp.artist_metadata[0].artworks[0];
    assert_eq!((art.artwork_name.as_str(), art.description.as_str()), ("noon", "new words"));
    comp.artist_metadata.clear();
    let r = CompetitionContract::update_submission_metadata(&mut comp, &s("A"), &s("GA"), None, None);
    assert_eq!(r, Err(CompetitionError::NotFound));
}

fn voted_competition() -> (Competition, Vec<VoteHistory>) {
    let mut comp = empty_competition();
    for (who, name, art) in [("GA", "A", "dawn"), ("GB", "B", "dusk"), ("GC", "C", "noon")] {
        assert_eq!(submit(&mut comp, who, name, art, 150), Ok(()));
    }
    let mut history = Vec::new();
    for (voter, artist, now) in [("V1", "A", 301), ("V2", "B", 302), ("V3", "B", 303), ("V4", "C", 304)] {
        let r = CompetitionContract::vote(&mut comp, &mut history, true, &s(voter), &s(artist), now, 0, 5);
        assert_eq!(r, Ok(()));
    }
    (comp, history)
}

#[test]
fn removed_artist_leaves_no_trace() {
    let (mut comp, mut history) = voted_competition();
    let r = CompetitionContract::remove_artist(&admins(), &s("GADMIN2"), &mut comp, &mut history, &s("B"));
    assert_eq!(r, Ok(s("GB")));
    let names: Vec<&str> = comp.artists.iter().map(|a| a.name.as_str()).collect();
    assert_eq!(names, vec!["A", "C"]);
    let kept: Vec<&str> = comp.artist_metadata.iter().map(|a| a.artist.as_str()).collect();
    assert_eq!(kept, vec!["A", "C"]);
    let counts: Vec<(&str, u64)> = comp.votes.iter().map(|v| (v.artist.as_str(), v.votes)).collect();
    assert_eq!(counts, vec![("A", 1), ("C", 1)]);
    let log: Vec<(&str, &str)> =
        comp.vote_log.iter().map(|e| (e.voter.as_str(), e.artist.as_str())).collect();
    assert_eq!(log, vec![("V1", "A"), ("V4", "C")]);
    let records: Vec<(&str, &str, u64)> =
        history.iter().map(|h| (h.voter.as_str(), h.artist.as_str(), h.timestamp)).collect();
    assert_eq!(records, vec![("V1", "A", 301), ("V4", "C", 304)]);
    assert_eq!(CompetitionContract::has_voted(&comp, &s("V2")), None);
    let r = CompetitionContract::vote(&mut comp, &mut history, true, &s("V2"), &s("A"), 310, 0, 5);
    assert_eq!(r, Ok(()));
    assert_eq!(comp.votes[0].votes, 2);
}

#[test]
fn remove_artist_needs_admin_and_name() {
    let (mut comp, mut history) = voted_competition();
    let r = CompetitionContract::remove_artist(&admins(), &s("GA"), &mut comp, &mut history, &s("B"));
    assert_eq!(r, Err(CompetitionError::Unauthorized));
    let r = CompetitionContract::remove_artist(&admins(), &s("GADMIN1"), &mut comp, &mut history, &s("Z"));
    assert_eq!(r, Err(CompetitionError::NotFound));
    assert_eq!(comp.artists.len(), 3);
    assert_eq!(comp.vote_log.len(), 4);
    assert_eq!(history.len(), 4);
}

#[test]
fn remove_artist_returns_last_address_of_the_name() {
    let mut comp = empty_competition();
    comp.artists.push(ArtistEntry { address: s("G1"), name: s("A") });
    comp.artists.push(ArtistEntry { address: s("G2"), name: s("B") });
    comp.artists.push(ArtistEntry { address: s("G3"), name: s("A") });
    comp.votes.push(VoteCount { artist: s("A"), votes: 2 });
    comp.vote_log.push(VoteLogEntry { voter: s("V1"), artist: s("A") });
    let mut history = Vec::new();
    let r = CompetitionContract::remove_artist(&admins(), &s("GADMIN1"), &mut comp, &mut history, &s("A"));
    assert_eq!(r, Ok(s("G3")));
    assert_eq!(comp.artists.len(), 1);
    assert_eq!(comp.artists[0].name, "B");
    assert!(comp.votes.is_empty());
    assert_eq!(comp.vote_log.len(), 1);
}

#[test]
fn deleted_competition_leaves_the_index() {
    let mut comp = empty_competition();
    comp.pot = 30;
    let mut ids = vec![s("c0"), s("c1"), s("c2"), s("c1")];
    let r = CompetitionContract::delete_competition(&admins(), &s("GX"), &comp, &mut ids);
    assert_eq!(r, Err(CompetitionError::Unauthorized));
    assert_eq!(ids.len(), 4);
    let r = CompetitionContract::delete_competition(&admins(), &s("GADMIN1"), &comp, &mut ids);
    assert_eq!(r, Ok(30));
    assert_eq!(ids, vec![s("c0"), s("c2")]);
}

#[test]
fn status_follows_the_clock() {
    let status = |now: u64| {
        let mut comp = empty_competition();
        comp.artists.push(ArtistEntry { address: s("GA"), name: s("A") });
        comp.votes.push(VoteCount { artist: s("A"), votes: 1 });
        CompetitionContract::competition_status(comp, now)
    };
    let (st, credit, listed) = status(99);
    assert!(!st.is_submission_active && !st.is_voting_active && !st.is_finalized);
    assert_eq!(st.id, "c1");
    assert_eq!(credit, None);
    assert!(listed);
    let (st, _, listed) = status(150);
    assert!(st.is_submission_active && !st.is_voting_active && !st.is_finalized && listed);
    let (st, _, listed) = status(400);
    assert!(!st.is_submission_active && st.is_voting_active && !st.is_finalized && listed);
    assert!(!st.competition.finalized);
    let (st, credit, listed) = status(401);
    assert!(!st.is_voting_active && st.is_finalized && listed);
    assert!(st.competition.finalized);
    assert_eq!(st.competition.winner, Some(s("A")));
    assert_eq!(credit, Some(s("GA")));
    let (_, _, listed) = status(400 + 86400);
    assert!(listed);
    let (st, _, listed) = status(400 + 86401);
    assert!(!listed);
    assert!(st.competition.finalized);
}

#[test]
fn getters_read_the_competition() {
    let mut comp = empty_competition();
    comp.pot = 12;
    comp.min_vote_tokens = 7;
    assert_eq!(CompetitionContract::get_pot(&comp), 12);
    assert_eq!(CompetitionContract::get_min_vote_tokens(&comp), 7);
}

#[test]
fn active_read_covers_every_competition() {
    let mut early = empty_competition();
    early.id = s("early");
    early.artists.push(ArtistEntry { address: s("GA"), name: s("A") });
    early.votes.push(VoteCount { artist: s("A"), votes: 2 });
    let mut late = empty_competition();
    late.id = s("late");
    late.artist_add_start = 100_000;
    late.artist_add_end = 200_000;
    late.vote_start = 300_000;
    late.vote_end = 400_000;
    let mut old = empty_competition();
    old.id = s("old");
    old.artist_add_start = 1;
    old.artist_add_end = 2;
    old.vote_start = 3;
    old.vote_end = 4;
    let read = CompetitionContract::get_active_competitions(vec![early, late, old], 100_000);
    assert_eq!(read.len(), 3);
    let (st, credit, listed) = &read[0];
    assert_eq!(st.id, "early");
    assert!(st.is_finalized && st.competition.finalized && !st.is_voting_active);
    assert_eq!(st.competition.winner, Some(s("A")));
    assert_eq!(*credit, Some(s("GA")));
    assert!(!*listed);
    let (st, credit, listed) = &read[1];
    assert_eq!(st.id, "late");
    assert!(st.is_submission_active && !st.is_finalized && !st.competition.finalized);
    assert_eq!(*credit, None);
    assert!(*listed);
    let (st, credit, listed) = &read[2];
    assert_eq!(st.id, "old");
    assert!(st.is_finalized && st.competition.finalized);
    assert_eq!(st.competition.winner, None);
    assert_eq!(*credit, None);
    assert!(!*listed);
    assert!(CompetitionContract::get_active_competitions(vec![], 5).is_empty());
}
