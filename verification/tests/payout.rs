use bf_competition::contract::CompetitionContract;
use bf_competition::prize::{leftover_payments, paid_amount, primary_payments};
use bf_competition::ranking::{count_votes, rank_artists, ranking_lines};
use bf_competition::types::{
    ArtistEntry, Competition, CompetitionError, Payment, Tally, VoteCount,
};

fn competition(entries: &[(&str, u64)], share_ratio: Vec<u32>, pot: u64) -> Competition {
    let mut comp = Competition {
        id: "c1".to_string(),
        id_description: String::new(),
        token: "CTOKEN".to_string(),
        artist_add_start: 100,
        artist_add_end: 200,
        vote_start: 300,
        vote_end: 400,
        min_vote_tokens: 1,
        artists: Vec::new(),
        votes: Vec::new(),
        vote_log: Vec::new(),
        finalized: false,
        winner: None,
        pot,
        artist_metadata: Vec::new(),
        share_ratio,
    };
    for (name, votes) in entries {
        comp.artists.push(ArtistEntry { address: format!("G{}", name), name: name.to_string() });
        if *votes > 0 {
            comp.votes.push(VoteCount { artist: name.to_string(), votes: *votes });
        }
    }
    comp
}

fn closed(entries: &[(&str, u64)], share_ratio: Vec<u32>, pot: u64) -> Competition {
    let mut comp = competition(entries, share_ratio, pot);
    assert!(CompetitionContract::pay_winners(&mut comp, 401).is_ok());
    assert!(comp.finalized);
    comp
}

fn brief(ps: &[Payment]) -> Vec<(String, String, u64)> {
    ps.iter().map(|p| (p.recipient.clone(), p.artist.clone(), p.amount)).collect()
}

fn pay(to: &str, amount: u64) -> (String, String, u64) {
    (format!("G{}", to), to.to_string(), amount)
}

fn order(ts: &[Tally]) -> Vec<(String, u64)> {
    ts.iter().map(|t| (t.artist.clone(), t.votes)).collect()
}

#[test]
fn missing_tally_counts_as_zero() {
    let votes = vec![
        VoteCount { artist: "A".to_string(), votes: 4 },
        VoteCount { artist: "A".to_string(), votes: 9 },
    ];
    assert_eq!(count_votes(&votes, &"A".to_string()), 4);
    assert_eq!(count_votes(&votes, &"B".to_string()), 0);
}

#[test]
fn ranking_is_descending_and_stable() {
    let comp = competition(&[("A", 1), ("B", 3), ("C", 0), ("D", 3), ("E", 1), ("F", 7)], vec![], 0);
    let r = rank_artists(&comp.artists, &comp.votes);
    assert_eq!(
        order(&r),
        vec![
            ("F".to_string(), 7),
            ("B".to_string(), 3),
            ("D".to_string(), 3),
            ("A".to_string(), 1),
            ("E".to_string(), 1),
            ("C".to_string(), 0),
        ]
    );
    assert_eq!(r[0].address, "GF");
}

#[test]
fn ranking_lines_number_from_one() {
    let comp = competition(&[("A", 2), ("B", 5), ("C", 2)], vec![50, 30, 20], 0);
    let lines = CompetitionContract::get_winner(&comp);
    let got: Vec<(String, u64, u32, bool)> =
        lines.iter().map(|l| (l.artist.clone(), l.votes, l.rank, l.is_winner)).collect();
    assert_eq!(
        got,
        vec![
            ("B".to_string(), 5, 1, true),
            ("A".to_string(), 2, 2, false),
            ("C".to_string(), 2, 3, false),
        ]
    );
}

#[test]
fn ranking_without_votes_has_no_winner() {
    let comp = competition(&[("A", 0), ("B", 0)], vec![50, 30, 20], 0);
    let lines = ranking_lines(&comp.artists, &comp.votes);
    assert_eq!(lines.len(), 2);
    assert_eq!((lines[0].artist.as_str(), lines[0].rank, lines[0].is_winner), ("A", 1, false));
    assert_eq!((lines[1].artist.as_str(), lines[1].rank, lines[1].is_winner), ("B", 2, false));
    let none = competition(&[], vec![50, 30, 20], 0);
    assert!(CompetitionContract::get_winner(&none).is_empty());
}

#[test]
fn tie_for_first_shares_two_places() {
    let mut comp = competition(&[("A", 3), ("B", 3), ("C", 1)], vec![50, 30, 20], 100);
    let start = CompetitionContract::pay_winners(&mut comp, 401).unwrap();
    assert!(start.due);
    assert_eq!(start.credit, Some("GA".to_string()));
    assert_eq!(comp.winner, Some("A".to_string()));
    assert!(comp.finalized);
    let first = CompetitionContract::first_round(&comp);
    assert_eq!(brief(&first), vec![pay("A", 40), pay("B", 40), pay("C", 20)]);
    let ok = vec![true, true, true];
    assert_eq!(paid_amount(&first, &ok), 100);
    let second = CompetitionContract::second_round(&comp, &ok);
    assert!(second.is_empty());
    let report = CompetitionContract::close_distribution(&mut comp, &ok, &vec![]);
    assert_eq!(
        (report.pot, report.total_paid, report.leftover_paid, report.unpaid),
        (100, 100, 0, 0)
    );
    assert_eq!(comp.pot, 0);
}

#[test]
fn no_votes_leaves_the_pot() {
    let mut comp = competition(&[("A", 0), ("B", 0)], vec![50, 30, 20], 50);
    let start = CompetitionContract::pay_winners(&mut comp, 401).unwrap();
    assert!(!start.due);
    assert_eq!(start.credit, None);
    assert_eq!(comp.winner, None);
    assert!(comp.finalized);
    assert_eq!(comp.pot, 50);
    assert!(!comp.is_distribution_due());
    assert!(CompetitionContract::first_round(&comp).is_empty());
    assert!(CompetitionContract::second_round(&comp, &vec![]).is_empty());
    let report = CompetitionContract::close_distribution(&mut comp, &vec![], &vec![]);
    assert_eq!(
        (report.pot, report.total_paid, report.leftover_paid, report.unpaid),
        (50, 0, 0, 50)
    );
    assert_eq!(comp.pot, 50);
}

#[test]
fn nothing_is_planned_before_a_winner_is_fixed() {
    let mut comp = competition(&[("A", 3), ("B", 1)], vec![50, 30, 20], 100);
    assert!(!comp.is_distribution_due());
    assert!(CompetitionContract::first_round(&comp).is_empty());
    assert!(CompetitionContract::second_round(&comp, &vec![]).is_empty());
    let report = CompetitionContract::close_distribution(&mut comp, &vec![], &vec![]);
    assert_eq!(report.unpaid, 100);
    assert_eq!(comp.pot, 100);
    let empty = closed(&[("A", 3)], vec![50, 30, 20], 0);
    assert!(!empty.is_distribution_due());
    assert!(CompetitionContract::first_round(&empty).is_empty());
}

#[test]
fn no_artists_finalizes_without_winner() {
    let mut comp = competition(&[], vec![50, 30, 20], 50);
    let credit = CompetitionContract::internal_finalize(&mut comp, 500);
    assert_eq!(credit, None);
    assert!(comp.finalized);
    assert_eq!(comp.winner, None);
    assert_eq!(comp.pot, 50);
}

#[test]
fn payout_before_vote_end_is_refused() {
    let mut comp = competition(&[("A", 3)], vec![50, 30, 20], 100);
    let r = CompetitionContract::pay_winners(&mut comp, 400);
    assert_eq!(r.err(), Some(CompetitionError::StateViolation));
    assert!(!comp.finalized);
    assert_eq!(comp.winner, None);
    assert_eq!(CompetitionContract::internal_finalize(&mut comp, 400), None);
    assert!(!comp.finalized);
}

#[test]
fn finalization_fires_once() {
    let mut comp = competition(&[("A", 1), ("B", 2)], vec![50, 30, 20], 10);
    assert_eq!(CompetitionContract::internal_finalize(&mut comp, 401), Some("GB".to_string()));
    assert!(comp.finalized);
    assert_eq!(comp.winner, Some("B".to_string()));
    comp.votes.push(VoteCount { artist: "C".to_string(), votes: 9 });
    comp.artists.push(ArtistEntry { address: "GC".to_string(), name: "C".to_string() });
    assert_eq!(CompetitionContract::internal_finalize(&mut comp, 402), None);
    assert!(comp.finalized);
    assert_eq!(comp.winner, Some("B".to_string()));
    let again = CompetitionContract::pay_winners(&mut comp, 999).unwrap();
    assert_eq!(again.credit, None);
    assert!(again.due);
    assert_eq!(comp.winner, Some("B".to_string()));
}

#[test]
fn leftover_goes_out_by_share() {
    let comp = closed(&[("B", 1), ("A", 2)], vec![50, 30, 20], 100);
    let first = CompetitionContract::first_round(&comp);
    assert_eq!(brief(&first), vec![pay("A", 50), pay("B", 30)]);
    let second = CompetitionContract::second_round(&comp, &vec![true, true]);
    assert_eq!(brief(&second), vec![pay("A", 12), pay("B", 7)]);
}

#[test]
fn failed_transfer_joins_the_leftover() {
    let mut comp = closed(&[("A", 3), ("B", 3), ("C", 1)], vec![50, 30, 20], 100);
    let first = CompetitionContract::first_round(&comp);
    let ok = vec![true, false, true];
    assert_eq!(paid_amount(&first, &ok), 60);
    let second = CompetitionContract::second_round(&comp, &ok);
    assert_eq!(brief(&second), vec![pay("A", 20), pay("B", 12), pay("C", 8)]);
    let report = CompetitionContract::close_distribution(&mut comp, &ok, &vec![false, true]);
    assert_eq!(
        (report.pot, report.total_paid, report.leftover_paid, report.unpaid),
        (100, 60, 12, 28)
    );
    assert_eq!(comp.pot, 0);
    assert!(report.total_paid + report.leftover_paid <= report.pot);
}

#[test]
fn pot_is_emptied_when_every_transfer_fails() {
    let mut comp = closed(&[("A", 3), ("B", 2)], vec![50, 30, 20], 77);
    let report = CompetitionContract::close_distribution(&mut comp, &vec![], &vec![]);
    assert_eq!(
        (report.pot, report.total_paid, report.leftover_paid, report.unpaid),
        (77, 0, 0, 77)
    );
    assert_eq!(comp.pot, 0);
    assert!(CompetitionContract::first_round(&comp).is_empty());
}

#[test]
fn tie_group_beyond_the_schedule() {
    let comp = closed(&[("A", 1), ("B", 1), ("C", 1), ("D", 1)], vec![50, 30, 20], 100);
    let first = CompetitionContract::first_round(&comp);
    assert_eq!(brief(&first), vec![pay("A", 25), pay("B", 25), pay("C", 25), pay("D", 25)]);
    let second = CompetitionContract::second_round(&comp, &vec![true, true, true, true]);
    assert!(second.is_empty());
}

#[test]
fn schedule_ends_the_round() {
    let comp = closed(&[("A", 5), ("B", 4), ("C", 3), ("D", 2)], vec![50, 30, 20], 200);
    let first = CompetitionContract::first_round(&comp);
    assert_eq!(brief(&first), vec![pay("A", 100), pay("B", 60), pay("C", 40)]);
}

#[test]
fn zero_share_ends_the_round() {
    let comp = closed(&[("A", 5), ("B", 4), ("C", 3)], vec![60, 0, 40], 100);
    let first = CompetitionContract::first_round(&comp);
    assert_eq!(brief(&first), vec![pay("A", 60)]);
    let second = CompetitionContract::second_round(&comp, &vec![true]);
    assert_eq!(brief(&second), vec![pay("A", 24), pay("C", 16)]);
}

#[test]
fn artists_without_votes_get_nothing() {
    let comp = closed(&[("A", 0), ("B", 2), ("C", 0)], vec![50, 30, 20], 100);
    let first = CompetitionContract::first_round(&comp);
    assert_eq!(brief(&first), vec![pay("B", 50)]);
    let second = CompetitionContract::second_round(&comp, &vec![true]);
    assert_eq!(brief(&second), vec![pay("B", 50)]);
}

#[test]
fn amounts_round_down() {
    let comp = closed(&[("A", 2), ("B", 2), ("C", 2)], vec![50, 30, 20], 10);
    let first = CompetitionContract::first_round(&comp);
    assert_eq!(brief(&first), vec![pay("A", 3), pay("B", 3), pay("C", 3)]);
    let small = closed(&[("A", 2)], vec![50, 30, 20], 1);
    assert!(CompetitionContract::first_round(&small).is_empty());
    assert_eq!(brief(&CompetitionContract::second_round(&small, &vec![])), vec![pay("A", 1)]);
}

#[test]
fn full_pot_does_not_overflow() {
    let comp = closed(&[("A", 2)], vec![100], u64::MAX);
    let first = CompetitionContract::first_round(&comp);
    assert_eq!(brief(&first), vec![pay("A", u64::MAX)]);
    assert_eq!(paid_amount(&first, &vec![true]), u64::MAX);
    assert!(CompetitionContract::second_round(&comp, &vec![true]).is_empty());
    assert_eq!(
        brief(&CompetitionContract::second_round(&comp, &vec![false])),
        vec![pay("A", u64::MAX)]
    );
}

#[test]
fn rounds_on_a_ranking() {
    let ranking = vec![
        Tally { address: "GA".to_string(), artist: "A".to_string(), votes: 9 },
        Tally { address: "GB".to_string(), artist: "B".to_string(), votes: 0 },
    ];
    let sched = vec![70, 30];
    assert_eq!(brief(&primary_payments(&ranking, &sched, 1000)), vec![pay("A", 700)]);
    assert_eq!(brief(&leftover_payments(&ranking, &sched, 300)), vec![pay("A", 300)]);
    assert!(leftover_payments(&ranking, &sched, 0).is_empty());
    assert!(primary_payments(&ranking, &vec![], 1000).is_empty());
    assert!(leftover_payments(&ranking, &vec![], 1000).is_empty());
}

#[test]
fn validity_checks_the_schedule() {
    assert!(competition(&[], vec![50, 30, 20], 0).is_valid());
    assert!(competition(&[], vec![], 0).is_valid());
    assert!(!competition(&[], vec![50, 30, 21], 0).is_valid());
    assert!(!competition(&[], vec![u32::MAX, u32::MAX], 0).is_valid());
    let mut comp = competition(&[], vec![100], 0);
    assert!(comp.is_valid());
    comp.vote_start = comp.artist_add_end;
    assert!(!comp.is_valid());
}

#[test]
fn a_name_is_paid_at_its_first_address() {
    let mut comp = competition(&[("A", 2), ("B", 1)], vec![50, 30, 20], 100);
    comp.artists.push(ArtistEntry { address: "GOTHER".to_string(), name: "A".to_string() });
    let r = rank_artists(&comp.artists, &comp.votes);
    let got: Vec<(&str, &str, u64)> =
        r.iter().map(|t| (t.address.as_str(), t.artist.as_str(), t.votes)).collect();
    assert_eq!(got, vec![("GA", "A", 2), ("GA", "A", 2), ("GB", "B", 1)]);
    assert_eq!(CompetitionContract::internal_finalize(&mut comp, 401), Some("GA".to_string()));
}
