use bf_competition::contract::CompetitionContract;
use bf_competition::types::{
    Admins, ArtistInfo, ArtistProfile, CompetitionError, Medium, Network,
};

fn s(text: &str) -> String {
    text.to_string()
}

fn admins() -> Admins {
    Admins { admin1: s("GADMIN1"), admin2: s("GADMIN2") }
}

fn add(dir: &mut Vec<ArtistProfile>, from: &str, name: &str) -> Result<(), CompetitionError> {
    CompetitionContract::add_artist_info(
        dir,
        s(from),
        s(name),
        s("bio"),
        s("img"),
        s("site"),
        vec![Medium { name: s("oil"), description: s("on canvas") }],
        vec![Network { name: s("stellar"), chain_id: s("1") }],
    )
}

#[test]
fn profile_is_registered_once_per_name() {
    let mut dir = Vec::new();
    assert!(!CompetitionContract::has_registered(&dir, &s("GA")));
    assert_eq!(add(&mut dir, "GA", "Ann"), Ok(()));
    assert!(CompetitionContract::has_registered(&dir, &s("GA")));
    assert_eq!(dir.len(), 1);
    let info = &dir[0].info;
    assert!(info.registered);
    assert_eq!((info.name.as_str(), info.bio.as_str()), ("Ann", "bio"));
    assert_eq!((info.img_url.as_str(), info.website.as_str()), ("img", "site"));
    assert_eq!((info.competitions_participated, info.competitions_won), (0, 0));
    assert_eq!(info.mediums[0].name, "oil");
    assert_eq!(info.blockchains[0].chain_id, "1");
    assert_eq!(add(&mut dir, "GB", "Ann"), Err(CompetitionError::AlreadyExists));
    assert_eq!(add(&mut dir, "GA", "Ann"), Err(CompetitionError::AlreadyExists));
    assert_eq!(dir.len(), 1);
    assert_eq!(add(&mut dir, "GB", "Bob"), Ok(()));
    assert_eq!(add(&mut dir, "GA", "Anna"), Ok(()));
    assert_eq!(dir.len(), 2);
    assert_eq!((dir[0].address.as_str(), dir[0].info.name.as_str()), ("GA", "Anna"));
}

#[test]
fn owner_edits_the_profile() {
    let mut dir = Vec::new();
    assert_eq!(add(&mut dir, "GA", "Ann"), Ok(()));
    assert_eq!(add(&mut dir, "GB", "Bob"), Ok(()));
    dir[0].info.competitions_won = 3;
    let r = CompetitionContract::update_artist_info(
        &mut dir,
        &s("GC"),
        None,
        None,
        None,
        None,
        None,
        None,
    );
    assert_eq!(r, Err(CompetitionError::NotFound));
    let r = CompetitionContract::update_artist_info(
        &mut dir,
        &s("GA"),
        Some(s("Bob")),
        Some(s("new bio")),
        None,
        None,
        None,
        None,
    );
    assert_eq!(r, Err(CompetitionError::AlreadyExists));
    assert_eq!(dir[0].info.bio, "bio");
    let r = CompetitionContract::update_artist_info(
        &mut dir,
        &s("GA"),
        Some(s("Ann")),
        Some(s("new bio")),
        None,
        Some(s("new site")),
        Some(vec![]),
        None,
    );
    assert_eq!(r, Ok(()));
    let info = &dir[0].info;
    assert_eq!((info.name.as_str(), info.bio.as_str()), ("Ann", "new bio"));
    assert_eq!((info.img_url.as_str(), info.website.as_str()), ("img", "new site"));
    assert!(info.mediums.is_empty());
    assert_eq!(info.blockchains.len(), 1);
    assert_eq!(info.competitions_won, 3);
    assert!(info.registered);
    assert_eq!(dir[1].info.name, "Bob");
}

fn plain(name: &str) -> ArtistInfo {
    ArtistInfo {
        registered: true,
        name: s(name),
        bio: s(""),
        img_url: s(""),
        website: s(""),
        mediums: vec![],
        blockchains: vec![],
        competitions_participated: 4,
        competitions_won: 2,
    }
}

#[test]
fn admin_migrates_and_removes() {
    let mut dir = Vec::new();
    let r = CompetitionContract::migrate_single_artist(&admins(), &s("GX"), &mut dir, s("GA"), plain("Ann"));
    assert_eq!(r, Err(CompetitionError::Unauthorized));
    assert!(dir.is_empty());
    let r = CompetitionContract::migrate_single_artist(
        &admins(),
        &s("GADMIN1"),
        &mut dir,
        s("GA"),
        plain("Ann"),
    );
    assert_eq!(r, Ok(()));
    let r = CompetitionContract::migrate_single_artist(
        &admins(),
        &s("GADMIN2"),
        &mut dir,
        s("GB"),
        plain("Bob"),
    );
    assert_eq!(r, Ok(()));
    assert_eq!(dir.len(), 2);
    assert_eq!(dir[0].info.competitions_participated, 4);
    let r = CompetitionContract::remove_registered_artist(&admins(), &s("GA"), &mut dir, &s("GA"));
    assert_eq!(r, Err(CompetitionError::Unauthorized));
    let r = CompetitionContract::remove_registered_artist(&admins(), &s("GADMIN1"), &mut dir, &s("GZ"));
    assert_eq!(r, Err(CompetitionError::NotFound));
    assert_eq!(dir.len(), 2);
    let r = CompetitionContract::remove_registered_artist(&admins(), &s("GADMIN1"), &mut dir, &s("GA"));
    assert_eq!(r, Ok(()));
    assert_eq!(dir.len(), 1);
    assert_eq!(dir[0].address, "GB");
}

#[test]
fn win_is_counted_for_a_profile() {
    let mut dir = vec![
        ArtistProfile { address: s("GA"), info: plain("Ann") },
        ArtistProfile { address: s("GB"), info: plain("Bob") },
    ];
    assert_eq!(CompetitionContract::credit_win(&mut dir, &s("GB")), Ok(true));
    assert_eq!(dir[1].info.competitions_won, 3);
    assert_eq!(dir[0].info.competitions_won, 2);
    assert_eq!(dir[1].info.name, "Bob");
    assert_eq!(CompetitionContract::credit_win(&mut dir, &s("GZ")), Ok(false));
    dir[0].info.competitions_won = u32::MAX;
    assert_eq!(CompetitionContract::credit_win(&mut dir, &s("GA")), Err(CompetitionError::Overflow));
    assert_eq!(dir[0].info.competitions_won, u32::MAX);
}

#[test]
fn profile_is_looked_up_by_address() {
    let dir = vec![
        ArtistProfile { address: s("GA"), info: plain("Ann") },
        ArtistProfile { address: s("GB"), info: plain("Bob") },
        ArtistProfile { address: s("GA"), info: plain("Shadow") },
    ];
    assert_eq!(CompetitionContract::get_artist_info(&dir, &s("GB")).map(|i| i.name.as_str()), Some("Bob"));
    assert_eq!(CompetitionContract::get_artist_info(&dir, &s("GA")).map(|i| i.name.as_str()), Some("Ann"));
    assert!(CompetitionContract::get_artist_info(&dir, &s("GZ")).is_none());
}
