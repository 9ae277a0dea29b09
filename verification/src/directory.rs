//! The directory of artist profiles: one profile per address, one name per
//! profile.

use vstd::prelude::*;
use crate::contract::CompetitionContract;
use crate::types::{Admins, ArtistInfo, ArtistProfile, CompetitionError, Medium, Network};

verus! {

/// The index of the first profile of `address` at or after `i`; the length
/// if there is none.
pub open spec fn profile_index(dir: Seq<ArtistProfile>, address: Seq<char>, i: int) -> int
    decreases dir.len() - i,
{
    if i < 0 || i >= dir.len() || dir[i].address@ == address {
        i
    } else {
        profile_index(dir, address, i + 1)
    }
}

/// Whether `address` has a profile.
pub open spec fn registered(dir: Seq<ArtistProfile>, address: Seq<char>) -> bool {
    0 <= profile_index(dir, address, 0) < dir.len()
}

/// The profile of `address`.
pub open spec fn profile_of(dir: Seq<ArtistProfile>, address: Seq<char>) -> Option<ArtistInfo> {
    if registered(dir, address) {
        Some(dir[profile_index(dir, address, 0)].info)
    } else {
        None
    }
}

/// Whether a profile has the name `name`.
pub open spec fn name_taken(dir: Seq<ArtistProfile>, name: Seq<char>) -> bool {
    exists|i: int| 0 <= i < dir.len() && (#[trigger] dir[i]).info.name@ == name
}

/// Whether a profile of another address than `owner` has the name `name`.
pub open spec fn name_taken_by_other(
    dir: Seq<ArtistProfile>,
    owner: Seq<char>,
    name: Seq<char>,
) -> bool {
    exists|i: int|
        0 <= i < dir.len() && (#[trigger] dir[i]).address@ != owner && dir[i].info.name@ == name
}

/// The directory after the profile of `address` has been set to `info`:
/// the profile stands where the address had one, or at the end, and every
/// other profile is as it was.
pub open spec fn profile_set(
    before: Seq<ArtistProfile>,
    after: Seq<ArtistProfile>,
    address: Seq<char>,
    info: ArtistInfo,
) -> bool {
    let at = profile_index(before, address, 0);
    &&& 0 <= at <= before.len()
    &&& after.len() == (if at < before.len() {
        before.len()
    } else {
        before.len() + 1
    })
    &&& forall|k: int| 0 <= k < before.len() && k != at ==> after[k] == before[k]
    &&& after[at].address@ == address
    &&& after[at].info == info
}

/// The test that lets every profile but those of `address` through.
pub open spec fn other_profile(address: Seq<char>) -> spec_fn(ArtistProfile) -> bool {
    |p: ArtistProfile| p.address@ != address
}

/// The profile as its owner changes it: each field that is given replaces
/// the old one, and the counters stay.
pub open spec fn edited(
    info: ArtistInfo,
    name: Option<String>,
    bio: Option<String>,
    img_url: Option<String>,
    website: Option<String>,
    mediums: Option<Vec<Medium>>,
    blockchains: Option<Vec<Network>>,
) -> ArtistInfo {
    ArtistInfo {
        name: match name {
            Some(x) => x,
            None => info.name,
        },
        bio: match bio {
            Some(x) => x,
            None => info.bio,
        },
        img_url: match img_url {
            Some(x) => x,
            None => info.img_url,
        },
        website: match website {
            Some(x) => x,
            None => info.website,
        },
        mediums: match mediums {
            Some(x) => x,
            None => info.mediums,
        },
        blockchains: match blockchains {
            Some(x) => x,
            None => info.blockchains,
        },
        ..info
    }
}

/// Where the profile of `address` stands.
fn find_profile(dir: &Vec<ArtistProfile>, address: &String) -> (at: usize)
    ensures
        at == profile_index(dir@, address@, 0),
        at <= dir.len(),
        at < dir.len() ==> dir[at as int].address@ == address@,
{
    let mut at: usize = 0;
    while at < dir.len() && dir[at].address != *address
        invariant
            at <= dir.len(),
            profile_index(dir@, address@, 0) == profile_index(dir@, address@, at as int),
        decreases dir.len() - at,
    {
        at += 1;
    }
    at
}

/// Whether a profile has the name `name`.
fn is_name_taken(dir: &Vec<ArtistProfile>, name: &String) -> (found: bool)
    ensures
        found == name_taken(dir@, name@),
{
    let mut i: usize = 0;
    while i < dir.len()
        invariant
            i <= dir.len(),
            forall|k: int| 0 <= k < i ==> dir[k].info.name@ != name@,
        decreases dir.len() - i,
    {
        if dir[i].info.name == *name {
            return true;
        }
        i += 1;
    }
    false
}

/// Whether a profile of another address than `owner` has the name `name`.
fn is_name_taken_by_other(dir: &Vec<ArtistProfile>, owner: &String, name: &String) -> (found: bool)
    ensures
        found == name_taken_by_other(dir@, owner@, name@),
{
    let mut i: usize = 0;
    while i < dir.len()
        invariant
            i <= dir.len(),
            forall|k: int| 0 <= k < i ==> !(dir[k].address@ != owner@ && dir[k].info.name@ == name@),
        decreases dir.len() - i,
    {
        if dir[i].address != *owner && dir[i].info.name == *name {
            return true;
        }
        i += 1;
    }
    false
}

/// Sets the profile of `address`.
fn set_profile(dir: &mut Vec<ArtistProfile>, address: String, info: ArtistInfo)
    ensures
        profile_set(old(dir)@, final(dir)@, address@, info),
{
    let at = find_profile(dir, &address);
    if at < dir.len() {
        dir.set(at, ArtistProfile { address, info });
    } else {
        dir.push(ArtistProfile { address, info });
    }
}

impl CompetitionContract {
    /// Whether `address` has a profile.
    pub fn has_registered(dir: &Vec<ArtistProfile>, address: &String) -> (yes: bool)
        ensures
            yes == registered(dir@, address@),
    {
        find_profile(dir, address) < dir.len()
    }

    /// The profile of `address`, if it has one.
    pub fn get_artist_info<'a>(dir: &'a Vec<ArtistProfile>, address: &String) -> (info: Option<
        &'a ArtistInfo,
    >)
        ensures
            info.is_some() == registered(dir@, address@),
            info matches Some(i) ==> Some(*i) == profile_of(dir@, address@),
    {
        let at = find_profile(dir, address);
        if at < dir.len() {
            Some(&dir[at].info)
        } else {
            None
        }
    }

    /// Registers the profile of `from`. Refused with `AlreadyExists` where
    /// a profile has the name already.
    pub fn add_artist_info(
        dir: &mut Vec<ArtistProfile>,
        from: String,
        name: String,
        bio: String,
        img_url: String,
        website: String,
        mediums: Vec<Medium>,
        blockchains: Vec<Network>,
    ) -> (r: Result<(), CompetitionError>)
        ensures
            name_taken(old(dir)@, name@) ==> r == Err::<(), CompetitionError>(
                CompetitionError::AlreadyExists,
            ) && *final(dir) == *old(dir),
            !name_taken(old(dir)@, name@) ==> r.is_ok() && profile_set(
                old(dir)@,
                final(dir)@,
                from@,
                ArtistInfo {
                    registered: true,
                    name,
                    bio,
                    img_url,
                    website,
                    mediums,
                    blockchains,
                    competitions_participated: 0,
                    competitions_won: 0,
                },
            ),
    {
        if is_name_taken(dir, &name) {
            return Err(CompetitionError::AlreadyExists);
        }
        let info = ArtistInfo {
            registered: true,
            name,
            bio,
            img_url,
            website,
            mediums,
            blockchains,
            competitions_participated: 0,
            competitions_won: 0,
        };
        set_profile(dir, from, info);
        Ok(())
    }

    /// Changes the profile of `from`. Refused with `NotFound` where the
    /// address has no profile, and with `AlreadyExists` where the new name
    /// is that of another address's profile.
    pub fn update_artist_info(
        dir: &mut Vec<ArtistProfile>,
        from: &String,
        name: Option<String>,
        bio: Option<String>,
        img_url: Option<String>,
        website: Option<String>,
        mediums: Option<Vec<Medium>>,
        blockchains: Option<Vec<Network>>,
    ) -> (r: Result<(), CompetitionError>)
        ensures
            r == (if !registered(old(dir)@, from@) {
                Err(CompetitionError::NotFound)
            } else if name matches Some(n) && name_taken_by_other(old(dir)@, from@, n@) {
                Err(CompetitionError::AlreadyExists)
            } else {
                Ok(())
            }),
            r.is_err() ==> *final(dir) == *old(dir),
            r.is_ok() ==> final(dir)@ == old(dir)@.update(
                profile_index(old(dir)@, from@, 0),
                ArtistProfile {
                    address: old(dir)@[profile_index(old(dir)@, from@, 0)].address,
                    info: edited(
                        old(dir)@[profile_index(old(dir)@, from@, 0)].info,
                        name,
                        bio,
                        img_url,
                        website,
                        mediums,
                        blockchains,
                    ),
                },
            ),
    {
        let at = find_profile(dir, from);
        if at >= dir.len() {
            return Err(CompetitionError::NotFound);
        }
        if let Some(n) = &name {
            if is_name_taken_by_other(dir, from, n) {
                return Err(CompetitionError::AlreadyExists);
            }
        }
        let ghost before = dir@;
        let mut profile = dir.remove(at);
        if let Some(x) = name {
            profile.info.name = x;
        }
        if let Some(x) = bio {
            profile.info.bio = x;
        }
        if let Some(x) = img_url {
            profile.info.img_url = x;
        }
        if let Some(x) = website {
            profile.info.website = x;
        }
        if let Some(x) = mediums {
            profile.info.mediums = x;
        }
        if let Some(x) = blockchains {
            profile.info.blockchains = x;
        }
        dir.insert(at, profile);
        assert(dir@ =~= before.update(at as int, profile));
        Ok(())
    }

    /// Enters a profile as it is. Only an administrator may.
    pub fn migrate_single_artist(
        admins: &Admins,
        from: &String,
        dir: &mut Vec<ArtistProfile>,
        artist_address: String,
        artist_info: ArtistInfo,
    ) -> (r: Result<(), CompetitionError>)
        ensures
            !admins.admits(from@) ==> r == Err::<(), CompetitionError>(
                CompetitionError::Unauthorized,
            ) && *final(dir) == *old(dir),
            admins.admits(from@) ==> r.is_ok() && profile_set(
                old(dir)@,
                final(dir)@,
                artist_address@,
                artist_info,
            ),
    {
        if !admins.is_admin(from) {
            return Err(CompetitionError::Unauthorized);
        }
        set_profile(dir, artist_address, artist_info);
        Ok(())
    }

    /// Takes the profile of `artist_address` out of the directory. Only an
    /// administrator may, and the address must have a profile.
    pub fn remove_registered_artist(
        admins: &Admins,
        from: &String,
        dir: &mut Vec<ArtistProfile>,
        artist_address: &String,
    ) -> (r: Result<(), CompetitionError>)
        ensures
            r == (if !admins.admits(from@) {
                Err(CompetitionError::Unauthorized)
            } else if !registered(old(dir)@, artist_address@) {
                Err(CompetitionError::NotFound)
            } else {
                Ok(())
            }),
            r.is_err() ==> *final(dir) == *old(dir),
            r.is_ok() ==> final(dir)@ == old(dir)@.remove(
                profile_index(old(dir)@, artist_address@, 0),
            ),
    {
        if !admins.is_admin(from) {
            return Err(CompetitionError::Unauthorized);
        }
        let at = find_profile(dir, artist_address);
        if at >= dir.len() {
            return Err(CompetitionError::NotFound);
        }
        dir.remove(at);
        Ok(())
    }

    /// Counts a won competition for the profile of `address`. Returns
    /// whether the address has a profile; without one nothing changes.
    /// Refused with `Overflow` where the counter is at its limit.
    pub fn credit_win(dir: &mut Vec<ArtistProfile>, address: &String) -> (r: Result<
        bool,
        CompetitionError,
    >)
        ensures
            r == (if !registered(old(dir)@, address@) {
                Ok(false)
            } else if old(dir)@[profile_index(old(dir)@, address@, 0)].info.competitions_won
                == u32::MAX {
                Err(CompetitionError::Overflow)
            } else {
                Ok(true)
            }),
            !(r matches Ok(true)) ==> *final(dir) == *old(dir),
            r matches Ok(true) ==> final(dir)@ == old(dir)@.update(
                profile_index(old(dir)@, address@, 0),
                ArtistProfile {
                    address: old(dir)@[profile_index(old(dir)@, address@, 0)].address,
                    info: ArtistInfo {
                        competitions_won: (old(dir)@[profile_index(
                            old(dir)@,
                            address@,
                            0,
                        )].info.competitions_won + 1) as u32,
                        ..old(dir)@[profile_index(old(dir)@, address@, 0)].info
                    },
                },
            ),
    {
        let at = find_profile(dir, address);
        if at >= dir.len() {
            return Ok(false);
        }
        if dir[at].info.competitions_won == u32::MAX {
            return Err(CompetitionError::Overflow);
        }
        let ghost before = dir@;
        let mut profile = dir.remove(at);
        profile.info.competitions_won = profile.info.competitions_won + 1;
        dir.insert(at, profile);
        assert(dir@ =~= before.update(at as int, profile));
        Ok(true)
    }
}

} // verus!
