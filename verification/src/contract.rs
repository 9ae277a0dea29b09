//! The contract's administration, the creation and funding of a
//! competition, and amounts in the token's minor units.

use vstd::prelude::*;
use crate::prize::schedule_ok;
use crate::types::{Admins, Competition, CompetitionError};

verus! {

/// The operations of the competition contract. It holds nothing itself:
/// every operation is given the state it works on.
pub struct CompetitionContract;

/// Ten to the power of `d`.
pub open spec fn pow10(d: nat) -> nat
    decreases d,
{
    if d == 0 {
        1
    } else {
        10 * pow10((d - 1) as nat)
    }
}

/// Powers of ten are at least 1 and grow with the exponent.
pub proof fn lemma_pow10_grows(a: nat, b: nat)
    requires
        a <= b,
    ensures
        1 <= pow10(a) <= pow10(b),
    decreases b,
{
    if a < b {
        lemma_pow10_grows(a, (b - 1) as nat);
    } else if a > 0 {
        lemma_pow10_grows((a - 1) as nat, (b - 1) as nat);
    }
}

/// Ten to the power of `decimals`, if it fits in 64 bits.
pub fn ten_to(decimals: u32) -> (m: Option<u64>)
    ensures
        m == (if pow10(decimals as nat) <= u64::MAX {
            Some(pow10(decimals as nat) as u64)
        } else {
            None
        }),
{
    let mut m: u64 = 1;
    let mut i: u32 = 0;
    while i < decimals
        invariant
            i <= decimals,
            m == pow10(i as nat),
        decreases decimals - i,
    {
        proof {
            lemma_pow10_grows((i + 1) as nat, decimals as nat);
        }
        match m.checked_mul(10) {
            Some(next) => {
                m = next;
            },
            None => {
                return None;
            },
        }
        i += 1;
    }
    Some(m)
}

/// Whether `s` names a member of `ids`.
pub open spec fn listed(ids: Seq<String>, id: Seq<char>) -> bool {
    exists|i: int| 0 <= i < ids.len() && (#[trigger] ids[i])@ == id
}

impl Admins {
    /// Whether `who` is one of the two administrators.
    pub open spec fn admits(&self, who: Seq<char>) -> bool {
        who == self.admin1@ || who == self.admin2@
    }

    /// Whether `who` is one of the two administrators.
    pub fn is_admin(&self, who: &String) -> (yes: bool)
        ensures
            yes == self.admits(who@),
    {
        *who == self.admin1 || *who == self.admin2
    }
}

impl Competition {
    /// The four timestamps are in order.
    pub open spec fn windows_ordered(&self) -> bool {
        self.artist_add_start < self.artist_add_end < self.vote_start < self.vote_end
    }

    /// A competition is valid when its windows are in order and its share
    /// schedule hands out at most the whole pot.
    pub open spec fn wf(&self) -> bool {
        self.windows_ordered() && schedule_ok(self.share_ratio@)
    }
}

impl CompetitionContract {
    /// The contract's version.
    pub fn version() -> (v: String)
        ensures
            v@ == "1.0.1"@,
    {
        "1.0.1".to_owned()
    }

    /// The token's minor units per whole unit, from what the lookup of its
    /// precision gave: `None` stands for a lookup that failed. A failed
    /// lookup is refused with `ExternalCallFailure`, a precision beyond 64
    /// bits with `Overflow`.
    pub fn token_multiplier(decimals: Option<u32>) -> (r: Result<u64, CompetitionError>)
        ensures
            r == (match decimals {
                None => Err(CompetitionError::ExternalCallFailure),
                Some(d) => if pow10(d as nat) <= u64::MAX {
                    Ok(pow10(d as nat) as u64)
                } else {
                    Err(CompetitionError::Overflow)
                },
            }),
    {
        match decimals {
            None => Err(CompetitionError::ExternalCallFailure),
            Some(d) => match ten_to(d) {
                Some(m) => Ok(m),
                None => Err(CompetitionError::Overflow),
            },
        }
    }

    /// `amount` whole units in the token's minor units. Refused with
    /// `Overflow` where the result does not fit in 64 bits.
    pub fn to_minor_units(amount: u64, decimals: u32) -> (r: Result<u64, CompetitionError>)
        ensures
            r == (if amount * pow10(decimals as nat) <= u64::MAX && pow10(decimals as nat)
                <= u64::MAX {
                Ok((amount * pow10(decimals as nat)) as u64)
            } else {
                Err(CompetitionError::Overflow)
            }),
    {
        match ten_to(decimals) {
            Some(m) => match amount.checked_mul(m) {
                Some(x) => Ok(x),
                None => Err(CompetitionError::Overflow),
            },
            None => Err(CompetitionError::Overflow),
        }
    }
}

/// Why a competition with these values cannot be created, if anything
/// stands against it: the windows are looked at first, then the id, then
/// the caller.
pub open spec fn creation_refusal(
    admins: Admins,
    ids: Seq<String>,
    from: Seq<char>,
    id: Seq<char>,
    artist_add_start: u64,
    artist_add_end: u64,
    vote_start: u64,
    vote_end: u64,
) -> Option<CompetitionError> {
    if !(artist_add_start < artist_add_end && artist_add_end < vote_start && vote_start
        < vote_end) {
        Some(CompetitionError::InvalidWindow)
    } else if listed(ids, id) {
        Some(CompetitionError::AlreadyExists)
    } else if !admins.admits(from) {
        Some(CompetitionError::Unauthorized)
    } else {
        None
    }
}

/// A competition as it is created: nothing submitted, nothing voted,
/// nothing in the pot, and the shares 50, 30 and 20.
pub open spec fn is_fresh(c: Competition) -> bool {
    &&& c.artists@.len() == 0
    &&& c.votes@.len() == 0
    &&& c.vote_log@.len() == 0
    &&& c.artist_metadata@.len() == 0
    &&& !c.finalized
    &&& c.winner.is_none()
    &&& c.pot == 0
    &&& c.share_ratio@ =~= seq![50u32, 30u32, 20u32]
}

/// Whether `id` is in the index of competitions.
pub fn is_listed(ids: &Vec<String>, id: &String) -> (found: bool)
    ensures
        found == listed(ids@, id@),
{
    let mut i: usize = 0;
    while i < ids.len()
        invariant
            i <= ids.len(),
            forall|k: int| 0 <= k < i ==> ids[k]@ != id@,
        decreases ids.len() - i,
    {
        if ids[i] == *id {
            return true;
        }
        i += 1;
    }
    false
}

impl Competition {
    /// Whether the competition is valid.
    pub fn is_valid(&self) -> (yes: bool)
        ensures
            yes == self.wf(),
    {
        if !(self.artist_add_start < self.artist_add_end && self.artist_add_end < self.vote_start
            && self.vote_start < self.vote_end) {
            return false;
        }
        let mut sum: u64 = 0;
        let mut i: usize = 0;
        while i < self.share_ratio.len()
            invariant
                i <= self.share_ratio.len(),
                sum == crate::prize::share_sum(self.share_ratio@, 0, i as int),
                sum <= 100,
            decreases self.share_ratio.len() - i,
        {
            proof {
                crate::prize::lemma_share_sum_split(
                    self.share_ratio@,
                    0,
                    i + 1,
                    self.share_ratio.len() as int,
                );
            }
            if self.share_ratio[i] > 100 {
                return false;
            }
            sum += self.share_ratio[i] as u64;
            if sum > 100 {
                return false;
            }
            i += 1;
        }
        true
    }
}

impl CompetitionContract {
    /// Replaces one or both administrators. Only an administrator may.
    pub fn update_admins(
        admins: &mut Admins,
        from: &String,
        new_admin1: Option<String>,
        new_admin2: Option<String>,
    ) -> (r: Result<(), CompetitionError>)
        ensures
            !old(admins).admits(from@) ==> r == Err::<(), CompetitionError>(
                CompetitionError::Unauthorized,
            ) && *final(admins) == *old(admins),
            old(admins).admits(from@) ==> r.is_ok() && final(admins).admin1 == (match new_admin1 {
                Some(a) => a,
                None => old(admins).admin1,
            }) && final(admins).admin2 == (match new_admin2 {
                Some(a) => a,
                None => old(admins).admin2,
            }),
    {
        if !admins.is_admin(from) {
            return Err(CompetitionError::Unauthorized);
        }
        if let Some(a) = new_admin1 {
            admins.admin1 = a;
        }
        if let Some(a) = new_admin2 {
            admins.admin2 = a;
        }
        Ok(())
    }

    /// Creates a competition and enters its id in the index. The windows
    /// must be in order, the id new and the caller an administrator.
    pub fn create_competition(
        admins: &Admins,
        ids: &mut Vec<String>,
        from: &String,
        id: String,
        id_description: String,
        artist_add_start: u64,
        artist_add_end: u64,
        vote_start: u64,
        vote_end: u64,
        token: String,
        min_vote_tokens: u64,
    ) -> (r: Result<Competition, CompetitionError>)
        ensures
            match creation_refusal(
                *admins,
                old(ids)@,
                from@,
                id@,
                artist_add_start,
                artist_add_end,
                vote_start,
                vote_end,
            ) {
                Some(e) => r == Err::<Competition, CompetitionError>(e) && *final(ids) == *old(ids),
                None => r.is_ok() && final(ids)@ == old(ids)@.push(id),
            },
            r matches Ok(c) ==> {
                &&& is_fresh(c)
                &&& c.wf()
                &&& c.id == id
                &&& c.id_description == id_description
                &&& c.token == token
                &&& c.artist_add_start == artist_add_start
                &&& c.artist_add_end == artist_add_end
                &&& c.vote_start == vote_start
                &&& c.vote_end == vote_end
                &&& c.min_vote_tokens == min_vote_tokens
            },
    {
        if !(artist_add_start < artist_add_end && artist_add_end < vote_start && vote_start
            < vote_end) {
            return Err(CompetitionError::InvalidWindow);
        }
        if is_listed(ids, &id) {
            return Err(CompetitionError::AlreadyExists);
        }
        if !admins.is_admin(from) {
            return Err(CompetitionError::Unauthorized);
        }
        let mut share_ratio: Vec<u32> = Vec::new();
        share_ratio.push(50);
        share_ratio.push(30);
        share_ratio.push(20);
        proof {
            reveal_with_fuel(crate::prize::share_sum, 4);
            assert(share_ratio@ =~= seq![50u32, 30u32, 20u32]);
            assert(schedule_ok(share_ratio@));
        }
        ids.push(id.clone());
        Ok(
            Competition {
                id,
                id_description,
                token,
                artist_add_start,
                artist_add_end,
                vote_start,
                vote_end,
                min_vote_tokens,
                artists: Vec::new(),
                votes: Vec::new(),
                vote_log: Vec::new(),
                finalized: false,
                winner: None,
                pot: 0,
                artist_metadata: Vec::new(),
                share_ratio,
            },
        )
    }

    /// Adds `amount` whole units to the pot and returns the amount in the
    /// token's minor units that is to be taken from the funder. Refused
    /// with `Overflow`, and nothing changed, where the pot or the amount in
    /// minor units would not fit in 64 bits.
    pub fn fund_pot(comp: &mut Competition, amount: u64, decimals: u32) -> (r: Result<
        u64,
        CompetitionError,
    >)
        ensures
            r == (if pow10(decimals as nat) <= u64::MAX && amount * pow10(decimals as nat)
                <= u64::MAX && old(comp).pot + amount <= u64::MAX {
                Ok((amount * pow10(decimals as nat)) as u64)
            } else {
                Err(CompetitionError::Overflow)
            }),
            r.is_err() ==> *final(comp) == *old(comp),
            r.is_ok() ==> *final(comp) == (Competition {
                pot: (old(comp).pot + amount) as u64,
                ..*old(comp)
            }),
    {
        let minor = match Self::to_minor_units(amount, decimals) {
            Ok(m) => m,
            Err(e) => {
                return Err(e);
            },
        };
        match comp.pot.checked_add(amount) {
            Some(pot) => {
                comp.pot = pot;
                Ok(minor)
            },
            None => Err(CompetitionError::Overflow),
        }
    }
}

} // verus!
