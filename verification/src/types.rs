//! The data held for a competition, for the artist directory and for the
//! vote history.

use vstd::prelude::*;

verus! {

/// Why an operation was refused.
#[derive(Clone, Copy, Debug, PartialEq, Eq, Structural)]
pub enum CompetitionError {
    /// The caller is not who the operation asks for.
    Unauthorized,
    /// No such competition, artist or profile.
    NotFound,
    /// The submission and voting windows are not in order.
    InvalidWindow,
    /// The competition id, artist name or artwork field is taken.
    AlreadyExists,
    /// The voter may not vote now.
    NotEligible,
    /// The name voted for is not among the submissions.
    UnknownArtist,
    /// The operation does not fit the competition's phase.
    StateViolation,
    /// An amount does not fit in 64 bits.
    Overflow,
    /// The token service failed.
    ExternalCallFailure,
}

/// One submitted artwork.
#[derive(Clone, Debug)]
pub struct ArtworkMetadata {
    pub artwork_name: String,
    pub description: String,
    pub img_url: String,
}

/// What the eligibility check found for one voter.
#[derive(Clone, Copy, Debug, PartialEq, Eq, Structural)]
pub struct VotingEligibility {
    pub can_vote: bool,
    pub has_voted: bool,
    pub current_balance: u64,
    pub min_required: u64,
    pub voting_active: bool,
}

/// A submitted artist: the paying address and the display name.
#[derive(Clone, Debug)]
pub struct ArtistEntry {
    pub address: String,
    pub name: String,
}

/// The votes counted for one artist name.
#[derive(Clone, Debug)]
pub struct VoteCount {
    pub artist: String,
    pub votes: u64,
}

/// Which artist a voter chose.
#[derive(Clone, Debug)]
pub struct VoteLogEntry {
    pub voter: String,
    pub artist: String,
}

/// The artworks submitted under one artist name.
#[derive(Clone, Debug)]
pub struct ArtistArtworks {
    pub artist: String,
    pub artworks: Vec<ArtworkMetadata>,
}

/// A competition with everything it owns. Addresses are kept in their
/// textual form. The keyed collections are lists in which the first entry
/// with a key is the one that counts.
#[derive(Clone, Debug)]
pub struct Competition {
    pub id: String,
    pub id_description: String,
    pub token: String,
    pub artist_add_start: u64,
    pub artist_add_end: u64,
    pub vote_start: u64,
    pub vote_end: u64,
    pub min_vote_tokens: u64,
    pub artists: Vec<ArtistEntry>,
    pub votes: Vec<VoteCount>,
    pub vote_log: Vec<VoteLogEntry>,
    pub finalized: bool,
    pub winner: Option<String>,
    pub pot: u64,
    pub artist_metadata: Vec<ArtistArtworks>,
    pub share_ratio: Vec<u32>,
}

/// A competition together with its phase at some moment.
#[derive(Clone, Debug)]
pub struct CompetitionStatus {
    pub id: String,
    pub competition: Competition,
    pub is_submission_active: bool,
    pub is_voting_active: bool,
    pub is_finalized: bool,
}

/// One line of the ranking.
#[derive(Clone, Debug)]
pub struct ArtistRanking {
    pub artist: String,
    pub votes: u64,
    pub rank: u32,
    pub is_winner: bool,
}

/// One vote as it was cast.
#[derive(Clone, Debug)]
pub struct VoteHistory {
    pub voter: String,
    pub artist: String,
    pub timestamp: u64,
}

/// A medium an artist works in.
#[derive(Clone, Debug)]
pub struct Medium {
    pub name: String,
    pub description: String,
}

/// A blockchain an artist is present on.
#[derive(Clone, Debug)]
pub struct Network {
    pub name: String,
    pub chain_id: String,
}

/// An artist's profile in the directory.
#[derive(Clone, Debug)]
pub struct ArtistInfo {
    pub registered: bool,
    pub name: String,
    pub bio: String,
    pub img_url: String,
    pub website: String,
    pub mediums: Vec<Medium>,
    pub blockchains: Vec<Network>,
    pub competitions_participated: u32,
    pub competitions_won: u32,
}

/// A profile in the directory, under the address that owns it.
#[derive(Clone, Debug)]
pub struct ArtistProfile {
    pub address: String,
    pub info: ArtistInfo,
}

/// An artist with the votes counted for the name.
#[derive(Clone, Debug)]
pub struct Tally {
    pub address: String,
    pub artist: String,
    pub votes: u64,
}

/// A transfer that is owed: whole units of the token to an artist's address.
#[derive(Clone, Debug)]
pub struct Payment {
    pub recipient: String,
    pub artist: String,
    pub amount: u64,
}

/// What a distribution came to, in whole units.
#[derive(Clone, Copy, Debug, PartialEq, Eq, Structural)]
pub struct DistributionReport {
    /// The pot when the distribution began.
    pub pot: u64,
    /// What reached its recipients in the first round.
    pub total_paid: u64,
    /// What reached its recipients in the second round.
    pub leftover_paid: u64,
    /// What stayed unpaid and is dropped with the pot.
    pub unpaid: u64,
}

/// The two identities that may administer the contract.
#[derive(Clone, Debug)]
pub struct Admins {
    pub admin1: String,
    pub admin2: String,
}

/// What a payout request found once the voting window has closed.
#[derive(Clone, Debug)]
pub struct Payout {
    /// The address whose profile has won a competition by this request.
    pub credit: Option<String>,
    /// Whether there is a pot and a winner to pay it to.
    pub due: bool,
}

} // verus!
