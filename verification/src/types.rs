use vstd::prelude::*;

use crate::numbers::Real;

verus! {

/// The identifier of a player.
pub type PlayerId = u64;

/// A game mode: a name and the number of players a match of it takes.
#[derive(Debug)]
pub struct GameMode {
    pub Name: String,
    pub MinPlayers: u32,
    pub MaxPlayers: u32,
}

/// What a `GameMode` holds, with its name as characters.
pub struct GameModeView {
    pub Name: Seq<char>,
    pub MinPlayers: u32,
    pub MaxPlayers: u32,
}

impl View for GameMode {
    type V = GameModeView;

    open spec fn view(&self) -> GameModeView {
        GameModeView { Name: self.Name@, MinPlayers: self.MinPlayers, MaxPlayers: self.MaxPlayers }
    }
}

impl GameMode {
    /// A copy of this game mode.
    pub fn Duplicate(&self) -> (r: GameMode)
        ensures r@ == self@,
    {
        GameMode { Name: self.Name.clone(), MinPlayers: self.MinPlayers, MaxPlayers: self.MaxPlayers }
    }
}

impl Default for GameMode {
    /// The free-for-all mode, for one to twelve players.
    fn default() -> (r: GameMode)
        ensures
            r.Name@ == "FreeForAll"@,
            r.MinPlayers == 1,
            r.MaxPlayers == 12,
    {
        GameMode { Name: "FreeForAll".to_string(), MinPlayers: 1, MaxPlayers: 12 }
    }
}

/// Whether a ticket still waits in the queue or has been placed in a match.
#[derive(Clone, Copy, Debug, PartialEq, Eq, Structural)]
pub enum TicketStatus {
    Queued,
    Matched,
}

impl Default for TicketStatus {
    /// A new ticket is queued.
    fn default() -> (r: TicketStatus)
        ensures r == TicketStatus::Queued,
    {
        TicketStatus::Queued
    }
}

/// A player of a party.
#[derive(Debug)]
pub struct PartyMember {
    pub PlayerId: PlayerId,
    pub PlayerName: String,
    pub MatchmakingRating: Real,
}

pub struct PartyMemberView {
    pub PlayerId: PlayerId,
    pub PlayerName: Seq<char>,
    pub MatchmakingRating: Real,
}

impl View for PartyMember {
    type V = PartyMemberView;

    open spec fn view(&self) -> PartyMemberView {
        PartyMemberView {
            PlayerId: self.PlayerId,
            PlayerName: self.PlayerName@,
            MatchmakingRating: self.MatchmakingRating,
        }
    }
}

impl PartyMember {
    /// A copy of this member.
    pub fn Duplicate(&self) -> (r: PartyMember)
        ensures r@ == self@,
    {
        PartyMember {
            PlayerId: self.PlayerId,
            PlayerName: self.PlayerName.clone(),
            MatchmakingRating: self.MatchmakingRating,
        }
    }
}

/// The views of a sequence of members.
pub open spec fn member_views(members: Seq<PartyMember>) -> Seq<PartyMemberView> {
    members.map_values(|m: PartyMember| m@)
}

/// The characters of each string of a sequence.
pub open spec fn string_views(strings: Seq<String>) -> Seq<Seq<char>> {
    strings.map_values(|s: String| s@)
}

/// A copy of a list of members.
pub fn DuplicateMembers(members: &Vec<PartyMember>) -> (r: Vec<PartyMember>)
    ensures member_views(r@) == member_views(members@),
{
    let mut r: Vec<PartyMember> = Vec::new();
    let mut i: usize = 0;
    while i < members.len()
        invariant
            i <= members.len(),
            r@.len() == i,
            forall|j: int| 0 <= j < i ==> #[trigger] r@[j]@ == members@[j]@,
        decreases members.len() - i,
    {
        r.push(members[i].Duplicate());
        i += 1;
    }
    proof {
        assert(member_views(r@) =~= member_views(members@));
    }
    r
}

/// A copy of a list of strings.
pub fn DuplicateStrings(strings: &Vec<String>) -> (r: Vec<String>)
    ensures string_views(r@) == string_views(strings@),
{
    let mut r: Vec<String> = Vec::new();
    let mut i: usize = 0;
    while i < strings.len()
        invariant
            i <= strings.len(),
            r@.len() == i,
            forall|j: int| 0 <= j < i ==> #[trigger] r@[j]@ == strings@[j]@,
        decreases strings.len() - i,
    {
        r.push(strings[i].clone());
        i += 1;
    }
    proof {
        assert(string_views(r@) =~= string_views(strings@));
    }
    r
}


/// Whether `region` is one of `regions`.
pub fn ContainsRegion(regions: &Vec<String>, region: &String) -> (r: bool)
    ensures r == string_views(regions@).contains(region@),
{
    let mut i: usize = 0;
    while i < regions.len()
        invariant
            i <= regions.len(),
            forall|j: int| 0 <= j < i ==> regions@[j]@ != region@,
        decreases regions.len() - i,
    {
        if regions[i] == *region {
            proof {
                assert(string_views(regions@)[i as int] == region@);
            }
            return true;
        }
        i += 1;
    }
    proof {
        if string_views(regions@).contains(region@) {
            let k = choose|k: int| 0 <= k < string_views(regions@).len() && string_views(regions@)[k] == region@;
            assert(regions@[k]@ == region@);
        }
    }
    false
}

/// The identifier of a ticket: the 128 bits of its UUID.
pub type TicketId = u128;

/// A party waiting for a match, with its search window.
#[derive(Debug)]
pub struct MatchmakingTicket {
    pub TicketId: TicketId,
    pub Members: Vec<PartyMember>,
    pub AverageMatchmakingRating: Real,
    pub PreferredRegion: String,
    /// The regions this ticket may be matched in, each listed once.
    pub AllowedRegions: Vec<String>,
    pub SubmittedTimestamp: i64,
    pub SearchExpansionLevel: u32,
    pub MinimumMatchmakingRating: Real,
    pub MaximumMatchmakingRating: Real,
    pub Status: TicketStatus,
    pub GameMode: GameMode,
    pub Priority: u32,
}

pub struct TicketView {
    pub TicketId: TicketId,
    pub Members: Seq<PartyMemberView>,
    pub AverageMatchmakingRating: Real,
    pub PreferredRegion: Seq<char>,
    pub AllowedRegions: Seq<Seq<char>>,
    pub SubmittedTimestamp: i64,
    pub SearchExpansionLevel: u32,
    pub MinimumMatchmakingRating: Real,
    pub MaximumMatchmakingRating: Real,
    pub Status: TicketStatus,
    pub GameMode: GameModeView,
    pub Priority: u32,
}

impl View for MatchmakingTicket {
    type V = TicketView;

    open spec fn view(&self) -> TicketView {
        TicketView {
            TicketId: self.TicketId,
            Members: member_views(self.Members@),
            AverageMatchmakingRating: self.AverageMatchmakingRating,
            PreferredRegion: self.PreferredRegion@,
            AllowedRegions: string_views(self.AllowedRegions@),
            SubmittedTimestamp: self.SubmittedTimestamp,
            SearchExpansionLevel: self.SearchExpansionLevel,
            MinimumMatchmakingRating: self.MinimumMatchmakingRating,
            MaximumMatchmakingRating: self.MaximumMatchmakingRating,
            Status: self.Status,
            GameMode: self.GameMode@,
            Priority: self.Priority,
        }
    }
}

impl TicketView {
    /// The number of players of the party.
    pub open spec fn player_count(self) -> nat {
        self.Members.len()
    }

    /// The ticket's invariant: each allowed region is listed once.
    pub open spec fn well_formed(self) -> bool {
        self.AllowedRegions.no_duplicates()
    }
}

impl MatchmakingTicket {
    /// A copy of this ticket.
    pub fn Duplicate(&self) -> (r: MatchmakingTicket)
        ensures r@ == self@,
    {
        MatchmakingTicket {
            TicketId: self.TicketId,
            Members: DuplicateMembers(&self.Members),
            AverageMatchmakingRating: self.AverageMatchmakingRating,
            PreferredRegion: self.PreferredRegion.clone(),
            AllowedRegions: DuplicateStrings(&self.AllowedRegions),
            SubmittedTimestamp: self.SubmittedTimestamp,
            SearchExpansionLevel: self.SearchExpansionLevel,
            MinimumMatchmakingRating: self.MinimumMatchmakingRating,
            MaximumMatchmakingRating: self.MaximumMatchmakingRating,
            Status: self.Status,
            GameMode: self.GameMode.Duplicate(),
            Priority: self.Priority,
        }
    }
}

/// The views of a sequence of tickets.
pub open spec fn ticket_views(tickets: Seq<MatchmakingTicket>) -> Seq<TicketView> {
    tickets.map_values(|t: MatchmakingTicket| t@)
}

/// A request to queue a party.
#[derive(Debug)]
pub struct SubmitTicketRequest {
    pub Members: Vec<PartyMember>,
    pub PreferredRegion: Option<String>,
    pub GameMode: Option<GameMode>,
    pub Priority: u32,
}

/// The answer of the health endpoint.
#[derive(Debug)]
pub struct HealthResponse {
    pub Status: String,
    pub RedisConnected: bool,
}

/// The body of an error answer.
#[derive(Debug)]
pub struct ErrorResponse {
    pub Error: String,
}

/// The answer to a ticket status request.
#[derive(Debug)]
pub struct TicketStatusResponse {
    pub TicketId: TicketId,
    pub Status: String,
    pub QueuePosition: Option<usize>,
    pub WaitTimeSeconds: i64,
    pub ExpansionLevel: u32,
    pub EstimatedWaitSeconds: Option<i64>,
}

/// An index entry of a ticket: its search window, time, size and regions.
#[derive(Debug)]
pub struct TicketIndexEntry {
    pub TicketId: TicketId,
    pub MinRating: Real,
    pub MaxRating: Real,
    pub Timestamp: i64,
    pub PlayerCount: u32,
    pub Regions: Vec<String>,
}

} // verus!
