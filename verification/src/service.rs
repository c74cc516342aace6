use vstd::prelude::*;

use crate::clock::CurrentTimestamp;
use crate::configuration::{configuration_error, ConfigurationView, MatchmakingConfiguration};
use crate::ids::NewUuid;
use crate::matching::valid_game_mode;
use crate::matchmaker::{saturating_difference, Matchmaker};
use crate::numbers::{Real, INFINITY_KEY};
use crate::queue::WaitTimeSeconds;
use crate::types::{
    member_views, string_views, ContainsRegion, ErrorResponse, GameMode, GameModeView, HealthResponse,
    MatchmakingTicket, PartyMemberView, SubmitTicketRequest, TicketStatus, TicketStatusResponse, TicketView,
};

verus! {

/// The highest priority a ticket may ask for.
pub const MAX_TICKET_PRIORITY: u32 = 10000;

/// The refusal of a ticket request by the rate limits, given whether the global limit
/// let it through and then whether the limit of its region did: 429 with the message of
/// the first limit that stopped it, none when both let it through.
pub fn RateLimitRefusal(GlobalAllowed: bool, RegionalAllowed: bool, Region: &str) -> (r: Option<(u16, ErrorResponse)>)
    ensures
        !GlobalAllowed ==> (r matches Some((429, e)) && e.Error@ == "Global rate limit exceeded. Try again later."@),
        GlobalAllowed && !RegionalAllowed ==> (r matches Some((429, e))
            && e.Error@ == "Regional rate limit exceeded for "@ + Region@ + ". Try again later."@),
        GlobalAllowed && RegionalAllowed ==> r is None,
{
    if !GlobalAllowed {
        return Some((429, ErrorResponse { Error: "Global rate limit exceeded. Try again later.".to_string() }));
    }
    if !RegionalAllowed {
        let mut Message: String = String::from_str("Regional rate limit exceeded for ");
        Message.append(Region);
        Message.append(". Try again later.");
        return Some((429, ErrorResponse { Error: Message }));
    }
    None
}

/// Why a ticket request is refused (each answered with status 400).
#[derive(Clone, Copy, Debug, PartialEq, Eq, Structural)]
pub enum SubmitTicketError {
    /// The party has no members.
    EmptyParty,
    /// The party has more members than the configured maximum (given).
    PartyTooLarge(u32),
    /// The member at this position has player id 0.
    InvalidPlayerId(usize),
    /// The member at this position has an empty name.
    EmptyPlayerName(usize),
    /// A member's rating is not a number or infinite.
    NonFiniteRating,
    /// A member's rating lies outside the configured bounds.
    RatingOutOfRange,
    /// The requested game mode cannot hold a match.
    InvalidGameMode,
    /// The priority is above `MAX_TICKET_PRIORITY`.
    PriorityTooHigh,
}

/// The game mode a request asks for: its own, or the default one.
pub open spec fn requested_mode(requested: Option<GameModeView>) -> GameModeView {
    match requested {
        Some(m) => m,
        None => GameModeView { Name: "FreeForAll"@, MinPlayers: 1, MaxPlayers: 12 },
    }
}

/// What is wrong with the member at position `i`, checked in order: player id, name,
/// finiteness of the rating, bounds of the rating.
pub open spec fn member_error(c: ConfigurationView, m: PartyMemberView, i: int) -> Option<SubmitTicketError> {
    if m.PlayerId == 0 {
        Some(SubmitTicketError::InvalidPlayerId(i as usize))
    } else if m.PlayerName.len() == 0 {
        Some(SubmitTicketError::EmptyPlayerName(i as usize))
    } else if m.MatchmakingRating.is_not_a_number() || m.MatchmakingRating.is_infinity() {
        Some(SubmitTicketError::NonFiniteRating)
    } else if m.MatchmakingRating.is_lt(c.MinimumRating) || c.MaximumRating.is_lt(m.MatchmakingRating) {
        Some(SubmitTicketError::RatingOutOfRange)
    } else {
        None
    }
}

/// The error of the first member, from position `i` on, that has one.
pub open spec fn members_error(c: ConfigurationView, members: Seq<PartyMemberView>, i: nat) -> Option<SubmitTicketError>
    decreases members.len() - i,
{
    if i >= members.len() {
        None
    } else {
        match member_error(c, members[i as int], i as int) {
            Some(e) => Some(e),
            None => members_error(c, members, i + 1),
        }
    }
}

proof fn lemma_members_error_none(c: ConfigurationView, members: Seq<PartyMemberView>, i: nat)
    ensures
        members_error(c, members, i) is None <==>
            forall|j: int| i <= j < members.len() ==> #[trigger] member_error(c, members[j], j) is None,
    decreases members.len() - i,
{
    if i < members.len() {
        lemma_members_error_none(c, members, i + 1);
        if !(member_error(c, members[i as int], i as int) is None) {
            assert(!(forall|j: int| i <= j < members.len() ==> #[trigger] member_error(c, members[j], j) is None));
        }
    }
}

/// Why a request is refused, checked in order: an empty party, a party larger than
/// the maximum, its members, the game mode, the priority; `None` when it is accepted.
pub open spec fn submit_error(c: ConfigurationView, members: Seq<PartyMemberView>, mode: Option<GameModeView>, priority: u32) -> Option<SubmitTicketError> {
    if members.len() == 0 {
        Some(SubmitTicketError::EmptyParty)
    } else if members.len() > c.MaximumPartySize {
        Some(SubmitTicketError::PartyTooLarge(c.MaximumPartySize))
    } else if members_error(c, members, 0) is Some {
        members_error(c, members, 0)
    } else if !valid_game_mode(requested_mode(mode)) {
        Some(SubmitTicketError::InvalidGameMode)
    } else if priority > MAX_TICKET_PRIORITY {
        Some(SubmitTicketError::PriorityTooHigh)
    } else {
        None
    }
}

/// The views of an optional game mode.
pub open spec fn mode_view(m: Option<GameMode>) -> Option<GameModeView> {
    match m {
        Some(m) => Some(m@),
        None => None,
    }
}

/// The region a request's ticket is filed under: the requested one when it is a valid
/// region, the default region otherwise.
pub open spec fn resolved_region(c: ConfigurationView, requested: Option<Seq<char>>) -> Seq<char> {
    match requested {
        Some(r) => if c.ValidRegions.contains(r) { r } else { c.DefaultRegion },
        None => c.DefaultRegion,
    }
}

/// The characters of an optional string.
pub open spec fn text_view(s: Option<String>) -> Option<Seq<char>> {
    match s {
        Some(s) => Some(s@),
        None => None,
    }
}

/// The region a request's ticket is filed under (and rate limited by): the requested
/// one when it is a valid region, the default region otherwise.
pub fn ResolvePreferredRegion(Config: &MatchmakingConfiguration, Requested: &Option<String>) -> (r: String)
    ensures r@ == resolved_region(Config@, text_view(*Requested)),
{
    match Requested {
        Some(Region) => {
            if ContainsRegion(&Config.ValidRegions, Region) {
                Region.clone()
            } else {
                Config.DefaultRegion.clone()
            }
        }
        None => Config.DefaultRegion.clone(),
    }
}

/// Checks a ticket request against the configuration; the first problem found
/// refuses it.
pub fn ValidateSubmitTicketRequest(Config: &MatchmakingConfiguration, Request: &SubmitTicketRequest) -> (r: Result<(), SubmitTicketError>)
    ensures
        match r {
            Ok(()) => submit_error(Config@, member_views(Request.Members@), mode_view(Request.GameMode), Request.Priority) is None,
            Err(e) => submit_error(Config@, member_views(Request.Members@), mode_view(Request.GameMode), Request.Priority) == Some(e),
        },
        r is Ok <==> {
            &&& 1 <= Request.Members@.len() <= Config.MaximumPartySize
            &&& forall|i: int| 0 <= i < Request.Members@.len() ==> {
                let m = #[trigger] Request.Members@[i];
                &&& m.PlayerId != 0
                &&& m.PlayerName@.len() > 0
                &&& m.MatchmakingRating matches Real::Ordered(k)
                &&& k != INFINITY_KEY && k != -INFINITY_KEY
                &&& !(Config.MinimumRating matches Real::Ordered(lo) && k < lo)
                &&& !(Config.MaximumRating matches Real::Ordered(hi) && hi < k)
            }
            &&& match Request.GameMode {
                Some(mode) => mode.MinPlayers > 0 && mode.MaxPlayers >= mode.MinPlayers && mode.Name@.len() > 0,
                None => true,
            }
            &&& Request.Priority <= 10000
        },
{
    proof {
        lemma_members_error_none(Config@, member_views(Request.Members@), 0);
        if !(members_error(Config@, member_views(Request.Members@), 0) is None) {
            let j = choose|j: int| 0 <= j < member_views(Request.Members@).len()
                && !(#[trigger] member_error(Config@, member_views(Request.Members@)[j], j) is None);
            assert(member_views(Request.Members@)[j] == Request.Members@[j]@);
        } else {
            assert forall|i: int| 0 <= i < Request.Members@.len() implies
                member_error(Config@, Request.Members@[i]@, i) is None by {
                assert(member_views(Request.Members@)[i] == Request.Members@[i]@);
                assert(member_error(Config@, member_views(Request.Members@)[i], i) is None);
            }
        }
        reveal_strlit("FreeForAll");
    }
    let ghost members = member_views(Request.Members@);
    if Request.Members.len() == 0 {
        return Err(SubmitTicketError::EmptyParty);
    }
    if Request.Members.len() > Config.MaximumPartySize as usize {
        return Err(SubmitTicketError::PartyTooLarge(Config.MaximumPartySize));
    }
    let mut Index: usize = 0;
    while Index < Request.Members.len()
        invariant
            members == member_views(Request.Members@),
            members.len() > 0,
            members.len() <= Config.MaximumPartySize,
            Index <= Request.Members.len(),
            members_error(Config@, members, 0) == members_error(Config@, members, Index as nat),
        decreases Request.Members.len() - Index,
    {
        let Member = &Request.Members[Index];
        assert(members[Index as int] == Member@);
        assert(members_error(Config@, members, Index as nat) == match member_error(Config@, members[Index as int], Index as int) {
            Some(e) => Some(e),
            None => members_error(Config@, members, (Index + 1) as nat),
        });
        if Member.PlayerId == 0 {
            return Err(SubmitTicketError::InvalidPlayerId(Index));
        }
        if Member.PlayerName.as_str().is_empty() {
            return Err(SubmitTicketError::EmptyPlayerName(Index));
        }
        if Member.MatchmakingRating.IsNan() || Member.MatchmakingRating.IsInfinite() {
            return Err(SubmitTicketError::NonFiniteRating);
        }
        if Member.MatchmakingRating.Lt(&Config.MinimumRating) || Config.MaximumRating.Lt(&Member.MatchmakingRating) {
            return Err(SubmitTicketError::RatingOutOfRange);
        }
        Index += 1;
    }
    let Valid: bool = match &Request.GameMode {
        Some(Mode) => Matchmaker::ValidateGameMode(Mode),
        None => {
            let Mode = GameMode::default();
            Matchmaker::ValidateGameMode(&Mode)
        }
    };
    if !Valid {
        return Err(SubmitTicketError::InvalidGameMode);
    }
    if Request.Priority > MAX_TICKET_PRIORITY {
        return Err(SubmitTicketError::PriorityTooHigh);
    }
    Ok(())
}

/// The ticket made of an accepted request (its members, requested region, requested
/// game mode and priority) under identifier `id` at time `now`, with the given average
/// rating and search window: filed under the resolved region as its only allowed one,
/// at level 0, queued, with the requested game mode or the default one.
pub open spec fn created_ticket(
    c: ConfigurationView,
    members: Seq<PartyMemberView>,
    region: Option<Seq<char>>,
    mode: Option<GameModeView>,
    priority: u32,
    average: Real,
    minimum: Real,
    maximum: Real,
    id: u128,
    now: i64,
) -> TicketView {
    TicketView {
        TicketId: id,
        Members: members,
        AverageMatchmakingRating: average,
        PreferredRegion: resolved_region(c, region),
        AllowedRegions: seq![resolved_region(c, region)],
        SubmittedTimestamp: now,
        SearchExpansionLevel: 0,
        MinimumMatchmakingRating: minimum,
        MaximumMatchmakingRating: maximum,
        Status: TicketStatus::Queued,
        GameMode: requested_mode(mode),
        Priority: priority,
    }
}

/// Makes the ticket of an accepted request under identifier `Id`, submitted at `Now`
/// (see `created_ticket`). The average rating and the first search window are float
/// arithmetic, computed by the caller and handed over.
pub fn CreateTicketAt(
    Config: &MatchmakingConfiguration,
    Request: SubmitTicketRequest,
    AverageRating: Real,
    MinimumRating: Real,
    MaximumRating: Real,
    Id: u128,
    Now: i64,
) -> (t: MatchmakingTicket)
    ensures
        t@ == created_ticket(
            Config@,
            member_views(Request.Members@),
            text_view(Request.PreferredRegion),
            mode_view(Request.GameMode),
            Request.Priority,
            AverageRating,
            MinimumRating,
            MaximumRating,
            Id,
            Now,
        ),
        t@.well_formed(),
{
    let PreferredRegion: String = ResolvePreferredRegion(Config, &Request.PreferredRegion);
    let mut AllowedRegions: Vec<String> = Vec::new();
    AllowedRegions.push(PreferredRegion.clone());
    assert(string_views(AllowedRegions@) =~= seq![PreferredRegion@]);
    let RequestedGameMode: GameMode = match Request.GameMode {
        Some(Mode) => Mode,
        None => GameMode::default(),
    };
    MatchmakingTicket {
        TicketId: Id,
        Members: Request.Members,
        AverageMatchmakingRating: AverageRating,
        PreferredRegion,
        AllowedRegions,
        SubmittedTimestamp: Now,
        SearchExpansionLevel: 0,
        MinimumMatchmakingRating: MinimumRating,
        MaximumMatchmakingRating: MaximumRating,
        Status: TicketStatus::Queued,
        GameMode: RequestedGameMode,
        Priority: Request.Priority,
    }
}

/// Makes the ticket of an accepted request under a fresh random identifier, submitted
/// now by the clock. Identifier and time are drawn here and nothing is known of their
/// values; what holds is that the ticket is the one `CreateTicketAt` makes for them.
pub fn CreateTicket(
    Config: &MatchmakingConfiguration,
    Request: SubmitTicketRequest,
    AverageRating: Real,
    MinimumRating: Real,
    MaximumRating: Real,
) -> (t: MatchmakingTicket)
    ensures
        t@ == created_ticket(
            Config@,
            member_views(Request.Members@),
            text_view(Request.PreferredRegion),
            mode_view(Request.GameMode),
            Request.Priority,
            AverageRating,
            MinimumRating,
            MaximumRating,
            t.TicketId,
            t.SubmittedTimestamp,
        ),
        t@.well_formed(),
{
    let Id: u128 = NewUuid();
    let Now: i64 = CurrentTimestamp();
    CreateTicketAt(Config, Request, AverageRating, MinimumRating, MaximumRating, Id, Now)
}

/// The answer of the health endpoint: 200 and "healthy" with a reachable store,
/// 503 and "degraded" without.
pub fn HealthCheckResponse(RedisConnected: bool) -> (r: (u16, HealthResponse))
    ensures
        r.1.RedisConnected == RedisConnected,
        RedisConnected ==> r.0 == 200 && r.1.Status@ == "healthy"@,
        !RedisConnected ==> r.0 == 503 && r.1.Status@ == "degraded"@,
{
    if RedisConnected {
        (200, HealthResponse { Status: "healthy".to_string(), RedisConnected })
    } else {
        (503, HealthResponse { Status: "degraded".to_string(), RedisConnected })
    }
}

/// The answer to a cancellation, given how many tickets the store deleted: 204 when
/// one was, 404 "Ticket not found" otherwise.
pub fn CancelTicketOutcome(Deleted: i64) -> (r: Result<u16, (u16, ErrorResponse)>)
    ensures
        Deleted > 0 ==> r == Ok::<u16, (u16, ErrorResponse)>(204),
        Deleted <= 0 ==> (r matches Err((404, e)) && e.Error@ == "Ticket not found"@),
{
    if Deleted > 0 {
        Ok(204)
    } else {
        Err((404, ErrorResponse { Error: "Ticket not found".to_string() }))
    }
}

/// Law of a valid configuration: the region a request's ticket is filed under is
/// always one of the valid regions.
pub proof fn lemma_resolved_region_is_valid(c: ConfigurationView, requested: Option<Seq<char>>)
    requires configuration_error(c) is None,
    ensures c.ValidRegions.contains(resolved_region(c, requested)),
{
}

/// The answer to a status request for the ticket `TicketId`, whose stored form is
/// `Ticket`, at `CurrentTimestamp`, with its place in the queue if it has one. The expected wait is float arithmetic, computed by
/// the caller and handed over.
pub fn TicketStatusReport(
    TicketId: u128,
    Ticket: &MatchmakingTicket,
    QueuePosition: Option<usize>,
    CurrentTimestamp: i64,
    EstimatedWaitSeconds: Option<i64>,
) -> (r: TicketStatusResponse)
    ensures
        r.TicketId == TicketId,
        Ticket.Status == TicketStatus::Queued ==> r.Status@ == "queued"@,
        Ticket.Status == TicketStatus::Matched ==> r.Status@ == "matched"@,
        r.QueuePosition == QueuePosition,
        r.WaitTimeSeconds == saturating_difference(CurrentTimestamp, Ticket.SubmittedTimestamp),
        r.ExpansionLevel == Ticket.SearchExpansionLevel,
        r.EstimatedWaitSeconds == EstimatedWaitSeconds,
{
    TicketStatusResponse {
        TicketId,
        Status: TicketStatusLabel(Ticket.Status),
        QueuePosition,
        WaitTimeSeconds: WaitTimeSeconds(CurrentTimestamp, Ticket.SubmittedTimestamp),
        ExpansionLevel: Ticket.SearchExpansionLevel,
        EstimatedWaitSeconds,
    }
}

/// The name of a ticket status in answers.
pub fn TicketStatusLabel(Status: TicketStatus) -> (r: String)
    ensures
        Status == TicketStatus::Queued ==> r@ == "queued"@,
        Status == TicketStatus::Matched ==> r@ == "matched"@,
{
    match Status {
        TicketStatus::Queued => "queued".to_string(),
        TicketStatus::Matched => "matched".to_string(),
    }
}

} // verus!
