use matchmaker::auth::{AuthorizeRequest, ConstantTimeCompare, ApiKeyHeader};
use matchmaker::configuration::{GetStandardConfiguration, ConfigurationSettings, MatchmakingConfiguration};
use matchmaker::numbers::{Real, INFINITY_KEY};
use matchmaker::service::{
    CancelTicketOutcome, CreateTicket, CreateTicketAt, HealthCheckResponse, RateLimitRefusal, ResolvePreferredRegion, TicketStatusLabel, TicketStatusReport,
    ValidateSubmitTicketRequest, SubmitTicketError,
};
use matchmaker::queue::MarkMatched;
use matchmaker::types::{GameMode, PartyMember, SubmitTicketRequest, TicketStatus};

fn rating_of(x: f64) -> Real {
    if x.is_nan() {
        return Real::NotANumber;
    }
    let bits = x.to_bits();
    let magnitude = (bits & 0x7FFF_FFFF_FFFF_FFFF) as i64;
    if bits >> 63 == 1 { Real::Ordered(-magnitude) } else { Real::Ordered(magnitude) }
}

fn configuration() -> MatchmakingConfiguration {
    let settings = ConfigurationSettings {
        MinimumPlayersPerMatch: 1,
        MaximumPlayersPerMatch: 12,
        MaximumPartySize: 4,
        InitialMatchmakingRatingRange: rating_of(100.0),
        MatchmakingRatingExpansionPerLevel: rating_of(50.0),
        MaximumMatchmakingRatingRange: rating_of(500.0),
        MatchmakerTickRateSeconds: 5,
        SearchExpansionIntervalSeconds: 30,
        RobloxUniverseId: "1".to_string(),
        RobloxApiKey: "k".to_string(),
        RobloxTopic: "t".to_string(),
        ServerAuthSecret: "s".to_string(),
        MinimumRating: rating_of(0.0),
        MaximumRating: rating_of(10000.0),
        DefaultRegion: "NorthAmerica".to_string(),
        TicketTtlSeconds: 300,
        RatingBucketSize: rating_of(100.0),
    };
    GetStandardConfiguration(settings).unwrap()
}

fn member(id: u64, name: &str, rating: f64) -> PartyMember {
    PartyMember { PlayerId: id, PlayerName: name.to_string(), MatchmakingRating: rating_of(rating) }
}

fn request(members: Vec<PartyMember>) -> SubmitTicketRequest {
    SubmitTicketRequest { Members: members, PreferredRegion: Some("Europe".to_string()), GameMode: None, Priority: 0 }
}

#[test]
fn regions_resolve_to_valid_ones() {
    let c = configuration();
    assert_eq!(ResolvePreferredRegion(&c, &Some("Asia".to_string())), "Asia");
    assert_eq!(ResolvePreferredRegion(&c, &Some("Atlantis".to_string())), "NorthAmerica");
    assert_eq!(ResolvePreferredRegion(&c, &None), "NorthAmerica");
}

#[test]
fn a_good_request_is_accepted() {
    let c = configuration();
    let r = request(vec![member(1, "a", 1500.0), member(2, "b", 0.0), member(3, "c", 10000.0)]);
    assert_eq!(ValidateSubmitTicketRequest(&c, &r), Ok(()));
}

#[test]
fn each_refusal_of_a_request() {
    let c = configuration();
    assert_eq!(ValidateSubmitTicketRequest(&c, &request(vec![])), Err(SubmitTicketError::EmptyParty));
    let five = (1..=5).map(|k| member(k, "x", 1.0)).collect();
    assert_eq!(ValidateSubmitTicketRequest(&c, &request(five)), Err(SubmitTicketError::PartyTooLarge(4)));
    let r = request(vec![member(1, "a", 1.0), member(0, "b", 1.0)]);
    assert_eq!(ValidateSubmitTicketRequest(&c, &r), Err(SubmitTicketError::InvalidPlayerId(1)));
    let r = request(vec![member(1, "", 1.0)]);
    assert_eq!(ValidateSubmitTicketRequest(&c, &r), Err(SubmitTicketError::EmptyPlayerName(0)));
    let r = request(vec![member(1, "a", f64::NAN)]);
    assert_eq!(ValidateSubmitTicketRequest(&c, &r), Err(SubmitTicketError::NonFiniteRating));
    let r = request(vec![member(1, "a", f64::INFINITY)]);
    assert_eq!(ValidateSubmitTicketRequest(&c, &r), Err(SubmitTicketError::NonFiniteRating));
    assert_eq!(rating_of(f64::NEG_INFINITY), Real::Ordered(-INFINITY_KEY));
    let r = request(vec![member(1, "a", 10000.5)]);
    assert_eq!(ValidateSubmitTicketRequest(&c, &r), Err(SubmitTicketError::RatingOutOfRange));
    let r = request(vec![member(1, "a", -0.5)]);
    assert_eq!(ValidateSubmitTicketRequest(&c, &r), Err(SubmitTicketError::RatingOutOfRange));
    let mut r = request(vec![member(1, "a", 5.0)]);
    r.GameMode = Some(GameMode { Name: "Duel".to_string(), MinPlayers: 3, MaxPlayers: 2 });
    assert_eq!(ValidateSubmitTicketRequest(&c, &r), Err(SubmitTicketError::InvalidGameMode));
    let mut r = request(vec![member(1, "a", 5.0)]);
    r.Priority = 10001;
    assert_eq!(ValidateSubmitTicketRequest(&c, &r), Err(SubmitTicketError::PriorityTooHigh));
    r.Priority = 10000;
    assert_eq!(ValidateSubmitTicketRequest(&c, &r), Ok(()));
}

#[test]
fn the_first_bad_member_is_reported() {
    let c = configuration();
    let r = request(vec![member(1, "a", 1.0), member(2, "", 1.0), member(0, "c", 1.0)]);
    assert_eq!(ValidateSubmitTicketRequest(&c, &r), Err(SubmitTicketError::EmptyPlayerName(1)));
}

#[test]
fn a_new_ticket_is_queued_in_its_region() {
    let c = configuration();
    let mut r = request(vec![member(1, "a", 1500.0)]);
    r.PreferredRegion = Some("Narnia".to_string());
    r.Priority = 9;
    let t = CreateTicket(&c, r, rating_of(1500.0), rating_of(1400.0), rating_of(1600.0));
    assert_eq!(t.PreferredRegion, "NorthAmerica");
    assert_eq!(t.AllowedRegions, vec!["NorthAmerica"]);
    assert_eq!(t.Status, TicketStatus::Queued);
    assert_eq!(t.SearchExpansionLevel, 0);
    assert_eq!(t.GameMode.Name, "FreeForAll");
    assert_eq!(t.Priority, 9);
    assert_eq!(t.Members.len(), 1);
    assert_eq!(t.MinimumMatchmakingRating, rating_of(1400.0));
    assert!(t.SubmittedTimestamp > 1_600_000_000);
    let u = CreateTicket(&c, request(vec![member(2, "b", 1.0)]), rating_of(1.0), rating_of(0.0), rating_of(2.0));
    assert_ne!(t.TicketId, u.TicketId);
    assert_eq!(u.PreferredRegion, "Europe");
}

#[test]
fn health_answers() {
    let (code, body) = HealthCheckResponse(true);
    assert_eq!((code, body.Status.as_str(), body.RedisConnected), (200, "healthy", true));
    let (code, body) = HealthCheckResponse(false);
    assert_eq!((code, body.Status.as_str(), body.RedisConnected), (503, "degraded", false));
}

#[test]
fn cancellation_answers() {
    assert_eq!(CancelTicketOutcome(1).unwrap(), 204);
    let (code, body) = CancelTicketOutcome(0).unwrap_err();
    assert_eq!((code, body.Error.as_str()), (404, "Ticket not found"));
}

#[test]
fn status_labels() {
    assert_eq!(TicketStatusLabel(TicketStatus::Queued), "queued");
    assert_eq!(TicketStatusLabel(TicketStatus::Matched), "matched");
}

#[test]
fn constant_time_compare_is_equality() {
    assert!(ConstantTimeCompare("secret", "secret"));
    assert!(!ConstantTimeCompare("secret", "secreT"));
    assert!(!ConstantTimeCompare("secret", "secrets"));
    assert!(ConstantTimeCompare("", ""));
}

#[test]
fn authorization_decisions() {
    let e = AuthorizeRequest(&ApiKeyHeader::Missing, "s").unwrap_err();
    assert_eq!(e.Error, "Missing X-Api-Key header");
    let e = AuthorizeRequest(&ApiKeyHeader::Unreadable, "s").unwrap_err();
    assert_eq!(e.Error, "Invalid X-Api-Key header encoding");
    let e = AuthorizeRequest(&ApiKeyHeader::Present("t".to_string()), "s").unwrap_err();
    assert_eq!(e.Error, "Invalid API key");
    assert!(AuthorizeRequest(&ApiKeyHeader::Present("s".to_string()), "s").is_ok());
}

#[test]
fn status_report_of_a_stored_ticket() {
    let c = configuration();
    let t = CreateTicket(&c, request(vec![member(1, "a", 1500.0)]), rating_of(1500.0), rating_of(1400.0), rating_of(1600.0));
    let now = t.SubmittedTimestamp + 42;
    let report = TicketStatusReport(t.TicketId, &t, Some(3), now, Some(90));
    assert_eq!(report.TicketId, t.TicketId);
    assert_eq!(report.Status, "queued");
    assert_eq!(report.QueuePosition, Some(3));
    assert_eq!(report.WaitTimeSeconds, 42);
    assert_eq!(report.ExpansionLevel, 0);
    assert_eq!(report.EstimatedWaitSeconds, Some(90));
    let matched = MarkMatched(&t);
    let report = TicketStatusReport(77, &matched, None, i64::MIN, None);
    assert_eq!(report.TicketId, 77);
    assert_eq!(report.Status, "matched");
    assert_eq!(report.QueuePosition, None);
    assert_eq!(report.WaitTimeSeconds, i64::MIN);
    assert_eq!(report.EstimatedWaitSeconds, None);
}

#[test]
fn rate_limit_refusals() {
    let (code, body) = RateLimitRefusal(false, true, "Europe").unwrap();
    assert_eq!((code, body.Error.as_str()), (429, "Global rate limit exceeded. Try again later."));
    let (code, body) = RateLimitRefusal(false, false, "Europe").unwrap();
    assert_eq!((code, body.Error.as_str()), (429, "Global rate limit exceeded. Try again later."));
    let (code, body) = RateLimitRefusal(true, false, "Europe").unwrap();
    assert_eq!((code, body.Error.as_str()), (429, "Regional rate limit exceeded for Europe. Try again later."));
    assert!(RateLimitRefusal(true, true, "Europe").is_none());
}

#[test]
fn a_ticket_made_at_a_given_time_under_a_given_id() {
    let c = configuration();
    let mut r = request(vec![member(1, "a", 1500.0), member(2, "b", 1700.0)]);
    r.GameMode = Some(GameMode { Name: "Duel".to_string(), MinPlayers: 2, MaxPlayers: 2 });
    r.Priority = 4;
    let t = CreateTicketAt(&c, r, rating_of(1600.0), rating_of(1500.0), rating_of(1700.0), 0xABCD, 1_700_000_123);
    assert_eq!(t.TicketId, 0xABCD);
    assert_eq!(t.SubmittedTimestamp, 1_700_000_123);
    assert_eq!(t.PreferredRegion, "Europe");
    assert_eq!(t.AllowedRegions, vec!["Europe"]);
    assert_eq!(t.Members.len(), 2);
    assert_eq!(t.Members[1].PlayerId, 2);
    assert_eq!(t.AverageMatchmakingRating, rating_of(1600.0));
    assert_eq!(t.MaximumMatchmakingRating, rating_of(1700.0));
    assert_eq!(t.GameMode.Name, "Duel");
    assert_eq!((t.GameMode.MinPlayers, t.GameMode.MaxPlayers), (2, 2));
    assert_eq!(t.Priority, 4);
    assert_eq!(t.SearchExpansionLevel, 0);
    assert_eq!(t.Status, TicketStatus::Queued);
}
