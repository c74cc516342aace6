use matchmaker::configuration::{GetStandardConfiguration, ConfigurationSettings};
use matchmaker::matchmaker::Matchmaker;
use matchmaker::numbers::Real;
use matchmaker::types::{GameMode, MatchmakingTicket, PartyMember, TicketStatus};

fn rating_of(x: f64) -> Real {
    let bits = x.to_bits();
    let magnitude = (bits & 0x7FFF_FFFF_FFFF_FFFF) as i64;
    if bits >> 63 == 1 { Real::Ordered(-magnitude) } else { Real::Ordered(magnitude) }
}

fn float_of(r: Real) -> f64 {
    match r {
        Real::NotANumber => f64::NAN,
        Real::Ordered(k) if k < 0 => f64::from_bits(k.unsigned_abs() | 0x8000_0000_0000_0000),
        Real::Ordered(k) => f64::from_bits(k as u64),
    }
}

/// The window of the standard settings: 100 plus 50 a level, at most 500, around the average.
fn widen(average: Real, level: u32) -> (Real, Real) {
    let range = (100.0 + 50.0 * level as f64).min(500.0);
    (rating_of(float_of(average) - range), rating_of(float_of(average) + range))
}

fn matchmaker() -> Matchmaker {
    let settings = ConfigurationSettings {
        MinimumPlayersPerMatch: 1,
        MaximumPlayersPerMatch: 12,
        MaximumPartySize: 4,
        InitialMatchmakingRatingRange: rating_of(100.0),
        MatchmakingRatingExpansionPerLevel: rating_of(50.0),
        MaximumMatchmakingRatingRange: rating_of(500.0),
        MatchmakerTickRateSeconds: 5,
        SearchExpansionIntervalSeconds: 30,
        RobloxUniverseId: "1".to_string(),
        RobloxApiKey: "k".to_string(),
        RobloxTopic: "t".to_string(),
        ServerAuthSecret: "s".to_string(),
        MinimumRating: rating_of(0.0),
        MaximumRating: rating_of(10000.0),
        DefaultRegion: "Europe".to_string(),
        TicketTtlSeconds: 300,
        RatingBucketSize: rating_of(100.0),
    };
    Matchmaker::new(GetStandardConfiguration(settings).unwrap())
}

fn ticket(id: u128, region: &str, submitted: i64) -> MatchmakingTicket {
    MatchmakingTicket {
        TicketId: id,
        Members: vec![PartyMember { PlayerId: 7, PlayerName: "p".to_string(), MatchmakingRating: rating_of(1500.0) }],
        AverageMatchmakingRating: rating_of(1500.0),
        PreferredRegion: region.to_string(),
        AllowedRegions: vec![region.to_string()],
        SubmittedTimestamp: submitted,
        SearchExpansionLevel: 0,
        MinimumMatchmakingRating: rating_of(1400.0),
        MaximumMatchmakingRating: rating_of(1600.0),
        Status: TicketStatus::Queued,
        GameMode: GameMode::default(),
        Priority: 0,
    }
}

#[test]
fn levels_follow_whole_intervals_waited() {
    let m = matchmaker();
    let mut tickets = vec![ticket(1, "Europe", 1000), ticket(2, "Europe", 1000 - 29), ticket(3, "Europe", 1000 - 65)];
    m.ExpandTicketsAt(&mut tickets, 1000, widen);
    assert_eq!(tickets[0].SearchExpansionLevel, 0);
    assert_eq!(tickets[1].SearchExpansionLevel, 0);
    assert_eq!(tickets[2].SearchExpansionLevel, 2);
    // Only the expanded ticket gets the window of its new level.
    assert_eq!(tickets[1].MinimumMatchmakingRating, rating_of(1400.0));
    assert_eq!(tickets[1].MaximumMatchmakingRating, rating_of(1600.0));
    assert_eq!(tickets[2].MinimumMatchmakingRating, rating_of(1300.0));
    assert_eq!(tickets[2].MaximumMatchmakingRating, rating_of(1700.0));
}

#[test]
fn close_valid_regions_are_allowed_from_level_two() {
    let m = matchmaker();
    let mut tickets = vec![ticket(1, "Europe", 1000 - 30), ticket(2, "Europe", 1000 - 60), ticket(3, "Oceania", 1000 - 90)];
    m.ExpandTicketsAt(&mut tickets, 1000, widen);
    assert_eq!(tickets[0].SearchExpansionLevel, 1);
    assert_eq!(tickets[0].AllowedRegions, vec!["Europe"]);
    assert_eq!(tickets[1].AllowedRegions, vec!["Europe", "Asia"]);
    assert_eq!(tickets[2].SearchExpansionLevel, 3);
    assert_eq!(tickets[2].AllowedRegions, vec!["Oceania", "Asia"]);
}

#[test]
fn invalid_close_regions_are_not_allowed() {
    let mut m = matchmaker();
    m.Configuration.ValidRegions = vec!["Europe".to_string()];
    let mut tickets = vec![ticket(1, "Europe", 0)];
    m.ExpandTicketsAt(&mut tickets, 1000, widen);
    assert_eq!(tickets[0].AllowedRegions, vec!["Europe"]);
}

#[test]
fn a_region_already_allowed_is_not_repeated() {
    let m = matchmaker();
    let mut t = ticket(1, "Europe", 0);
    t.AllowedRegions.push("Asia".to_string());
    let mut tickets = vec![t];
    m.ExpandTicketsAt(&mut tickets, 1000, widen);
    assert_eq!(tickets[0].AllowedRegions, vec!["Europe", "Asia"]);
}

#[test]
fn levels_are_capped_and_never_lowered() {
    let m = matchmaker();
    let mut old = ticket(1, "Europe", 0);
    old.SearchExpansionLevel = 7;
    let mut tickets = vec![ticket(2, "Europe", -1_000_000), old];
    m.ExpandTicketsAt(&mut tickets, 100, widen);
    assert_eq!(tickets[0].SearchExpansionLevel, 100);
    assert_eq!(tickets[1].SearchExpansionLevel, 7);
}

#[test]
fn a_ticket_from_the_future_reaches_the_cap() {
    let m = matchmaker();
    let mut tickets = vec![ticket(1, "Europe", 1000 + 30), ticket(2, "Europe", 1000 + 10)];
    m.ExpandTicketsAt(&mut tickets, 1000, widen);
    // A negative count of intervals does not fit a u32 and gives the cap; less than one
    // interval in the future rounds to zero.
    assert_eq!(tickets[0].SearchExpansionLevel, 100);
    assert_eq!(tickets[1].SearchExpansionLevel, 0);
}

#[test]
fn expanding_twice_at_the_same_time_changes_nothing() {
    let m = matchmaker();
    let mut tickets = vec![ticket(1, "Europe", 0), ticket(2, "NorthAmerica", 900)];
    m.ExpandTicketsAt(&mut tickets, 1000, widen);
    let state = |tickets: &Vec<MatchmakingTicket>| -> Vec<(u32, Vec<String>, Real, Real)> {
        tickets
            .iter()
            .map(|t| (t.SearchExpansionLevel, t.AllowedRegions.clone(), t.MinimumMatchmakingRating, t.MaximumMatchmakingRating))
            .collect()
    };
    let once = state(&tickets);
    // A second pass with any window changes nothing.
    m.ExpandTicketsAt(&mut tickets, 1000, |_, _| (Real::NotANumber, Real::NotANumber));
    let twice = state(&tickets);
    assert_eq!(once, twice);
    assert_eq!(
        once[1],
        (3, vec!["NorthAmerica".to_string(), "SouthAmerica".to_string()], rating_of(1250.0), rating_of(1750.0))
    );
}

#[test]
fn the_window_is_asked_for_the_average_at_the_new_level() {
    let m = matchmaker();
    let mut tickets = vec![ticket(1, "Europe", 1000 - 90), ticket(2, "Europe", 1000)];
    m.ExpandTicketsAt(&mut tickets, 1000, |average, level| (Real::Ordered(level as i64), average));
    assert_eq!(tickets[0].MinimumMatchmakingRating, Real::Ordered(3));
    assert_eq!(tickets[0].MaximumMatchmakingRating, rating_of(1500.0));
    assert_eq!(tickets[1].MinimumMatchmakingRating, rating_of(1400.0));
}

#[test]
fn the_window_is_capped_at_the_maximum_range() {
    let m = matchmaker();
    let mut tickets = vec![ticket(1, "Europe", 0)];
    m.ExpandTicketsAt(&mut tickets, 1000, widen);
    assert_eq!(tickets[0].SearchExpansionLevel, 33);
    assert_eq!(tickets[0].MinimumMatchmakingRating, rating_of(1000.0));
    assert_eq!(tickets[0].MaximumMatchmakingRating, rating_of(2000.0));
}

#[test]
fn expanding_now_reads_the_clock() {
    let m = matchmaker();
    let mut tickets = vec![ticket(1, "Europe", 0)];
    m.ExpandTickets(&mut tickets, widen);
    assert_eq!(tickets[0].SearchExpansionLevel, 100);
}

#[test]
fn expired_tickets_are_taken_out_in_order() {
    let m = matchmaker();
    let mut tickets = vec![
        ticket(1, "Europe", 1000),
        ticket(2, "Europe", 1000 - 301),
        ticket(3, "Europe", 1000 - 300),
        ticket(4, "Europe", 1000 - 5000),
    ];
    let expired = m.RemoveExpiredTicketsAt(&mut tickets, 1000);
    let expired_ids: Vec<u128> = expired.iter().map(|t| t.TicketId).collect();
    let active_ids: Vec<u128> = tickets.iter().map(|t| t.TicketId).collect();
    assert_eq!(expired_ids, vec![2, 4]);
    assert_eq!(active_ids, vec![1, 3]);
}

#[test]
fn expiry_with_the_clock_keeps_fresh_tickets() {
    let m = matchmaker();
    let mut tickets = vec![ticket(1, "Europe", 0), ticket(2, "Europe", i64::MAX)];
    let expired = m.RemoveExpiredTickets(&mut tickets);
    assert_eq!(expired.len(), 1);
    assert_eq!(expired[0].TicketId, 1);
    assert_eq!(tickets.len(), 1);
    assert_eq!(tickets[0].TicketId, 2);
}

#[test]
fn extreme_timestamps_do_not_overflow() {
    let m = matchmaker();
    let mut tickets = vec![ticket(1, "Europe", i64::MIN)];
    let expired = m.RemoveExpiredTicketsAt(&mut tickets, i64::MAX);
    assert_eq!(expired.len(), 1);
    let mut tickets = vec![ticket(1, "Europe", i64::MIN)];
    m.ExpandTicketsAt(&mut tickets, i64::MAX, widen);
    assert_eq!(tickets[0].SearchExpansionLevel, 100);
}
