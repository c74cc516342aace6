use matchmaker::buckets::{BuildRatingBucketsForMode, RatingBucketRange};
use matchmaker::configuration::{GetStandardConfiguration, ConfigurationSettings};
use matchmaker::matchmaker::Matchmaker;
use matchmaker::numbers::Real;
use matchmaker::types::{GameMode, MatchmakingTicket, PartyMember, TicketStatus};

fn rating_of(x: f64) -> Real {
    let bits = x.to_bits();
    let magnitude = (bits & 0x7FFF_FFFF_FFFF_FFFF) as i64;
    if bits >> 63 == 1 { Real::Ordered(-magnitude) } else { Real::Ordered(magnitude) }
}

fn matchmaker() -> Matchmaker {
    let settings = ConfigurationSettings {
        MinimumPlayersPerMatch: 1,
        MaximumPlayersPerMatch: 12,
        MaximumPartySize: 4,
        InitialMatchmakingRatingRange: rating_of(100.0),
        MatchmakingRatingExpansionPerLevel: rating_of(50.0),
        MaximumMatchmakingRatingRange: rating_of(500.0),
        MatchmakerTickRateSeconds: 5,
        SearchExpansionIntervalSeconds: 30,
        RobloxUniverseId: "1".to_string(),
        RobloxApiKey: "k".to_string(),
        RobloxTopic: "t".to_string(),
        ServerAuthSecret: "s".to_string(),
        MinimumRating: rating_of(0.0),
        MaximumRating: rating_of(10000.0),
        DefaultRegion: "Europe".to_string(),
        TicketTtlSeconds: 300,
        RatingBucketSize: rating_of(100.0),
    };
    Matchmaker::new(GetStandardConfiguration(settings).unwrap())
}

fn mode(name: &str, min: u32, max: u32) -> GameMode {
    GameMode { Name: name.to_string(), MinPlayers: min, MaxPlayers: max }
}

fn ticket(id: u128, players: u64, rating: f64, region: &str, game_mode: GameMode) -> MatchmakingTicket {
    let members = (0..players)
        .map(|k| PartyMember { PlayerId: id as u64 * 100 + k + 1, PlayerName: format!("p{}", k), MatchmakingRating: rating_of(rating) })
        .collect();
    MatchmakingTicket {
        TicketId: id,
        Members: members,
        AverageMatchmakingRating: rating_of(rating),
        PreferredRegion: region.to_string(),
        AllowedRegions: vec![region.to_string()],
        SubmittedTimestamp: 1000,
        SearchExpansionLevel: 0,
        MinimumMatchmakingRating: rating_of(rating - 100.0),
        MaximumMatchmakingRating: rating_of(rating + 100.0),
        Status: TicketStatus::Queued,
        GameMode: game_mode,
        Priority: 0,
    }
}

/// The buckets of a window of bucket size 100, as the application computes them.
fn buckets(tickets: &[MatchmakingTicket], ratings: &[f64]) -> Vec<RatingBucketRange> {
    assert_eq!(tickets.len(), ratings.len());
    ratings
        .iter()
        .map(|r| RatingBucketRange {
            MinBucket: ((r - 100.0) / 100.0).floor() as i64,
            MaxBucket: ((r + 100.0) / 100.0).floor() as i64,
        })
        .collect()
}

fn ids(matches: &[Vec<MatchmakingTicket>]) -> Vec<Vec<u128>> {
    matches.iter().map(|g| g.iter().map(|t| t.TicketId).collect()).collect()
}

#[test]
fn game_mode_validation() {
    assert!(Matchmaker::ValidateGameMode(&mode("Duel", 2, 2)));
    assert!(Matchmaker::ValidateGameMode(&GameMode::default()));
    assert!(!Matchmaker::ValidateGameMode(&mode("Duel", 0, 2)));
    assert!(!Matchmaker::ValidateGameMode(&mode("Duel", 3, 2)));
    assert!(!Matchmaker::ValidateGameMode(&mode("", 1, 2)));
}

#[test]
fn defaults() {
    let m = GameMode::default();
    assert_eq!(m.Name, "FreeForAll");
    assert_eq!((m.MinPlayers, m.MaxPlayers), (1, 12));
    assert_eq!(TicketStatus::default(), TicketStatus::Queued);
}

#[test]
fn buckets_hold_each_position_under_each_bucket_of_its_range() {
    let ranges = vec![
        RatingBucketRange { MinBucket: 0, MaxBucket: 2 },
        RatingBucketRange { MinBucket: 2, MaxBucket: 3 },
        RatingBucketRange { MinBucket: 5, MaxBucket: 4 },
    ];
    let map = BuildRatingBucketsForMode(&ranges);
    assert_eq!(map.get(&0), Some(&vec![0]));
    assert_eq!(map.get(&2), Some(&vec![0, 1]));
    assert_eq!(map.get(&3), Some(&vec![1]));
    assert_eq!(map.get(&4), None);
    assert_eq!(map.get(&5), None);
    assert_eq!(map.len(), 4);
}

#[test]
fn buckets_span_at_most_a_thousand_and_one() {
    let ranges = vec![RatingBucketRange { MinBucket: i64::MAX - 5, MaxBucket: i64::MAX }];
    let map = BuildRatingBucketsForMode(&ranges);
    assert_eq!(map.len(), 6);
    let ranges = vec![RatingBucketRange { MinBucket: -10, MaxBucket: 5000 }];
    let map = BuildRatingBucketsForMode(&ranges);
    assert_eq!(map.len(), 1001);
    assert!(map.contains_key(&990));
    assert!(!map.contains_key(&991));
}

#[test]
fn two_close_parties_in_one_region_are_matched() {
    let m = matchmaker();
    let duel = || mode("Duel", 2, 2);
    let tickets = vec![ticket(1, 1, 1500.0, "Europe", duel()), ticket(2, 1, 1550.0, "Europe", duel())];
    let b = buckets(&tickets, &[1500.0, 1550.0]);
    let matches = m.FindMatches(&tickets, &b);
    assert_eq!(ids(&matches), vec![vec![1, 2]]);
    assert_eq!(matches[0][1].Members.len(), 1);
    assert_eq!(matches[0][1].MinimumMatchmakingRating, rating_of(1450.0));
    let matched = m.GetMatchedTicketIds(&matches);
    assert!(matched.contains(&1) && matched.contains(&2) && matched.len() == 2);
}

#[test]
fn distant_ratings_are_not_matched() {
    let m = matchmaker();
    let duel = || mode("Duel", 2, 2);
    let tickets = vec![ticket(1, 1, 1000.0, "Europe", duel()), ticket(2, 1, 1300.0, "Europe", duel())];
    let b = buckets(&tickets, &[1000.0, 1300.0]);
    assert!(m.FindMatches(&tickets, &b).is_empty());
}

#[test]
fn touching_windows_are_compatible() {
    let m = matchmaker();
    let duel = || mode("Duel", 2, 2);
    let tickets = vec![ticket(1, 1, 1000.0, "Europe", duel()), ticket(2, 1, 1200.0, "Europe", duel())];
    let b = buckets(&tickets, &[1000.0, 1200.0]);
    assert_eq!(ids(&m.FindMatches(&tickets, &b)), vec![vec![1, 2]]);
}

#[test]
fn parties_without_a_common_region_are_not_matched() {
    let m = matchmaker();
    let duel = || mode("Duel", 2, 2);
    let tickets = vec![ticket(1, 1, 1500.0, "Europe", duel()), ticket(2, 1, 1500.0, "Asia", duel())];
    let b = buckets(&tickets, &[1500.0, 1500.0]);
    assert!(m.FindMatches(&tickets, &b).is_empty());
}

#[test]
fn game_modes_are_matched_apart_in_order_of_first_appearance() {
    let m = matchmaker();
    let duel = || mode("Duel", 2, 2);
    let solo = || mode("Solo", 1, 1);
    let tickets = vec![
        ticket(1, 1, 1500.0, "Europe", solo()),
        ticket(2, 1, 1500.0, "Europe", duel()),
        ticket(3, 1, 1500.0, "Europe", solo()),
        ticket(4, 1, 1500.0, "Europe", duel()),
    ];
    let b = buckets(&tickets, &[1500.0; 4]);
    let groups = m.GroupByGameMode(&tickets);
    assert_eq!(groups, vec![vec![0, 2], vec![1, 3]]);
    assert_eq!(ids(&m.FindMatches(&tickets, &b)), vec![vec![1], vec![3], vec![2, 4]]);
}

#[test]
fn a_match_stops_at_the_maximum_and_leftovers_form_the_next() {
    let m = matchmaker();
    let trio = || mode("Trio", 2, 3);
    let tickets = vec![
        ticket(1, 1, 1500.0, "Europe", trio()),
        ticket(2, 2, 1500.0, "Europe", trio()),
        ticket(3, 1, 1500.0, "Europe", trio()),
        ticket(4, 1, 1500.0, "Europe", trio()),
    ];
    let b = buckets(&tickets, &[1500.0; 4]);
    // The first ticket takes the party of two (3 players, full); then 3 and 4 pair up.
    assert_eq!(ids(&m.FindMatches(&tickets, &b)), vec![vec![1, 2], vec![3, 4]]);
}

#[test]
fn a_party_larger_than_the_maximum_is_matched_alone() {
    let m = matchmaker();
    let duel = || mode("Duel", 2, 2);
    let tickets = vec![ticket(1, 3, 1500.0, "Europe", duel()), ticket(2, 1, 1500.0, "Europe", duel())];
    let b = buckets(&tickets, &[1500.0, 1500.0]);
    assert_eq!(ids(&m.FindMatches(&tickets, &b)), vec![vec![1]]);
}

#[test]
fn groups_below_the_minimum_are_dropped() {
    let m = matchmaker();
    let squad = || mode("Squad", 4, 4);
    let tickets = vec![ticket(1, 1, 1500.0, "Europe", squad()), ticket(2, 2, 1500.0, "Europe", squad())];
    let b = buckets(&tickets, &[1500.0, 1500.0]);
    assert!(m.FindMatches(&tickets, &b).is_empty());
}

#[test]
fn an_invalid_mode_or_bucket_size_yields_no_match() {
    let mut m = matchmaker();
    let bad = || mode("", 1, 2);
    let tickets = vec![ticket(1, 1, 1500.0, "Europe", bad()), ticket(2, 1, 1500.0, "Europe", bad())];
    let b = buckets(&tickets, &[1500.0, 1500.0]);
    assert!(m.FindMatches(&tickets, &b).is_empty());
    let duel = || mode("Duel", 2, 2);
    let tickets = vec![ticket(1, 1, 1500.0, "Europe", duel()), ticket(2, 1, 1500.0, "Europe", duel())];
    m.Configuration.RatingBucketSize = rating_of(0.0);
    assert!(m.FindMatches(&tickets, &b).is_empty());
    assert!(m.FindMatches(&[], &[]).is_empty());
}

#[test]
fn a_ticket_id_is_matched_once() {
    let m = matchmaker();
    let duel = || mode("Duel", 2, 2);
    // The third ticket repeats the first one's id: once the first is matched, it is skipped.
    let tickets = vec![
        ticket(1, 1, 1500.0, "Europe", duel()),
        ticket(2, 1, 1500.0, "Europe", duel()),
        ticket(1, 1, 1500.0, "Europe", duel()),
        ticket(4, 1, 1500.0, "Europe", duel()),
    ];
    let b = buckets(&tickets, &[1500.0; 4]);
    assert_eq!(ids(&m.FindMatches(&tickets, &b)), vec![vec![1, 2]]);
}

#[test]
fn candidates_come_bucket_by_bucket() {
    let m = matchmaker();
    let trio = || mode("Trio", 2, 2);
    // Base window spans buckets 9..=11; the ticket at 1150 is filed under 10..=12
    // and the one at 1050 under 9..=11, so the latter is met first (bucket 9).
    let tickets = vec![
        ticket(1, 1, 1000.0, "Europe", trio()),
        ticket(2, 1, 1150.0, "Europe", trio()),
        ticket(3, 1, 1050.0, "Europe", trio()),
    ];
    let b = buckets(&tickets, &[1000.0, 1150.0, 1050.0]);
    assert_eq!(ids(&m.FindMatches(&tickets, &b)), vec![vec![1, 3]]);
}

#[test]
fn compatibility_does_not_depend_on_order() {
    let m = matchmaker();
    let duel = || mode("Duel", 2, 2);
    let mut narrow = ticket(1, 1, 1500.0, "Europe", duel());
    narrow.MinimumMatchmakingRating = rating_of(1590.0);
    narrow.MaximumMatchmakingRating = rating_of(1600.0);
    let wide = ticket(2, 1, 1500.0, "Europe", duel());
    let b = vec![RatingBucketRange { MinBucket: 15, MaxBucket: 16 }, RatingBucketRange { MinBucket: 14, MaxBucket: 16 }];
    let forward = vec![narrow.Duplicate(), wide.Duplicate()];
    assert_eq!(ids(&m.FindMatches(&forward, &b)), vec![vec![1, 2]]);
    let backward = vec![wide, narrow];
    let b2 = vec![b[1], b[0]];
    assert_eq!(ids(&m.FindMatches(&backward, &b2)), vec![vec![2, 1]]);
}

#[test]
fn a_ticket_sharing_a_bucket_joins_unless_it_would_overflow() {
    let m = matchmaker();
    let trio = || mode("Trio", 2, 3);
    // Ticket 2 (two players) would take ticket 1's group past three; ticket 3 still fits.
    // Ticket 2 then reaches the minimum of two on its own.
    let tickets = vec![
        ticket(1, 2, 1500.0, "Europe", trio()),
        ticket(2, 2, 1500.0, "Europe", trio()),
        ticket(3, 1, 1500.0, "Europe", trio()),
    ];
    let b = buckets(&tickets, &[1500.0, 1500.0, 1500.0]);
    assert_eq!(ids(&m.FindMatches(&tickets, &b)), vec![vec![1, 3], vec![2]]);
    // A ticket filed under no bucket of the base's is not a candidate, however close.
    let far = vec![RatingBucketRange { MinBucket: 14, MaxBucket: 16 }, RatingBucketRange { MinBucket: 30, MaxBucket: 31 }];
    let pair = vec![ticket(4, 1, 1500.0, "Europe", mode("Duel", 2, 2)), ticket(5, 1, 1500.0, "Europe", mode("Duel", 2, 2))];
    assert!(m.FindMatches(&pair, &far).is_empty());
}
