use matchmaker::configuration::{
    GetStandardConfiguration, StandardRegionProximityMap, StandardValidRegions, ValidateConfiguration,
    ConfigurationSettings, MatchmakingConfiguration,
};
use matchmaker::numbers::Real;

fn rating_of(x: f64) -> Real {
    if x.is_nan() {
        return Real::NotANumber;
    }
    let bits = x.to_bits();
    let magnitude = (bits & 0x7FFF_FFFF_FFFF_FFFF) as i64;
    if bits >> 63 == 1 { Real::Ordered(-magnitude) } else { Real::Ordered(magnitude) }
}

fn settings() -> ConfigurationSettings {
    ConfigurationSettings {
        MinimumPlayersPerMatch: 1,
        MaximumPlayersPerMatch: 12,
        MaximumPartySize: 4,
        InitialMatchmakingRatingRange: rating_of(100.0),
        MatchmakingRatingExpansionPerLevel: rating_of(50.0),
        MaximumMatchmakingRatingRange: rating_of(500.0),
        MatchmakerTickRateSeconds: 5,
        SearchExpansionIntervalSeconds: 30,
        RobloxUniverseId: "123".to_string(),
        RobloxApiKey: "key".to_string(),
        RobloxTopic: "GlobalMatchmaking".to_string(),
        ServerAuthSecret: "secret".to_string(),
        MinimumRating: rating_of(0.0),
        MaximumRating: rating_of(10000.0),
        DefaultRegion: "NorthAmerica".to_string(),
        TicketTtlSeconds: 300,
        RatingBucketSize: rating_of(100.0),
    }
}

fn standard() -> MatchmakingConfiguration {
    GetStandardConfiguration(settings()).expect("the defaults are valid")
}

fn error_of(c: &MatchmakingConfiguration) -> String {
    ValidateConfiguration(c).unwrap_err()
}

#[test]
fn standard_configuration_is_valid_and_has_the_standard_regions() {
    let c = standard();
    assert!(ValidateConfiguration(&c).is_ok());
    assert_eq!(c.ValidRegions, vec!["NorthAmerica", "SouthAmerica", "Europe", "Asia", "Oceania"]);
    assert_eq!(c.RegionProximityMap.len(), 5);
    assert_eq!(c.RegionProximityMap[4].0, "Oceania");
    assert_eq!(c.RegionProximityMap[4].1, vec!["Asia".to_string()]);
    assert_eq!(c.MaximumPlayersPerMatch, 12);
    assert_eq!(c.RobloxTopic, "GlobalMatchmaking");
}

#[test]
fn standard_tables() {
    let map = StandardRegionProximityMap();
    assert_eq!(map[0], ("NorthAmerica".to_string(), vec!["SouthAmerica".to_string()]));
    assert_eq!(map[2], ("Europe".to_string(), vec!["Asia".to_string()]));
    assert_eq!(StandardValidRegions().len(), 5);
}

#[test]
fn standard_configuration_refuses_a_default_region_outside_the_table() {
    let mut s = settings();
    s.DefaultRegion = "Antarctica".to_string();
    let err = GetStandardConfiguration(s).unwrap_err();
    assert_eq!(err, "DEFAULT_REGION must be in ValidRegions");
}

#[test]
fn each_rule_has_its_message() {
    let mut c = standard();
    c.RatingBucketSize = rating_of(0.0);
    assert_eq!(error_of(&c), "RATING_BUCKET_SIZE must be greater than 0");

    let mut c = standard();
    c.MinimumPlayersPerMatch = 0;
    assert_eq!(error_of(&c), "MIN_PLAYERS_PER_MATCH must be at least 1");

    let mut c = standard();
    c.MinimumPlayersPerMatch = 13;
    assert_eq!(error_of(&c), "MIN_PLAYERS_PER_MATCH must be <= MAX_PLAYERS_PER_MATCH");

    let mut c = standard();
    c.MaximumPartySize = 13;
    assert_eq!(error_of(&c), "MAX_PARTY_SIZE must be <= MAX_PLAYERS_PER_MATCH");

    let mut c = standard();
    c.MinimumRating = rating_of(20000.0);
    assert_eq!(error_of(&c), "MIN_RATING must be <= MAX_RATING");

    let mut c = standard();
    c.InitialMatchmakingRatingRange = rating_of(-1.0);
    assert_eq!(error_of(&c), "INITIAL_RATING_RANGE must be > 0");

    let mut c = standard();
    c.MatchmakingRatingExpansionPerLevel = rating_of(-0.5);
    assert_eq!(error_of(&c), "RATING_EXPANSION_PER_LEVEL must be >= 0");

    let mut c = standard();
    c.MaximumMatchmakingRatingRange = rating_of(50.0);
    assert_eq!(error_of(&c), "MAX_RATING_RANGE must be >= INITIAL_RATING_RANGE");

    let mut c = standard();
    c.SearchExpansionIntervalSeconds = 0;
    assert_eq!(error_of(&c), "SEARCH_EXPANSION_INTERVAL_SECONDS must be > 0");

    let mut c = standard();
    c.MatchmakerTickRateSeconds = 0;
    assert_eq!(error_of(&c), "MATCHMAKER_TICK_RATE_SECONDS must be > 0");

    let mut c = standard();
    c.TicketTtlSeconds = -5;
    assert_eq!(error_of(&c), "TICKET_TTL_SECONDS must be > 0");

    let mut c = standard();
    c.ValidRegions = Vec::new();
    assert_eq!(error_of(&c), "ValidRegions cannot be empty");

    let mut c = standard();
    c.DefaultRegion = "Mars".to_string();
    assert_eq!(error_of(&c), "DEFAULT_REGION must be in ValidRegions");

    let mut c = standard();
    c.ServerAuthSecret = String::new();
    assert_eq!(error_of(&c), "SERVER_AUTH_SECRET cannot be empty");

    let mut c = standard();
    c.RobloxApiKey = String::new();
    assert_eq!(error_of(&c), "ROBLOX_API_KEY cannot be empty");

    let mut c = standard();
    c.RobloxUniverseId = String::new();
    assert_eq!(error_of(&c), "ROBLOX_UNIVERSE_ID cannot be empty");
}

#[test]
fn the_first_broken_rule_is_reported() {
    let mut c = standard();
    c.RobloxUniverseId = String::new();
    c.MinimumPlayersPerMatch = 0;
    assert_eq!(error_of(&c), "MIN_PLAYERS_PER_MATCH must be at least 1");
}

#[test]
fn a_bucket_size_that_is_not_a_number_passes_as_with_floats() {
    let mut c = standard();
    c.RatingBucketSize = Real::NotANumber;
    assert!(ValidateConfiguration(&c).is_ok());
    c.RatingBucketSize = rating_of(-0.0);
    assert_eq!(error_of(&c), "RATING_BUCKET_SIZE must be greater than 0");
}

#[test]
fn a_zero_expansion_and_equal_ranges_are_accepted() {
    let mut c = standard();
    c.MatchmakingRatingExpansionPerLevel = rating_of(0.0);
    c.MaximumMatchmakingRatingRange = rating_of(100.0);
    c.MinimumRating = rating_of(10000.0);
    assert!(ValidateConfiguration(&c).is_ok());
}
