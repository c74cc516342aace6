use vstd::prelude::*;

use crate::matchmaker::proximity_lookup;
use crate::numbers::Real;
use crate::types::{string_views, ContainsRegion};

verus! {

/// The neighbours of a region, whose tickets a patient ticket may join.
pub type RegionProximity = (String, Vec<String>);

/// The settings of the matchmaker.
#[derive(Debug)]
pub struct MatchmakingConfiguration {
    pub MinimumPlayersPerMatch: u32,
    pub MaximumPlayersPerMatch: u32,
    pub MaximumPartySize: u32,
    pub InitialMatchmakingRatingRange: Real,
    pub MatchmakingRatingExpansionPerLevel: Real,
    pub MaximumMatchmakingRatingRange: Real,
    /// For each region, the regions close to it; a region is listed at most once.
    pub RegionProximityMap: Vec<RegionProximity>,
    pub MatchmakerTickRateSeconds: u64,
    pub SearchExpansionIntervalSeconds: i64,
    pub RobloxUniverseId: String,
    pub RobloxApiKey: String,
    pub RobloxTopic: String,
    pub ServerAuthSecret: String,
    pub MinimumRating: Real,
    pub MaximumRating: Real,
    pub DefaultRegion: String,
    pub ValidRegions: Vec<String>,
    pub TicketTtlSeconds: i64,
    pub RatingBucketSize: Real,
}

/// What a configuration holds, with strings as characters.
pub struct ConfigurationView {
    pub MinimumPlayersPerMatch: u32,
    pub MaximumPlayersPerMatch: u32,
    pub MaximumPartySize: u32,
    pub InitialMatchmakingRatingRange: Real,
    pub MatchmakingRatingExpansionPerLevel: Real,
    pub MaximumMatchmakingRatingRange: Real,
    pub RegionProximityMap: Seq<(Seq<char>, Seq<Seq<char>>)>,
    pub MatchmakerTickRateSeconds: u64,
    pub SearchExpansionIntervalSeconds: i64,
    pub RobloxUniverseId: Seq<char>,
    pub RobloxApiKey: Seq<char>,
    pub RobloxTopic: Seq<char>,
    pub ServerAuthSecret: Seq<char>,
    pub MinimumRating: Real,
    pub MaximumRating: Real,
    pub DefaultRegion: Seq<char>,
    pub ValidRegions: Seq<Seq<char>>,
    pub TicketTtlSeconds: i64,
    pub RatingBucketSize: Real,
}

/// The characters of a proximity table.
pub open spec fn proximity_views(map: Seq<RegionProximity>) -> Seq<(Seq<char>, Seq<Seq<char>>)> {
    map.map_values(|e: RegionProximity| (e.0@, string_views(e.1@)))
}

impl ConfigurationView {
    /// The configuration's invariant: each valid region is listed once, and the table of
    /// close regions has one entry per region.
    pub open spec fn well_formed(self) -> bool {
        &&& self.ValidRegions.no_duplicates()
        &&& forall|i: int, j: int| 0 <= i < j < self.RegionProximityMap.len() ==>
            #[trigger] self.RegionProximityMap[i].0 != #[trigger] self.RegionProximityMap[j].0
    }
}

impl View for MatchmakingConfiguration {
    type V = ConfigurationView;

    open spec fn view(&self) -> ConfigurationView {
        ConfigurationView {
            MinimumPlayersPerMatch: self.MinimumPlayersPerMatch,
            MaximumPlayersPerMatch: self.MaximumPlayersPerMatch,
            MaximumPartySize: self.MaximumPartySize,
            InitialMatchmakingRatingRange: self.InitialMatchmakingRatingRange,
            MatchmakingRatingExpansionPerLevel: self.MatchmakingRatingExpansionPerLevel,
            MaximumMatchmakingRatingRange: self.MaximumMatchmakingRatingRange,
            RegionProximityMap: proximity_views(self.RegionProximityMap@),
            MatchmakerTickRateSeconds: self.MatchmakerTickRateSeconds,
            SearchExpansionIntervalSeconds: self.SearchExpansionIntervalSeconds,
            RobloxUniverseId: self.RobloxUniverseId@,
            RobloxApiKey: self.RobloxApiKey@,
            RobloxTopic: self.RobloxTopic@,
            ServerAuthSecret: self.ServerAuthSecret@,
            MinimumRating: self.MinimumRating,
            MaximumRating: self.MaximumRating,
            DefaultRegion: self.DefaultRegion@,
            ValidRegions: string_views(self.ValidRegions@),
            TicketTtlSeconds: self.TicketTtlSeconds,
            RatingBucketSize: self.RatingBucketSize,
        }
    }
}

/// The first rule that a configuration breaks, as its message; `None` when it breaks none.
pub open spec fn configuration_error(c: ConfigurationView) -> Option<Seq<char>> {
    let zero = Real::Ordered(0);
    if c.RatingBucketSize.is_le(zero) {
        Some("RATING_BUCKET_SIZE must be greater than 0"@)
    } else if c.MinimumPlayersPerMatch == 0 {
        Some("MIN_PLAYERS_PER_MATCH must be at least 1"@)
    } else if c.MinimumPlayersPerMatch > c.MaximumPlayersPerMatch {
        Some("MIN_PLAYERS_PER_MATCH must be <= MAX_PLAYERS_PER_MATCH"@)
    } else if c.MaximumPartySize > c.MaximumPlayersPerMatch {
        Some("MAX_PARTY_SIZE must be <= MAX_PLAYERS_PER_MATCH"@)
    } else if c.MaximumRating.is_lt(c.MinimumRating) {
        Some("MIN_RATING must be <= MAX_RATING"@)
    } else if c.InitialMatchmakingRatingRange.is_le(zero) {
        Some("INITIAL_RATING_RANGE must be > 0"@)
    } else if c.MatchmakingRatingExpansionPerLevel.is_lt(zero) {
        Some("RATING_EXPANSION_PER_LEVEL must be >= 0"@)
    } else if c.MaximumMatchmakingRatingRange.is_lt(c.InitialMatchmakingRatingRange) {
        Some("MAX_RATING_RANGE must be >= INITIAL_RATING_RANGE"@)
    } else if c.SearchExpansionIntervalSeconds <= 0 {
        Some("SEARCH_EXPANSION_INTERVAL_SECONDS must be > 0"@)
    } else if c.MatchmakerTickRateSeconds == 0 {
        Some("MATCHMAKER_TICK_RATE_SECONDS must be > 0"@)
    } else if c.TicketTtlSeconds <= 0 {
        Some("TICKET_TTL_SECONDS must be > 0"@)
    } else if c.ValidRegions.len() == 0 {
        Some("ValidRegions cannot be empty"@)
    } else if !c.ValidRegions.contains(c.DefaultRegion) {
        Some("DEFAULT_REGION must be in ValidRegions"@)
    } else if c.ServerAuthSecret.len() == 0 {
        Some("SERVER_AUTH_SECRET cannot be empty"@)
    } else if c.RobloxApiKey.len() == 0 {
        Some("ROBLOX_API_KEY cannot be empty"@)
    } else if c.RobloxUniverseId.len() == 0 {
        Some("ROBLOX_UNIVERSE_ID cannot be empty"@)
    } else {
        None
    }
}

/// Checks the configuration's values; on the first rule broken, returns its message.
pub fn ValidateConfiguration(Config: &MatchmakingConfiguration) -> (r: Result<(), String>)
    ensures
        match r {
            Ok(()) => configuration_error(Config@) is None,
            Err(message) => configuration_error(Config@) == Some(message@),
        },
{
    let zero = Real::Zero();
    if Config.RatingBucketSize.Le(&zero) {
        return Err("RATING_BUCKET_SIZE must be greater than 0".to_string());
    }
    if Config.MinimumPlayersPerMatch == 0 {
        return Err("MIN_PLAYERS_PER_MATCH must be at least 1".to_string());
    }
    if Config.MinimumPlayersPerMatch > Config.MaximumPlayersPerMatch {
        return Err("MIN_PLAYERS_PER_MATCH must be <= MAX_PLAYERS_PER_MATCH".to_string());
    }
    if Config.MaximumPartySize > Config.MaximumPlayersPerMatch {
        return Err("MAX_PARTY_SIZE must be <= MAX_PLAYERS_PER_MATCH".to_string());
    }
    if Config.MaximumRating.Lt(&Config.MinimumRating) {
        return Err("MIN_RATING must be <= MAX_RATING".to_string());
    }
    if Config.InitialMatchmakingRatingRange.Le(&zero) {
        return Err("INITIAL_RATING_RANGE must be > 0".to_string());
    }
    if Config.MatchmakingRatingExpansionPerLevel.Lt(&zero) {
        return Err("RATING_EXPANSION_PER_LEVEL must be >= 0".to_string());
    }
    if Config.MaximumMatchmakingRatingRange.Lt(&Config.InitialMatchmakingRatingRange) {
        return Err("MAX_RATING_RANGE must be >= INITIAL_RATING_RANGE".to_string());
    }
    if Config.SearchExpansionIntervalSeconds <= 0 {
        return Err("SEARCH_EXPANSION_INTERVAL_SECONDS must be > 0".to_string());
    }
    if Config.MatchmakerTickRateSeconds == 0 {
        return Err("MATCHMAKER_TICK_RATE_SECONDS must be > 0".to_string());
    }
    if Config.TicketTtlSeconds <= 0 {
        return Err("TICKET_TTL_SECONDS must be > 0".to_string());
    }
    if Config.ValidRegions.is_empty() {
        return Err("ValidRegions cannot be empty".to_string());
    }
    if !ContainsRegion(&Config.ValidRegions, &Config.DefaultRegion) {
        return Err("DEFAULT_REGION must be in ValidRegions".to_string());
    }
    if Config.ServerAuthSecret.as_str().is_empty() {
        return Err("SERVER_AUTH_SECRET cannot be empty".to_string());
    }
    if Config.RobloxApiKey.as_str().is_empty() {
        return Err("ROBLOX_API_KEY cannot be empty".to_string());
    }
    if Config.RobloxUniverseId.as_str().is_empty() {
        return Err("ROBLOX_UNIVERSE_ID cannot be empty".to_string());
    }
    Ok(())
}


/// The scalar settings of a configuration, as read from the environment.
#[derive(Debug)]
pub struct ConfigurationSettings {
    pub MinimumPlayersPerMatch: u32,
    pub MaximumPlayersPerMatch: u32,
    pub MaximumPartySize: u32,
    pub InitialMatchmakingRatingRange: Real,
    pub MatchmakingRatingExpansionPerLevel: Real,
    pub MaximumMatchmakingRatingRange: Real,
    pub MatchmakerTickRateSeconds: u64,
    pub SearchExpansionIntervalSeconds: i64,
    pub RobloxUniverseId: String,
    pub RobloxApiKey: String,
    pub RobloxTopic: String,
    pub ServerAuthSecret: String,
    pub MinimumRating: Real,
    pub MaximumRating: Real,
    pub DefaultRegion: String,
    pub TicketTtlSeconds: i64,
    pub RatingBucketSize: Real,
}

/// The standard table of close regions.
pub open spec fn standard_proximity() -> Seq<(Seq<char>, Seq<Seq<char>>)> {
    seq![
        ("NorthAmerica"@, seq!["SouthAmerica"@]),
        ("SouthAmerica"@, seq!["NorthAmerica"@]),
        ("Europe"@, seq!["Asia"@]),
        ("Asia"@, seq!["Europe"@]),
        ("Oceania"@, seq!["Asia"@]),
    ]
}

/// The standard regions.
pub open spec fn standard_regions() -> Seq<Seq<char>> {
    seq!["NorthAmerica"@, "SouthAmerica"@, "Europe"@, "Asia"@, "Oceania"@]
}

/// The configuration made of the settings and the standard region tables.
pub open spec fn standard_configuration(s: ConfigurationSettings) -> ConfigurationView {
    ConfigurationView {
        MinimumPlayersPerMatch: s.MinimumPlayersPerMatch,
        MaximumPlayersPerMatch: s.MaximumPlayersPerMatch,
        MaximumPartySize: s.MaximumPartySize,
        InitialMatchmakingRatingRange: s.InitialMatchmakingRatingRange,
        MatchmakingRatingExpansionPerLevel: s.MatchmakingRatingExpansionPerLevel,
        MaximumMatchmakingRatingRange: s.MaximumMatchmakingRatingRange,
        RegionProximityMap: standard_proximity(),
        MatchmakerTickRateSeconds: s.MatchmakerTickRateSeconds,
        SearchExpansionIntervalSeconds: s.SearchExpansionIntervalSeconds,
        RobloxUniverseId: s.RobloxUniverseId@,
        RobloxApiKey: s.RobloxApiKey@,
        RobloxTopic: s.RobloxTopic@,
        ServerAuthSecret: s.ServerAuthSecret@,
        MinimumRating: s.MinimumRating,
        MaximumRating: s.MaximumRating,
        DefaultRegion: s.DefaultRegion@,
        ValidRegions: standard_regions(),
        TicketTtlSeconds: s.TicketTtlSeconds,
        RatingBucketSize: s.RatingBucketSize,
    }
}

fn Neighbours(region: &str, near: &str) -> (r: RegionProximity)
    ensures r.0@ == region@, string_views(r.1@) == seq![near@],
{
    let list: Vec<String> = vec![near.to_string()];
    proof {
        assert(string_views(list@) =~= seq![near@]);
    }
    (region.to_string(), list)
}

/// The standard table of close regions.
pub fn StandardRegionProximityMap() -> (r: Vec<RegionProximity>)
    ensures proximity_views(r@) == standard_proximity(),
{
    let r: Vec<RegionProximity> = vec![
        Neighbours("NorthAmerica", "SouthAmerica"),
        Neighbours("SouthAmerica", "NorthAmerica"),
        Neighbours("Europe", "Asia"),
        Neighbours("Asia", "Europe"),
        Neighbours("Oceania", "Asia"),
    ];
    proof {
        assert(proximity_views(r@) =~= standard_proximity());
    }
    r
}

/// The standard regions.
pub fn StandardValidRegions() -> (r: Vec<String>)
    ensures string_views(r@) == standard_regions(),
{
    let r: Vec<String> = vec![
        "NorthAmerica".to_string(),
        "SouthAmerica".to_string(),
        "Europe".to_string(),
        "Asia".to_string(),
        "Oceania".to_string(),
    ];
    proof {
        assert(string_views(r@) =~= standard_regions());
    }
    r
}

/// The standard region tables list each region once.
proof fn lemma_standard_tables_well_formed(s: ConfigurationSettings)
    ensures standard_configuration(s).well_formed(),
{
    reveal_strlit("NorthAmerica");
    reveal_strlit("SouthAmerica");
    reveal_strlit("Europe");
    reveal_strlit("Asia");
    reveal_strlit("Oceania");
    assert("NorthAmerica"@[0] != "SouthAmerica"@[0]);
    assert("NorthAmerica"@ != "SouthAmerica"@);
    let regions = standard_regions();
    let table = standard_proximity();
    assert(regions.len() == 5);
    assert(regions[0].len() == 12 && regions[1].len() == 12 && regions[2].len() == 6);
    assert(regions[3].len() == 4 && regions[4].len() == 7);
    assert(regions[0] != regions[1]);
    assert forall|i: int, j: int| 0 <= i < regions.len() && 0 <= j < regions.len() && i != j
        implies regions[i] != regions[j] by {
        if regions[i] == regions[j] {
            assert(regions[i].len() == regions[j].len());
        }
    }
    assert forall|i: int, j: int| 0 <= i < j < table.len() implies #[trigger] table[i].0 != #[trigger] table[j].0 by {
        assert(table[i].0 == regions[i] && table[j].0 == regions[j]);
    }
}

/// Law of the standard tables: the valid regions are North America, South America,
/// Europe, Asia and Oceania, and the close regions are South America for North
/// America, North America for South America, Asia for Europe, Europe for Asia, and
/// Asia for Oceania.
pub proof fn lemma_standard_neighbours()
    ensures
        standard_regions().len() == 5,
        standard_regions().contains("NorthAmerica"@),
        standard_regions().contains("SouthAmerica"@),
        standard_regions().contains("Europe"@),
        standard_regions().contains("Asia"@),
        standard_regions().contains("Oceania"@),
        proximity_lookup(standard_proximity(), "NorthAmerica"@) == Some(seq!["SouthAmerica"@]),
        proximity_lookup(standard_proximity(), "SouthAmerica"@) == Some(seq!["NorthAmerica"@]),
        proximity_lookup(standard_proximity(), "Europe"@) == Some(seq!["Asia"@]),
        proximity_lookup(standard_proximity(), "Asia"@) == Some(seq!["Europe"@]),
        proximity_lookup(standard_proximity(), "Oceania"@) == Some(seq!["Asia"@]),
{
    reveal_strlit("NorthAmerica");
    reveal_strlit("SouthAmerica");
    reveal_strlit("Europe");
    reveal_strlit("Asia");
    reveal_strlit("Oceania");
    assert("NorthAmerica"@[0] != "SouthAmerica"@[0]);
    let t = standard_proximity();
    let r = standard_regions();
    assert(r[0] == "NorthAmerica"@ && r[1] == "SouthAmerica"@ && r[2] == "Europe"@ && r[3] == "Asia"@ && r[4] == "Oceania"@);
    let t1 = t.drop_first();
    let t2 = t1.drop_first();
    let t3 = t2.drop_first();
    let t4 = t3.drop_first();
    assert(t1[0] == t[1] && t2[0] == t[2] && t3[0] == t[3] && t4[0] == t[4]);
    assert(t1.len() == 4 && t2.len() == 3 && t3.len() == 2 && t4.len() == 1);
    assert(proximity_lookup(t4, "Oceania"@) == Some(seq!["Asia"@]));
    assert(proximity_lookup(t3, "Oceania"@) == Some(seq!["Asia"@]));
    assert(proximity_lookup(t3, "Asia"@) == Some(seq!["Europe"@]));
    assert(proximity_lookup(t2, "Oceania"@) == Some(seq!["Asia"@]));
    assert(proximity_lookup(t2, "Asia"@) == Some(seq!["Europe"@]));
    assert(proximity_lookup(t2, "Europe"@) == Some(seq!["Asia"@]));
    assert(proximity_lookup(t1, "Oceania"@) == Some(seq!["Asia"@]));
    assert(proximity_lookup(t1, "Asia"@) == Some(seq!["Europe"@]));
    assert(proximity_lookup(t1, "Europe"@) == Some(seq!["Asia"@]));
    assert(proximity_lookup(t1, "SouthAmerica"@) == Some(seq!["NorthAmerica"@]));
}

/// Builds the configuration from its settings and the standard region tables,
/// and checks it; a configuration that breaks a rule is refused with the rule's message.
pub fn GetStandardConfiguration(Settings: ConfigurationSettings) -> (r: Result<MatchmakingConfiguration, String>)
    ensures
        match r {
            Ok(c) => c@ == standard_configuration(Settings) && configuration_error(c@) is None && c@.well_formed(),
            Err(message) => configuration_error(standard_configuration(Settings)) == Some(message@),
        },
{
    let Config = MatchmakingConfiguration {
        MinimumPlayersPerMatch: Settings.MinimumPlayersPerMatch,
        MaximumPlayersPerMatch: Settings.MaximumPlayersPerMatch,
        MaximumPartySize: Settings.MaximumPartySize,
        InitialMatchmakingRatingRange: Settings.InitialMatchmakingRatingRange,
        MatchmakingRatingExpansionPerLevel: Settings.MatchmakingRatingExpansionPerLevel,
        MaximumMatchmakingRatingRange: Settings.MaximumMatchmakingRatingRange,
        RegionProximityMap: StandardRegionProximityMap(),
        MatchmakerTickRateSeconds: Settings.MatchmakerTickRateSeconds,
        SearchExpansionIntervalSeconds: Settings.SearchExpansionIntervalSeconds,
        RobloxUniverseId: Settings.RobloxUniverseId,
        RobloxApiKey: Settings.RobloxApiKey,
        RobloxTopic: Settings.RobloxTopic,
        ServerAuthSecret: Settings.ServerAuthSecret,
        MinimumRating: Settings.MinimumRating,
        MaximumRating: Settings.MaximumRating,
        DefaultRegion: Settings.DefaultRegion,
        ValidRegions: StandardValidRegions(),
        TicketTtlSeconds: Settings.TicketTtlSeconds,
        RatingBucketSize: Settings.RatingBucketSize,
    };
    proof {
        lemma_standard_tables_well_formed(Settings);
    }
    match ValidateConfiguration(&Config) {
        Ok(()) => Ok(Config),
        Err(message) => Err(message),
    }
}

} // verus!
