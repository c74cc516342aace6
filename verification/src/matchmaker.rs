use vstd::prelude::*;

use crate::clock::CurrentTimestamp;
use crate::configuration::{ConfigurationView, MatchmakingConfiguration, proximity_views};
use crate::numbers::Real;
use crate::types::{ticket_views, string_views, ContainsRegion, MatchmakingTicket, TicketView};

verus! {

/// The highest search expansion level a ticket reaches.
pub const MAX_EXPANSION_LEVEL: u32 = 100;

/// The matchmaker: its configuration and the operations on the queue.
pub struct Matchmaker {
    pub Configuration: MatchmakingConfiguration,
}

/// Rust's `/` on integers: the quotient rounded toward zero.
pub open spec fn truncated_quotient(a: int, b: int) -> int
    recommends b != 0,
{
    if a >= 0 {
        if b > 0 { a / b } else { -(a / (-b)) }
    } else {
        if b > 0 { -((-a) / b) } else { (-a) / (-b) }
    }
}

/// `i64::saturating_sub`.
pub open spec fn saturating_difference(a: i64, b: i64) -> int {
    let d = a - b;
    if d > i64::MAX { i64::MAX as int } else if d < i64::MIN { i64::MIN as int } else { d }
}

/// The expansion level that a ticket submitted at `submitted` has earned at `now`:
/// the number of whole intervals it has waited, capped at `MAX_EXPANSION_LEVEL`; a
/// count that does not fit a `u32` (a negative one among them) gives the cap too.
pub open spec fn earned_expansion_level(now: i64, submitted: i64, interval: i64) -> u32
    recommends interval != 0,
{
    let q = truncated_quotient(saturating_difference(now, submitted), interval as int);
    if 0 <= q < MAX_EXPANSION_LEVEL { q as u32 } else { MAX_EXPANSION_LEVEL }
}

/// The first list of close regions that the table holds for `region`.
pub open spec fn proximity_lookup(map: Seq<(Seq<char>, Seq<Seq<char>>)>, region: Seq<char>) -> Option<Seq<Seq<char>>>
    decreases map.len(),
{
    if map.len() == 0 {
        None
    } else if map[0].0 == region {
        Some(map[0].1)
    } else {
        proximity_lookup(map.drop_first(), region)
    }
}

/// `allowed` with each of `near` that is a valid region and not yet allowed added, in order.
pub open spec fn add_close_regions(allowed: Seq<Seq<char>>, near: Seq<Seq<char>>, valid: Seq<Seq<char>>) -> Seq<Seq<char>>
    decreases near.len(),
{
    if near.len() == 0 {
        allowed
    } else {
        let before = add_close_regions(allowed, near.drop_last(), valid);
        let region = near.last();
        if valid.contains(region) && !before.contains(region) { before.push(region) } else { before }
    }
}

/// A ticket raised to expansion level `target`: from level 2 on, it may also be
/// matched in the valid regions close to its preferred one. (Its rating window is
/// widened too; see `expansion_step`.)
pub open spec fn expanded_to(c: ConfigurationView, t: TicketView, target: u32) -> TicketView {
    let level = if target < MAX_EXPANSION_LEVEL { target } else { MAX_EXPANSION_LEVEL };
    let regions = if level >= 2 {
        match proximity_lookup(c.RegionProximityMap, t.PreferredRegion) {
            Some(near) => add_close_regions(t.AllowedRegions, near, c.ValidRegions),
            None => t.AllowedRegions,
        }
    } else {
        t.AllowedRegions
    };
    TicketView { SearchExpansionLevel: level, AllowedRegions: regions, ..t }
}

/// Whether a ticket is expanded at time `now`: it has earned a level above its own.
pub open spec fn expands(c: ConfigurationView, t: TicketView, now: i64) -> bool {
    earned_expansion_level(now, t.SubmittedTimestamp, c.SearchExpansionIntervalSeconds) > t.SearchExpansionLevel
}

/// A ticket's level and regions as the expansion at time `now` leaves them: raised to
/// the level it has earned when it expands, unchanged otherwise.
pub open spec fn expanded_at(c: ConfigurationView, t: TicketView, now: i64) -> TicketView {
    if expands(c, t, now) {
        expanded_to(c, t, earned_expansion_level(now, t.SubmittedTimestamp, c.SearchExpansionIntervalSeconds))
    } else {
        t
    }
}

/// Whether `after` is the ticket `before` as the expansion at time `now` leaves it: a
/// ticket that expands gets its new level and regions, and the rating window that
/// `window` gives for its average rating at the new level; any other is unchanged.
pub open spec fn expansion_step<F: Fn(Real, u32) -> (Real, Real)>(
    c: ConfigurationView,
    before: TicketView,
    after: TicketView,
    now: i64,
    window: F,
) -> bool {
    if expands(c, before, now) {
        let e = expanded_at(c, before, now);
        &&& after == (TicketView {
            MinimumMatchmakingRating: after.MinimumMatchmakingRating,
            MaximumMatchmakingRating: after.MaximumMatchmakingRating,
            ..e
        })
        &&& call_ensures(
            window,
            (before.AverageMatchmakingRating, e.SearchExpansionLevel),
            (after.MinimumMatchmakingRating, after.MaximumMatchmakingRating),
        )
    } else {
        after == before
    }
}

/// Whether `after` is `before` with each ticket expanded at `now`.
pub open spec fn is_expansion_at<F: Fn(Real, u32) -> (Real, Real)>(
    c: ConfigurationView,
    before: Seq<MatchmakingTicket>,
    after: Seq<MatchmakingTicket>,
    now: i64,
    window: F,
) -> bool {
    &&& after.len() == before.len()
    &&& forall|i: int| 0 <= i < before.len() ==> #[trigger] expansion_step(c, before[i]@, after[i]@, now, window)
}

/// Whether a ticket has outlived the time to live at `now`.
pub open spec fn is_expired(t: TicketView, now: i64, ttl: i64) -> bool {
    now - t.SubmittedTimestamp > ttl
}

/// Whether `active` and `expired` split `before` by the time to live at `now`.
pub open spec fn is_expiry_split(ttl: i64, before: Seq<MatchmakingTicket>, active: Seq<MatchmakingTicket>, expired: Seq<MatchmakingTicket>, now: i64) -> bool {
    &&& expired == before.filter(expired_filter(now, ttl))
    &&& active == before.filter(active_filter(now, ttl))
}

/// The tickets that have outlived the time to live at `now`.
pub open spec fn expired_filter(now: i64, ttl: i64) -> spec_fn(MatchmakingTicket) -> bool {
    |t: MatchmakingTicket| is_expired(t@, now, ttl)
}

/// The tickets that have not outlived the time to live at `now`.
pub open spec fn active_filter(now: i64, ttl: i64) -> spec_fn(MatchmakingTicket) -> bool {
    |t: MatchmakingTicket| !is_expired(t@, now, ttl)
}

pub fn SaturatingDifference(a: i64, b: i64) -> (r: i64)
    ensures r == saturating_difference(a, b),
{
    let d: i128 = (a as i128) - (b as i128);
    if d > i64::MAX as i128 {
        i64::MAX
    } else if d < i64::MIN as i128 {
        i64::MIN
    } else {
        d as i64
    }
}

fn EarnedExpansionLevel(now: i64, submitted: i64, interval: i64) -> (r: u32)
    requires interval != 0,
    ensures r == earned_expansion_level(now, submitted, interval),
{
    let waited: i64 = SaturatingDifference(now, submitted);
    let w: i128 = waited as i128;
    let d: i128 = interval as i128;
    let magnitude_w: i128 = if w >= 0 { w } else { -w };
    let magnitude_d: i128 = if d > 0 { d } else { -d };
    let m: i128 = magnitude_w / magnitude_d;
    let q: i128 = if (w >= 0) == (d > 0) { m } else { -m };
    assert(q == truncated_quotient(waited as int, interval as int));
    if 0 <= q && q < MAX_EXPANSION_LEVEL as i128 {
        q as u32
    } else {
        MAX_EXPANSION_LEVEL
    }
}


proof fn lemma_lookup_skips(map: Seq<(Seq<char>, Seq<Seq<char>>)>, region: Seq<char>, i: int)
    requires
        0 <= i <= map.len(),
        forall|j: int| 0 <= j < i ==> map[j].0 != region,
    ensures
        proximity_lookup(map, region) == proximity_lookup(map.subrange(i, map.len() as int), region),
    decreases i,
{
    if i > 0 {
        assert(map[0].0 != region);
        let rest = map.drop_first();
        lemma_lookup_skips(rest, region, i - 1);
        assert(rest.subrange(i - 1, rest.len() as int) =~= map.subrange(i, map.len() as int));
    } else {
        assert(map.subrange(0, map.len() as int) =~= map);
    }
}

impl Matchmaker {
    /// Makes a matchmaker that works with the given configuration.
    pub fn new(CurrentConfiguration: MatchmakingConfiguration) -> (r: Matchmaker)
        ensures r.Configuration == CurrentConfiguration,
    {
        Matchmaker { Configuration: CurrentConfiguration }
    }

    /// The regions close to `region`, from the first entry of the table for it.
    fn CloseRegions(&self, region: &String) -> (r: Option<&Vec<String>>)
        ensures
            match r {
                Some(near) => proximity_lookup(self.Configuration@.RegionProximityMap, region@) == Some(string_views(near@)),
                None => proximity_lookup(self.Configuration@.RegionProximityMap, region@) is None,
            },
    {
        let map = &self.Configuration.RegionProximityMap;
        let ghost views = proximity_views(map@);
        let mut i: usize = 0;
        while i < map.len()
            invariant
                i <= map.len(),
                views == proximity_views(map@),
                views == self.Configuration@.RegionProximityMap,
                forall|j: int| 0 <= j < i ==> views[j].0 != region@,
            decreases map.len() - i,
        {
            if map[i].0 == *region {
                proof {
                    lemma_lookup_skips(views, region@, i as int);
                }
                return Some(&map[i].1);
            }
            i += 1;
        }
        proof {
            lemma_lookup_skips(views, region@, i as int);
        }
        None
    }

    /// Raises a ticket to `TargetLevel` (at most `MAX_EXPANSION_LEVEL`) with the rating
    /// window from `Minimum` to `Maximum`; from level 2 on, the valid regions close to
    /// its preferred region are allowed too.
    fn ApplyExpansion(&self, Ticket: &mut MatchmakingTicket, TargetLevel: u32, Minimum: Real, Maximum: Real)
        ensures
            final(Ticket)@ == (TicketView {
                MinimumMatchmakingRating: Minimum,
                MaximumMatchmakingRating: Maximum,
                ..expanded_to(self.Configuration@, old(Ticket)@, TargetLevel)
            }),
    {
        let SafeLevel: u32 = if TargetLevel < MAX_EXPANSION_LEVEL { TargetLevel } else { MAX_EXPANSION_LEVEL };
        Ticket.SearchExpansionLevel = SafeLevel;
        Ticket.MinimumMatchmakingRating = Minimum;
        Ticket.MaximumMatchmakingRating = Maximum;
        if SafeLevel >= 2 {
            match self.CloseRegions(&Ticket.PreferredRegion) {
                Some(NearbyRegions) => {
                    let ghost allowed = string_views(old(Ticket).AllowedRegions@);
                    let ghost near = string_views(NearbyRegions@);
                    let ghost valid = self.Configuration@.ValidRegions;
                    let mut k: usize = 0;
                    while k < NearbyRegions.len()
                        invariant
                            k <= NearbyRegions.len(),
                            near == string_views(NearbyRegions@),
                            valid == string_views(self.Configuration.ValidRegions@),
                            string_views(Ticket.AllowedRegions@) == add_close_regions(allowed, near.subrange(0, k as int), valid),
                            Ticket@ == (TicketView { AllowedRegions: string_views(Ticket.AllowedRegions@), ..Ticket@ }),
                            Ticket@ == (TicketView {
                                AllowedRegions: Ticket@.AllowedRegions,
                                SearchExpansionLevel: SafeLevel,
                                MinimumMatchmakingRating: Minimum,
                                MaximumMatchmakingRating: Maximum,
                                ..old(Ticket)@
                            }),
                        decreases NearbyRegions.len() - k,
                    {
                        let Region = &NearbyRegions[k];
                        assert(near.subrange(0, k + 1).drop_last() =~= near.subrange(0, k as int));
                        if ContainsRegion(&self.Configuration.ValidRegions, Region)
                            && !ContainsRegion(&Ticket.AllowedRegions, Region) {
                            Ticket.AllowedRegions.push(Region.clone());
                            assert(string_views(Ticket.AllowedRegions@) =~= add_close_regions(allowed, near.subrange(0, k + 1), valid));
                        }
                        k += 1;
                    }
                    assert(near.subrange(0, near.len() as int) =~= near);
                }
                None => {}
            }
        }
    }

    /// Raises each ticket to the expansion level it has earned at `CurrentTimestamp`,
    /// where that is above its own level, with the rating window that `RatingWindow`
    /// gives for its average rating at that level (see `expansion_step`).
    pub fn ExpandTicketsAt<F: Fn(Real, u32) -> (Real, Real)>(
        &self,
        Tickets: &mut Vec<MatchmakingTicket>,
        CurrentTimestamp: i64,
        RatingWindow: F,
    )
        requires
            self.Configuration.SearchExpansionIntervalSeconds != 0,
            forall|average: Real, level: u32| call_requires(RatingWindow, (average, level)),
        ensures is_expansion_at(self.Configuration@, old(Tickets)@, final(Tickets)@, CurrentTimestamp, RatingWindow),
    {
        let mut i: usize = 0;
        while i < Tickets.len()
            invariant
                self.Configuration.SearchExpansionIntervalSeconds != 0,
                forall|average: Real, level: u32| call_requires(RatingWindow, (average, level)),
                i <= Tickets.len(),
                Tickets@.len() == old(Tickets)@.len(),
                forall|j: int| 0 <= j < i ==>
                    #[trigger] expansion_step(self.Configuration@, old(Tickets)@[j]@, Tickets@[j]@, CurrentTimestamp, RatingWindow),
                forall|j: int| i <= j < Tickets@.len() ==> #[trigger] Tickets@[j] == old(Tickets)@[j],
            decreases Tickets.len() - i,
        {
            let ExpansionsNeeded: u32 = EarnedExpansionLevel(
                CurrentTimestamp,
                Tickets[i].SubmittedTimestamp,
                self.Configuration.SearchExpansionIntervalSeconds,
            );
            if ExpansionsNeeded > Tickets[i].SearchExpansionLevel {
                let (Minimum, Maximum) = RatingWindow(Tickets[i].AverageMatchmakingRating, ExpansionsNeeded);
                self.ApplyExpansion(&mut Tickets[i], ExpansionsNeeded, Minimum, Maximum);
            }
            i += 1;
        }
    }

    /// Takes out of the queue the tickets that have waited longer than the time to
    /// live at `CurrentTimestamp`, and returns them; both lists keep the queue's order.
    pub fn RemoveExpiredTicketsAt(&self, Tickets: &mut Vec<MatchmakingTicket>, CurrentTimestamp: i64) -> (Expired: Vec<MatchmakingTicket>)
        ensures
            Expired@ == old(Tickets)@.filter(expired_filter(CurrentTimestamp, self.Configuration.TicketTtlSeconds)),
            final(Tickets)@ == old(Tickets)@.filter(active_filter(CurrentTimestamp, self.Configuration.TicketTtlSeconds)),
    {
        let TtlSeconds: i64 = self.Configuration.TicketTtlSeconds;
        let ghost expired_pred = expired_filter(CurrentTimestamp, TtlSeconds);
        let ghost active_pred = active_filter(CurrentTimestamp, TtlSeconds);
        let mut All: Vec<MatchmakingTicket> = Vec::new();
        std::mem::swap(&mut All, Tickets);
        let ghost all = All@;
        let mut Expired: Vec<MatchmakingTicket> = Vec::new();
        let mut Active: Vec<MatchmakingTicket> = Vec::new();
        for Ticket in it: All.into_iter()
            invariant
                it.seq() == all,
                all == old(Tickets)@,
                Expired@ == all.take(it.index() as int).filter(expired_pred),
                Active@ == all.take(it.index() as int).filter(active_pred),
                expired_pred == expired_filter(CurrentTimestamp, TtlSeconds),
                active_pred == active_filter(CurrentTimestamp, TtlSeconds),
        {
            proof {
                assert(all.take(it.index() + 1) =~= all.take(it.index() as int).push(Ticket));
                all.take(it.index() as int).lemma_filter_push(Ticket, expired_pred);
                all.take(it.index() as int).lemma_filter_push(Ticket, active_pred);
            }
            let waited: i128 = (CurrentTimestamp as i128) - (Ticket.SubmittedTimestamp as i128);
            if waited > TtlSeconds as i128 {
                Expired.push(Ticket);
            } else {
                Active.push(Ticket);
            }
        }
        proof {
            assert(all.take(all.len() as int) =~= all);
        }
        *Tickets = Active;
        Expired
    }

    /// Takes out of the queue the tickets that have outlived the time to live by now,
    /// read from the clock; what holds is that of `RemoveExpiredTicketsAt` for some time.
    pub fn RemoveExpiredTickets(&self, Tickets: &mut Vec<MatchmakingTicket>) -> (Expired: Vec<MatchmakingTicket>)
        ensures
            exists|now: i64| #[trigger] is_expiry_split(self.Configuration.TicketTtlSeconds, old(Tickets)@, final(Tickets)@, Expired@, now),
    {
        let now = CurrentTimestamp();
        let Expired = self.RemoveExpiredTicketsAt(Tickets, now);
        assert(is_expiry_split(self.Configuration.TicketTtlSeconds, old(Tickets)@, Tickets@, Expired@, now));
        Expired
    }

    /// Raises each ticket to the expansion level it has earned by now, read from the
    /// clock, with the rating window that `RatingWindow` gives; what holds is that of
    /// `ExpandTicketsAt` for some time.
    pub fn ExpandTickets<F: Fn(Real, u32) -> (Real, Real)>(&self, Tickets: &mut Vec<MatchmakingTicket>, RatingWindow: F)
        requires
            self.Configuration.SearchExpansionIntervalSeconds != 0,
            forall|average: Real, level: u32| call_requires(RatingWindow, (average, level)),
        ensures
            exists|now: i64| #[trigger] is_expansion_at(self.Configuration@, old(Tickets)@, final(Tickets)@, now, RatingWindow),
    {
        let now = CurrentTimestamp();
        self.ExpandTicketsAt(Tickets, now, RatingWindow);
    }
}

} // verus!
