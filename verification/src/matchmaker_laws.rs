use vstd::prelude::*;

use crate::configuration::ConfigurationView;
use crate::matchmaker::{
    active_filter, add_close_regions, earned_expansion_level, expansion_step, expired_filter, is_expired,
    proximity_lookup, MAX_EXPANSION_LEVEL,
};
use crate::numbers::Real;
use crate::types::{MatchmakingTicket, TicketView};

verus! {

/// Law of the expansion: expanding a ticket a second time at the same time changes
/// nothing, whatever rating windows either pass would give.
pub proof fn lemma_expansion_idempotent<F: Fn(Real, u32) -> (Real, Real), G: Fn(Real, u32) -> (Real, Real)>(
    c: ConfigurationView,
    t: TicketView,
    once: TicketView,
    twice: TicketView,
    now: i64,
    first_window: F,
    second_window: G,
)
    requires
        expansion_step(c, t, once, now, first_window),
        expansion_step(c, once, twice, now, second_window),
    ensures
        twice == once,
{
}

proof fn lemma_close_regions_extend(allowed: Seq<Seq<char>>, near: Seq<Seq<char>>, valid: Seq<Seq<char>>)
    ensures
        add_close_regions(allowed, near, valid).len() >= allowed.len(),
        add_close_regions(allowed, near, valid).subrange(0, allowed.len() as int) == allowed,
        forall|r: Seq<char>| #[trigger] add_close_regions(allowed, near, valid).contains(r) ==>
            allowed.contains(r) || (near.contains(r) && valid.contains(r)),
    decreases near.len(),
{
    if near.len() == 0 {
        assert(allowed.subrange(0, allowed.len() as int) =~= allowed);
    } else {
        let before = add_close_regions(allowed, near.drop_last(), valid);
        lemma_close_regions_extend(allowed, near.drop_last(), valid);
        let region = near.last();
        if valid.contains(region) && !before.contains(region) {
            let after = before.push(region);
            assert(after.subrange(0, allowed.len() as int) =~= before.subrange(0, allowed.len() as int));
            assert forall|r: Seq<char>| #[trigger] after.contains(r) implies
                allowed.contains(r) || (near.contains(r) && valid.contains(r)) by {
                if r == region {
                    assert(near[near.len() - 1] == r);
                } else {
                    let k = choose|k: int| 0 <= k < after.len() && after[k] == r;
                    assert(before[k] == r);
                    assert(before.contains(r));
                    if near.drop_last().contains(r) {
                        let j = choose|j: int| 0 <= j < near.drop_last().len() && near.drop_last()[j] == r;
                        assert(near[j] == r);
                    }
                }
            }
        } else {
            assert forall|r: Seq<char>| #[trigger] before.contains(r) implies
                allowed.contains(r) || (near.contains(r) && valid.contains(r)) by {
                if near.drop_last().contains(r) && !allowed.contains(r) {
                    let j = choose|j: int| 0 <= j < near.drop_last().len() && near.drop_last()[j] == r;
                    assert(near[j] == r);
                }
            }
        }
    }
}

/// Law of the expansion: a ticket's level never goes down and stays at most
/// `MAX_EXPANSION_LEVEL` (when it was); the regions it allowed stay allowed, in their
/// order, and any region added is a valid one; a ticket whose level stays keeps its
/// rating window; and nothing but the level, the regions and the window changes.
pub proof fn lemma_expansion_only_widens<F: Fn(Real, u32) -> (Real, Real)>(
    c: ConfigurationView,
    t: TicketView,
    e: TicketView,
    now: i64,
    window: F,
)
    requires
        expansion_step(c, t, e, now, window),
    ensures
        e.SearchExpansionLevel >= t.SearchExpansionLevel,
        t.SearchExpansionLevel <= MAX_EXPANSION_LEVEL ==> e.SearchExpansionLevel <= MAX_EXPANSION_LEVEL,
        e.AllowedRegions.len() >= t.AllowedRegions.len(),
        e.AllowedRegions.subrange(0, t.AllowedRegions.len() as int) == t.AllowedRegions,
        forall|r: Seq<char>| #[trigger] e.AllowedRegions.contains(r) ==> t.AllowedRegions.contains(r) || c.ValidRegions.contains(r),
        e.SearchExpansionLevel == t.SearchExpansionLevel ==>
            e.MinimumMatchmakingRating == t.MinimumMatchmakingRating && e.MaximumMatchmakingRating == t.MaximumMatchmakingRating,
        e == (TicketView {
            SearchExpansionLevel: e.SearchExpansionLevel,
            AllowedRegions: e.AllowedRegions,
            MinimumMatchmakingRating: e.MinimumMatchmakingRating,
            MaximumMatchmakingRating: e.MaximumMatchmakingRating,
            ..t
        }),
{
    let earned = earned_expansion_level(now, t.SubmittedTimestamp, c.SearchExpansionIntervalSeconds);
    if earned > t.SearchExpansionLevel && earned >= 2 {
        match crate::matchmaker::proximity_lookup(c.RegionProximityMap, t.PreferredRegion) {
            Some(near) => {
                lemma_close_regions_extend(t.AllowedRegions, near, c.ValidRegions);
            }
            None => {
                assert(t.AllowedRegions.subrange(0, t.AllowedRegions.len() as int) =~= t.AllowedRegions);
            }
        }
    } else {
        assert(t.AllowedRegions.subrange(0, t.AllowedRegions.len() as int) =~= t.AllowedRegions);
    }
}

proof fn lemma_lookup_entry(map: Seq<(Seq<char>, Seq<Seq<char>>)>, region: Seq<char>)
    ensures
        match proximity_lookup(map, region) {
            Some(near) => exists|i: int| 0 <= i < map.len() && #[trigger] map[i].0 == region && map[i].1 == near
                && forall|j: int| 0 <= j < i ==> (#[trigger] map[j]).0 != region,
            None => forall|i: int| 0 <= i < map.len() ==> (#[trigger] map[i]).0 != region,
        },
    decreases map.len(),
{
    if map.len() > 0 {
        let rest = map.drop_first();
        lemma_lookup_entry(rest, region);
        if map[0].0 == region {
            assert(map[0].0 == region && map[0].1 == map[0].1);
        } else {
            match proximity_lookup(rest, region) {
                Some(near) => {
                    let i = choose|i: int| 0 <= i < rest.len() && #[trigger] rest[i].0 == region && rest[i].1 == near
                        && forall|j: int| 0 <= j < i ==> (#[trigger] rest[j]).0 != region;
                    assert(map[i + 1] == rest[i]);
                    assert forall|j: int| 0 <= j < i + 1 implies (#[trigger] map[j]).0 != region by {
                        if j > 0 {
                            assert(map[j] == rest[j - 1]);
                        }
                    }
                }
                None => {
                    assert forall|i: int| 0 <= i < map.len() implies (#[trigger] map[i]).0 != region by {
                        if i > 0 {
                            assert(map[i] == rest[i - 1]);
                        }
                    }
                }
            }
        }
    }
}

proof fn lemma_close_regions_complete(allowed: Seq<Seq<char>>, near: Seq<Seq<char>>, valid: Seq<Seq<char>>, r: Seq<char>)
    requires
        allowed.contains(r) || (near.contains(r) && valid.contains(r)),
    ensures
        add_close_regions(allowed, near, valid).contains(r),
    decreases near.len(),
{
    if near.len() > 0 {
        let rest = near.drop_last();
        let before = add_close_regions(allowed, rest, valid);
        let region = near.last();
        if allowed.contains(r) || (rest.contains(r) && valid.contains(r)) {
            lemma_close_regions_complete(allowed, rest, valid, r);
        } else {
            let k = choose|k: int| 0 <= k < near.len() && near[k] == r;
            if k < rest.len() {
                assert(rest[k] == r);
            }
            assert(r == region);
        }
        if valid.contains(region) && !before.contains(region) {
            let after = before.push(region);
            assert(after[before.len() as int] == region);
            if before.contains(r) {
                let k = choose|k: int| 0 <= k < before.len() && before[k] == r;
                assert(after[k] == r);
            }
        }
    }
}

/// Law of the expansion's regions: a region a ticket newly allows is a valid region
/// listed as close to the ticket's preferred region in the first entry of the table
/// for it, and only from level 2 on; and once a ticket expands to level 2 or more,
/// each valid region of that entry is allowed.
pub proof fn lemma_expansion_regions<F: Fn(Real, u32) -> (Real, Real)>(
    c: ConfigurationView,
    t: TicketView,
    e: TicketView,
    now: i64,
    window: F,
)
    requires
        expansion_step(c, t, e, now, window),
    ensures
        e.SearchExpansionLevel < 2 ==> e.AllowedRegions == t.AllowedRegions,
        forall|r: Seq<char>| #[trigger] e.AllowedRegions.contains(r) ==> t.AllowedRegions.contains(r) || {
            &&& c.ValidRegions.contains(r)
            &&& exists|i: int| 0 <= i < c.RegionProximityMap.len()
                && #[trigger] c.RegionProximityMap[i].0 == t.PreferredRegion
                && c.RegionProximityMap[i].1.contains(r)
        },
        e.SearchExpansionLevel > t.SearchExpansionLevel && e.SearchExpansionLevel >= 2 ==>
            forall|i: int, r: Seq<char>| 0 <= i < c.RegionProximityMap.len()
                && #[trigger] c.RegionProximityMap[i].0 == t.PreferredRegion
                && (forall|j: int| 0 <= j < i ==> (#[trigger] c.RegionProximityMap[j]).0 != t.PreferredRegion)
                && #[trigger] c.RegionProximityMap[i].1.contains(r) && c.ValidRegions.contains(r)
                ==> e.AllowedRegions.contains(r),
{
    let map = c.RegionProximityMap;
    let earned = earned_expansion_level(now, t.SubmittedTimestamp, c.SearchExpansionIntervalSeconds);
    lemma_lookup_entry(map, t.PreferredRegion);
    if earned > t.SearchExpansionLevel && earned >= 2 {
        match proximity_lookup(map, t.PreferredRegion) {
            Some(near) => {
                lemma_close_regions_extend(t.AllowedRegions, near, c.ValidRegions);
                let i0 = choose|i: int| 0 <= i < map.len() && #[trigger] map[i].0 == t.PreferredRegion && map[i].1 == near
                    && forall|j: int| 0 <= j < i ==> (#[trigger] map[j]).0 != t.PreferredRegion;
                assert forall|r: Seq<char>| #[trigger] e.AllowedRegions.contains(r) implies t.AllowedRegions.contains(r) || {
                    &&& c.ValidRegions.contains(r)
                    &&& exists|i: int| 0 <= i < map.len() && #[trigger] map[i].0 == t.PreferredRegion && map[i].1.contains(r)
                } by {
                    if !t.AllowedRegions.contains(r) {
                        assert(map[i0].1.contains(r));
                    }
                }
                assert forall|i: int, r: Seq<char>| 0 <= i < map.len()
                    && #[trigger] map[i].0 == t.PreferredRegion
                    && (forall|j: int| 0 <= j < i ==> (#[trigger] map[j]).0 != t.PreferredRegion)
                    && #[trigger] map[i].1.contains(r) && c.ValidRegions.contains(r)
                    implies e.AllowedRegions.contains(r) by {
                    if i < i0 {
                        assert(map[i].0 != t.PreferredRegion);
                    } else if i > i0 {
                        assert(map[i0].0 != t.PreferredRegion);
                    }
                    lemma_close_regions_complete(t.AllowedRegions, near, c.ValidRegions, r);
                }
            }
            None => {}
        }
    }
}

proof fn lemma_close_regions_distinct(allowed: Seq<Seq<char>>, near: Seq<Seq<char>>, valid: Seq<Seq<char>>)
    requires allowed.no_duplicates(),
    ensures add_close_regions(allowed, near, valid).no_duplicates(),
    decreases near.len(),
{
    if near.len() > 0 {
        let before = add_close_regions(allowed, near.drop_last(), valid);
        lemma_close_regions_distinct(allowed, near.drop_last(), valid);
        let region = near.last();
        if valid.contains(region) && !before.contains(region) {
            let after = before.push(region);
            assert forall|i: int, j: int| 0 <= i < after.len() && 0 <= j < after.len() && i != j implies after[i] != after[j] by {
                if i == before.len() as int {
                    assert(before[j] == after[j]);
                } else if j == before.len() as int {
                    assert(before[i] == after[i]);
                }
            }
        }
    }
}

/// Law of the expansion: it keeps a ticket well formed (each allowed region listed once).
pub proof fn lemma_expansion_keeps_well_formed<F: Fn(Real, u32) -> (Real, Real)>(
    c: ConfigurationView,
    t: TicketView,
    e: TicketView,
    now: i64,
    window: F,
)
    requires
        t.well_formed(),
        expansion_step(c, t, e, now, window),
    ensures
        e.well_formed(),
{
    let earned = earned_expansion_level(now, t.SubmittedTimestamp, c.SearchExpansionIntervalSeconds);
    if earned > t.SearchExpansionLevel && earned >= 2 {
        match crate::matchmaker::proximity_lookup(c.RegionProximityMap, t.PreferredRegion) {
            Some(near) => lemma_close_regions_distinct(t.AllowedRegions, near, c.ValidRegions),
            None => {}
        }
    }
}

/// Law of the expiry: the expired tickets and the remaining ones together are the
/// tickets there were, each once; each expired one outlived the time to live, and no
/// remaining one did.
pub proof fn lemma_expiry_partition(before: Seq<MatchmakingTicket>, ttl: i64, now: i64)
    ensures
        before.filter(expired_filter(now, ttl)).to_multiset().add(before.filter(active_filter(now, ttl)).to_multiset())
            == before.to_multiset(),
        forall|k: int| 0 <= k < before.filter(expired_filter(now, ttl)).len() ==>
            is_expired((#[trigger] before.filter(expired_filter(now, ttl))[k])@, now, ttl),
        forall|k: int| 0 <= k < before.filter(active_filter(now, ttl)).len() ==>
            !is_expired((#[trigger] before.filter(active_filter(now, ttl))[k])@, now, ttl),
    decreases before.len(),
{
    broadcast use vstd::multiset::group_multiset_axioms;
    let e = expired_filter(now, ttl);
    let a = active_filter(now, ttl);
    assert forall|k: int| 0 <= k < before.filter(e).len() implies is_expired((#[trigger] before.filter(e)[k])@, now, ttl) by {
        before.lemma_filter_pred(e, k);
    }
    assert forall|k: int| 0 <= k < before.filter(a).len() implies !is_expired((#[trigger] before.filter(a)[k])@, now, ttl) by {
        before.lemma_filter_pred(a, k);
    }
    if before.len() == 0 {
        reveal(Seq::filter);
        assert(before.filter(e) =~= before);
        assert(before.filter(a) =~= before);
        vstd::seq_lib::to_multiset_len(before);
        vstd::multiset::lemma_multiset_empty_len(before.to_multiset());
    } else {
        let rest = before.drop_last();
        let x = before.last();
        lemma_expiry_partition(rest, ttl, now);
        assert(rest.push(x) =~= before);
        rest.lemma_filter_push(x, e);
        rest.lemma_filter_push(x, a);
        vstd::seq_lib::to_multiset_build(rest, x);
        if e(x) {
            vstd::seq_lib::to_multiset_build(rest.filter(e), x);
        } else {
            vstd::seq_lib::to_multiset_build(rest.filter(a), x);
        }
        assert(before.filter(e).to_multiset().add(before.filter(a).to_multiset()) =~= before.to_multiset());
    }
}

} // verus!
