use vstd::prelude::*;

use std::collections::{HashMap, HashSet};

use crate::buckets::{
    candidate_list, lemma_candidate_list_shape, BuildRatingBucketsForMode, GetCandidatesFromBuckets,
    RatingBucketRange,
};
use crate::matchmaker::Matchmaker;
use crate::numbers::Real;
use crate::types::{ticket_views, GameMode, GameModeView, MatchmakingTicket, TicketView, ContainsRegion, string_views};

verus! {

/// Whether a game mode can hold a match: it takes at least one player, its
/// maximum is not below its minimum, and it has a name.
pub open spec fn valid_game_mode(m: GameModeView) -> bool {
    m.MinPlayers > 0 && m.MaxPlayers >= m.MinPlayers && m.Name.len() != 0
}

/// Whether the search windows of two tickets overlap: the larger of their lowest
/// ratings is at most the smaller of their highest ratings (as floats compare).
pub open spec fn compatible(a: TicketView, b: TicketView) -> bool {
    a.MinimumMatchmakingRating.max_of(b.MinimumMatchmakingRating).is_le(
        a.MaximumMatchmakingRating.min_of(b.MaximumMatchmakingRating),
    )
}

/// Whether two tickets allow a common region.
pub open spec fn regions_overlap(a: TicketView, b: TicketView) -> bool {
    exists|r: Seq<char>| #[trigger] a.AllowedRegions.contains(r) && b.AllowedRegions.contains(r)
}

/// The identifiers of the tickets at the given positions.
pub open spec fn ids_of(tickets: Seq<TicketView>, group: Seq<usize>) -> Set<u128> {
    Set::new(|id: u128| exists|j: int| 0 <= j < group.len() && #[trigger] tickets[group[j] as int].TicketId == id)
}

/// The tickets of one game mode, at positions `indices` of `tickets` (in increasing
/// order), with `ranges` the rating buckets of each ticket of `tickets`.
pub struct ModeSearch {
    pub tickets: Seq<TicketView>,
    pub ranges: Seq<RatingBucketRange>,
    pub indices: Seq<usize>,
}

impl ModeSearch {
    /// The bucket ranges of the mode's tickets, by position in the mode.
    pub open spec fn local_ranges(self) -> Seq<RatingBucketRange> {
        Seq::new(self.indices.len(), |l: int| self.ranges[self.indices[l] as int])
    }

    /// The mode's ticket at position `l` of the mode.
    pub open spec fn ticket(self, l: int) -> TicketView {
        self.tickets[self.indices[l] as int]
    }

    /// The game mode, as the mode's first ticket gives it.
    pub open spec fn mode(self) -> GameModeView {
        self.ticket(0).GameMode
    }

    /// The candidates of the mode's ticket at `l`, by position in the mode.
    pub open spec fn candidates(self, l: int) -> Seq<usize> {
        candidate_list(self.local_ranges(), self.local_ranges()[l])
    }

    /// The group that the ticket at `l` gathers from its `k`-th candidate on, having
    /// gathered `group` with `count` players so far: a candidate joins when it comes
    /// after the base, is not in a match yet, fits in the mode's maximum, and shares a
    /// rating window and a region with the base; the group stops at the maximum.
    pub open spec fn grow(self, l: int, used: Set<u128>, k: nat, group: Seq<usize>, count: int) -> (Seq<usize>, int)
        decreases self.candidates(l).len() - k,
    {
        if k >= self.candidates(l).len() {
            (group, count)
        } else {
            let c = self.candidates(l)[k as int] as int;
            let candidate = self.ticket(c);
            let size = candidate.player_count() as int;
            if c <= l || used.contains(candidate.TicketId) || count + size > self.mode().MaxPlayers {
                self.grow(l, used, k + 1, group, count)
            } else if compatible(self.ticket(l), candidate) && regions_overlap(self.ticket(l), candidate) {
                if count + size >= self.mode().MaxPlayers {
                    (group.push(self.indices[c]), count + size)
                } else {
                    self.grow(l, used, k + 1, group.push(self.indices[c]), count + size)
                }
            } else {
                self.grow(l, used, k + 1, group, count)
            }
        }
    }

    /// The group that the ticket at `l` gathers, with its player count.
    pub open spec fn gathered(self, l: int, used: Set<u128>) -> (Seq<usize>, int) {
        self.grow(l, used, 0, seq![self.indices[l]], self.ticket(l).player_count() as int)
    }

    /// The identifiers placed in matches and the matches (as positions in `tickets`)
    /// after the first `n` tickets of the mode have had their turn as base.
    pub open spec fn after(self, n: nat) -> (Set<u128>, Seq<Seq<usize>>)
        decreases n,
    {
        if n == 0 {
            (Set::empty(), Seq::empty())
        } else {
            let prev = self.after((n - 1) as nat);
            let l = n - 1;
            if prev.0.contains(self.ticket(l).TicketId) {
                prev
            } else {
                let grown = self.gathered(l, prev.0);
                if grown.1 >= self.mode().MinPlayers {
                    (prev.0.union(ids_of(self.tickets, grown.0)), prev.1.push(grown.0))
                } else {
                    prev
                }
            }
        }
    }

    /// The matches the mode yields: none for an empty mode, an invalid game mode, or a
    /// bucket size that is not positive; otherwise those gathered by each ticket in turn.
    pub open spec fn matches(self, bucket_size_positive: bool) -> Seq<Seq<usize>> {
        if self.indices.len() == 0 || !valid_game_mode(self.mode()) || !bucket_size_positive {
            Seq::empty()
        } else {
            self.after(self.indices.len()).1
        }
    }
}

/// Whether `result` holds, group by group, the tickets at the positions of `groups`.
pub open spec fn holds_groups(result: Seq<Vec<MatchmakingTicket>>, tickets: Seq<TicketView>, groups: Seq<Seq<usize>>) -> bool {
    &&& result.len() == groups.len()
    &&& forall|i: int| 0 <= i < groups.len() ==> (#[trigger] result[i])@.len() == groups[i].len()
    &&& forall|i: int, j: int| 0 <= i < groups.len() && 0 <= j < groups[i].len() ==>
        (#[trigger] result[i]@[j])@ == tickets[groups[i][j] as int]
}

/// Whether the ticket at `i` is the first of its game mode (by name).
pub open spec fn first_of_mode(tickets: Seq<TicketView>, i: int) -> bool {
    forall|j: int| 0 <= j < i ==> #[trigger] tickets[j].GameMode.Name != tickets[i].GameMode.Name
}

/// Keeps the positions of the tickets whose game mode has this name.
pub open spec fn same_mode(tickets: Seq<TicketView>, name: Seq<char>) -> spec_fn(usize) -> bool {
    |j: usize| tickets[j as int].GameMode.Name == name
}

/// The positions, in increasing order, of the tickets whose game mode has this name.
pub open spec fn mode_indices(tickets: Seq<TicketView>, name: Seq<char>) -> Seq<usize> {
    Seq::new(tickets.len(), |j: int| j as usize).filter(same_mode(tickets, name))
}

/// The search over the game mode of the ticket at `i`.
pub open spec fn mode_search(tickets: Seq<TicketView>, ranges: Seq<RatingBucketRange>, i: int) -> ModeSearch {
    ModeSearch { tickets, ranges, indices: mode_indices(tickets, tickets[i].GameMode.Name) }
}

/// The matches of the game modes first met at position `i` or later, mode after mode
/// in the order their first tickets stand in the queue.
pub open spec fn match_groups_from(tickets: Seq<TicketView>, ranges: Seq<RatingBucketRange>, bucket_size_positive: bool, i: nat) -> Seq<Seq<usize>>
    decreases tickets.len() - i,
{
    if i >= tickets.len() {
        Seq::empty()
    } else {
        let here = if first_of_mode(tickets, i as int) {
            mode_search(tickets, ranges, i as int).matches(bucket_size_positive)
        } else {
            Seq::empty()
        };
        here + match_groups_from(tickets, ranges, bucket_size_positive, i + 1)
    }
}

/// The matches found in a queue, as positions of the queue.
pub open spec fn match_groups(tickets: Seq<TicketView>, ranges: Seq<RatingBucketRange>, bucket_size_positive: bool) -> Seq<Seq<usize>> {
    match_groups_from(tickets, ranges, bucket_size_positive, 0)
}

/// The identifiers of the tickets in the first `n` matches.
pub open spec fn ids_in_matches(matches: Seq<Vec<MatchmakingTicket>>, n: int) -> Set<u128> {
    Set::new(|id: u128| exists|i: int, j: int| 0 <= i < n && 0 <= j < matches[i]@.len() && #[trigger] matches[i]@[j].TicketId == id)
}

/// The identifiers of the first `n` tickets of a list.
pub open spec fn ids_prefix(group: Seq<MatchmakingTicket>, n: int) -> Set<u128> {
    Set::new(|id: u128| exists|k: int| 0 <= k < n && #[trigger] group[k].TicketId == id)
}

/// The positions of the tickets of each game mode whose first ticket stands at `i` or
/// later, mode after mode.
pub open spec fn mode_groups_from(tickets: Seq<TicketView>, i: nat) -> Seq<Seq<usize>>
    decreases tickets.len() - i,
{
    if i >= tickets.len() {
        Seq::empty()
    } else {
        let here = if first_of_mode(tickets, i as int) {
            seq![mode_indices(tickets, tickets[i as int].GameMode.Name)]
        } else {
            Seq::empty()
        };
        here + mode_groups_from(tickets, i + 1)
    }
}

/// The positions of the tickets of each game mode, modes in the order their first
/// tickets stand in the queue.
pub open spec fn mode_groups(tickets: Seq<TicketView>) -> Seq<Seq<usize>> {
    mode_groups_from(tickets, 0)
}

/// The views of a list of position lists.
pub open spec fn index_views(groups: Seq<Vec<usize>>) -> Seq<Seq<usize>> {
    groups.map_values(|g: Vec<usize>| g@)
}

/// The matches of each mode of a list, one mode after the other.
pub open spec fn matches_of_modes(tickets: Seq<TicketView>, ranges: Seq<RatingBucketRange>, bucket_size_positive: bool, modes: Seq<Seq<usize>>) -> Seq<Seq<usize>>
    decreases modes.len(),
{
    if modes.len() == 0 {
        Seq::empty()
    } else {
        (ModeSearch { tickets, ranges, indices: modes[0] }).matches(bucket_size_positive)
            + matches_of_modes(tickets, ranges, bucket_size_positive, modes.drop_first())
    }
}

pub(crate) proof fn lemma_mode_groups_match(tickets: Seq<TicketView>, ranges: Seq<RatingBucketRange>, positive: bool, i: nat)
    ensures matches_of_modes(tickets, ranges, positive, mode_groups_from(tickets, i)) == match_groups_from(tickets, ranges, positive, i),
    decreases tickets.len() - i,
{
    if i < tickets.len() {
        lemma_mode_groups_match(tickets, ranges, positive, i + 1);
        let rest = mode_groups_from(tickets, i + 1);
        if first_of_mode(tickets, i as int) {
            let m = mode_indices(tickets, tickets[i as int].GameMode.Name);
            let all = seq![m] + rest;
            assert(all[0] == m);
            assert(all.drop_first() =~= rest);
        } else {
            assert(Seq::<Seq<usize>>::empty() + rest =~= rest);
            assert(Seq::<Seq<usize>>::empty() + match_groups_from(tickets, ranges, positive, i + 1)
                =~= match_groups_from(tickets, ranges, positive, i + 1));
        }
    }
}

proof fn lemma_mode_groups_bounded(tickets: Seq<TicketView>, i: nat)
    requires tickets.len() <= usize::MAX,
    ensures
        forall|m: int, l: int| 0 <= m < mode_groups_from(tickets, i).len() && 0 <= l < mode_groups_from(tickets, i)[m].len() ==>
            #[trigger] mode_groups_from(tickets, i)[m][l] < tickets.len(),
    decreases tickets.len() - i,
{
    if i < tickets.len() {
        lemma_mode_groups_bounded(tickets, i + 1);
        let rest = mode_groups_from(tickets, i + 1);
        let all = mode_groups_from(tickets, i);
        if first_of_mode(tickets, i as int) {
            let name = tickets[i as int].GameMode.Name;
            let m = mode_indices(tickets, name);
            crate::matching_laws::lemma_mode_indices(tickets, name);
            assert forall|a: int, l: int| 0 <= a < all.len() && 0 <= l < all[a].len() implies #[trigger] all[a][l] < tickets.len() by {
                if a == 0 {
                    assert(all[a] == m);
                } else {
                    assert(all[a] == rest[a - 1]);
                }
            }
        } else {
            assert(all =~= rest);
        }
    }
}

/// Whether the search windows of two tickets overlap.
fn AreCompatible(First: &MatchmakingTicket, Second: &MatchmakingTicket) -> (r: bool)
    ensures r == compatible(First@, Second@),
{
    let MaxOfMins: Real = First.MinimumMatchmakingRating.Max(&Second.MinimumMatchmakingRating);
    let MinOfMaxs: Real = First.MaximumMatchmakingRating.Min(&Second.MaximumMatchmakingRating);
    MaxOfMins.Le(&MinOfMaxs)
}

/// Whether two tickets allow a common region.
fn HaveRegionOverlap(First: &MatchmakingTicket, Second: &MatchmakingTicket) -> (r: bool)
    ensures r == regions_overlap(First@, Second@),
{
    let mut i: usize = 0;
    while i < First.AllowedRegions.len()
        invariant
            i <= First.AllowedRegions.len(),
            forall|j: int| 0 <= j < i ==> !Second@.AllowedRegions.contains(#[trigger] First.AllowedRegions@[j]@),
        decreases First.AllowedRegions.len() - i,
    {
        if ContainsRegion(&Second.AllowedRegions, &First.AllowedRegions[i]) {
            proof {
                assert(First@.AllowedRegions[i as int] == First.AllowedRegions@[i as int]@);
                assert(First@.AllowedRegions.contains(First.AllowedRegions@[i as int]@));
            }
            return true;
        }
        i += 1;
    }
    proof {
        assert forall|r: Seq<char>| !(#[trigger] First@.AllowedRegions.contains(r) && Second@.AllowedRegions.contains(r)) by {
            if First@.AllowedRegions.contains(r) {
                let j = choose|j: int| 0 <= j < First@.AllowedRegions.len() && First@.AllowedRegions[j] == r;
                assert(First.AllowedRegions@[j]@ == r);
            }
        }
    }
    false
}


proof fn lemma_ids_of_push(tickets: Seq<TicketView>, group: Seq<usize>, g: usize)
    requires g < tickets.len(),
    ensures ids_of(tickets, group.push(g)) == ids_of(tickets, group).insert(tickets[g as int].TicketId),
{
    let a = ids_of(tickets, group.push(g));
    let b = ids_of(tickets, group).insert(tickets[g as int].TicketId);
    assert forall|id: u128| a.contains(id) implies b.contains(id) by {
        let j = choose|j: int| 0 <= j < group.push(g).len() && #[trigger] tickets[group.push(g)[j] as int].TicketId == id;
        if j < group.len() {
            assert(tickets[group[j] as int].TicketId == id);
        }
    }
    assert forall|id: u128| b.contains(id) implies a.contains(id) by {
        if id == tickets[g as int].TicketId {
            assert(tickets[group.push(g)[group.len() as int] as int].TicketId == id);
        } else {
            let j = choose|j: int| 0 <= j < group.len() && #[trigger] tickets[group[j] as int].TicketId == id;
            assert(tickets[group.push(g)[j] as int].TicketId == id);
        }
    }
    assert(a =~= b);
}

impl Matchmaker {
    /// Checks that a game mode can hold a match.
    pub fn ValidateGameMode(Mode: &GameMode) -> (r: bool)
        ensures r == valid_game_mode(Mode@),
    {
        Mode.MinPlayers > 0 && Mode.MaxPlayers >= Mode.MinPlayers && !Mode.Name.as_str().is_empty()
    }

    /// The positions of the tickets of each game mode (by name), modes in the order
    /// their first tickets stand in the queue, positions in increasing order.
    pub fn GroupByGameMode(&self, Tickets: &[MatchmakingTicket]) -> (Groups: Vec<Vec<usize>>)
        ensures index_views(Groups@) == mode_groups(ticket_views(Tickets@)),
    {
        let ghost views = ticket_views(Tickets@);
        let TicketCount: usize = Tickets.len();
        let mut Groups: Vec<Vec<usize>> = Vec::new();
        let mut i: usize = 0;
        while i < TicketCount
            invariant
                views == ticket_views(Tickets@),
                TicketCount == Tickets@.len(),
                i <= TicketCount,
                index_views(Groups@) + mode_groups_from(views, i as nat) == mode_groups(views),
            decreases TicketCount - i,
        {
            let Name: &String = &Tickets[i].GameMode.Name;
            let mut First: bool = true;
            let mut j: usize = 0;
            while j < i
                invariant
                    views == ticket_views(Tickets@),
                    i < Tickets@.len(),
                    Name@ == views[i as int].GameMode.Name,
                    j <= i,
                    First == forall|k: int| 0 <= k < j ==> #[trigger] views[k].GameMode.Name != views[i as int].GameMode.Name,
                decreases i - j,
            {
                assert(views[j as int] == Tickets@[j as int]@);
                let same: bool = Tickets[j].GameMode.Name == *Name;
                proof {
                    if same {
                        assert(views[j as int].GameMode.Name == views[i as int].GameMode.Name);
                        assert(!(forall|k: int| 0 <= k < j + 1 ==> #[trigger] views[k].GameMode.Name != views[i as int].GameMode.Name));
                    } else {
                        assert((forall|k: int| 0 <= k < j + 1 ==> #[trigger] views[k].GameMode.Name != views[i as int].GameMode.Name)
                            == (forall|k: int| 0 <= k < j ==> #[trigger] views[k].GameMode.Name != views[i as int].GameMode.Name));
                    }
                }
                if same {
                    First = false;
                }
                j += 1;
            }
            let ghost before = index_views(Groups@);
            if First {
                let ghost pred = same_mode(views, Name@);
                let ghost all = Seq::new(views.len(), |j: int| j as usize);
                let mut ModeIndices: Vec<usize> = Vec::new();
                let mut j: usize = 0;
                while j < TicketCount
                    invariant
                        views == ticket_views(Tickets@),
                        TicketCount == Tickets@.len(),
                        Name@ == views[i as int].GameMode.Name,
                        pred == same_mode(views, Name@),
                        all == Seq::new(views.len(), |j: int| j as usize),
                        j <= TicketCount,
                        ModeIndices@ == all.take(j as int).filter(pred),
                    decreases TicketCount - j,
                {
                    proof {
                        assert(all.take(j + 1) =~= all.take(j as int).push(j));
                        all.take(j as int).lemma_filter_push(j, pred);
                        assert(views[j as int] == Tickets@[j as int]@);
                    }
                    if Tickets[j].GameMode.Name == *Name {
                        ModeIndices.push(j);
                    }
                    j += 1;
                }
                assert(all.take(TicketCount as int) =~= all);
                Groups.push(ModeIndices);
                assert(index_views(Groups@) =~= before.push(mode_indices(views, views[i as int].GameMode.Name)));
            }
            proof {
                let here: Seq<Seq<usize>> = if first_of_mode(views, i as int) {
                    seq![mode_indices(views, views[i as int].GameMode.Name)]
                } else {
                    Seq::empty()
                };
                assert(mode_groups_from(views, i as nat) == here + mode_groups_from(views, (i + 1) as nat));
                assert(index_views(Groups@) =~= before + here);
                assert(before + here + mode_groups_from(views, (i + 1) as nat) =~= before + (here + mode_groups_from(views, (i + 1) as nat)));
            }
            i += 1;
        }
        proof {
            assert(mode_groups_from(views, TicketCount as nat) == Seq::<Seq<usize>>::empty());
            assert(index_views(Groups@) =~= mode_groups(views));
        }
        Groups
    }

    /// The matches found in the queue: for each game mode (by name, in the order the
    /// modes first appear), the matches among its tickets. `Buckets` holds the rating
    /// buckets of each ticket's search window.
    pub fn FindMatches(&self, Tickets: &[MatchmakingTicket], Buckets: &[RatingBucketRange]) -> (Matches: Vec<Vec<MatchmakingTicket>>)
        requires
            Buckets@.len() == Tickets@.len(),
            forall|i: int| 0 <= i < Tickets@.len() ==> (#[trigger] Tickets@[i]).Members@.len() <= u32::MAX,
        ensures
            holds_groups(
                Matches@,
                ticket_views(Tickets@),
                match_groups(ticket_views(Tickets@), Buckets@, !self.Configuration.RatingBucketSize.is_le(Real::Ordered(0))),
            ),
    {
        let ghost views = ticket_views(Tickets@);
        let ghost positive = !self.Configuration.RatingBucketSize.is_le(Real::Ordered(0));
        let mut Matches: Vec<Vec<MatchmakingTicket>> = Vec::new();
        if Tickets.len() == 0 {
            return Matches;
        }
        let TicketsByMode: Vec<Vec<usize>> = self.GroupByGameMode(Tickets);
        let ghost modes = index_views(TicketsByMode@);
        proof {
            lemma_mode_groups_match(views, Buckets@, positive, 0);
            lemma_mode_groups_bounded(views, 0);
            assert(modes.subrange(0, modes.len() as int) =~= modes);
            assert(Seq::<Seq<usize>>::empty() + match_groups(views, Buckets@, positive) =~= match_groups(views, Buckets@, positive));
        }
        let mut k: usize = 0;
        let ghost mut done: Seq<Seq<usize>> = Seq::empty();
        while k < TicketsByMode.len()
            invariant
                views == ticket_views(Tickets@),
                Buckets@.len() == Tickets@.len(),
                forall|i: int| 0 <= i < Tickets@.len() ==> (#[trigger] Tickets@[i]).Members@.len() <= u32::MAX,
                positive == !self.Configuration.RatingBucketSize.is_le(Real::Ordered(0)),
                modes == index_views(TicketsByMode@),
                modes == mode_groups(views),
                forall|m: int, l: int| 0 <= m < modes.len() && 0 <= l < modes[m].len() ==> #[trigger] modes[m][l] < views.len(),
                k <= TicketsByMode.len(),
                done + matches_of_modes(views, Buckets@, positive, modes.subrange(k as int, modes.len() as int))
                    == match_groups(views, Buckets@, positive),
                holds_groups(Matches@, views, done),
            decreases TicketsByMode.len() - k,
        {
            let ModeIndices: &Vec<usize> = &TicketsByMode[k];
            assert(ModeIndices@ == modes[k as int]);
            let mut ModeMatches = self.FindMatchesForMode(Tickets, Buckets, ModeIndices.as_slice());
            let ghost here = (ModeSearch { tickets: views, ranges: Buckets@, indices: modes[k as int] }).matches(positive);
            let ghost before = Matches@;
            let ghost mode_matches = ModeMatches@;
            Matches.append(&mut ModeMatches);
            proof {
                let rest = modes.subrange(k as int, modes.len() as int);
                assert(rest[0] == modes[k as int]);
                assert(rest.drop_first() =~= modes.subrange(k + 1, modes.len() as int));
                assert(matches_of_modes(views, Buckets@, positive, rest)
                    == here + matches_of_modes(views, Buckets@, positive, rest.drop_first()));
                assert(done + here + matches_of_modes(views, Buckets@, positive, rest.drop_first())
                    =~= done + (here + matches_of_modes(views, Buckets@, positive, rest.drop_first())));
                let groups = done + here;
                assert(Matches@ == before + mode_matches);
                assert forall|a: int, b: int| 0 <= a < groups.len() && 0 <= b < groups[a].len() implies
                    (#[trigger] Matches@[a]@[b])@ == views[groups[a][b] as int] by {
                    if a < done.len() {
                        assert(Matches@[a] == before[a]);
                    } else {
                        assert(Matches@[a] == mode_matches[a - done.len()]);
                    }
                }
                assert forall|a: int| 0 <= a < groups.len() implies (#[trigger] Matches@[a])@.len() == groups[a].len() by {
                    if a < done.len() {
                        assert(Matches@[a] == before[a]);
                    } else {
                        assert(Matches@[a] == mode_matches[a - done.len()]);
                    }
                }
                done = groups;
            }
            k += 1;
        }
        proof {
            assert(modes.subrange(modes.len() as int, modes.len() as int) =~= Seq::<Seq<usize>>::empty());
            assert(done =~= match_groups(views, Buckets@, positive));
        }
        Matches
    }

    /// The identifiers of all tickets placed in the matches.
    pub fn GetMatchedTicketIds(&self, Matches: &[Vec<MatchmakingTicket>]) -> (Ids: HashSet<u128>)
        ensures Ids@ == ids_in_matches(Matches@, Matches@.len() as int),
    {
        let mut Ids: HashSet<u128> = HashSet::new();
        let mut i: usize = 0;
        assert(Ids@ =~= ids_in_matches(Matches@, 0));
        while i < Matches.len()
            invariant
                i <= Matches.len(),
                Ids@ == ids_in_matches(Matches@, i as int),
            decreases Matches.len() - i,
        {
            let Group = &Matches[i];
            let ghost before = Ids@;
            let mut j: usize = 0;
            assert(before.union(ids_prefix(Group@, 0)) =~= before);
            while j < Group.len()
                invariant
                    i < Matches.len(),
                    Group == &Matches@[i as int],
                    j <= Group.len(),
                    Ids@ == before.union(ids_prefix(Group@, j as int)),
                decreases Group.len() - j,
            {
                Ids.insert(Group[j].TicketId);
                proof {
                    let next = ids_prefix(Group@, j + 1);
                    let now = ids_prefix(Group@, j as int);
                    assert forall|id: u128| #[trigger] next.contains(id) == (now.contains(id) || id == Group@[j as int].TicketId) by {
                        if next.contains(id) {
                            let k = choose|k: int| 0 <= k < j + 1 && #[trigger] Group@[k].TicketId == id;
                            if k < j {
                                assert(now.contains(id));
                            }
                        }
                        if id == Group@[j as int].TicketId {
                            assert(Group@[j as int].TicketId == id);
                        }
                        if now.contains(id) {
                            let k = choose|k: int| 0 <= k < j && #[trigger] Group@[k].TicketId == id;
                            assert(Group@[k].TicketId == id);
                        }
                    }
                    assert(Ids@ =~= before.union(next));
                }
                j += 1;
            }
            proof {
                assert forall|id: u128| #[trigger] ids_in_matches(Matches@, i + 1).contains(id) == Ids@.contains(id) by {
                    if ids_in_matches(Matches@, i + 1).contains(id) {
                        let (a, b) = choose|a: int, b: int| 0 <= a < i + 1 && 0 <= b < Matches@[a]@.len() && #[trigger] Matches@[a]@[b].TicketId == id;
                        if a < i {
                            assert(ids_in_matches(Matches@, i as int).contains(id));
                        } else {
                            assert(Group@[b].TicketId == id);
                        }
                    }
                    if Ids@.contains(id) {
                        if before.contains(id) {
                            let (a, b) = choose|a: int, b: int| 0 <= a < i && 0 <= b < Matches@[a]@.len() && #[trigger] Matches@[a]@[b].TicketId == id;
                            assert(Matches@[a]@[b].TicketId == id);
                        } else {
                            let k = choose|k: int| 0 <= k < j && #[trigger] Group@[k].TicketId == id;
                            assert(Matches@[i as int]@[k].TicketId == id);
                        }
                    }
                }
                assert(Ids@ =~= ids_in_matches(Matches@, i + 1));
            }
            i += 1;
        }
        Ids
    }

    /// The matches among the tickets of one game mode, at `ModeIndices` of `AllTickets`:
    /// each ticket in turn, unless already matched, gathers compatible candidates from
    /// its rating buckets, and keeps the group when it reaches the mode's minimum.
    fn FindMatchesForMode(
        &self,
        AllTickets: &[MatchmakingTicket],
        Buckets: &[RatingBucketRange],
        ModeIndices: &[usize],
    ) -> (Matches: Vec<Vec<MatchmakingTicket>>)
        requires
            Buckets@.len() == AllTickets@.len(),
            forall|l: int| 0 <= l < ModeIndices@.len() ==> #[trigger] ModeIndices@[l] < AllTickets@.len(),
            forall|i: int| 0 <= i < AllTickets@.len() ==> (#[trigger] AllTickets@[i]).Members@.len() <= u32::MAX,
        ensures
            holds_groups(
                Matches@,
                ticket_views(AllTickets@),
                (ModeSearch { tickets: ticket_views(AllTickets@), ranges: Buckets@, indices: ModeIndices@ }).matches(
                    !self.Configuration.RatingBucketSize.is_le(Real::Ordered(0)),
                ),
            ),
    {
        let ghost views = ticket_views(AllTickets@);
        let ghost search = ModeSearch { tickets: views, ranges: Buckets@, indices: ModeIndices@ };
        if ModeIndices.len() == 0 {
            return Vec::new();
        }
        let FirstTicket = &AllTickets[ModeIndices[0]];
        assert(FirstTicket@ == search.ticket(0));
        let MinPlayers: u32 = FirstTicket.GameMode.MinPlayers;
        let MaxPlayers: u32 = FirstTicket.GameMode.MaxPlayers;
        if !Self::ValidateGameMode(&FirstTicket.GameMode) {
            return Vec::new();
        }
        let zero = Real::Zero();
        if self.Configuration.RatingBucketSize.Le(&zero) {
            return Vec::new();
        }

        let mut LocalRanges: Vec<RatingBucketRange> = Vec::new();
        let mut i: usize = 0;
        while i < ModeIndices.len()
            invariant
                i <= ModeIndices.len(),
                Buckets@.len() == AllTickets@.len(),
                forall|l: int| 0 <= l < ModeIndices@.len() ==> #[trigger] ModeIndices@[l] < AllTickets@.len(),
                LocalRanges@.len() == i,
                forall|l: int| 0 <= l < i ==> #[trigger] LocalRanges@[l] == Buckets@[ModeIndices@[l] as int],
            decreases ModeIndices.len() - i,
        {
            LocalRanges.push(Buckets[ModeIndices[i]]);
            i += 1;
        }
        assert(LocalRanges@ =~= search.local_ranges());
        let RatingBuckets: HashMap<i64, Vec<usize>> = BuildRatingBucketsForMode(&LocalRanges);

        let mut UsedTicketIds: HashSet<u128> = HashSet::new();
        let mut PotentialMatches: Vec<Vec<MatchmakingTicket>> = Vec::new();
        let mut LocalIndex: usize = 0;
        assert(UsedTicketIds@ =~= search.after(0).0);
        while LocalIndex < ModeIndices.len()
            invariant
                views == ticket_views(AllTickets@),
                search == (ModeSearch { tickets: views, ranges: Buckets@, indices: ModeIndices@ }),
                LocalIndex <= ModeIndices.len(),
                ModeIndices@.len() > 0,
                MinPlayers == search.mode().MinPlayers,
                MaxPlayers == search.mode().MaxPlayers,
                Buckets@.len() == AllTickets@.len(),
                forall|l: int| 0 <= l < ModeIndices@.len() ==> #[trigger] ModeIndices@[l] < AllTickets@.len(),
                forall|i: int| 0 <= i < AllTickets@.len() ==> (#[trigger] AllTickets@[i]).Members@.len() <= u32::MAX,
                LocalRanges@ == search.local_ranges(),
                forall|b: i64| #[trigger] crate::buckets::bucket_filed(RatingBuckets@, LocalRanges@, b, LocalRanges@.len()),
                UsedTicketIds@ == search.after(LocalIndex as nat).0,
                holds_groups(PotentialMatches@, views, search.after(LocalIndex as nat).1),
            decreases ModeIndices.len() - LocalIndex,
        {
            let GlobalIndex: usize = ModeIndices[LocalIndex];
            let BaseTicket = &AllTickets[GlobalIndex];
            assert(BaseTicket@ == search.ticket(LocalIndex as int));
            let ghost prev = search.after(LocalIndex as nat);
            if UsedTicketIds.contains(&BaseTicket.TicketId) {
                assert(search.after((LocalIndex + 1) as nat) == prev);
                LocalIndex += 1;
                continue;
            }
            let mut MatchGroupIndices: Vec<usize> = Vec::new();
            MatchGroupIndices.push(GlobalIndex);
            let mut CurrentPlayerCount: u64 = BaseTicket.Members.len() as u64;
            let CandidateLocalIndices: Vec<usize> = GetCandidatesFromBuckets(
                &LocalRanges[LocalIndex],
                &RatingBuckets,
                Ghost(LocalRanges@),
            );
            proof {
                lemma_candidate_list_shape(LocalRanges@, LocalRanges@[LocalIndex as int]);
            }
            let ghost cands = search.candidates(LocalIndex as int);
            let ghost target = search.gathered(LocalIndex as int, prev.0);
            assert(MatchGroupIndices@ =~= seq![ModeIndices@[LocalIndex as int]]);
            let mut k: usize = 0;
            let mut Full: bool = false;
            while k < CandidateLocalIndices.len() && !Full
                invariant
                    views == ticket_views(AllTickets@),
                    search == (ModeSearch { tickets: views, ranges: Buckets@, indices: ModeIndices@ }),
                    LocalIndex < ModeIndices.len(),
                    MaxPlayers == search.mode().MaxPlayers,
                    forall|l: int| 0 <= l < ModeIndices@.len() ==> #[trigger] ModeIndices@[l] < AllTickets@.len(),
                    forall|i: int| 0 <= i < AllTickets@.len() ==> (#[trigger] AllTickets@[i]).Members@.len() <= u32::MAX,
                    BaseTicket@ == search.ticket(LocalIndex as int),
                    CandidateLocalIndices@ == cands,
                    cands == search.candidates(LocalIndex as int),
                    forall|i: int| 0 <= i < cands.len() ==> #[trigger] cands[i] < ModeIndices@.len(),
                    UsedTicketIds@ == prev.0,
                    k <= CandidateLocalIndices.len(),
                    CurrentPlayerCount <= u32::MAX,
                    forall|j: int| 0 <= j < MatchGroupIndices@.len() ==> #[trigger] MatchGroupIndices@[j] < AllTickets@.len(),
                    !Full ==> search.grow(LocalIndex as int, prev.0, k as nat, MatchGroupIndices@, CurrentPlayerCount as int) == target,
                    Full ==> (MatchGroupIndices@, CurrentPlayerCount as int) == target,
                decreases CandidateLocalIndices.len() - k,
            {
                let LocalCandidateIndex: usize = CandidateLocalIndices[k];
                if LocalCandidateIndex > LocalIndex {
                    let GlobalCandidateIndex: usize = ModeIndices[LocalCandidateIndex];
                    let CandidateTicket = &AllTickets[GlobalCandidateIndex];
                    assert(CandidateTicket@ == search.ticket(LocalCandidateIndex as int));
                    if !UsedTicketIds.contains(&CandidateTicket.TicketId) {
                        let CandidateSize: u64 = CandidateTicket.Members.len() as u64;
                        if CurrentPlayerCount + CandidateSize <= MaxPlayers as u64 {
                            if AreCompatible(BaseTicket, CandidateTicket) && HaveRegionOverlap(BaseTicket, CandidateTicket) {
                                MatchGroupIndices.push(GlobalCandidateIndex);
                                CurrentPlayerCount = CurrentPlayerCount + CandidateSize;
                                if CurrentPlayerCount >= MaxPlayers as u64 {
                                    Full = true;
                                }
                            }
                        }
                    }
                }
                k += 1;
            }
            assert((MatchGroupIndices@, CurrentPlayerCount as int) == target);
            if CurrentPlayerCount >= MinPlayers as u64 {
                let ghost used_before = UsedTicketIds@;
                let mut j: usize = 0;
                while j < MatchGroupIndices.len()
                    invariant
                        views == ticket_views(AllTickets@),
                        j <= MatchGroupIndices.len(),
                        forall|j: int| 0 <= j < MatchGroupIndices@.len() ==> #[trigger] MatchGroupIndices@[j] < AllTickets@.len(),
                        UsedTicketIds@ == used_before.union(ids_of(views, MatchGroupIndices@.take(j as int))),
                    decreases MatchGroupIndices.len() - j,
                {
                    proof {
                        assert(MatchGroupIndices@.take(j + 1) =~= MatchGroupIndices@.take(j as int).push(MatchGroupIndices@[j as int]));
                        lemma_ids_of_push(views, MatchGroupIndices@.take(j as int), MatchGroupIndices@[j as int]);
                        assert(views[MatchGroupIndices@[j as int] as int] == AllTickets@[MatchGroupIndices@[j as int] as int]@);
                    }
                    UsedTicketIds.insert(AllTickets[MatchGroupIndices[j]].TicketId);
                    proof {
                        assert(UsedTicketIds@ =~= used_before.union(ids_of(views, MatchGroupIndices@.take(j + 1))));
                    }
                    j += 1;
                }
                assert(MatchGroupIndices@.take(MatchGroupIndices@.len() as int) =~= MatchGroupIndices@);

                let mut MatchGroup: Vec<MatchmakingTicket> = Vec::new();
                let mut j: usize = 0;
                while j < MatchGroupIndices.len()
                    invariant
                        views == ticket_views(AllTickets@),
                        j <= MatchGroupIndices.len(),
                        forall|j: int| 0 <= j < MatchGroupIndices@.len() ==> #[trigger] MatchGroupIndices@[j] < AllTickets@.len(),
                        MatchGroup@.len() == j,
                        forall|i: int| 0 <= i < j ==> (#[trigger] MatchGroup@[i])@ == views[MatchGroupIndices@[i] as int],
                    decreases MatchGroupIndices.len() - j,
                {
                    MatchGroup.push(AllTickets[MatchGroupIndices[j]].Duplicate());
                    j += 1;
                }
                let ghost before_matches = PotentialMatches@;
                PotentialMatches.push(MatchGroup);
                proof {
                    let groups = search.after((LocalIndex + 1) as nat).1;
                    assert(groups == prev.1.push(MatchGroupIndices@));
                    assert forall|i: int, j: int| 0 <= i < groups.len() && 0 <= j < groups[i].len() implies
                        (#[trigger] PotentialMatches@[i]@[j])@ == views[groups[i][j] as int] by {
                        if i < prev.1.len() {
                            assert(PotentialMatches@[i] == before_matches[i]);
                        }
                    }
                }
            }
            LocalIndex += 1;
        }
        PotentialMatches
    }
}

} // verus!
