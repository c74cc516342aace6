use vstd::prelude::*;

use crate::buckets::{lemma_candidate_list_shape, lemma_candidates_share_a_bucket, share_a_bucket};
use crate::buckets::RatingBucketRange;
use crate::matching::{
    compatible, regions_overlap, ids_of, ModeSearch, first_of_mode, same_mode, mode_indices, mode_search, match_groups,
    match_groups_from, matches_of_modes, mode_groups, lemma_mode_groups_match,
};
use crate::types::TicketView;

verus! {

/// The number of players of the tickets at the given positions.
pub open spec fn total_players(tickets: Seq<TicketView>, group: Seq<usize>) -> int
    decreases group.len(),
{
    if group.len() == 0 {
        0
    } else {
        total_players(tickets, group.drop_last()) + tickets[group.last() as int].player_count()
    }
}

/// Whether the search is well formed: its positions are increasing positions of the
/// queue, and each ticket of the queue has its rating buckets.
pub open spec fn search_wf(s: ModeSearch) -> bool {
    &&& s.ranges.len() == s.tickets.len()
    &&& s.tickets.len() <= usize::MAX
    &&& s.indices.len() <= s.tickets.len()
    &&& forall|c: int| 0 <= c < s.indices.len() ==> #[trigger] s.indices[c] < s.tickets.len()
    &&& forall|a: int, b: int| 0 <= a < b < s.indices.len() ==> s.indices[a] < s.indices[b]
}

/// Whether the ticket at queue position `g` may join the group of the mode's ticket at
/// `l`: it comes after it in the mode, is not matched yet, and shares a rating window
/// and a region with it.
pub open spec fn may_join(s: ModeSearch, l: int, used: Set<u128>, g: usize) -> bool {
    exists|c: int| #![trigger s.indices[c]]
        l < c < s.indices.len() && s.indices[c] == g
        && !used.contains(s.ticket(c).TicketId)
        && compatible(s.ticket(l), s.ticket(c))
        && regions_overlap(s.ticket(l), s.ticket(c))
}

proof fn lemma_total_push(tickets: Seq<TicketView>, group: Seq<usize>, g: usize)
    ensures total_players(tickets, group.push(g)) == total_players(tickets, group) + tickets[g as int].player_count(),
{
    assert(group.push(g).drop_last() =~= group);
}

proof fn lemma_grow(s: ModeSearch, l: int, used: Set<u128>, k: nat, group: Seq<usize>, count: int)
    requires
        search_wf(s),
        0 <= l < s.indices.len(),
        count == total_players(s.tickets, group),
        group.len() >= 1,
        group.no_duplicates(),
        forall|j: int| 0 <= j < group.len() ==> #[trigger] group[j] == s.indices[l]
            || exists|m: int| 0 <= m < k && m < s.candidates(l).len() && group[j] == s.indices[s.candidates(l)[m] as int] && s.candidates(l)[m] > l,
    ensures
        ({
            let r = s.grow(l, used, k, group, count);
            &&& r.0.len() >= group.len()
            &&& r.0.subrange(0, group.len() as int) == group
            &&& r.1 == total_players(s.tickets, r.0)
            &&& r.0.no_duplicates()
            &&& forall|j: int| group.len() <= j < r.0.len() ==> may_join(s, l, used, #[trigger] r.0[j])
            &&& r.0.len() > group.len() ==> r.1 <= s.mode().MaxPlayers
            &&& r.0.len() == group.len() ==> r.1 == count
        }),
    decreases s.candidates(l).len() - k,
{
    let cands = s.candidates(l);
    lemma_candidate_list_shape(s.local_ranges(), s.local_ranges()[l]);
    if k >= cands.len() {
        assert(group.subrange(0, group.len() as int) =~= group);
    } else {
        let c = cands[k as int] as int;
        let candidate = s.ticket(c);
        let size = candidate.player_count() as int;
        assert forall|j: int| 0 <= j < group.len() implies #[trigger] group[j] == s.indices[l]
            || exists|m: int| 0 <= m < k + 1 && m < cands.len() && group[j] == s.indices[cands[m] as int] && cands[m] > l by {
            if group[j] != s.indices[l] {
                let m = choose|m: int| 0 <= m < k && m < cands.len() && group[j] == s.indices[cands[m] as int] && cands[m] > l;
                assert(0 <= m < k + 1);
            }
        }
        if c <= l || used.contains(candidate.TicketId) || count + size > s.mode().MaxPlayers {
            lemma_grow(s, l, used, k + 1, group, count);
        } else if compatible(s.ticket(l), candidate) && regions_overlap(s.ticket(l), candidate) {
            let g = s.indices[c];
            let group2 = group.push(g);
            lemma_total_push(s.tickets, group, g);
            assert(!group.contains(g)) by {
                if group.contains(g) {
                    let j = choose|j: int| 0 <= j < group.len() && group[j] == g;
                    if group[j] == s.indices[l] {
                        assert(s.indices[l] < s.indices[c]);
                    } else {
                        let m = choose|m: int| 0 <= m < k && m < cands.len() && group[j] == s.indices[cands[m] as int] && cands[m] > l;
                        assert(cands[m] != cands[k as int]);
                        if cands[m] < c {
                            assert(s.indices[cands[m] as int] < s.indices[c]);
                        } else {
                            assert(s.indices[c] < s.indices[cands[m] as int]);
                        }
                    }
                }
            }
            assert(may_join(s, l, used, g));
            assert forall|j: int| 0 <= j < group2.len() implies #[trigger] group2[j] == s.indices[l]
                || exists|m: int| 0 <= m < k + 1 && m < cands.len() && group2[j] == s.indices[cands[m] as int] && cands[m] > l by {
                if j == group.len() {
                    assert(group2[j] == s.indices[cands[k as int] as int]);
                } else {
                    assert(group2[j] == group[j]);
                }
            }
            if count + size >= s.mode().MaxPlayers {
                assert(group2.subrange(0, group.len() as int) =~= group);
            } else {
                lemma_grow(s, l, used, k + 1, group2, count + size);
                let r = s.grow(l, used, k + 1, group2, count + size);
                assert(r.0.subrange(0, group.len() as int) =~= r.0.subrange(0, group2.len() as int).subrange(0, group.len() as int));
                assert(r.0[group.len() as int] == g);
            }
        } else {
            lemma_grow(s, l, used, k + 1, group, count);
        }
    }
}


/// Whether a match list is sound for the search: each match is non-empty and made of
/// the mode's tickets, with identifiers recorded in `used`; no ticket stands in two
/// places; each match has at least the mode's minimum of players, and at most its
/// maximum unless it is one ticket alone; and each later ticket of a match shares a
/// rating window and a region with the match's first ticket.
pub open spec fn groups_sound(s: ModeSearch, used: Set<u128>, groups: Seq<Seq<usize>>) -> bool {
    &&& forall|i: int| 0 <= i < groups.len() ==> (#[trigger] groups[i]).len() >= 1
    &&& forall|i: int, j: int| 0 <= i < groups.len() && 0 <= j < groups[i].len() ==>
        exists|c: int| 0 <= c < s.indices.len() && s.indices[c] == #[trigger] groups[i][j]
    &&& forall|i: int, j: int| 0 <= i < groups.len() && 0 <= j < groups[i].len() ==>
        used.contains(s.tickets[#[trigger] groups[i][j] as int].TicketId)
    &&& forall|i1: int, j1: int, i2: int, j2: int|
        0 <= i1 < groups.len() && 0 <= j1 < groups[i1].len() && 0 <= i2 < groups.len() && 0 <= j2 < groups[i2].len()
        && (i1 != i2 || j1 != j2) ==> #[trigger] groups[i1][j1] != #[trigger] groups[i2][j2]
    &&& forall|i: int| 0 <= i < groups.len() ==> total_players(s.tickets, #[trigger] groups[i]) >= s.mode().MinPlayers
        && (groups[i].len() == 1 || total_players(s.tickets, groups[i]) <= s.mode().MaxPlayers)
    &&& forall|i: int, j: int| 0 <= i < groups.len() && 1 <= j < groups[i].len() ==>
        compatible(s.tickets[groups[i][0] as int], s.tickets[#[trigger] groups[i][j] as int])
        && regions_overlap(s.tickets[groups[i][0] as int], s.tickets[groups[i][j] as int])
}

proof fn lemma_total_single(tickets: Seq<TicketView>, g: usize)
    ensures total_players(tickets, seq![g]) == tickets[g as int].player_count(),
{
    assert(seq![g].drop_last() =~= Seq::<usize>::empty());
    assert(total_players(tickets, Seq::<usize>::empty()) == 0);
    assert(seq![g].last() == g);
}

proof fn lemma_after(s: ModeSearch, n: nat)
    requires
        search_wf(s),
        n <= s.indices.len(),
    ensures
        groups_sound(s, s.after(n).0, s.after(n).1),
    decreases n,
{
    if n > 0 {
        lemma_after(s, (n - 1) as nat);
        let prev = s.after((n - 1) as nat);
        let l = n - 1;
        if !prev.0.contains(s.ticket(l).TicketId) {
            let used = prev.0;
            let base = s.indices[l];
            lemma_total_single(s.tickets, base);
            lemma_grow(s, l, used, 0, seq![base], s.ticket(l).player_count() as int);
            let grown = s.gathered(l, used);
            if grown.1 >= s.mode().MinPlayers {
                let g = grown.0;
                let groups = prev.1.push(g);
                let used2 = used.union(ids_of(s.tickets, g));
                assert(g[0] == base) by {
                    assert(g.subrange(0, 1)[0] == g[0]);
                }
                assert forall|j: int| 0 <= j < g.len() implies !used.contains(s.tickets[#[trigger] g[j] as int].TicketId)
                    && exists|c: int| 0 <= c < s.indices.len() && s.indices[c] == g[j] by {
                    if j == 0 {
                        assert(s.indices[l] == g[j]);
                    } else {
                        assert(may_join(s, l, used, g[j]));
                        let c = choose|c: int| #![trigger s.indices[c]]
                            l < c < s.indices.len() && s.indices[c] == g[j]
                            && !used.contains(s.ticket(c).TicketId)
                            && compatible(s.ticket(l), s.ticket(c))
                            && regions_overlap(s.ticket(l), s.ticket(c));
                        assert(s.indices[c] == g[j]);
                    }
                }
                assert forall|j: int| 0 <= j < g.len() implies used2.contains(s.tickets[#[trigger] g[j] as int].TicketId) by {
                    assert(ids_of(s.tickets, g).contains(s.tickets[g[j] as int].TicketId));
                }
                assert forall|i1: int, j1: int, i2: int, j2: int|
                    0 <= i1 < groups.len() && 0 <= j1 < groups[i1].len() && 0 <= i2 < groups.len() && 0 <= j2 < groups[i2].len()
                    && (i1 != i2 || j1 != j2) implies #[trigger] groups[i1][j1] != #[trigger] groups[i2][j2] by {
                    if i1 < prev.1.len() && i2 < prev.1.len() {
                        assert(groups[i1] == prev.1[i1] && groups[i2] == prev.1[i2]);
                    } else if i1 < prev.1.len() {
                        assert(groups[i1] == prev.1[i1]);
                        assert(used.contains(s.tickets[prev.1[i1][j1] as int].TicketId));
                        assert(!used.contains(s.tickets[g[j2] as int].TicketId));
                    } else if i2 < prev.1.len() {
                        assert(groups[i2] == prev.1[i2]);
                        assert(used.contains(s.tickets[prev.1[i2][j2] as int].TicketId));
                        assert(!used.contains(s.tickets[g[j1] as int].TicketId));
                    } else {
                        assert(g.no_duplicates());
                    }
                }
                assert forall|i: int, j: int| 0 <= i < groups.len() && 1 <= j < groups[i].len() implies
                    compatible(s.tickets[groups[i][0] as int], s.tickets[#[trigger] groups[i][j] as int])
                    && regions_overlap(s.tickets[groups[i][0] as int], s.tickets[groups[i][j] as int]) by {
                    if i < prev.1.len() {
                        assert(groups[i] == prev.1[i]);
                    } else {
                        assert(groups[i] == g);
                        assert(may_join(s, l, used, g[j]));
                    }
                }
                assert forall|i: int, j: int| 0 <= i < groups.len() && 0 <= j < groups[i].len() implies
                    used2.contains(s.tickets[#[trigger] groups[i][j] as int].TicketId) by {
                    if i < prev.1.len() {
                        assert(groups[i] == prev.1[i]);
                    }
                }
                assert forall|i: int, j: int| 0 <= i < groups.len() && 0 <= j < groups[i].len() implies
                    exists|c: int| 0 <= c < s.indices.len() && s.indices[c] == #[trigger] groups[i][j] by {
                    if i < prev.1.len() {
                        assert(groups[i] == prev.1[i]);
                    }
                }
                assert forall|i: int| 0 <= i < groups.len() implies total_players(s.tickets, #[trigger] groups[i]) >= s.mode().MinPlayers
                    && (groups[i].len() == 1 || total_players(s.tickets, groups[i]) <= s.mode().MaxPlayers) by {
                    if i < prev.1.len() {
                        assert(groups[i] == prev.1[i]);
                    }
                }
                assert forall|i: int| 0 <= i < groups.len() implies (#[trigger] groups[i]).len() >= 1 by {
                    if i < prev.1.len() {
                        assert(groups[i] == prev.1[i]);
                    }
                }
            }
        }
    }
}

/// Law of the search of one game mode: no queued ticket stands in two places of
/// the matches; each match is non-empty and made of the mode's tickets; it has at
/// least the mode's minimum of players, and at most its maximum unless it is one
/// ticket alone; and each later ticket of a match shares a rating window and a region
/// with the match's first ticket.
pub proof fn lemma_mode_matches_sound(s: ModeSearch, bucket_size_positive: bool)
    requires search_wf(s),
    ensures
        exists|used: Set<u128>| groups_sound(s, used, s.matches(bucket_size_positive)),
{
    lemma_after(s, s.indices.len());
    if s.indices.len() == 0 || !crate::matching::valid_game_mode(s.mode()) || !bucket_size_positive {
        assert(groups_sound(s, Set::empty(), s.matches(bucket_size_positive)));
    } else {
        assert(groups_sound(s, s.after(s.indices.len()).0, s.matches(bucket_size_positive)));
    }
}


proof fn lemma_positions_filter(tickets: Seq<TicketView>, name: Seq<char>, n: nat)
    requires
        n <= tickets.len(),
        tickets.len() <= usize::MAX,
    ensures
        ({
            let f = Seq::new(tickets.len(), |j: int| j as usize).take(n as int).filter(same_mode(tickets, name));
            &&& f.len() <= n
            &&& forall|a: int, b: int| 0 <= a < b < f.len() ==> f[a] < f[b]
            &&& forall|a: int| 0 <= a < f.len() ==> #[trigger] f[a] < n && tickets[f[a] as int].GameMode.Name == name
            &&& forall|x: int| 0 <= x < n && tickets[x].GameMode.Name == name ==> f.contains(x as usize)
        }),
    decreases n,
{
    let all = Seq::new(tickets.len(), |j: int| j as usize);
    let pred = same_mode(tickets, name);
    if n == 0 {
        assert(all.take(0) =~= Seq::<usize>::empty());
        reveal(Seq::filter);
        assert(all.take(0).filter(pred) =~= Seq::<usize>::empty());
    } else {
        lemma_positions_filter(tickets, name, (n - 1) as nat);
        let m = (n - 1) as int;
        let mu = m as usize;
        assert(all[m] == mu);
        assert(all.take(n as int) =~= all.take(m).push(mu));
        all.take(m).lemma_filter_push(mu, pred);
        let before = all.take(m).filter(pred);
        let f = all.take(n as int).filter(pred);
        assert forall|x: int| 0 <= x < n && tickets[x].GameMode.Name == name implies f.contains(x as usize) by {
            if x < m {
                assert(before.contains(x as usize));
                let k = choose|k: int| 0 <= k < before.len() && before[k] == x as usize;
                assert(f[k] == x as usize);
            } else {
                assert(pred(mu));
                assert(f == before.push(mu));
                assert(f[f.len() - 1] == x as usize);
            }
        }
    }
}

/// The positions of a mode's tickets are increasing positions of the queue, each of a
/// ticket with the mode's name, and they hold each such ticket.
pub(crate) proof fn lemma_mode_indices(tickets: Seq<TicketView>, name: Seq<char>)
    requires tickets.len() <= usize::MAX,
    ensures
        ({
            let f = mode_indices(tickets, name);
            &&& f.len() <= tickets.len()
            &&& forall|a: int, b: int| 0 <= a < b < f.len() ==> f[a] < f[b]
            &&& forall|a: int| 0 <= a < f.len() ==> #[trigger] f[a] < tickets.len() && tickets[f[a] as int].GameMode.Name == name
            &&& forall|x: int| 0 <= x < tickets.len() && tickets[x].GameMode.Name == name ==> f.contains(x as usize)
        }),
{
    let all = Seq::new(tickets.len(), |j: int| j as usize);
    lemma_positions_filter(tickets, name, tickets.len());
    assert(all.take(tickets.len() as int) =~= all);
}

/// The first position of a mode is that of the ticket that first has its name.
proof fn lemma_mode_starts_at_first(tickets: Seq<TicketView>, i: int)
    requires
        0 <= i < tickets.len(),
        tickets.len() <= usize::MAX,
        first_of_mode(tickets, i),
    ensures
        mode_indices(tickets, tickets[i].GameMode.Name).len() > 0,
        mode_indices(tickets, tickets[i].GameMode.Name)[0] == i,
{
    let name = tickets[i].GameMode.Name;
    let f = mode_indices(tickets, name);
    lemma_mode_indices(tickets, name);
    assert(f.contains(i as usize));
    let k = choose|k: int| 0 <= k < f.len() && f[k] == i as usize;
    if k > 0 {
        assert(f[0] < f[k]);
        assert(tickets[f[0] as int].GameMode.Name == name);
        assert(tickets[f[0] as int].GameMode.Name != tickets[i].GameMode.Name);
    }
}

/// Whether the matches of a queue are sound: each position stands in one place only;
/// each match is non-empty, of positions of the queue whose tickets share the game
/// mode name of the match's first ticket; each later ticket shares a rating window and
/// a region with the first; and, with the game mode of the first queued ticket of that
/// name, each match has at least its minimum of players, and at most its maximum
/// unless it is one ticket alone.
pub open spec fn queue_groups_sound(tickets: Seq<TicketView>, groups: Seq<Seq<usize>>) -> bool {
    &&& forall|i1: int, j1: int, i2: int, j2: int|
        0 <= i1 < groups.len() && 0 <= j1 < groups[i1].len() && 0 <= i2 < groups.len() && 0 <= j2 < groups[i2].len()
        && (i1 != i2 || j1 != j2) ==> #[trigger] groups[i1][j1] != #[trigger] groups[i2][j2]
    &&& forall|i: int| 0 <= i < groups.len() ==> (#[trigger] groups[i]).len() >= 1
    &&& forall|i: int, j: int| 0 <= i < groups.len() && 0 <= j < groups[i].len() ==>
        #[trigger] groups[i][j] < tickets.len()
        && tickets[groups[i][j] as int].GameMode.Name == tickets[groups[i][0] as int].GameMode.Name
    &&& forall|i: int, j: int| 0 <= i < groups.len() && 1 <= j < groups[i].len() ==>
        compatible(tickets[groups[i][0] as int], tickets[#[trigger] groups[i][j] as int])
        && regions_overlap(tickets[groups[i][0] as int], tickets[groups[i][j] as int])
    &&& forall|i: int| 0 <= i < groups.len() ==> #[trigger] sized_for_mode(tickets, groups[i])
}

/// Whether a match has at least the minimum of players of the game mode of the first
/// queued ticket of its name, and at most its maximum unless it is one ticket alone.
pub open spec fn sized_for_mode(tickets: Seq<TicketView>, group: Seq<usize>) -> bool {
    exists|f: int| #![trigger tickets[f]]
        0 <= f < tickets.len() && first_of_mode(tickets, f)
        && tickets[f].GameMode.Name == tickets[group[0] as int].GameMode.Name
        && total_players(tickets, group) >= tickets[f].GameMode.MinPlayers
        && (group.len() == 1 || total_players(tickets, group) <= tickets[f].GameMode.MaxPlayers)
}

/// Whether each ticket of the matches has the name of a mode first met at `i` or later.
pub open spec fn names_from(tickets: Seq<TicketView>, groups: Seq<Seq<usize>>, i: int) -> bool {
    forall|a: int, b: int| 0 <= a < groups.len() && 0 <= b < groups[a].len() ==>
        #[trigger] mode_first_met_from(tickets, groups[a][b] as int, i)
}

/// Whether the ticket at `x` has the name of a mode first met at `i` or later.
pub open spec fn mode_first_met_from(tickets: Seq<TicketView>, x: int, i: int) -> bool {
    exists|f: int| #![trigger tickets[f]] i <= f < tickets.len() && first_of_mode(tickets, f)
        && tickets[f].GameMode.Name == tickets[x].GameMode.Name
}

proof fn lemma_mode_groups_in_queue(tickets: Seq<TicketView>, ranges: Seq<RatingBucketRange>, positive: bool, i: int)
    requires
        ranges.len() == tickets.len(),
        tickets.len() <= usize::MAX,
        0 <= i < tickets.len(),
        first_of_mode(tickets, i),
    ensures
        queue_groups_sound(tickets, mode_search(tickets, ranges, i).matches(positive)),
        forall|a: int, b: int| 0 <= a < mode_search(tickets, ranges, i).matches(positive).len()
            && 0 <= b < mode_search(tickets, ranges, i).matches(positive)[a].len() ==>
            tickets[#[trigger] mode_search(tickets, ranges, i).matches(positive)[a][b] as int].GameMode.Name == tickets[i].GameMode.Name,
{
    let name = tickets[i].GameMode.Name;
    let s = mode_search(tickets, ranges, i);
    let here = s.matches(positive);
    lemma_mode_indices(tickets, name);
    lemma_mode_starts_at_first(tickets, i);
    assert(search_wf(s));
    lemma_mode_matches_sound(s, positive);
    let used = choose|used: Set<u128>| groups_sound(s, used, s.matches(positive));
    assert(s.mode() == tickets[i].GameMode);
    assert forall|a: int, b: int| 0 <= a < here.len() && 0 <= b < here[a].len() implies
        #[trigger] here[a][b] < tickets.len() && tickets[here[a][b] as int].GameMode.Name == name by {
        let c = choose|c: int| 0 <= c < s.indices.len() && s.indices[c] == here[a][b];
        assert(s.indices[c] < tickets.len());
    }
    assert forall|a: int| 0 <= a < here.len() implies #[trigger] sized_for_mode(tickets, here[a]) by {
        assert(here[a][0] < tickets.len());
        assert(tickets[i].GameMode.Name == tickets[here[a][0] as int].GameMode.Name);
    }
    assert forall|a: int, b: int| 0 <= a < here.len() && 0 <= b < here[a].len() implies
        #[trigger] here[a][b] < tickets.len()
        && tickets[here[a][b] as int].GameMode.Name == tickets[here[a][0] as int].GameMode.Name by {
        assert(here[a][0] < tickets.len());
    }
}

proof fn lemma_concat_sound(tickets: Seq<TicketView>, here: Seq<Seq<usize>>, rest: Seq<Seq<usize>>, i: int)
    requires
        0 <= i < tickets.len(),
        first_of_mode(tickets, i),
        queue_groups_sound(tickets, here),
        queue_groups_sound(tickets, rest),
        forall|a: int, b: int| 0 <= a < here.len() && 0 <= b < here[a].len() ==>
            tickets[#[trigger] here[a][b] as int].GameMode.Name == tickets[i].GameMode.Name,
        names_from(tickets, rest, i + 1),
    ensures
        queue_groups_sound(tickets, here + rest),
        names_from(tickets, here + rest, i),
{
    let groups = here + rest;
    assert forall|a: int, b: int| 0 <= a < groups.len() && 0 <= b < groups[a].len() implies
        #[trigger] mode_first_met_from(tickets, groups[a][b] as int, i) by {
        if a < here.len() {
            assert(groups[a] == here[a]);
            assert(tickets[i].GameMode.Name == tickets[here[a][b] as int].GameMode.Name);
        } else {
            assert(groups[a] == rest[a - here.len()]);
            assert(mode_first_met_from(tickets, rest[a - here.len()][b] as int, i + 1));
        }
    }
    assert forall|i1: int, j1: int, i2: int, j2: int|
        0 <= i1 < groups.len() && 0 <= j1 < groups[i1].len() && 0 <= i2 < groups.len() && 0 <= j2 < groups[i2].len()
        && (i1 != i2 || j1 != j2) implies #[trigger] groups[i1][j1] != #[trigger] groups[i2][j2] by {
        if i1 < here.len() && i2 < here.len() {
            assert(groups[i1] == here[i1] && groups[i2] == here[i2]);
        } else if i1 >= here.len() && i2 >= here.len() {
            assert(groups[i1] == rest[i1 - here.len()] && groups[i2] == rest[i2 - here.len()]);
        } else if i1 < here.len() {
            assert(groups[i1] == here[i1] && groups[i2] == rest[i2 - here.len()]);
            assert(mode_first_met_from(tickets, rest[i2 - here.len()][j2] as int, i + 1));
            let f = choose|f: int| #![trigger tickets[f]] i + 1 <= f < tickets.len() && first_of_mode(tickets, f)
                && tickets[f].GameMode.Name == tickets[rest[i2 - here.len()][j2] as int].GameMode.Name;
            assert(tickets[i].GameMode.Name != tickets[f].GameMode.Name);
        } else {
            assert(groups[i2] == here[i2] && groups[i1] == rest[i1 - here.len()]);
            assert(mode_first_met_from(tickets, rest[i1 - here.len()][j1] as int, i + 1));
            let f = choose|f: int| #![trigger tickets[f]] i + 1 <= f < tickets.len() && first_of_mode(tickets, f)
                && tickets[f].GameMode.Name == tickets[rest[i1 - here.len()][j1] as int].GameMode.Name;
            assert(tickets[i].GameMode.Name != tickets[f].GameMode.Name);
        }
    }
    assert forall|a: int| 0 <= a < groups.len() implies (#[trigger] groups[a]).len() >= 1 && sized_for_mode(tickets, groups[a]) by {
        if a < here.len() { assert(groups[a] == here[a]); } else { assert(groups[a] == rest[a - here.len()]); }
    }
    assert forall|a: int, b: int| 0 <= a < groups.len() && 0 <= b < groups[a].len() implies
        #[trigger] groups[a][b] < tickets.len()
        && tickets[groups[a][b] as int].GameMode.Name == tickets[groups[a][0] as int].GameMode.Name by {
        if a < here.len() { assert(groups[a] == here[a]); } else { assert(groups[a] == rest[a - here.len()]); }
    }
    assert forall|a: int, b: int| 0 <= a < groups.len() && 1 <= b < groups[a].len() implies
        compatible(tickets[groups[a][0] as int], tickets[#[trigger] groups[a][b] as int])
        && regions_overlap(tickets[groups[a][0] as int], tickets[groups[a][b] as int]) by {
        if a < here.len() { assert(groups[a] == here[a]); } else { assert(groups[a] == rest[a - here.len()]); }
    }
}

proof fn lemma_groups_from(tickets: Seq<TicketView>, ranges: Seq<RatingBucketRange>, positive: bool, i: nat)
    requires
        ranges.len() == tickets.len(),
        tickets.len() <= usize::MAX,
    ensures
        queue_groups_sound(tickets, match_groups_from(tickets, ranges, positive, i)),
        names_from(tickets, match_groups_from(tickets, ranges, positive, i), i as int),
    decreases tickets.len() - i,
{
    if i < tickets.len() {
        lemma_groups_from(tickets, ranges, positive, i + 1);
        let rest = match_groups_from(tickets, ranges, positive, i + 1);
        let groups = match_groups_from(tickets, ranges, positive, i);
        if first_of_mode(tickets, i as int) {
            let here = mode_search(tickets, ranges, i as int).matches(positive);
            assert(groups == here + rest);
            lemma_mode_groups_in_queue(tickets, ranges, positive, i as int);
            lemma_concat_sound(tickets, here, rest, i as int);
        } else {
            assert(groups =~= rest);
            assert forall|a: int, b: int| 0 <= a < groups.len() && 0 <= b < groups[a].len() implies
                #[trigger] mode_first_met_from(tickets, groups[a][b] as int, i as int) by {
                assert(mode_first_met_from(tickets, rest[a][b] as int, (i + 1) as int));
            }
        }
    }
}

/// Law of `FindMatches`: in the matches found in a queue, no queued ticket stands in two
/// places; each match is non-empty, made of tickets of one game mode name; each later
/// ticket of a match shares a rating window and a region with the match's first
/// ticket; and, with the game mode of the first queued ticket of that name, each match
/// has at least its minimum of players, and at most its maximum unless it is one
/// ticket alone.
pub proof fn lemma_match_groups_sound(tickets: Seq<TicketView>, ranges: Seq<RatingBucketRange>, bucket_size_positive: bool)
    requires
        ranges.len() == tickets.len(),
        tickets.len() <= usize::MAX,
    ensures
        queue_groups_sound(tickets, match_groups(tickets, ranges, bucket_size_positive)),
{
    lemma_groups_from(tickets, ranges, bucket_size_positive, 0);
}

/// Whether the mode's ticket at `c` could join the group of the mode's ticket at `l`
/// when the identifiers in `used` are taken: it comes after it in the mode, is not
/// taken, and shares a rating window and a region with it.
pub open spec fn could_join(s: ModeSearch, l: int, used: Set<u128>, c: int) -> bool {
    &&& l < c < s.indices.len()
    &&& !used.contains(s.ticket(c).TicketId)
    &&& compatible(s.ticket(l), s.ticket(c))
    &&& regions_overlap(s.ticket(l), s.ticket(c))
}

/// Whether the result `r` of growing a group from candidate `k` on leaves out no
/// candidate that could join, unless it would not fit or the group is full.
pub open spec fn leaves_out_only_misfits(s: ModeSearch, l: int, used: Set<u128>, k: int, r: (Seq<usize>, int)) -> bool {
    forall|m: int| k <= m < s.candidates(l).len()
        && could_join(s, l, used, #[trigger] s.candidates(l)[m] as int)
        && !r.0.contains(s.indices[s.candidates(l)[m] as int])
        ==> r.1 >= s.mode().MaxPlayers
            || r.1 + s.ticket(s.candidates(l)[m] as int).player_count() > s.mode().MaxPlayers
}

proof fn lemma_grow_maximal(s: ModeSearch, l: int, used: Set<u128>, k: nat, group: Seq<usize>, count: int)
    ensures
        s.grow(l, used, k, group, count).1 >= count,
        forall|x: usize| group.contains(x) ==> s.grow(l, used, k, group, count).0.contains(x),
        leaves_out_only_misfits(s, l, used, k as int, s.grow(l, used, k, group, count)),
    decreases s.candidates(l).len() - k,
{
    let cands = s.candidates(l);
    let r = s.grow(l, used, k, group, count);
    if k < cands.len() {
        let c = cands[k as int] as int;
        let candidate = s.ticket(c);
        let size = candidate.player_count() as int;
        if c <= l || used.contains(candidate.TicketId) || count + size > s.mode().MaxPlayers {
            lemma_grow_maximal(s, l, used, k + 1, group, count);
            assert(r == s.grow(l, used, k + 1, group, count));
            assert forall|m: int| k <= m < cands.len()
                && could_join(s, l, used, #[trigger] cands[m] as int)
                && !r.0.contains(s.indices[cands[m] as int])
                implies r.1 >= s.mode().MaxPlayers || r.1 + s.ticket(cands[m] as int).player_count() > s.mode().MaxPlayers by {
                if m > k {
                    assert(leaves_out_only_misfits(s, l, used, (k + 1) as int, r));
                }
            }
        } else if compatible(s.ticket(l), candidate) && regions_overlap(s.ticket(l), candidate) {
            let group2 = group.push(s.indices[c]);
            assert(group2[group.len() as int] == s.indices[c]);
            assert(group2.contains(s.indices[c]));
            assert forall|x: usize| group.contains(x) implies group2.contains(x) by {
                let j = choose|j: int| 0 <= j < group.len() && group[j] == x;
                assert(group2[j] == x);
            }
            if count + size < s.mode().MaxPlayers {
                lemma_grow_maximal(s, l, used, k + 1, group2, count + size);
                assert(r == s.grow(l, used, k + 1, group2, count + size));
                assert(r.0.contains(s.indices[c]));
                assert forall|m: int| k <= m < cands.len()
                    && could_join(s, l, used, #[trigger] cands[m] as int)
                    && !r.0.contains(s.indices[cands[m] as int])
                    implies r.1 >= s.mode().MaxPlayers || r.1 + s.ticket(cands[m] as int).player_count() > s.mode().MaxPlayers by {
                    if m > k {
                        assert(leaves_out_only_misfits(s, l, used, (k + 1) as int, r));
                    }
                }
            } else {
                assert(r == (group2, count + size));
            }
        } else {
            lemma_grow_maximal(s, l, used, k + 1, group, count);
            assert(r == s.grow(l, used, k + 1, group, count));
            assert forall|m: int| k <= m < cands.len()
                && could_join(s, l, used, #[trigger] cands[m] as int)
                && !r.0.contains(s.indices[cands[m] as int])
                implies r.1 >= s.mode().MaxPlayers || r.1 + s.ticket(cands[m] as int).player_count() > s.mode().MaxPlayers by {
                if m > k {
                    assert(leaves_out_only_misfits(s, l, used, (k + 1) as int, r));
                }
            }
        }
    }
}

/// Law of the search of one game mode: the group a ticket gathers holds itself, and
/// leaves out no candidate that could join it (a later ticket of the mode, not yet in a
/// match, sharing a rating window and a region with it) unless that candidate would
/// take the group past the mode's maximum of players, or the group has reached it.
pub proof fn lemma_gathered_group_is_maximal(s: ModeSearch, l: int, used: Set<u128>)
    requires 0 <= l < s.indices.len(),
    ensures
        ({
            let (group, count) = s.gathered(l, used);
            &&& group.contains(s.indices[l])
            &&& forall|m: int| 0 <= m < s.candidates(l).len()
                && could_join(s, l, used, #[trigger] s.candidates(l)[m] as int)
                && !group.contains(s.indices[s.candidates(l)[m] as int])
                ==> count >= s.mode().MaxPlayers
                    || count + s.ticket(s.candidates(l)[m] as int).player_count() > s.mode().MaxPlayers
        }),
{
    let start = seq![s.indices[l]];
    assert(start[0] == s.indices[l]);
    assert(start.contains(s.indices[l]));
    lemma_grow_maximal(s, l, used, 0, start, s.ticket(l).player_count() as int);
    assert(leaves_out_only_misfits(s, l, used, 0, s.gathered(l, used)));
}

/// Law of the search of one game mode, over rating buckets: when the mode's ticket at
/// `l` gathers its group, any later ticket of the mode that is not yet in a match, is
/// filed under a rating bucket of the base's, and shares a rating window and a region
/// with it, is in the group, unless it would take the group past the mode's maximum of
/// players or the group has reached it.
pub proof fn lemma_search_is_maximal(s: ModeSearch, l: int, used: Set<u128>)
    requires
        0 <= l < s.indices.len(),
        s.indices.len() <= usize::MAX,
    ensures
        ({
            let (group, count) = s.gathered(l, used);
            forall|c: int| #![trigger s.indices[c]]
                could_join(s, l, used, c)
                && share_a_bucket(s.local_ranges()[l], s.local_ranges()[c])
                && !group.contains(s.indices[c])
                ==> count >= s.mode().MaxPlayers || count + s.ticket(c).player_count() > s.mode().MaxPlayers
        }),
{
    lemma_gathered_group_is_maximal(s, l, used);
    let (group, count) = s.gathered(l, used);
    let cands = s.candidates(l);
    assert forall|c: int| #![trigger s.indices[c]]
        could_join(s, l, used, c)
        && share_a_bucket(s.local_ranges()[l], s.local_ranges()[c])
        && !group.contains(s.indices[c])
        implies count >= s.mode().MaxPlayers || count + s.ticket(c).player_count() > s.mode().MaxPlayers by {
        lemma_candidates_share_a_bucket(s.local_ranges(), s.local_ranges()[l], c as usize);
        assert(cands.contains(c as usize));
        let m = choose|m: int| 0 <= m < cands.len() && cands[m] == c as usize;
        assert(could_join(s, l, used, cands[m] as int));
    }
}

/// The identifiers of the tickets at the positions of the groups.
pub open spec fn ids_in_groups(tickets: Seq<TicketView>, groups: Seq<Seq<usize>>) -> Set<u128> {
    Set::new(|id: u128| exists|i: int, j: int| 0 <= i < groups.len() && 0 <= j < groups[i].len()
        && #[trigger] tickets[groups[i][j] as int].TicketId == id)
}

/// Law of the search of one game mode: after each ticket's turn as base, the tickets
/// kept out of later groups are exactly those of the matches kept so far. A group that
/// does not reach the mode's minimum takes no ticket away from the bases after it.
pub proof fn lemma_used_are_the_matched(s: ModeSearch, n: nat)
    requires n <= s.indices.len(),
    ensures s.after(n).0 == ids_in_groups(s.tickets, s.after(n).1),
    decreases n,
{
    if n == 0 {
        assert(ids_in_groups(s.tickets, Seq::<Seq<usize>>::empty()) =~= Set::<u128>::empty());
    } else {
        lemma_used_are_the_matched(s, (n - 1) as nat);
        let prev = s.after((n - 1) as nat);
        let l = n - 1;
        if !prev.0.contains(s.ticket(l).TicketId) {
            let grown = s.gathered(l, prev.0);
            if grown.1 >= s.mode().MinPlayers {
                let groups = prev.1.push(grown.0);
                let a = prev.0.union(ids_of(s.tickets, grown.0));
                let b = ids_in_groups(s.tickets, groups);
                assert forall|id: u128| a.contains(id) <==> b.contains(id) by {
                    if prev.0.contains(id) {
                        let (i, j) = choose|i: int, j: int| 0 <= i < prev.1.len() && 0 <= j < prev.1[i].len()
                            && #[trigger] s.tickets[prev.1[i][j] as int].TicketId == id;
                        assert(groups[i] == prev.1[i]);
                        assert(s.tickets[groups[i][j] as int].TicketId == id);
                    }
                    if ids_of(s.tickets, grown.0).contains(id) {
                        let j = choose|j: int| 0 <= j < grown.0.len() && #[trigger] s.tickets[grown.0[j] as int].TicketId == id;
                        assert(groups[prev.1.len() as int] == grown.0);
                        assert(s.tickets[groups[prev.1.len() as int][j] as int].TicketId == id);
                    }
                    if b.contains(id) {
                        let (i, j) = choose|i: int, j: int| 0 <= i < groups.len() && 0 <= j < groups[i].len()
                            && #[trigger] s.tickets[groups[i][j] as int].TicketId == id;
                        if i < prev.1.len() {
                            assert(groups[i] == prev.1[i]);
                            assert(s.tickets[prev.1[i][j] as int].TicketId == id);
                        } else {
                            assert(groups[i] == grown.0);
                            assert(s.tickets[grown.0[j] as int].TicketId == id);
                        }
                    }
                }
                assert(a =~= b);
            }
        }
    }
}

/// Law of the search of one game mode: each ticket of the mode that is in none of the
/// matches kept before its turn gathers a group, avoiding only the tickets of those
/// matches, and that group is kept exactly when it reaches the mode's minimum of
/// players; a ticket already in a kept match adds nothing.
pub proof fn lemma_each_base_gets_its_turn(s: ModeSearch, l: nat)
    requires l < s.indices.len(),
    ensures
        ({
            let kept = s.after(l).1;
            let taken = ids_in_groups(s.tickets, kept);
            let grown = s.gathered(l as int, taken);
            &&& !taken.contains(s.ticket(l as int).TicketId) && grown.1 >= s.mode().MinPlayers
                ==> s.after(l + 1).1 == kept.push(grown.0)
            &&& !(!taken.contains(s.ticket(l as int).TicketId) && grown.1 >= s.mode().MinPlayers)
                ==> s.after(l + 1).1 == kept
        }),
{
    lemma_used_are_the_matched(s, l);
}

/// Law of the compatibility of two tickets: it does not depend on their order, and
/// when no bound of either window is not-a-number, it holds exactly when each window's
/// lowest rating is at most the other's highest (and each window is not empty).
pub proof fn lemma_compatibility(a: TicketView, b: TicketView)
    ensures
        compatible(a, b) == compatible(b, a),
        regions_overlap(a, b) == regions_overlap(b, a),
        !a.MinimumMatchmakingRating.is_not_a_number() && !a.MaximumMatchmakingRating.is_not_a_number()
            && !b.MinimumMatchmakingRating.is_not_a_number() && !b.MaximumMatchmakingRating.is_not_a_number() ==>
            (compatible(a, b) <==> (
                a.MinimumMatchmakingRating.is_le(a.MaximumMatchmakingRating)
                && a.MinimumMatchmakingRating.is_le(b.MaximumMatchmakingRating)
                && b.MinimumMatchmakingRating.is_le(a.MaximumMatchmakingRating)
                && b.MinimumMatchmakingRating.is_le(b.MaximumMatchmakingRating))),
{
    assert(regions_overlap(a, b) ==> regions_overlap(b, a)) by {
        if regions_overlap(a, b) {
            let r = choose|r: Seq<char>| #[trigger] a.AllowedRegions.contains(r) && b.AllowedRegions.contains(r);
            assert(b.AllowedRegions.contains(r) && a.AllowedRegions.contains(r));
        }
    }
    assert(regions_overlap(b, a) ==> regions_overlap(a, b)) by {
        if regions_overlap(b, a) {
            let r = choose|r: Seq<char>| #[trigger] b.AllowedRegions.contains(r) && a.AllowedRegions.contains(r);
            assert(a.AllowedRegions.contains(r) && b.AllowedRegions.contains(r));
        }
    }
}

/// Law of `FindMatches`: the matches of a queue are those of each game mode in turn,
/// modes in the order their first tickets stand in the queue (`mode_groups`, what
/// `GroupByGameMode` gives), each mode's matches as the search over its tickets gives
/// them (what `FindMatchesForMode` gives).
pub proof fn lemma_matches_by_mode(tickets: Seq<TicketView>, ranges: Seq<RatingBucketRange>, bucket_size_positive: bool)
    ensures
        match_groups(tickets, ranges, bucket_size_positive)
            == matches_of_modes(tickets, ranges, bucket_size_positive, mode_groups(tickets)),
{
    lemma_mode_groups_match(tickets, ranges, bucket_size_positive, 0);
}

} // verus!
