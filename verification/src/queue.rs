use vstd::prelude::*;

use std::collections::HashSet;

use crate::matchmaker::{saturating_difference, SaturatingDifference};
use crate::types::{ticket_views, MatchmakingTicket, PartyMemberView, TicketStatus, TicketView};

verus! {

/// Keeps the queued tickets.
pub open spec fn queued_filter() -> spec_fn(MatchmakingTicket) -> bool {
    |t: MatchmakingTicket| t.Status == TicketStatus::Queued
}

/// The tickets still waiting for a match, in their order.
pub fn SelectQueuedTickets(Tickets: Vec<MatchmakingTicket>) -> (r: Vec<MatchmakingTicket>)
    ensures r@ == Tickets@.filter(queued_filter()),
{
    let ghost all = Tickets@;
    let ghost pred = queued_filter();
    let mut Queued: Vec<MatchmakingTicket> = Vec::new();
    for Ticket in it: Tickets.into_iter()
        invariant
            it.seq() == all,
            pred == queued_filter(),
            Queued@ == all.take(it.index() as int).filter(pred),
    {
        proof {
            assert(all.take(it.index() + 1) =~= all.take(it.index() as int).push(Ticket));
            all.take(it.index() as int).lemma_filter_push(Ticket, pred);
        }
        if Ticket.Status == TicketStatus::Queued {
            Queued.push(Ticket);
        }
    }
    proof {
        assert(all.take(all.len() as int) =~= all);
    }
    Queued
}

/// Whether the ticket at `a` is served before the one at `b`: a higher priority first,
/// then an earlier submission, then the earlier place in the queue.
pub open spec fn ranks_before(ts: Seq<TicketView>, a: int, b: int) -> bool {
    ||| ts[a].Priority > ts[b].Priority
    ||| ts[a].Priority == ts[b].Priority && ts[a].SubmittedTimestamp < ts[b].SubmittedTimestamp
    ||| ts[a].Priority == ts[b].Priority && ts[a].SubmittedTimestamp == ts[b].SubmittedTimestamp && a < b
}

/// Whether `after` holds the tickets of `before` in the order of the positions `order`,
/// and those positions are ranked in increasing order: `after` is `before` sorted by
/// priority (higher first), then submission time (earlier first), stably.
pub open spec fn is_priority_order(before: Seq<TicketView>, after: Seq<TicketView>, order: Seq<usize>) -> bool {
    &&& order.len() == before.len()
    &&& after.len() == before.len()
    &&& forall|k: int| 0 <= k < order.len() ==> #[trigger] order[k] < before.len() && after[k] == before[order[k] as int]
    &&& forall|j: int, k: int| 0 <= j < k < order.len() ==> ranks_before(before, #[trigger] order[j] as int, #[trigger] order[k] as int)
}

fn RanksBefore(Tickets: &Vec<MatchmakingTicket>, A: usize, B: usize) -> (r: bool)
    requires A < Tickets@.len(), B < Tickets@.len(),
    ensures r == ranks_before(ticket_views(Tickets@), A as int, B as int),
{
    let a = &Tickets[A];
    let b = &Tickets[B];
    a.Priority > b.Priority
        || (a.Priority == b.Priority && a.SubmittedTimestamp < b.SubmittedTimestamp)
        || (a.Priority == b.Priority && a.SubmittedTimestamp == b.SubmittedTimestamp && A < B)
}

/// Whether some ticket of `ts` is `t`.
pub open spec fn holds_ticket(ts: Seq<MatchmakingTicket>, t: TicketView) -> bool {
    exists|k: int| 0 <= k < ts.len() && #[trigger] ts[k]@ == t
}

/// Orders the queue by priority (higher first), then by submission time (earlier
/// first); tickets equal on both keep their order.
pub fn SortByPriority(Tickets: &mut Vec<MatchmakingTicket>)
    ensures
        exists|order: Seq<usize>| #[trigger] is_priority_order(ticket_views(old(Tickets)@), ticket_views(final(Tickets)@), order),
        final(Tickets)@.len() == old(Tickets)@.len(),
        forall|i: int| 0 <= i < old(Tickets)@.len() ==> #[trigger] holds_ticket(final(Tickets)@, old(Tickets)@[i]@),
        forall|j: int, k: int| 0 <= j < k < final(Tickets)@.len() ==>
            (#[trigger] final(Tickets)@[j]).Priority >= (#[trigger] final(Tickets)@[k]).Priority
            && (final(Tickets)@[j].Priority == final(Tickets)@[k].Priority
                ==> final(Tickets)@[j].SubmittedTimestamp <= final(Tickets)@[k].SubmittedTimestamp),
{
    let ghost views = ticket_views(Tickets@);
    let n: usize = Tickets.len();
    let mut Order: Vec<usize> = Vec::new();
    let mut i: usize = 0;
    while i < n
        invariant
            n == Tickets@.len(),
            views == ticket_views(Tickets@),
            i <= n,
            Order@.len() == i,
            forall|k: int| 0 <= k < Order@.len() ==> #[trigger] Order@[k] < i,
            forall|j: int, k: int| 0 <= j < k < Order@.len() ==> ranks_before(views, #[trigger] Order@[j] as int, #[trigger] Order@[k] as int),
            forall|m: int| 0 <= m < i ==> #[trigger] Order@.contains(m as usize),
        decreases n - i,
    {
        let mut pos: usize = 0;
        while pos < Order.len() && !RanksBefore(Tickets, i, Order[pos])
            invariant
                n == Tickets@.len(),
                views == ticket_views(Tickets@),
                i < n,
                pos <= Order@.len(),
                forall|k: int| 0 <= k < Order@.len() ==> #[trigger] Order@[k] < i,
                forall|k: int| 0 <= k < pos ==> ranks_before(views, #[trigger] Order@[k] as int, i as int),
            decreases Order@.len() - pos,
        {
            pos += 1;
        }
        let ghost old_order = Order@;
        proof {
            if pos < old_order.len() {
                assert(ranks_before(views, i as int, old_order[pos as int] as int));
            }
        }
        Order.insert(pos, i);
        proof {
            assert(Order@ == old_order.insert(pos as int, i));
            assert(Order@[pos as int] == i);
            assert forall|m: int| 0 <= m < i + 1 implies #[trigger] Order@.contains(m as usize) by {
                if m < i {
                    assert(old_order.contains(m as usize));
                    let q = choose|q: int| 0 <= q < old_order.len() && old_order[q] == m as usize;
                    if q < pos {
                        assert(Order@[q] == m as usize);
                    } else {
                        assert(Order@[q + 1] == m as usize);
                    }
                } else {
                    assert(Order@[pos as int] == m as usize);
                }
            }
            assert forall|j: int, k: int| 0 <= j < k < Order@.len() implies ranks_before(views, #[trigger] Order@[j] as int, #[trigger] Order@[k] as int) by {
                if k < pos {
                    assert(Order@[j] == old_order[j] && Order@[k] == old_order[k]);
                } else if k == pos {
                    assert(Order@[j] == old_order[j]);
                } else if j < pos {
                    assert(Order@[j] == old_order[j] && Order@[k] == old_order[k - 1]);
                    assert(ranks_before(views, old_order[j] as int, i as int));
                    assert(ranks_before(views, i as int, old_order[pos as int] as int));
                    if pos < k - 1 {
                        assert(ranks_before(views, old_order[pos as int] as int, old_order[k - 1] as int));
                    }
                } else if j == pos {
                    assert(Order@[k] == old_order[k - 1]);
                    if pos < k - 1 {
                        assert(ranks_before(views, old_order[pos as int] as int, old_order[k - 1] as int));
                    }
                } else {
                    assert(Order@[j] == old_order[j - 1] && Order@[k] == old_order[k - 1]);
                }
            }
            assert forall|k: int| 0 <= k < Order@.len() implies #[trigger] Order@[k] < i + 1 by {
                if k < pos {
                    assert(Order@[k] == old_order[k]);
                } else if k > pos {
                    assert(Order@[k] == old_order[k - 1]);
                }
            }
        }
        i += 1;
    }
    let mut Sorted: Vec<MatchmakingTicket> = Vec::new();
    let mut k: usize = 0;
    while k < n
        invariant
            n == Tickets@.len(),
            views == ticket_views(Tickets@),
            Order@.len() == n,
            forall|k: int| 0 <= k < Order@.len() ==> #[trigger] Order@[k] < n,
            k <= n,
            Sorted@.len() == k,
            forall|j: int| 0 <= j < k ==> (#[trigger] Sorted@[j])@ == views[Order@[j] as int],
        decreases n - k,
    {
        Sorted.push(Tickets[Order[k]].Duplicate());
        k += 1;
    }
    *Tickets = Sorted;
    proof {
        let after = ticket_views(Tickets@);
        assert forall|k: int| 0 <= k < Order@.len() implies #[trigger] Order@[k] < views.len() && after[k] == views[Order@[k] as int] by {
            assert(after[k] == Sorted@[k]@);
        }
        assert(is_priority_order(views, after, Order@));
        assert forall|m: int| 0 <= m < old(Tickets)@.len() implies #[trigger] holds_ticket(Tickets@, old(Tickets)@[m]@) by {
            assert(Order@.contains(m as usize));
            let k = choose|k: int| 0 <= k < Order@.len() && Order@[k] == m as usize;
            assert(Tickets@[k]@ == Sorted@[k]@);
            assert(views[m] == old(Tickets)@[m]@);
            assert(Tickets@[k]@ == old(Tickets)@[m]@);
        }
        assert forall|j: int, k: int| 0 <= j < k < Tickets@.len() implies
            (#[trigger] Tickets@[j]).Priority >= (#[trigger] Tickets@[k]).Priority
            && (Tickets@[j].Priority == Tickets@[k].Priority ==> Tickets@[j].SubmittedTimestamp <= Tickets@[k].SubmittedTimestamp) by {
            assert(ranks_before(views, Order@[j] as int, Order@[k] as int));
            assert(Tickets@[j]@ == after[j] && Tickets@[k]@ == after[k]);
        }
    }
}

/// The place of each ticket in the queue, counted from 1, with its identifier.
pub fn QueuePositions(Tickets: &[MatchmakingTicket]) -> (r: Vec<(u128, usize)>)
    requires Tickets@.len() < usize::MAX,
    ensures
        r@.len() == Tickets@.len(),
        forall|k: int| 0 <= k < Tickets@.len() ==> #[trigger] r@[k] == (Tickets@[k].TicketId, (k + 1) as usize),
{
    let mut Positions: Vec<(u128, usize)> = Vec::new();
    let mut k: usize = 0;
    while k < Tickets.len()
        invariant
            Tickets@.len() < usize::MAX,
            k <= Tickets@.len(),
            Positions@.len() == k,
            forall|j: int| 0 <= j < k ==> #[trigger] Positions@[j] == (Tickets@[j].TicketId, (j + 1) as usize),
        decreases Tickets@.len() - k,
    {
        Positions.push((Tickets[k].TicketId, k + 1));
        k += 1;
    }
    Positions
}

/// The tickets whose identifier is not among the matched ones, in their order.
pub fn UnmatchedTickets(Tickets: &[MatchmakingTicket], MatchedIds: &HashSet<u128>) -> (r: Vec<MatchmakingTicket>)
    ensures ticket_views(r@) == ticket_views(Tickets@).filter(|t: TicketView| !MatchedIds@.contains(t.TicketId)),
{
    let ghost views = ticket_views(Tickets@);
    let ghost pred = |t: TicketView| !MatchedIds@.contains(t.TicketId);
    let mut Unmatched: Vec<MatchmakingTicket> = Vec::new();
    let mut k: usize = 0;
    while k < Tickets.len()
        invariant
            views == ticket_views(Tickets@),
            pred == (|t: TicketView| !MatchedIds@.contains(t.TicketId)),
            k <= Tickets@.len(),
            ticket_views(Unmatched@) == views.take(k as int).filter(pred),
        decreases Tickets@.len() - k,
    {
        proof {
            assert(views.take(k + 1) =~= views.take(k as int).push(views[k as int]));
            views.take(k as int).lemma_filter_push(views[k as int], pred);
            assert(views[k as int] == Tickets@[k as int]@);
        }
        if !MatchedIds.contains(&Tickets[k].TicketId) {
            let ghost before = Unmatched@;
            Unmatched.push(Tickets[k].Duplicate());
            assert(ticket_views(Unmatched@) =~= ticket_views(before).push(views[k as int]));
        }
        k += 1;
    }
    proof {
        assert(views.take(Tickets@.len() as int) =~= views);
    }
    Unmatched
}

/// The seconds a matched ticket waited, as counted in the metrics: the saturating
/// difference of the times, taken as a `u64` (so a negative one wraps around).
pub fn MatchWaitSeconds(CurrentTimestamp: i64, SubmittedTimestamp: i64) -> (r: u64)
    ensures r == (saturating_difference(CurrentTimestamp, SubmittedTimestamp) as i64) as u64,
{
    SaturatingDifference(CurrentTimestamp, SubmittedTimestamp) as u64
}

/// The seconds a ticket has waited, saturating at the bounds of `i64`.
pub fn WaitTimeSeconds(CurrentTimestamp: i64, SubmittedTimestamp: i64) -> (r: i64)
    ensures r == saturating_difference(CurrentTimestamp, SubmittedTimestamp),
{
    SaturatingDifference(CurrentTimestamp, SubmittedTimestamp)
}

/// The player ids of a match's members, ticket after ticket.
pub open spec fn player_ids(group: Seq<TicketView>) -> Seq<u64>
    decreases group.len(),
{
    if group.len() == 0 {
        Seq::empty()
    } else {
        player_ids(group.drop_last()) + group.last().Members.map_values(|m: PartyMemberView| m.PlayerId)
    }
}

/// The player ids of a match's members, ticket after ticket.
pub fn MatchPlayerIds(Group: &[MatchmakingTicket]) -> (r: Vec<u64>)
    ensures r@ == player_ids(ticket_views(Group@)),
{
    let ghost views = ticket_views(Group@);
    let mut Ids: Vec<u64> = Vec::new();
    let mut k: usize = 0;
    while k < Group.len()
        invariant
            views == ticket_views(Group@),
            k <= Group@.len(),
            Ids@ == player_ids(views.take(k as int)),
        decreases Group@.len() - k,
    {
        let Members = &Group[k].Members;
        let ghost before = Ids@;
        let ghost ids = views[k as int].Members.map_values(|m: PartyMemberView| m.PlayerId);
        assert(views[k as int] == Group@[k as int]@);
        let mut j: usize = 0;
        while j < Members.len()
            invariant
                Members@.len() == ids.len(),
                forall|x: int| 0 <= x < ids.len() ==> #[trigger] ids[x] == Members@[x].PlayerId,
                j <= Members@.len(),
                Ids@ == before + ids.take(j as int),
            decreases Members@.len() - j,
        {
            Ids.push(Members[j].PlayerId);
            assert(ids.take(j + 1) =~= ids.take(j as int).push(ids[j as int]));
            assert(Ids@ =~= before + ids.take(j + 1));
            j += 1;
        }
        proof {
            assert(ids.take(ids.len() as int) =~= ids);
            assert(views.take(k + 1).drop_last() =~= views.take(k as int));
        }
        k += 1;
    }
    assert(views.take(Group@.len() as int) =~= views);
    Ids
}

/// A copy of a ticket, marked as matched.
pub fn MarkMatched(Ticket: &MatchmakingTicket) -> (r: MatchmakingTicket)
    ensures r@ == (TicketView { Status: TicketStatus::Matched, ..Ticket@ }),
{
    let mut Marked = Ticket.Duplicate();
    Marked.Status = TicketStatus::Matched;
    Marked
}

} // verus!
