use std::collections::HashSet;

use matchmaker::delivery::{NextDeliveryStep, RobloxMessagingUrl, DeliveryStep};
use matchmaker::metrics::MatchmakerMetrics;
use matchmaker::numbers::Real;
use matchmaker::queue::{
    MarkMatched, MatchPlayerIds, MatchWaitSeconds, QueuePositions, SelectQueuedTickets, SortByPriority,
    UnmatchedTickets, WaitTimeSeconds,
};
use matchmaker::types::{GameMode, MatchmakingTicket, PartyMember, TicketStatus};

fn ticket(id: u128, priority: u32, submitted: i64, players: &[u64]) -> MatchmakingTicket {
    MatchmakingTicket {
        TicketId: id,
        Members: players
            .iter()
            .map(|p| PartyMember { PlayerId: *p, PlayerName: "p".to_string(), MatchmakingRating: Real::Ordered(0) })
            .collect(),
        AverageMatchmakingRating: Real::Ordered(0),
        PreferredRegion: "Europe".to_string(),
        AllowedRegions: vec!["Europe".to_string()],
        SubmittedTimestamp: submitted,
        SearchExpansionLevel: 0,
        MinimumMatchmakingRating: Real::Ordered(0),
        MaximumMatchmakingRating: Real::Ordered(0),
        Status: TicketStatus::Queued,
        GameMode: GameMode::default(),
        Priority: priority,
    }
}

fn ids(tickets: &[MatchmakingTicket]) -> Vec<u128> {
    tickets.iter().map(|t| t.TicketId).collect()
}

#[test]
fn only_queued_tickets_are_selected() {
    let mut matched = ticket(2, 0, 0, &[1]);
    matched.Status = TicketStatus::Matched;
    let queued = SelectQueuedTickets(vec![ticket(1, 0, 0, &[1]), matched, ticket(3, 0, 0, &[1])]);
    assert_eq!(ids(&queued), vec![1, 3]);
}

#[test]
fn queue_order_is_priority_then_age_then_place() {
    let mut tickets = vec![
        ticket(1, 0, 50, &[1]),
        ticket(2, 5, 90, &[1]),
        ticket(3, 0, 10, &[1]),
        ticket(4, 5, 90, &[1]),
        ticket(5, 5, 20, &[1]),
        ticket(6, 0, 50, &[1]),
    ];
    SortByPriority(&mut tickets);
    assert_eq!(ids(&tickets), vec![5, 2, 4, 3, 1, 6]);
    SortByPriority(&mut tickets);
    assert_eq!(ids(&tickets), vec![5, 2, 4, 3, 1, 6]);
    let mut empty: Vec<MatchmakingTicket> = Vec::new();
    SortByPriority(&mut empty);
    assert!(empty.is_empty());
}

#[test]
fn positions_count_from_one() {
    let tickets = vec![ticket(9, 0, 0, &[1]), ticket(4, 0, 0, &[1])];
    assert_eq!(QueuePositions(&tickets), vec![(9, 1), (4, 2)]);
}

#[test]
fn unmatched_tickets_keep_their_order() {
    let tickets = vec![ticket(1, 0, 0, &[1]), ticket(2, 0, 0, &[1]), ticket(3, 0, 0, &[1])];
    let matched: HashSet<u128> = [2u128].into_iter().collect();
    assert_eq!(ids(&UnmatchedTickets(&tickets, &matched)), vec![1, 3]);
}

#[test]
fn wait_times() {
    assert_eq!(WaitTimeSeconds(100, 40), 60);
    assert_eq!(WaitTimeSeconds(i64::MIN, 1), i64::MIN);
    assert_eq!(WaitTimeSeconds(i64::MAX, -1), i64::MAX);
    assert_eq!(MatchWaitSeconds(100, 40), 60);
    // A ticket stamped in the future gives a negative wait, which wraps as a u64.
    assert_eq!(MatchWaitSeconds(100, 101), u64::MAX);
}

#[test]
fn player_ids_of_a_match() {
    let group = vec![ticket(1, 0, 0, &[11, 12]), ticket(2, 0, 0, &[21])];
    assert_eq!(MatchPlayerIds(&group), vec![11, 12, 21]);
    assert!(MatchPlayerIds(&[]).is_empty());
}

#[test]
fn marking_a_ticket_as_matched_changes_only_its_status() {
    let t = ticket(1, 3, 7, &[5]);
    let m = MarkMatched(&t);
    assert_eq!(m.Status, TicketStatus::Matched);
    assert_eq!((m.TicketId, m.Priority, m.SubmittedTimestamp), (1, 3, 7));
    assert_eq!(t.Status, TicketStatus::Queued);
}

#[test]
fn metrics_count_and_wrap() {
    let mut m = MatchmakerMetrics::new();
    assert_eq!(m.TotalTicketsProcessed, 0);
    m.RecordTicketProcessed();
    m.RecordTicketsExpired(3);
    m.RecordMatchCreated();
    m.RecordMatchedTicket(40);
    m.RecordMatchedTicket(20);
    assert_eq!(
        (m.TotalTicketsProcessed, m.TotalTicketsExpired, m.TotalMatchesCreated, m.TotalWaitTimeSeconds, m.MatchedTicketCount),
        (1, 3, 1, 60, 2)
    );
    m.RecordMatchedTicket(u64::MAX);
    assert_eq!(m.TotalWaitTimeSeconds, 59);
    let d = MatchmakerMetrics::default();
    assert_eq!(d.MatchedTicketCount, 0);
}

#[test]
fn delivery_retries_twice_with_growing_delays() {
    assert_eq!(NextDeliveryStep(1, true), DeliveryStep::Delivered);
    assert_eq!(NextDeliveryStep(1, false), DeliveryStep::RetryAfterSeconds(2));
    assert_eq!(NextDeliveryStep(2, false), DeliveryStep::RetryAfterSeconds(4));
    assert_eq!(NextDeliveryStep(3, false), DeliveryStep::GiveUp);
    assert_eq!(NextDeliveryStep(3, true), DeliveryStep::Delivered);
}

#[test]
fn messaging_address() {
    assert_eq!(
        RobloxMessagingUrl("42", "GlobalMatchmaking"),
        "https://apis.roblox.com/messaging-service/v1/universes/42/topics/GlobalMatchmaking"
    );
}
