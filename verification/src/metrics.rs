use vstd::prelude::*;

use vstd::wrapping::u64_specs::wrapping_add;

verus! {

/// The matchmaker's counters. Each counter wraps around on overflow, as an atomic
/// `fetch_add` does.
#[derive(Debug)]
pub struct MatchmakerMetrics {
    pub TotalTicketsProcessed: u64,
    pub TotalMatchesCreated: u64,
    pub TotalTicketsExpired: u64,
    pub TotalWaitTimeSeconds: u64,
    pub MatchedTicketCount: u64,
}

impl MatchmakerMetrics {
    /// All counters at zero.
    pub fn new() -> (r: MatchmakerMetrics)
        ensures
            r.TotalTicketsProcessed == 0,
            r.TotalMatchesCreated == 0,
            r.TotalTicketsExpired == 0,
            r.TotalWaitTimeSeconds == 0,
            r.MatchedTicketCount == 0,
    {
        MatchmakerMetrics {
            TotalTicketsProcessed: 0,
            TotalMatchesCreated: 0,
            TotalTicketsExpired: 0,
            TotalWaitTimeSeconds: 0,
            MatchedTicketCount: 0,
        }
    }

    /// Counts a queued ticket.
    pub fn RecordTicketProcessed(&mut self)
        ensures *final(self) == (MatchmakerMetrics {
            TotalTicketsProcessed: wrapping_add(old(self).TotalTicketsProcessed, 1), ..*old(self) }),
    {
        self.TotalTicketsProcessed = self.TotalTicketsProcessed.wrapping_add(1);
    }

    /// Counts tickets dropped for outliving their time to live.
    pub fn RecordTicketsExpired(&mut self, Count: u64)
        ensures *final(self) == (MatchmakerMetrics {
            TotalTicketsExpired: wrapping_add(old(self).TotalTicketsExpired, Count), ..*old(self) }),
    {
        self.TotalTicketsExpired = self.TotalTicketsExpired.wrapping_add(Count);
    }

    /// Counts a match announced to the game.
    pub fn RecordMatchCreated(&mut self)
        ensures *final(self) == (MatchmakerMetrics {
            TotalMatchesCreated: wrapping_add(old(self).TotalMatchesCreated, 1), ..*old(self) }),
    {
        self.TotalMatchesCreated = self.TotalMatchesCreated.wrapping_add(1);
    }

    /// Counts a matched ticket and the time it waited.
    pub fn RecordMatchedTicket(&mut self, WaitTimeSeconds: u64)
        ensures *final(self) == (MatchmakerMetrics {
            TotalWaitTimeSeconds: wrapping_add(old(self).TotalWaitTimeSeconds, WaitTimeSeconds),
            MatchedTicketCount: wrapping_add(old(self).MatchedTicketCount, 1),
            ..*old(self) }),
    {
        self.TotalWaitTimeSeconds = self.TotalWaitTimeSeconds.wrapping_add(WaitTimeSeconds);
        self.MatchedTicketCount = self.MatchedTicketCount.wrapping_add(1);
    }
}

impl Default for MatchmakerMetrics {
    /// All counters at zero.
    fn default() -> (r: MatchmakerMetrics)
        ensures
            r.TotalTicketsProcessed == 0,
            r.TotalMatchesCreated == 0,
            r.TotalTicketsExpired == 0,
            r.TotalWaitTimeSeconds == 0,
            r.MatchedTicketCount == 0,
    {
        MatchmakerMetrics::new()
    }
}

} // verus!
