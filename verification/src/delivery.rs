use vstd::prelude::*;

use vstd::arithmetic::power2::pow2;

verus! {

/// The number of times a match announcement is attempted before giving up.
pub const MAX_DELIVERY_ATTEMPTS: u32 = 3;

/// What to do after an attempt to announce a match.
#[derive(Clone, Copy, Debug, PartialEq, Eq, Structural)]
pub enum DeliveryStep {
    /// The announcement went through.
    Delivered,
    /// Try again after this many seconds.
    RetryAfterSeconds(u64),
    /// Stop: every attempt failed.
    GiveUp,
}

/// The step after attempt number `attempt` (counted from 1) ended as `succeeded` says:
/// done on success; after a failure, another attempt after `2^attempt` seconds, unless
/// `MAX_DELIVERY_ATTEMPTS` attempts have been made.
pub open spec fn next_delivery_step(attempt: u32, succeeded: bool) -> DeliveryStep {
    if succeeded {
        DeliveryStep::Delivered
    } else if attempt >= MAX_DELIVERY_ATTEMPTS {
        DeliveryStep::GiveUp
    } else {
        DeliveryStep::RetryAfterSeconds(pow2(attempt as nat) as u64)
    }
}

/// Decides what follows an attempt to announce a match.
pub fn NextDeliveryStep(Attempt: u32, Succeeded: bool) -> (r: DeliveryStep)
    ensures r == next_delivery_step(Attempt, Succeeded),
{
    if Succeeded {
        return DeliveryStep::Delivered;
    }
    if Attempt >= MAX_DELIVERY_ATTEMPTS {
        return DeliveryStep::GiveUp;
    }
    let mut Delay: u64 = 1;
    let mut k: u32 = 0;
    proof {
        vstd::arithmetic::power2::lemma2_to64();
    }
    while k < Attempt
        invariant
            Attempt < MAX_DELIVERY_ATTEMPTS,
            k <= Attempt,
            Delay == pow2(k as nat),
        decreases Attempt - k,
    {
        proof {
            vstd::arithmetic::power2::lemma_pow2_adds(k as nat, 1);
            vstd::arithmetic::power2::lemma2_to64();
        }
        Delay = Delay * 2;
        k += 1;
    }
    DeliveryStep::RetryAfterSeconds(Delay)
}

/// The steps taken for a run of attempt outcomes, attempts counted from `attempt`:
/// the steps up to and including the first that is not a retry.
pub open spec fn delivery_run(attempt: u32, outcomes: Seq<bool>) -> Seq<DeliveryStep>
    decreases outcomes.len(),
{
    if outcomes.len() == 0 || attempt >= u32::MAX {
        Seq::empty()
    } else {
        let step = next_delivery_step(attempt, outcomes[0]);
        if step is RetryAfterSeconds {
            seq![step] + delivery_run((attempt + 1) as u32, outcomes.drop_first())
        } else {
            seq![step]
        }
    }
}

/// Law of the announcement: from the first attempt, whatever the outcomes, at most
/// `MAX_DELIVERY_ATTEMPTS` attempts are made, and the only steps after which the next
/// attempt follows are retries.
pub proof fn lemma_delivery_attempts_bounded(outcomes: Seq<bool>)
    ensures
        delivery_run(1, outcomes).len() <= MAX_DELIVERY_ATTEMPTS,
        forall|k: int| 0 <= k < delivery_run(1, outcomes).len() - 1 ==> #[trigger] delivery_run(1, outcomes)[k] is RetryAfterSeconds,
{
    vstd::arithmetic::power2::lemma2_to64();
    let r1 = delivery_run(1, outcomes);
    if outcomes.len() > 0 && !outcomes[0] {
        let o1 = outcomes.drop_first();
        let r2 = delivery_run(2, o1);
        assert(r1 == seq![next_delivery_step(1, false)] + r2);
        if o1.len() > 0 && !o1[0] {
            let o2 = o1.drop_first();
            let r3 = delivery_run(3, o2);
            assert(r2 == seq![next_delivery_step(2, false)] + r3);
            assert(r3.len() <= 1);
            assert(r2.len() <= 2);
            assert forall|k: int| 0 <= k < r2.len() - 1 implies #[trigger] r2[k] is RetryAfterSeconds by {
                assert(r2[0] == next_delivery_step(2, false));
            }
        } else {
            assert(r2.len() <= 1);
        }
        assert forall|k: int| 0 <= k < r1.len() - 1 implies #[trigger] r1[k] is RetryAfterSeconds by {
            if k == 0 {
                assert(r1[0] == next_delivery_step(1, false));
            } else {
                assert(r1[k] == r2[k - 1]);
            }
        }
    }
}

/// The address to which matches are announced.
pub fn RobloxMessagingUrl(UniverseId: &str, Topic: &str) -> (r: String)
    ensures r@ == "https://apis.roblox.com/messaging-service/v1/universes/"@ + UniverseId@ + "/topics/"@ + Topic@,
{
    let mut Url: String = String::from_str("https://apis.roblox.com/messaging-service/v1/universes/");
    Url.append(UniverseId);
    Url.append("/topics/");
    Url.append(Topic);
    Url
}

} // verus!
