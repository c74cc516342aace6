use vstd::prelude::*;

use std::collections::{HashMap, HashSet};

verus! {

/// The widest run of rating buckets a ticket is filed under, past its first one.
pub const MAX_BUCKET_SPAN: i64 = 1000;

/// The rating buckets of a ticket's search window: the bucket of its lowest and of
/// its highest acceptable rating (the rating divided by the bucket size, rounded down).
#[derive(Clone, Copy, Debug, PartialEq, Eq, Structural)]
pub struct RatingBucketRange {
    pub MinBucket: i64,
    pub MaxBucket: i64,
}

/// The last bucket a ticket is filed under: its highest one, but no more than
/// `MAX_BUCKET_SPAN` past its first one.
pub open spec fn last_bucket(r: RatingBucketRange) -> int {
    if r.MaxBucket <= r.MinBucket + MAX_BUCKET_SPAN { r.MaxBucket as int } else { r.MinBucket + MAX_BUCKET_SPAN }
}

/// Whether a ticket with this range is filed under bucket `b`.
pub open spec fn covers(r: RatingBucketRange, b: int) -> bool {
    r.MinBucket <= b <= last_bucket(r)
}

/// Whether two ranges are filed under a common bucket.
pub open spec fn share_a_bucket(a: RatingBucketRange, b: RatingBucketRange) -> bool {
    exists|k: int| covers(a, k) && #[trigger] covers(b, k)
}

/// The positions, in increasing order, of the first `n` ranges that are filed under bucket `b`.
pub open spec fn bucket_members(ranges: Seq<RatingBucketRange>, b: int, n: nat) -> Seq<usize>
    decreases n,
{
    if n == 0 {
        Seq::empty()
    } else {
        let before = bucket_members(ranges, b, (n - 1) as nat);
        if covers(ranges[n - 1], b) { before.push((n - 1) as usize) } else { before }
    }
}

/// Whether the map holds, for bucket `b`, exactly the first `n` ranges filed under it,
/// and has the bucket as a key exactly when one of them is.
pub open spec fn bucket_filed(m: Map<i64, Vec<usize>>, ranges: Seq<RatingBucketRange>, b: i64, n: nat) -> bool {
    &&& m.contains_key(b) <==> bucket_members(ranges, b as int, n).len() > 0
    &&& m.contains_key(b) ==> m[b]@ == bucket_members(ranges, b as int, n)
}

/// `seen` followed by each of `more` that is not already there, in order.
pub open spec fn append_unseen(seen: Seq<usize>, more: Seq<usize>) -> Seq<usize>
    decreases more.len(),
{
    if more.len() == 0 {
        seen
    } else {
        let before = append_unseen(seen, more.drop_last());
        if before.contains(more.last()) { before } else { before.push(more.last()) }
    }
}

/// The positions met when walking `count` buckets from bucket `first` on, each
/// bucket's positions in order, each position kept at its first meeting.
pub open spec fn candidates_through(ranges: Seq<RatingBucketRange>, first: int, count: nat) -> Seq<usize>
    decreases count,
{
    if count == 0 {
        Seq::empty()
    } else {
        append_unseen(
            candidates_through(ranges, first, (count - 1) as nat),
            bucket_members(ranges, first + count - 1, ranges.len()),
        )
    }
}

/// The candidates of a ticket with range `base`: the positions of the ranges filed
/// under any of its buckets, in the order the buckets are walked.
pub open spec fn candidate_list(ranges: Seq<RatingBucketRange>, base: RatingBucketRange) -> Seq<usize> {
    if last_bucket(base) < base.MinBucket {
        Seq::empty()
    } else {
        candidates_through(ranges, base.MinBucket as int, (last_bucket(base) - base.MinBucket + 1) as nat)
    }
}

/// The last bucket of a range.
fn LastBucket(r: &RatingBucketRange) -> (last: i128)
    ensures last == last_bucket(*r),
{
    let lo = r.MinBucket as i128;
    let hi = r.MaxBucket as i128;
    if hi <= lo + MAX_BUCKET_SPAN as i128 { hi } else { lo + MAX_BUCKET_SPAN as i128 }
}

proof fn lemma_members_grow(ranges: Seq<RatingBucketRange>, b: int, n: nat)
    requires n < ranges.len(),
    ensures
        bucket_members(ranges, b, n + 1) == if covers(ranges[n as int], b) {
            bucket_members(ranges, b, n).push(n as usize)
        } else {
            bucket_members(ranges, b, n)
        },
{
}

/// Files each position under each bucket of its range.
pub fn BuildRatingBucketsForMode(Ranges: &Vec<RatingBucketRange>) -> (Buckets: HashMap<i64, Vec<usize>>)
    ensures forall|b: i64| #[trigger] bucket_filed(Buckets@, Ranges@, b, Ranges@.len()),
{
    let mut Buckets: HashMap<i64, Vec<usize>> = HashMap::new();
    let mut LocalIndex: usize = 0;
    while LocalIndex < Ranges.len()
        invariant
            LocalIndex <= Ranges.len(),
            forall|b: i64| #[trigger] bucket_filed(Buckets@, Ranges@, b, LocalIndex as nat),
        decreases Ranges.len() - LocalIndex,
    {
        let r = &Ranges[LocalIndex];
        let last: i128 = LastBucket(r);
        let mut Bucket: i128 = r.MinBucket as i128;
        proof {
            assert forall|b: i64| !(r.MinBucket <= b <= last_bucket(*r)) implies #[trigger] bucket_filed(Buckets@, Ranges@, b, (LocalIndex + 1) as nat) by {
                assert(bucket_filed(Buckets@, Ranges@, b, LocalIndex as nat));
                lemma_members_grow(Ranges@, b as int, LocalIndex as nat);
            }
        }
        while Bucket <= last
            invariant
                LocalIndex < Ranges.len(),
                r == &Ranges@[LocalIndex as int],
                last == last_bucket(*r),
                r.MinBucket <= Bucket,
                Bucket <= last + 1 || Bucket == r.MinBucket,
                forall|b: i64| Bucket <= b <= last ==> #[trigger] bucket_filed(Buckets@, Ranges@, b, LocalIndex as nat),
                forall|b: i64| !(r.MinBucket <= b <= last) || b < Bucket ==> #[trigger] bucket_filed(Buckets@, Ranges@, b, (LocalIndex + 1) as nat),
            decreases last + 1 - Bucket,
        {
            let key: i64 = Bucket as i64;
            proof {
                assert(bucket_filed(Buckets@, Ranges@, key, LocalIndex as nat));
                lemma_members_grow(Ranges@, key as int, LocalIndex as nat);
            }
            let ghost before = Buckets@;
            match Buckets.remove(&key) {
                Some(mut Indices) => {
                    Indices.push(LocalIndex);
                    Buckets.insert(key, Indices);
                }
                None => {
                    let mut Indices: Vec<usize> = Vec::new();
                    Indices.push(LocalIndex);
                    Buckets.insert(key, Indices);
                }
            }
            proof {
                assert(Buckets@ == before.insert(key, Buckets@[key]));
                assert(Buckets@[key]@ =~= bucket_members(Ranges@, key as int, (LocalIndex + 1) as nat));
                assert forall|b: i64| Bucket + 1 <= b <= last implies #[trigger] bucket_filed(Buckets@, Ranges@, b, LocalIndex as nat) by {
                    assert(bucket_filed(before, Ranges@, b, LocalIndex as nat));
                }
                assert forall|b: i64| !(r.MinBucket <= b <= last) || b < Bucket + 1 implies #[trigger] bucket_filed(Buckets@, Ranges@, b, (LocalIndex + 1) as nat) by {
                    if b != key {
                        assert(bucket_filed(before, Ranges@, b, (LocalIndex + 1) as nat));
                    }
                }
            }
            Bucket = Bucket + 1;
        }
        let ghost filed = (LocalIndex + 1) as nat;
        proof {
            assert forall|b: i64| #[trigger] bucket_filed(Buckets@, Ranges@, b, filed) by {
                if r.MinBucket <= b <= last {
                    assert(b < Bucket);
                }
            }
        }
        LocalIndex += 1;
        assert(filed == LocalIndex as nat);
    }
    Buckets
}


/// The positions filed under any bucket of `Base`, walking its buckets in order and
/// keeping each position at its first meeting.
pub(crate) fn GetCandidatesFromBuckets(
    Base: &RatingBucketRange,
    Buckets: &HashMap<i64, Vec<usize>>,
    Ghost(ranges): Ghost<Seq<RatingBucketRange>>,
) -> (Candidates: Vec<usize>)
    requires forall|b: i64| #[trigger] bucket_filed(Buckets@, ranges, b, ranges.len()),
    ensures Candidates@ == candidate_list(ranges, *Base),
{
    let first: i128 = Base.MinBucket as i128;
    let last: i128 = LastBucket(Base);
    let mut Candidates: Vec<usize> = Vec::new();
    let mut SeenIndices: HashSet<usize> = HashSet::new();
    let mut Bucket: i128 = first;
    while Bucket <= last
        invariant
            forall|b: i64| #[trigger] bucket_filed(Buckets@, ranges, b, ranges.len()),
            first == Base.MinBucket,
            last == last_bucket(*Base),
            first <= Bucket,
            Bucket <= last + 1 || Bucket == first,
            Candidates@ == candidates_through(ranges, first as int, (Bucket - first) as nat),
            SeenIndices@ == Candidates@.to_set(),
        decreases last + 1 - Bucket,
    {
        let key: i64 = Bucket as i64;
        let ghost before = Candidates@;
        let ghost members = bucket_members(ranges, key as int, ranges.len());
        proof {
            assert(bucket_filed(Buckets@, ranges, key, ranges.len()));
            assert(first + ((Bucket + 1 - first) as nat) - 1 == key);
        }
        match Buckets.get(&key) {
            Some(Indices) => {
                assert(Indices@ == members);
                let mut j: usize = 0;
                while j < Indices.len()
                    invariant
                        Indices@ == members,
                        j <= Indices.len(),
                        Candidates@ == append_unseen(before, members.take(j as int)),
                        SeenIndices@ == Candidates@.to_set(),
                    decreases Indices.len() - j,
                {
                    let Idx: usize = Indices[j];
                    assert(members.take(j + 1).drop_last() =~= members.take(j as int));
                    if !SeenIndices.contains(&Idx) {
                        let ghost earlier = Candidates@;
                        SeenIndices.insert(Idx);
                        Candidates.push(Idx);
                        proof {
                            earlier.lemma_push_to_set_commute(Idx);
                        }
                    }
                    j += 1;
                }
                assert(members.take(members.len() as int) =~= members);
            }
            None => {
                assert(members.len() == 0);
            }
        }
        Bucket = Bucket + 1;
    }
    Candidates
}

proof fn lemma_members_shape(ranges: Seq<RatingBucketRange>, b: int, n: nat)
    requires n <= usize::MAX,
    ensures
        forall|i: int| 0 <= i < bucket_members(ranges, b, n).len() ==> #[trigger] bucket_members(ranges, b, n)[i] < n,
        bucket_members(ranges, b, n).no_duplicates(),
    decreases n,
{
    if n > 0 {
        lemma_members_shape(ranges, b, (n - 1) as nat);
        let before = bucket_members(ranges, b, (n - 1) as nat);
        assert(!before.contains((n - 1) as usize));
    }
}

proof fn lemma_append_unseen_shape(seen: Seq<usize>, more: Seq<usize>, bound: nat)
    requires
        seen.no_duplicates(),
        forall|i: int| 0 <= i < seen.len() ==> #[trigger] seen[i] < bound,
        forall|i: int| 0 <= i < more.len() ==> #[trigger] more[i] < bound,
    ensures
        append_unseen(seen, more).no_duplicates(),
        forall|i: int| 0 <= i < append_unseen(seen, more).len() ==> #[trigger] append_unseen(seen, more)[i] < bound,
    decreases more.len(),
{
    if more.len() > 0 {
        lemma_append_unseen_shape(seen, more.drop_last(), bound);
    }
}

proof fn lemma_candidates_through_shape(ranges: Seq<RatingBucketRange>, first: int, count: nat)
    requires ranges.len() <= usize::MAX,
    ensures
        candidates_through(ranges, first, count).no_duplicates(),
        forall|i: int| 0 <= i < candidates_through(ranges, first, count).len() ==>
            #[trigger] candidates_through(ranges, first, count)[i] < ranges.len(),
    decreases count,
{
    if count > 0 {
        lemma_candidates_through_shape(ranges, first, (count - 1) as nat);
        lemma_members_shape(ranges, first + count - 1, ranges.len());
        lemma_append_unseen_shape(
            candidates_through(ranges, first, (count - 1) as nat),
            bucket_members(ranges, first + count - 1, ranges.len()),
            ranges.len(),
        );
    }
}

/// The candidates of a ticket are distinct positions of the ranges.
pub proof fn lemma_candidate_list_shape(ranges: Seq<RatingBucketRange>, base: RatingBucketRange)
    requires ranges.len() <= usize::MAX,
    ensures
        candidate_list(ranges, base).no_duplicates(),
        forall|i: int| 0 <= i < candidate_list(ranges, base).len() ==>
            #[trigger] candidate_list(ranges, base)[i] < ranges.len(),
{
    if last_bucket(base) >= base.MinBucket {
        lemma_candidates_through_shape(ranges, base.MinBucket as int, (last_bucket(base) - base.MinBucket + 1) as nat);
    }
}

proof fn lemma_members_contain(ranges: Seq<RatingBucketRange>, b: int, n: nat, p: usize)
    requires n <= ranges.len(), ranges.len() <= usize::MAX,
    ensures bucket_members(ranges, b, n).contains(p) <==> (p < n && covers(ranges[p as int], b)),
    decreases n,
{
    if n > 0 {
        lemma_members_contain(ranges, b, (n - 1) as nat, p);
        let before = bucket_members(ranges, b, (n - 1) as nat);
        if covers(ranges[n - 1], b) {
            let after = before.push((n - 1) as usize);
            assert(after[before.len() as int] == (n - 1) as usize);
            if before.contains(p) {
                let j = choose|j: int| 0 <= j < before.len() && before[j] == p;
                assert(after[j] == p);
            }
            if after.contains(p) && p != (n - 1) as usize {
                let j = choose|j: int| 0 <= j < after.len() && after[j] == p;
                assert(before[j] == p);
            }
        }
    }
}

proof fn lemma_append_unseen_contains(seen: Seq<usize>, more: Seq<usize>, p: usize)
    ensures append_unseen(seen, more).contains(p) <==> (seen.contains(p) || more.contains(p)),
    decreases more.len(),
{
    if more.len() > 0 {
        let rest = more.drop_last();
        lemma_append_unseen_contains(seen, rest, p);
        let before = append_unseen(seen, rest);
        let x = more.last();
        assert(more == rest.push(x));
        if rest.contains(p) {
            let j = choose|j: int| 0 <= j < rest.len() && rest[j] == p;
            assert(more[j] == p);
        }
        if more.contains(p) && p != x {
            let j = choose|j: int| 0 <= j < more.len() && more[j] == p;
            assert(rest[j] == p);
        }
        if !before.contains(x) {
            let after = before.push(x);
            assert(after[before.len() as int] == x);
            if before.contains(p) {
                let j = choose|j: int| 0 <= j < before.len() && before[j] == p;
                assert(after[j] == p);
            }
            if after.contains(p) && p != x {
                let j = choose|j: int| 0 <= j < after.len() && after[j] == p;
                assert(before[j] == p);
            }
        }
        assert(more[more.len() - 1] == x);
    }
}

proof fn lemma_candidates_through_contain(ranges: Seq<RatingBucketRange>, first: int, count: nat, p: usize)
    requires ranges.len() <= usize::MAX,
    ensures
        candidates_through(ranges, first, count).contains(p) <==> (p < ranges.len()
            && exists|b: int| first <= b < first + count && #[trigger] covers(ranges[p as int], b)),
    decreases count,
{
    if count > 0 {
        lemma_candidates_through_contain(ranges, first, (count - 1) as nat, p);
        let b = first + count - 1;
        lemma_append_unseen_contains(
            candidates_through(ranges, first, (count - 1) as nat),
            bucket_members(ranges, b, ranges.len()),
            p,
        );
        lemma_members_contain(ranges, b, ranges.len(), p);
        if p < ranges.len() && (exists|b2: int| first <= b2 < first + count && #[trigger] covers(ranges[p as int], b2)) {
            let b2 = choose|b2: int| first <= b2 < first + count && #[trigger] covers(ranges[p as int], b2);
            if b2 < b {
                assert(first <= b2 < first + (count - 1) as nat && covers(ranges[p as int], b2));
            }
        }
    }
}

/// The candidates of a ticket are exactly the positions whose range shares a bucket
/// with the ticket's own (among the buckets it is filed under).
pub proof fn lemma_candidates_share_a_bucket(ranges: Seq<RatingBucketRange>, base: RatingBucketRange, p: usize)
    requires ranges.len() <= usize::MAX,
    ensures
        candidate_list(ranges, base).contains(p) <==> (p < ranges.len() && share_a_bucket(base, ranges[p as int])),
{
    if last_bucket(base) >= base.MinBucket {
        let count = (last_bucket(base) - base.MinBucket + 1) as nat;
        lemma_candidates_through_contain(ranges, base.MinBucket as int, count, p);
    } else {
        assert(!(exists|b: int| covers(base, b) && #[trigger] covers(ranges[p as int], b)));
    }
}

} // verus!
