//! The bookkeeping of the initial block download: which block to ask a
//! worker for next, and which received blocks can be applied, in order.
use vstd::prelude::*;
use crate::packets::getdata::GetDataOwned;
use crate::packets::invvector::{InventoryVectorOwned, InventoryVectorType};
use crate::packets::payload::PayloadToSend;

verus! {

broadcast use vstd::seq_lib::group_seq_properties, vstd::slice::group_slice_axioms;

/// A block asked for longer ago than this many milliseconds is asked for again.
pub const STALE_REQUEST_MILLIS: u64 = 2000;

/// How long the block at `i` has been waited for at `now`.
pub open spec fn spec_elapsed(times: Seq<u64>, i: int, now: u64) -> int {
    now - times[i]
}

/// The first block in `[i, hi)` asked for (its time is not zero) more than
/// two seconds before `now`.
pub open spec fn spec_first_stale(times: Seq<u64>, i: int, hi: int, now: u64) -> Option<int>
    decreases hi - i,
{
    if i >= hi {
        None
    } else if times[i] != 0 && spec_elapsed(times, i, now) > STALE_REQUEST_MILLIS {
        Some(i)
    } else {
        spec_first_stale(times, i + 1, hi, now)
    }
}

/// Scanning `[i, hi)` with `best` the block waited for longest so far: the
/// block waited for longest, the earliest one on ties.
pub open spec fn spec_oldest_from(times: Seq<u64>, i: int, hi: int, now: u64, best: Option<int>) -> Option<int>
    decreases hi - i,
{
    if i >= hi {
        best
    } else if times[i] == 0 {
        spec_oldest_from(times, i + 1, hi, now, best)
    } else {
        let nb = match best {
            None => Some(i),
            Some(b) => if spec_elapsed(times, i, now) > spec_elapsed(times, b, now) { Some(i) } else { Some(b) },
        };
        spec_oldest_from(times, i + 1, hi, now, nb)
    }
}

proof fn lemma_first_stale_range(times: Seq<u64>, i: int, hi: int, now: u64)
    ensures
        spec_first_stale(times, i, hi, now) matches Some(k) ==> i <= k < hi,
    decreases hi - i,
{
    if i < hi {
        lemma_first_stale_range(times, i + 1, hi, now);
    }
}

proof fn lemma_oldest_range(times: Seq<u64>, i: int, hi: int, now: u64, best: Option<int>, lo: int)
    requires
        lo <= i,
        best matches Some(b) ==> lo <= b < hi,
    ensures
        spec_oldest_from(times, i, hi, now, best) matches Some(k) ==> lo <= k < hi,
    decreases hi - i,
{
    if i < hi {
        if times[i] == 0 {
            lemma_oldest_range(times, i + 1, hi, now, best, lo);
        } else {
            let nb = match best {
                None => Some(i),
                Some(b) => if spec_elapsed(times, i, now) > spec_elapsed(times, b, now) { Some(i) } else { Some(b) },
            };
            lemma_oldest_range(times, i + 1, hi, now, nb, lo);
        }
    }
}

/// The outcome of choosing the next job when the request times were `t`,
/// the next block to apply is `lo` and the next never asked for is `hi`:
/// the job `r`, the request times `t2` and the next never asked for `hi2`
/// afterwards, as `find_next_best_job` gives them.
pub open spec fn spec_job_outcome(
    t: Seq<u64>,
    lo: int,
    hi: int,
    missing: Seq<[u8; 32]>,
    first: u64,
    can_advance: bool,
    now: u64,
    r: Option<([u8; 32], u64)>,
    t2: Seq<u64>,
    hi2: int,
) -> bool {
    match spec_first_stale(t, lo, hi, now) {
        Some(i) => r == Some((missing[i], (first + i) as u64)) && t2 == t.update(i, now) && hi2 == hi,
        None => if !can_advance {
            let i = spec_oldest_from(t, lo, hi, now, None).unwrap();
            r == Some((missing[i], (first + i) as u64)) && t2 == t.update(i, now) && hi2 == hi
        } else if hi < missing.len() {
            r == Some((missing[hi], (first + hi) as u64)) && t2 == t.update(hi, now) && hi2 == hi + 1
        } else if lo < hi {
            r == Some((missing[lo], (first + lo) as u64)) && t2 == t && hi2 == hi
        } else {
            r is None && t2 == t && hi2 == hi
        },
    }
}

/// The next job for a worker: a block asked for more than two seconds ago
/// (the first such one) is asked for again; otherwise, when the download
/// may not advance, the block waited for longest; otherwise the next block
/// never asked for; otherwise, once every block was asked for, the next
/// block to apply. Asking for a block records `now` as its request time.
pub fn find_next_best_job(
    next_to_apply: usize,
    next_never_asked_for: &mut usize,
    last_request_times: &mut Vec<u64>,
    missing_blocks: &[[u8; 32]],
    first_missing_number: u64,
    can_advance: bool,
    now: u64,
) -> (r: Option<([u8; 32], u64)>)
    requires
        next_to_apply <= missing_blocks@.len(),
        *old(next_never_asked_for) <= missing_blocks@.len(),
        old(last_request_times)@.len() == missing_blocks@.len(),
        first_missing_number + missing_blocks@.len() <= u64::MAX,
        forall|i: int| 0 <= i < old(last_request_times)@.len() ==> (#[trigger] old(last_request_times)@[i]) <= now,
        !can_advance ==> spec_oldest_from(old(last_request_times)@, next_to_apply as int, *old(next_never_asked_for) as int, now, None) is Some,
    ensures
        ({
            let t = old(last_request_times)@;
            let lo = next_to_apply as int;
            let hi = *old(next_never_asked_for) as int;
            match spec_first_stale(t, lo, hi, now) {
                Some(i) => {
                    &&& r == Some((missing_blocks@[i], (first_missing_number + i) as u64))
                    &&& final(last_request_times)@ == t.update(i, now)
                    &&& *final(next_never_asked_for) == hi
                },
                None => if !can_advance {
                    let i = spec_oldest_from(t, lo, hi, now, None).unwrap();
                    &&& r == Some((missing_blocks@[i], (first_missing_number + i) as u64))
                    &&& final(last_request_times)@ == t.update(i, now)
                    &&& *final(next_never_asked_for) == hi
                } else if hi < missing_blocks@.len() {
                    &&& r == Some((missing_blocks@[hi], (first_missing_number + hi) as u64))
                    &&& final(last_request_times)@ == t.update(hi, now)
                    &&& *final(next_never_asked_for) == hi + 1
                } else if lo < hi {
                    &&& r == Some((missing_blocks@[lo], (first_missing_number + lo) as u64))
                    &&& final(last_request_times)@ == t
                    &&& *final(next_never_asked_for) == hi
                } else {
                    &&& r is None
                    &&& final(last_request_times)@ == t
                    &&& *final(next_never_asked_for) == hi
                },
            }
        }),
{
    let ghost t = last_request_times@;
    let ghost lo = next_to_apply as int;
    let ghost hi = *next_never_asked_for as int;
    proof {
        lemma_first_stale_range(t, lo, hi, now);
        lemma_oldest_range(t, lo, hi, now, None, lo);
    }
    let mut oldest_asked_for_block: u64 = 0;
    let mut oldest_index: Option<usize> = None;
    let mut i = next_to_apply;
    while i < *next_never_asked_for
        invariant
            lo <= i,
            lo <= hi ==> i <= hi,
            hi == *next_never_asked_for,
            hi <= missing_blocks@.len(),
            last_request_times@ == t,
            t.len() == missing_blocks@.len(),
            t == old(last_request_times)@,
            hi == *old(next_never_asked_for),
            lo == next_to_apply,
            first_missing_number + missing_blocks@.len() <= u64::MAX,
            forall|k: int| 0 <= k < t.len() ==> (#[trigger] t[k]) <= now,
            spec_first_stale(t, lo, hi, now) == spec_first_stale(t, i as int, hi, now),
            spec_oldest_from(t, lo, hi, now, None) == spec_oldest_from(t, i as int, hi, now, match oldest_index {
                Some(b) => Some(b as int),
                None => None,
            }),
            oldest_index matches Some(b) ==> b < i && oldest_asked_for_block == spec_elapsed(t, b as int, now),
        decreases hi - i,
    {
        let requested_at = last_request_times[i];
        if requested_at != 0 {
            let elapsed = now - requested_at;
            if elapsed > STALE_REQUEST_MILLIS {
                last_request_times.set(i, now);
                return Some((missing_blocks[i], first_missing_number + i as u64));
            }
            match oldest_index {
                None => {
                    oldest_index = Some(i);
                    oldest_asked_for_block = elapsed;
                },
                Some(_) => {
                    if elapsed > oldest_asked_for_block {
                        oldest_index = Some(i);
                        oldest_asked_for_block = elapsed;
                    }
                },
            }
        }
        i = i + 1;
    }
    if !can_advance {
        let o = oldest_index.unwrap();
        last_request_times.set(o, now);
        return Some((missing_blocks[o], first_missing_number + o as u64));
    }
    if *next_never_asked_for < missing_blocks.len() {
        let index_to_return = *next_never_asked_for;
        last_request_times.set(index_to_return, now);
        *next_never_asked_for = *next_never_asked_for + 1;
        return Some((missing_blocks[index_to_return], first_missing_number + index_to_return as u64));
    }
    if next_to_apply < *next_never_asked_for {
        return Some((missing_blocks[next_to_apply], first_missing_number + next_to_apply as u64));
    }
    None
}

/// The `getdata` that asks for the block with hash `hash`, with its witnesses.
pub fn job_to_getdata(hash: [u8; 32]) -> (r: PayloadToSend)
    ensures
        r matches PayloadToSend::GetData(g) && g.inner@.len() == 1
            && g.inner@[0].inv_type == InventoryVectorType::WitnessBlock && g.inner@[0].hash == hash,
{
    let mut inner: Vec<InventoryVectorOwned> = Vec::new();
    inner.push(InventoryVectorOwned { inv_type: InventoryVectorType::WitnessBlock, hash });
    PayloadToSend::GetData(GetDataOwned { inner })
}

/// Blocks held back until the ones before them are applied.
pub const MAX_BACKLOG_TO_ADVANCE: usize = 512;

/// The numbers of the blocks in a backlog, in its order.
pub open spec fn spec_backlog_numbers<T>(b: Seq<(T, u64)>) -> Seq<u64> {
    b.map_values(|e: (T, u64)| e.1)
}

/// `b2` is `b` with `(payload, number)` put after every block numbered
/// above it and before every block numbered below it.
pub open spec fn spec_inserted_in_order<T>(b: Seq<(T, u64)>, b2: Seq<(T, u64)>, payload: T, number: u64) -> bool {
    exists|j: int|
        0 <= j <= b.len() && (forall|k: int| 0 <= k < j ==> (#[trigger] b[k]).1 > number)
            && (forall|k: int| j <= k < b.len() ==> (#[trigger] b[k]).1 < number)
            && b2 == b.insert(j, (payload, number))
}

/// The request times after a block numbered `number` is received: a block
/// after the next one to apply counts as received (time zero).
pub open spec fn spec_times_after_receive<T>(o: MasterState<T>, number: u64) -> Seq<u64> {
    if number > o.expected() {
        o.last_request_times@.update(number - o.first_missing_number, 0)
    } else {
        o.last_request_times@
    }
}

/// Receiving a block numbered `number` in state `o` leaves the backlog
/// `backlog`, the next to apply `nta` and the request times `times`, and
/// hands `flushed` on: a block after the next one to apply goes to the
/// backlog (once, in order) and counts as received; an older one is dropped;
/// the next one is handed on with every backlog block that follows on.
pub open spec fn spec_receive_outcome<T>(o: MasterState<T>, payload: T, number: u64, backlog: Seq<(T, u64)>,
    nta: usize, times: Seq<u64>, flushed: Seq<(T, u64)>) -> bool {
    &&& times == spec_times_after_receive(o, number)
    &&& number > o.expected() ==> {
        &&& flushed.len() == 0
        &&& nta == o.next_to_apply
        &&& if spec_backlog_numbers(o.backlog@).contains(number) {
            backlog == o.backlog@
        } else {
            spec_inserted_in_order(o.backlog@, backlog, payload, number)
        }
    }
    &&& number < o.expected() ==> {
        &&& flushed.len() == 0
        &&& nta == o.next_to_apply
        &&& backlog == o.backlog@
    }
    &&& number == o.expected() ==> {
        &&& flushed.len() >= 1
        &&& flushed[0] == (payload, number)
        &&& forall|k: int| 0 <= k < flushed.len() ==> (#[trigger] flushed[k]).1 == o.expected() + k
        &&& nta == o.next_to_apply + flushed.len()
        &&& o.backlog@ == backlog + flushed.subrange(1, flushed.len() as int).reverse()
        &&& backlog.len() > 0 ==> backlog.last().1 != o.first_missing_number + nta
    }
}

/// The state of a block download: the blocks to fetch (numbered from
/// `first_missing_number`), when each was last asked for (zero: not asked
/// for, or already received), how far blocks were applied and asked for,
/// and the received blocks waiting for the ones before them, highest first.
pub struct MasterState<T> {
    pub missing_blocks: Vec<[u8; 32]>,
    pub first_missing_number: u64,
    pub last_request_times: Vec<u64>,
    pub next_to_apply: usize,
    pub next_never_asked_for: usize,
    pub backlog: Vec<(T, u64)>,
}

impl<T> MasterState<T> {
    /// The number of the next block to apply.
    pub open spec fn expected(&self) -> int {
        self.first_missing_number + self.next_to_apply
    }

    /// The state's invariant: the counters stay within the blocks, and the
    /// backlog is kept highest first without repeats and holds only blocks
    /// of the download after the next one to apply.
    pub open spec fn wf(&self) -> bool {
        let nums = spec_backlog_numbers(self.backlog@);
        &&& self.last_request_times@.len() == self.missing_blocks@.len()
        &&& self.next_to_apply <= self.missing_blocks@.len()
        &&& self.next_never_asked_for <= self.missing_blocks@.len()
        &&& self.first_missing_number + self.missing_blocks@.len() <= u64::MAX
        &&& forall|i: int, j: int| 0 <= i < j < nums.len() ==> nums[i] > nums[j]
        &&& forall|i: int| 0 <= i < nums.len() ==> self.expected() < #[trigger] nums[i]
            < self.first_missing_number + self.missing_blocks@.len()
    }

    /// The invariant while applying a run of blocks: the backlog may still
    /// start with the next block to apply.
    pub open spec fn wf_applying(&self) -> bool {
        let nums = spec_backlog_numbers(self.backlog@);
        &&& self.last_request_times@.len() == self.missing_blocks@.len()
        &&& self.next_to_apply <= self.missing_blocks@.len()
        &&& self.next_never_asked_for <= self.missing_blocks@.len()
        &&& self.first_missing_number + self.missing_blocks@.len() <= u64::MAX
        &&& forall|i: int, j: int| 0 <= i < j < nums.len() ==> nums[i] > nums[j]
        &&& forall|i: int| 0 <= i < nums.len() ==> self.expected() <= #[trigger] nums[i]
            < self.first_missing_number + self.missing_blocks@.len()
    }

    /// A download of `missing_blocks`, the first of which is numbered `first_missing_number`.
    pub fn new(missing_blocks: Vec<[u8; 32]>, first_missing_number: u64) -> (r: Self)
        requires
            first_missing_number + missing_blocks@.len() <= u64::MAX,
        ensures
            r.wf(),
            r.missing_blocks@ == missing_blocks@,
            r.first_missing_number == first_missing_number,
            r.last_request_times@ == Seq::new(missing_blocks@.len(), |i: int| 0u64),
            r.next_to_apply == 0 && r.next_never_asked_for == 0,
            r.backlog@.len() == 0,
    {
        let mut times: Vec<u64> = Vec::new();
        let mut i: usize = 0;
        while i < missing_blocks.len()
            invariant
                i <= missing_blocks@.len(),
                times@ == Seq::new(i as nat, |k: int| 0u64),
            decreases missing_blocks@.len() - i,
        {
            times.push(0);
            i = i + 1;
            assert(times@ =~= Seq::new(i as nat, |k: int| 0u64));
        }
        let r = MasterState {
            missing_blocks,
            first_missing_number,
            last_request_times: times,
            next_to_apply: 0,
            next_never_asked_for: 0,
            backlog: Vec::new(),
        };
        assert(spec_backlog_numbers(r.backlog@) =~= Seq::<u64>::empty());
        r
    }

    /// Whether the download may ask for blocks never asked for: not while
    /// the backlog is longer than `MAX_BACKLOG_TO_ADVANCE`.
    pub fn can_advance(&self) -> (r: bool)
        ensures
            r == (self.backlog@.len() <= MAX_BACKLOG_TO_ADVANCE),
    {
        self.backlog.len() <= MAX_BACKLOG_TO_ADVANCE
    }

    /// Takes a received block numbered `number`. A block after the next one
    /// to apply goes to the backlog (once) and counts as received; an older
    /// one is dropped; the next one is returned, followed by every backlog
    /// block that now follows on, in order.
    pub fn receive_block(&mut self, payload: T, number: u64) -> (r: Vec<(T, u64)>)
        requires
            old(self).wf(),
            number < old(self).first_missing_number + old(self).missing_blocks@.len(),
        ensures
            final(self).wf(),
            final(self).missing_blocks@ == old(self).missing_blocks@,
            final(self).first_missing_number == old(self).first_missing_number,
            final(self).next_never_asked_for == old(self).next_never_asked_for,
            spec_receive_outcome(*old(self), payload, number, final(self).backlog@, final(self).next_to_apply,
                final(self).last_request_times@, r@),
            number > old(self).expected() ==> {
                &&& r@.len() == 0
                &&& final(self).next_to_apply == old(self).next_to_apply
                &&& final(self).last_request_times@
                    == old(self).last_request_times@.update(number - old(self).first_missing_number, 0)
                &&& if spec_backlog_numbers(old(self).backlog@).contains(number) {
                    final(self).backlog@ == old(self).backlog@
                } else {
                    spec_inserted_in_order(old(self).backlog@, final(self).backlog@, payload, number)
                }
            },
            number < old(self).expected() ==> {
                &&& r@.len() == 0
                &&& final(self).next_to_apply == old(self).next_to_apply
                &&& final(self).last_request_times@ == old(self).last_request_times@
                &&& final(self).backlog@ == old(self).backlog@
            },
            number == old(self).expected() ==> {
                &&& r@.len() >= 1
                &&& r@[0] == (payload, number)
                &&& forall|k: int| 0 <= k < r@.len() ==> (#[trigger] r@[k]).1 == old(self).expected() + k
                &&& final(self).next_to_apply == old(self).next_to_apply + r@.len()
                &&& final(self).last_request_times@ == old(self).last_request_times@
                &&& old(self).backlog@ == final(self).backlog@ + r@.subrange(1, r@.len() as int).reverse()
                &&& final(self).backlog@.len() > 0 ==> final(self).backlog@.last().1 != final(self).expected()
            },
    {
        let expected: u64 = self.first_missing_number + self.next_to_apply as u64;
        let ghost old_backlog = self.backlog@;
        let ghost nums = spec_backlog_numbers(self.backlog@);
        let mut out: Vec<(T, u64)> = Vec::new();
        if number > expected {
            let mut j: usize = 0;
            let mut present = false;
            while j < self.backlog.len() && self.backlog[j].1 >= number
                invariant
                    j <= self.backlog@.len(),
                    nums == spec_backlog_numbers(self.backlog@),
                    self.backlog@ == old_backlog,
                    forall|k: int| 0 <= k < j ==> nums[k] >= number,
                    present == (exists|k: int| 0 <= k < j && nums[k] == number),
                decreases self.backlog@.len() - j,
            {
                assert(nums[j as int] == self.backlog@[j as int].1);
                if self.backlog[j].1 == number {
                    present = true;
                }
                j = j + 1;
            }
            proof {
                assert forall|k: int| j <= k < nums.len() implies nums[k] < number by {
                    assert(nums[j as int] < number);
                    if k > j {
                        assert(nums[j as int] > nums[k]);
                    }
                }
                if nums.contains(number) {
                    let k = choose|k: int| 0 <= k < nums.len() && nums[k] == number;
                    assert(k < j);
                }
            }
            let len = self.missing_blocks.len();
            assert(number - self.first_missing_number < len);
            let idx = (number - self.first_missing_number) as usize;
            self.last_request_times.set(idx, 0);
            if !present {
                assert(!nums.contains(number));
                self.backlog.insert(j, (payload, number));
                proof {
                    let b2 = self.backlog@;
                    assert forall|k: int| 0 <= k < j implies (#[trigger] old_backlog[k]).1 > number by {
                        assert(nums[k] == old_backlog[k].1);
                        assert(nums[k] >= number);
                        if nums[k] == number {
                            assert(nums.contains(number));
                        }
                    }
                    assert forall|k: int| j <= k < old_backlog.len() implies (#[trigger] old_backlog[k]).1 < number by {
                        assert(nums[k] == old_backlog[k].1);
                    }
                    assert(b2 == old_backlog.insert(j as int, (payload, number)));
                    assert(spec_inserted_in_order(old_backlog, b2, payload, number));
                    let nums2 = spec_backlog_numbers(b2);
                    assert forall|a: int, b: int| 0 <= a < b < nums2.len() implies nums2[a] > nums2[b] by {
                        if a < j && b < j {
                            assert(nums2[a] == nums[a] && nums2[b] == nums[b]);
                        } else if a < j && b == j {
                            assert(nums[a] >= number && nums[a] != number);
                        } else if a < j {
                            assert(nums2[a] == nums[a] && nums2[b] == nums[b - 1]);
                        } else if a == j {
                            assert(nums2[b] == nums[b - 1]);
                        } else {
                            assert(nums2[a] == nums[a - 1] && nums2[b] == nums[b - 1]);
                        }
                    }
                    assert forall|i: int| 0 <= i < nums2.len() implies self.expected() < #[trigger] nums2[i]
                        < self.first_missing_number + self.missing_blocks@.len() by {
                        if i < j {
                            assert(nums2[i] == nums[i]);
                        } else if i > j {
                            assert(nums2[i] == nums[i - 1]);
                        }
                    }
                }
            }
            return out;
        }
        if number < expected {
            return out;
        }
        out.push((payload, number));
        let len = self.missing_blocks.len();
        assert(self.next_to_apply < len);
        self.next_to_apply = self.next_to_apply + 1;
        loop
            invariant
                self.wf_applying(),
                self.missing_blocks@ == old(self).missing_blocks@,
                self.first_missing_number == old(self).first_missing_number,
                self.next_never_asked_for == old(self).next_never_asked_for,
                self.last_request_times@ == old(self).last_request_times@,
                out@.len() >= 1,
                out@[0] == (payload, number),
                forall|k: int| 0 <= k < out@.len() ==> (#[trigger] out@[k]).1 == old(self).expected() + k,
                self.next_to_apply == old(self).next_to_apply + out@.len(),
                old_backlog == self.backlog@ + out@.subrange(1, out@.len() as int).reverse(),
            ensures
                self.wf(),
                self.missing_blocks@ == old(self).missing_blocks@,
                self.first_missing_number == old(self).first_missing_number,
                self.next_never_asked_for == old(self).next_never_asked_for,
                self.last_request_times@ == old(self).last_request_times@,
                out@.len() >= 1,
                out@[0] == (payload, number),
                forall|k: int| 0 <= k < out@.len() ==> (#[trigger] out@[k]).1 == old(self).expected() + k,
                self.next_to_apply == old(self).next_to_apply + out@.len(),
                old_backlog == self.backlog@ + out@.subrange(1, out@.len() as int).reverse(),
                self.backlog@.len() > 0 ==> self.backlog@.last().1 != self.expected(),
            decreases self.backlog@.len(),
        {
            let n = self.backlog.len();
            if n == 0 {
                assert(spec_backlog_numbers(self.backlog@) =~= Seq::<u64>::empty());
                break;
            }
            let want: u64 = self.first_missing_number + self.next_to_apply as u64;
            if self.backlog[n - 1].1 != want {
                proof {
                    let nums = spec_backlog_numbers(self.backlog@);
                    assert(nums[n - 1] == self.backlog@[n - 1].1);
                    assert forall|i: int| 0 <= i < nums.len() implies self.expected() < #[trigger] nums[i] by {
                        if i < n - 1 {
                            assert(nums[i] > nums[n - 1]);
                        }
                    }
                }
                break;
            }
            let ghost before = self.backlog@;
            let ghost out_before = out@;
            let popped = self.backlog.pop().unwrap();
            let len = self.missing_blocks.len();
            proof {
                let nums1 = spec_backlog_numbers(before);
                assert(nums1[n - 1] == want);
                assert(nums1[n - 1] < self.first_missing_number + len);
            }
            out.push(popped);
            self.next_to_apply = self.next_to_apply + 1;
            proof {
                assert(before == self.backlog@.push(popped));
                assert(out@.subrange(1, out@.len() as int).reverse()
                    =~= seq![popped] + out_before.subrange(1, out_before.len() as int).reverse());
                assert(old_backlog =~= self.backlog@ + out@.subrange(1, out@.len() as int).reverse());
                let nums1 = spec_backlog_numbers(before);
                let nums2 = spec_backlog_numbers(self.backlog@);
                assert forall|a: int, b: int| 0 <= a < b < nums2.len() implies nums2[a] > nums2[b] by {
                    assert(nums2[a] == nums1[a] && nums2[b] == nums1[b]);
                }
                assert forall|i: int| 0 <= i < nums2.len() implies self.expected() <= #[trigger] nums2[i]
                    < self.first_missing_number + self.missing_blocks@.len() by {
                    assert(nums2[i] == nums1[i]);
                    assert(nums1[i] > nums1[n - 1]);
                }
            }
        }
        out
    }
}

impl<T> MasterState<T> {
    /// Answers a worker asking for its first job: the next best job, the
    /// download always allowed to advance.
    pub fn pull_first_job(&mut self, now: u64) -> (r: Option<([u8; 32], u64)>)
        requires
            old(self).wf(),
            forall|i: int| 0 <= i < old(self).last_request_times@.len() ==> (#[trigger] old(self).last_request_times@[i]) <= now,
        ensures
            final(self).wf(),
            final(self).backlog@ == old(self).backlog@,
            final(self).next_to_apply == old(self).next_to_apply,
            final(self).missing_blocks@ == old(self).missing_blocks@,
            final(self).first_missing_number == old(self).first_missing_number,
            final(self).next_never_asked_for >= old(self).next_never_asked_for,
            spec_job_outcome(old(self).last_request_times@, old(self).next_to_apply as int,
                old(self).next_never_asked_for as int, old(self).missing_blocks@, old(self).first_missing_number,
                true, now, r, final(self).last_request_times@, final(self).next_never_asked_for as int),
            r matches Some((_, n)) ==> final(self).first_missing_number <= n
                < final(self).first_missing_number + final(self).next_never_asked_for,
    {
        self.next_job(true, now)
    }

    /// The next best job, through `find_next_best_job` on this state.
    fn next_job(&mut self, can_advance: bool, now: u64) -> (r: Option<([u8; 32], u64)>)
        requires
            old(self).wf(),
            forall|i: int| 0 <= i < old(self).last_request_times@.len() ==> (#[trigger] old(self).last_request_times@[i]) <= now,
            !can_advance ==> spec_oldest_from(old(self).last_request_times@, old(self).next_to_apply as int,
                old(self).next_never_asked_for as int, now, None) is Some,
        ensures
            final(self).wf(),
            final(self).backlog@ == old(self).backlog@,
            final(self).next_to_apply == old(self).next_to_apply,
            final(self).missing_blocks@ == old(self).missing_blocks@,
            final(self).first_missing_number == old(self).first_missing_number,
            final(self).next_never_asked_for >= old(self).next_never_asked_for,
            spec_job_outcome(old(self).last_request_times@, old(self).next_to_apply as int,
                old(self).next_never_asked_for as int, old(self).missing_blocks@, old(self).first_missing_number,
                can_advance, now, r, final(self).last_request_times@, final(self).next_never_asked_for as int),
            r matches Some((_, n)) ==> final(self).first_missing_number <= n
                < final(self).first_missing_number + final(self).next_never_asked_for,
    {
        proof {
            lemma_first_stale_range(self.last_request_times@, self.next_to_apply as int, self.next_never_asked_for as int, now);
            lemma_oldest_range(self.last_request_times@, self.next_to_apply as int, self.next_never_asked_for as int, now, None,
                self.next_to_apply as int);
        }
        let ghost nums = spec_backlog_numbers(self.backlog@);
        let r = find_next_best_job(
            self.next_to_apply,
            &mut self.next_never_asked_for,
            &mut self.last_request_times,
            self.missing_blocks.as_slice(),
            self.first_missing_number,
            can_advance,
            now,
        );
        assert(nums == spec_backlog_numbers(self.backlog@));
        r
    }

    /// Takes a block a worker fetched and answers with its next job: the
    /// block is received (see `receive_block`), handing on the blocks that
    /// can now be applied, in order; then the next best job is chosen from
    /// the state after receiving. The download may advance only while the
    /// backlog is short; when it may not and no block is waited for, there
    /// is no job.
    pub fn handle_result(&mut self, payload: T, number: u64, now: u64) -> (r: (Vec<(T, u64)>, Option<([u8; 32], u64)>))
        requires
            old(self).wf(),
            number < old(self).first_missing_number + old(self).missing_blocks@.len(),
            forall|i: int| 0 <= i < old(self).last_request_times@.len() ==> (#[trigger] old(self).last_request_times@[i]) <= now,
        ensures
            final(self).wf(),
            final(self).missing_blocks@ == old(self).missing_blocks@,
            final(self).first_missing_number == old(self).first_missing_number,
            spec_receive_outcome(*old(self), payload, number, final(self).backlog@, final(self).next_to_apply,
                spec_times_after_receive(*old(self), number), r.0@),
            ({
                let t1 = spec_times_after_receive(*old(self), number);
                let nta = final(self).next_to_apply as int;
                let hi = old(self).next_never_asked_for as int;
                let can_advance = final(self).backlog@.len() <= MAX_BACKLOG_TO_ADVANCE;
                let waiting = spec_oldest_from(t1, nta, hi, 0, None) is Some;
                if can_advance || waiting {
                    spec_job_outcome(t1, nta, hi, old(self).missing_blocks@, old(self).first_missing_number,
                        can_advance, now, r.1, final(self).last_request_times@, final(self).next_never_asked_for as int)
                } else {
                    &&& r.1 is None
                    &&& final(self).last_request_times@ == t1
                    &&& final(self).next_never_asked_for == old(self).next_never_asked_for
                }
            }),
    {
        let ghost e = self.expected();
        let flushed = self.receive_block(payload, number);
        proof {
            assert forall|i: int| 0 <= i < self.last_request_times@.len() implies (#[trigger] self.last_request_times@[i]) <= now by {
                if number > e {
                    if i != number - self.first_missing_number {
                        assert(self.last_request_times@[i] == old(self).last_request_times@[i]);
                    }
                }
            }
        }
        let can_advance = self.can_advance();
        if !can_advance && !self.has_request_waiting() {
            return (flushed, None);
        }
        proof {
            lemma_oldest_some_any_time(self.last_request_times@, self.next_to_apply as int,
                self.next_never_asked_for as int, 0, now, None, None);
        }
        let job = self.next_job(can_advance, now);
        (flushed, job)
    }

    /// Whether some block between the next to apply and the next never
    /// asked for is still waited for (its request time is not zero).
    pub fn has_request_waiting(&self) -> (r: bool)
        requires
            self.wf(),
        ensures
            r == (spec_oldest_from(self.last_request_times@, self.next_to_apply as int, self.next_never_asked_for as int, 0, None) is Some),
    {
        let mut i = self.next_to_apply;
        while i < self.next_never_asked_for
            invariant
                self.wf(),
                self.next_to_apply <= i,
                self.next_to_apply <= self.next_never_asked_for ==> i <= self.next_never_asked_for,
                spec_oldest_from(self.last_request_times@, self.next_to_apply as int, self.next_never_asked_for as int, 0, None)
                    == spec_oldest_from(self.last_request_times@, i as int, self.next_never_asked_for as int, 0, None),
            decreases self.next_never_asked_for - i,
        {
            if self.last_request_times[i] != 0 {
                proof {
                    lemma_oldest_some(self.last_request_times@, i as int + 1, self.next_never_asked_for as int, 0, i as int);
                }
                return true;
            }
            i = i + 1;
        }
        false
    }
}

/// Once a candidate is found the scan gives some block.
proof fn lemma_oldest_some(times: Seq<u64>, i: int, hi: int, now: u64, b: int)
    ensures
        spec_oldest_from(times, i, hi, now, Some(b)) is Some,
    decreases hi - i,
{
    if i < hi {
        if times[i] == 0 {
            lemma_oldest_some(times, i + 1, hi, now, b);
        } else {
            let nb = if spec_elapsed(times, i, now) > spec_elapsed(times, b, now) { i } else { b };
            lemma_oldest_some(times, i + 1, hi, now, nb);
        }
    }
}

/// Whether a scan finds a block does not depend on the time.
proof fn lemma_oldest_some_any_time(times: Seq<u64>, i: int, hi: int, t1: u64, t2: u64, b1: Option<int>, b2: Option<int>)
    requires
        b1 is Some <==> b2 is Some,
    ensures
        spec_oldest_from(times, i, hi, t1, b1) is Some <==> spec_oldest_from(times, i, hi, t2, b2) is Some,
    decreases hi - i,
{
    if i < hi {
        if times[i] == 0 {
            lemma_oldest_some_any_time(times, i + 1, hi, t1, t2, b1, b2);
        } else {
            let n1 = match b1 {
                None => Some(i),
                Some(b) => if spec_elapsed(times, i, t1) > spec_elapsed(times, b, t1) { Some(i) } else { Some(b) },
            };
            let n2 = match b2 {
                None => Some(i),
                Some(b) => if spec_elapsed(times, i, t2) > spec_elapsed(times, b, t2) { Some(i) } else { Some(b) },
            };
            lemma_oldest_some_any_time(times, i + 1, hi, t1, t2, n1, n2);
        }
    }
}

} // verus!
