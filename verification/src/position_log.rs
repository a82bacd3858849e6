//! A bounded history of timestamped positions, queried by time.

use crate::circular_vec::history_after_push;
use crate::circular_vec::RingVec;
use vstd::prelude::*;

verus! {

/// How long a sample stays useful, in nanoseconds.
pub const KEEP_TIME: u128 = 2_000_000_000;

/// The time between two samples, in nanoseconds.
pub const INTERVAL: u128 = 1_000_000_000 / 25;

/// The number of samples that cover `KEEP_TIME` at one sample per
/// `INTERVAL`, rounded up.
pub open spec fn samples_kept() -> nat {
    ((KEEP_TIME + INTERVAL - 1) / (INTERVAL as int)) as nat
}

/// Samples taken one `INTERVAL` apart fill the log just when they span
/// `KEEP_TIME`: one sample fewer would fall short of it.
pub proof fn law_samples_kept_span_keep_time()
    ensures
        samples_kept() * INTERVAL >= KEEP_TIME,
        (samples_kept() - 1) * INTERVAL < KEEP_TIME,
        samples_kept() == 50,
{
}

/// A position and the time at which it was taken, in nanoseconds.
#[derive(Clone, Copy, Debug, PartialEq)]
pub struct Record<P> {
    pub time: u128,
    pub position: P,
}

/// Where an entity was at a queried time: at a known position, or on the
/// segment between two known positions.
///
/// For `Between`, the position is
/// `later + (earlier - later) * until_later / (since_earlier + until_later)`:
/// the nearer sample weighs more.
#[derive(Clone, Copy, Debug, PartialEq)]
pub enum Estimate<P> {
    At(P),
    Between { earlier: P, later: P, since_earlier: u128, until_later: u128 },
}

/// `i` is the first slot whose sample was taken exactly at `t`.
pub open spec fn is_first_at<P>(s: Seq<Record<P>>, t: u128, i: int) -> bool {
    &&& 0 <= i < s.len()
    &&& s[i].time == t
    &&& forall|j: int| 0 <= j < i ==> (#[trigger] s[j]).time != t
}

/// `i` is the first slot among those whose sample is the latest one taken
/// before `t`.
pub open spec fn is_latest_before<P>(s: Seq<Record<P>>, t: u128, i: int) -> bool {
    &&& 0 <= i < s.len()
    &&& s[i].time < t
    &&& forall|j: int| 0 <= j < s.len() && (#[trigger] s[j]).time < t ==> s[j].time <= s[i].time
    &&& forall|j: int| 0 <= j < i ==> (#[trigger] s[j]).time != s[i].time
}

/// `i` is the first slot among those whose sample is the earliest one taken
/// after `t` and before `bound`.
pub open spec fn is_earliest_after<P>(s: Seq<Record<P>>, t: u128, bound: u128, i: int) -> bool {
    &&& 0 <= i < s.len()
    &&& t < s[i].time < bound
    &&& forall|j: int| 0 <= j < s.len() && t < (#[trigger] s[j]).time ==> s[i].time <= s[j].time
    &&& forall|j: int| 0 <= j < i ==> (#[trigger] s[j]).time != s[i].time
}

/// The slot of the sample taken exactly at `t`, if there is one.
pub open spec fn first_at<P>(s: Seq<Record<P>>, t: u128) -> Option<int> {
    if exists|i: int| is_first_at(s, t, i) {
        Some(choose|i: int| is_first_at(s, t, i))
    } else {
        None
    }
}

/// The slot of the latest sample taken before `t`, if there is one.
pub open spec fn latest_before<P>(s: Seq<Record<P>>, t: u128) -> Option<int> {
    if exists|i: int| is_latest_before(s, t, i) {
        Some(choose|i: int| is_latest_before(s, t, i))
    } else {
        None
    }
}

/// The slot of the earliest sample taken after `t` and before `bound`, if
/// there is one.
pub open spec fn earliest_after<P>(s: Seq<Record<P>>, t: u128, bound: u128) -> Option<int> {
    if exists|i: int| is_earliest_after(s, t, bound, i) {
        Some(choose|i: int| is_earliest_after(s, t, bound, i))
    } else {
        None
    }
}

/// The best estimate of the position at `target`, from the samples `s` and
/// the live position `here` at time `now`.
///
/// A sample taken exactly at `target` is the answer. Otherwise a `target` at
/// or after `now` gives the live position. Otherwise the answer lies between
/// the latest sample before `target` and the earliest one after it, where
/// the live position stands in for a later sample that is missing or not
/// older than `now`; with no earlier sample it is the later one as it is.
pub open spec fn estimate_at<P>(s: Seq<Record<P>>, target: u128, now: u128, here: P) -> Estimate<
    P,
> {
    match first_at(s, target) {
        Some(i) => Estimate::At(s[i].position),
        None => if now <= target {
            Estimate::At(here)
        } else {
            let later = match earliest_after(s, target, now) {
                Some(j) => s[j],
                None => Record { time: now, position: here },
            };
            match latest_before(s, target) {
                None => Estimate::At(later.position),
                Some(i) => Estimate::Between {
                    earlier: s[i].position,
                    later: later.position,
                    since_earlier: (target - s[i].time) as u128,
                    until_later: (later.time - target) as u128,
                },
            }
        },
    }
}

/// Each sample was taken later than the one before it.
pub open spec fn strictly_increasing<P>(h: Seq<Record<P>>) -> bool {
    forall|a: int, b: int| 0 <= a < b < h.len() ==> (#[trigger] h[a]).time < (#[trigger] h[b]).time
}

/// A sample that no earlier slot shares its time with is what a lookup at
/// its time returns.
pub proof fn lemma_estimate_exact<P>(s: Seq<Record<P>>, m: int, now: u128, here: P)
    requires
        is_first_at(s, s[m].time, m),
    ensures
        estimate_at(s, s[m].time, now, here) == Estimate::At(s[m].position),
{
    let i = choose|i: int| is_first_at(s, s[m].time, i);
    assert(s[i].time == s[m].time);
    assert(i == m);
}

/// With no sample at `t` and the live position newer than `t`, the samples
/// on either side of `t` frame the answer.
pub proof fn lemma_estimate_between<P>(
    s: Seq<Record<P>>,
    a: int,
    b: int,
    t: u128,
    now: u128,
    here: P,
)
    requires
        forall|j: int| 0 <= j < s.len() ==> (#[trigger] s[j]).time != t,
        t < now,
        is_latest_before(s, t, a),
        is_earliest_after(s, t, now, b),
    ensures
        estimate_at(s, t, now, here) == (Estimate::Between {
            earlier: s[a].position,
            later: s[b].position,
            since_earlier: (t - s[a].time) as u128,
            until_later: (s[b].time - t) as u128,
        }),
{
    lemma_latest_before_is_unique(s, t, a);
    lemma_earliest_after_is_unique(s, t, now, b);
}

/// The slot that `is_latest_before` describes is the one `latest_before`
/// names.
pub proof fn lemma_latest_before_is_unique<P>(s: Seq<Record<P>>, t: u128, a: int)
    requires
        is_latest_before(s, t, a),
    ensures
        latest_before(s, t) == Some(a),
{
    let i = choose|i: int| is_latest_before(s, t, i);
    assert(s[i].time == s[a].time);
    assert(i == a);
}

/// The slot that `is_earliest_after` describes is the one `earliest_after`
/// names.
pub proof fn lemma_earliest_after_is_unique<P>(s: Seq<Record<P>>, t: u128, bound: u128, b: int)
    requires
        is_earliest_after(s, t, bound, b),
    ensures
        earliest_after(s, t, bound) == Some(b),
{
    let i = choose|i: int| is_earliest_after(s, t, bound, i);
    assert(s[i].time == s[b].time);
    assert(i == b);
}

/// The recent positions of one entity.
pub struct PositionLog<P> {
    data: RingVec<Record<P>>,
}

impl<P> View for PositionLog<P> {
    type V = Seq<Record<P>>;

    /// The samples in slot order, which is the order lookups scan them in.
    closed spec fn view(&self) -> Seq<Record<P>> {
        self.data.slots()
    }
}

impl<P: Copy> PositionLog<P> {
    /// The ring that holds the samples is well formed.
    pub closed spec fn wf(&self) -> bool {
        self.data.wf()
    }

    /// The number of samples the log keeps before it overwrites the oldest.
    pub closed spec fn capacity(&self) -> nat {
        self.data.capacity()
    }

    /// The samples in the order they were stored, oldest first.
    pub closed spec fn history(&self) -> Seq<Record<P>> {
        self.data.history()
    }

    /// The slot that the next sample goes to.
    pub closed spec fn cursor(&self) -> nat {
        self.data.cursor()
    }

    /// The place in `history()` of the sample in slot `a`.
    closed spec fn rank(&self, a: int) -> int {
        if self@.len() < self.capacity() {
            a
        } else if a >= self.data.cursor() {
            a - self.data.cursor()
        } else {
            a + self@.len() - self.data.cursor()
        }
    }

    /// The slot of the sample at place `k` in `history()`.
    closed spec fn slot(&self, k: int) -> int {
        if self@.len() < self.capacity() {
            k
        } else if k < self@.len() - self.data.cursor() {
            k + self.data.cursor()
        } else {
            k - (self@.len() - self.data.cursor())
        }
    }

    /// The slot order and the storing order hold the same samples, and no
    /// two slots hold the same place in the storing order.
    proof fn lemma_rank(&self)
        requires
            self.wf(),
        ensures
            self.history().len() == self@.len(),
            self@.len() <= self.capacity(),
            forall|a: int|
                0 <= a < self@.len() ==> 0 <= #[trigger] self.rank(a) < self@.len() && self@[a]
                    == self.history()[self.rank(a)],
            forall|a: int, b: int|
                0 <= a < self@.len() && 0 <= b < self@.len() && a != b ==> #[trigger] self.rank(a)
                    != #[trigger] self.rank(b),
            forall|k: int|
                0 <= k < self@.len() ==> 0 <= #[trigger] self.slot(k) < self@.len() && self.rank(
                    self.slot(k),
                ) == k,
    {
        self.data.lemma_shape();
    }

    /// A log never holds more samples than its capacity.
    pub proof fn law_length_within_capacity(&self)
        requires
            self.wf(),
        ensures
            self@.len() <= self.capacity(),
            self.history().len() == self@.len(),
    {
        self.lemma_rank();
    }

    /// After samples were stored at strictly increasing times, a lookup at
    /// the time of any sample still held returns that sample's position.
    pub proof fn law_stored_sample_is_found(&self, k: int, now: u128, here: P)
        requires
            self.wf(),
            strictly_increasing(self.history()),
            0 <= k < self.history().len(),
        ensures
            estimate_at(self@, self.history()[k].time, now, here) == Estimate::At(
                self.history()[k].position,
            ),
    {
        self.lemma_rank();
        let s = self@;
        let h = self.history();
        let m = self.slot(k);
        assert forall|j: int| 0 <= j < m implies (#[trigger] s[j]).time != s[m].time by {
            let r = self.rank(j);
            assert(r != k);
            if r < k {
                assert(h[r].time < h[k].time);
            } else {
                assert(h[k].time < h[r].time);
            }
        }
        lemma_estimate_exact(s, m, now, here);
    }

    /// After samples were stored at strictly increasing times, a lookup
    /// strictly between two consecutive samples, both older than the live
    /// position, lies between those two: the earlier one weighs
    /// `(t2 - t) / (t2 - t1)`.
    pub proof fn law_between_samples_interpolates(&self, k: int, t: u128, now: u128, here: P)
        requires
            self.wf(),
            strictly_increasing(self.history()),
            0 <= k,
            k + 1 < self.history().len(),
            self.history()[k].time < t < self.history()[k + 1].time,
            self.history()[k + 1].time < now,
        ensures
            estimate_at(self@, t, now, here) == (Estimate::Between {
                earlier: self.history()[k].position,
                later: self.history()[k + 1].position,
                since_earlier: (t - self.history()[k].time) as u128,
                until_later: (self.history()[k + 1].time - t) as u128,
            }),
    {
        self.lemma_rank();
        let s = self@;
        let h = self.history();
        let a = self.slot(k);
        let b = self.slot(k + 1);
        assert forall|j: int| 0 <= j < s.len() implies {
            &&& (#[trigger] s[j]).time != t
            &&& s[j].time < t ==> s[j].time <= s[a].time
            &&& t < s[j].time ==> s[b].time <= s[j].time
            &&& j != a ==> s[j].time != s[a].time
            &&& j != b ==> s[j].time != s[b].time
        } by {
            let r = self.rank(j);
            if r < k {
                assert(h[r].time < h[k].time);
            } else if r > k + 1 {
                assert(h[k + 1].time < h[r].time);
            }
            if j != a {
                assert(r != k);
            }
            if j != b {
                assert(r != k + 1);
            }
        }
        lemma_estimate_between(s, a, b, t, now, here);
    }

    /// After samples were stored at strictly increasing times, a lookup
    /// before the oldest sample, itself older than the live position,
    /// returns the oldest sample's position.
    pub proof fn law_before_history_clamps(&self, t: u128, now: u128, here: P)
        requires
            self.wf(),
            strictly_increasing(self.history()),
            self.history().len() > 0,
            t < self.history()[0].time,
            self.history()[0].time < now,
        ensures
            estimate_at(self@, t, now, here) == Estimate::At(self.history()[0].position),
    {
        self.lemma_rank();
        let s = self@;
        let h = self.history();
        let b = self.slot(0);
        assert forall|j: int| 0 <= j < s.len() implies {
            &&& t < (#[trigger] s[j]).time
            &&& s[b].time <= s[j].time
            &&& j != b ==> s[j].time != s[b].time
        } by {
            let r = self.rank(j);
            if r > 0 {
                assert(h[0].time < h[r].time);
            }
            if j != b {
                assert(r != 0);
            }
        }
        lemma_earliest_after_is_unique(s, t, now, b);
        assert(!exists|i: int| is_first_at(s, t, i));
        assert(!exists|i: int| is_latest_before(s, t, i));
    }

    /// A lookup at or after the time of the live position, at a time at
    /// which no sample was taken, returns the live position.
    pub proof fn law_not_before_now_is_live(&self, t: u128, now: u128, here: P)
        requires
            now <= t,
            forall|j: int| 0 <= j < self@.len() ==> (#[trigger] self@[j]).time != t,
        ensures
            estimate_at(self@, t, now, here) == Estimate::At(here),
    {
        assert(!exists|i: int| is_first_at(self@, t, i));
    }

    /// Storing into a full log at a later time than every sample held drops
    /// the oldest sample: a lookup at its time no longer finds it.
    pub proof fn law_overwrite_forgets_oldest(&self, after: &Self, position: P, time: u128)
        requires
            self.wf(),
            after.wf(),
            strictly_increasing(self.history()),
            self.capacity() > 0,
            self.history().len() == self.capacity(),
            self.history().last().time < time,
            after.capacity() == self.capacity(),
            after.history() == history_after_push(
                self.history(),
                self.capacity(),
                (Record { time, position }),
            ),
        ensures
            after@.len() == after.capacity(),
            forall|j: int|
                0 <= j < after@.len() ==> (#[trigger] after@[j]).time != self.history()[0].time,
            first_at(after@, self.history()[0].time).is_none(),
    {
        after.lemma_rank();
        let h = self.history();
        let g = after.history();
        assert forall|j: int| 0 <= j < after@.len() implies (#[trigger] after@[j]).time
            != h[0].time by {
            let r = after.rank(j);
            assert(after@[j] == g[r]);
            if r + 1 < g.len() {
                assert(g[r] == h[r + 1]);
                assert(h[0].time < h[r + 1].time);
            } else {
                assert(g[r].time == time);
                assert(h[0].time <= h.last().time) by {
                    if h.len() > 1 {
                        assert(h[0].time < h[h.len() - 1].time);
                    }
                }
            }
        }
        assert(!exists|i: int| is_first_at(after@, h[0].time, i));
    }

    /// An empty log that keeps `samples_kept()` samples.
    pub fn new() -> (log: Self)
        ensures
            log.wf(),
            log.capacity() == samples_kept(),
            log.cursor() == 0,
            log@ == Seq::<Record<P>>::empty(),
            log.history() == Seq::<Record<P>>::empty(),
    {
        let size: u128 = (KEEP_TIME + INTERVAL - 1) / INTERVAL;
        PositionLog { data: RingVec::new(size as usize) }
    }

    /// Appends a sample, overwriting the oldest one once the log is full: the
    /// sample goes to the slot under the cursor, and the cursor moves on by
    /// one, wrapping at the capacity.
    pub fn store(&mut self, position: P, time: u128)
        requires
            old(self).wf(),
        ensures
            final(self).wf(),
            final(self).capacity() == old(self).capacity(),
            final(self).history() == history_after_push(
                old(self).history(),
                old(self).capacity(),
                (Record { time, position }),
            ),
            final(self)@ == (if old(self)@.len() < old(self).capacity() {
                old(self)@.push(Record { time, position })
            } else if old(self).capacity() > 0 {
                old(self)@.update(old(self).cursor() as int, Record { time, position })
            } else {
                old(self)@
            }),
            final(self).cursor() == (if old(self).capacity() == 0 {
                old(self).cursor()
            } else if old(self).cursor() + 1 == old(self).capacity() {
                0
            } else {
                old(self).cursor() + 1
            }),
    {
        proof {
            self.data.lemma_shape();
        }
        self.data.push(Record { time, position });
    }

    /// The best estimate of the position at `time_target`, given the live
    /// position `position_current` at `time_current`.
    #[verifier::rlimit(30)]
    pub fn find(&self, time_target: u128, time_current: u128, position_current: P) -> (estimate:
        Estimate<P>)
        ensures
            estimate == estimate_at(self@, time_target, time_current, position_current),
            estimate matches Estimate::Between { since_earlier, until_later, .. } ==> since_earlier
                > 0 && until_later > 0,
    {
        let ghost s = self@;
        let n: usize = self.data.len();
        let mut before: Option<Record<P>> = None;
        let mut after: Option<Record<P>> = None;
        let ghost mut before_at: int = 0;
        let ghost mut after_at: int = 0;
        let mut i: usize = 0;
        while i < n
            invariant
                s == self@,
                n == s.len(),
                i <= n,
                forall|j: int| 0 <= j < i ==> (#[trigger] s[j]).time != time_target,
                match before {
                    Some(r) => is_latest_before(s.take(i as int), time_target, before_at) && r
                        == s[before_at],
                    None => forall|j: int| 0 <= j < i ==> (#[trigger] s[j]).time >= time_target,
                },
                match after {
                    Some(r) => is_earliest_after(
                        s.take(i as int),
                        time_target,
                        time_current,
                        after_at,
                    ) && r == s[after_at],
                    None => forall|j: int|
                        0 <= j < i ==> !(time_target < (#[trigger] s[j]).time < time_current),
                },
            decreases n - i,
        {
            if let Some(found) = self.data.get(i) {
                let record: Record<P> = *found;
                if record.time == time_target {
                    assert(is_first_at(s, time_target, i as int));
                    return Estimate::At(record.position);
                }
                let ghost prefix = s.take(i as int);
                let ghost grown = s.take(i as int + 1);
                assert(forall|j: int| 0 <= j < i ==> grown[j] == #[trigger] prefix[j]);
                assert(grown[i as int] == record);
                if record.time < time_target {
                    let better = match before {
                        Some(r) => r.time < record.time,
                        None => true,
                    };
                    if better {
                        before = Some(record);
                        proof {
                            before_at = i as int;
                        }
                    }
                } else {
                    let better = record.time < time_current && match after {
                        Some(r) => r.time > record.time,
                        None => true,
                    };
                    if better {
                        after = Some(record);
                        proof {
                            after_at = i as int;
                        }
                    }
                }
            }
            i = i + 1;
        }
        proof {
            assert(s.take(n as int) =~= s);
            assert(first_at(s, time_target).is_none());
            if before.is_some() {
                assert(is_latest_before(s, time_target, before_at));
            }
            if after.is_some() {
                assert(is_earliest_after(s, time_target, time_current, after_at));
            }
        }
        if time_current <= time_target {
            return Estimate::At(position_current);
        }
        let later = match after {
            Some(r) => r,
            None => Record { time: time_current, position: position_current },
        };
        match before {
            None => Estimate::At(later.position),
            Some(earlier) => Estimate::Between {
                earlier: earlier.position,
                later: later.position,
                since_earlier: time_target - earlier.time,
                until_later: later.time - time_target,
            },
        }
    }
}

} // verus!
