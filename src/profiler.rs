//! Per-system timing statistics; durations are in nanoseconds.

use vstd::prelude::*;

verus! {

/// Timing figures of one system.
pub struct SystemTiming {
    pub name: String,
    pub call_count: u64,
    pub total_duration: u64,
    pub min_duration: u64,
    pub max_duration: u64,
}

/// `t` after one more call that took `d` nanoseconds.
pub open spec fn recorded(t: SystemTiming, d: u64) -> SystemTiming {
    SystemTiming {
        name: t.name,
        call_count: (t.call_count + 1) as u64,
        total_duration: (t.total_duration + d) as u64,
        min_duration: if d < t.min_duration { d } else { t.min_duration },
        max_duration: if d > t.max_duration { d } else { t.max_duration },
    }
}

impl SystemTiming {
    /// Figures of a system that has not run yet.
    pub fn new(name: String) -> (r: SystemTiming)
        ensures
            r == (SystemTiming {
                name,
                call_count: 0,
                total_duration: 0,
                min_duration: u64::MAX,
                max_duration: 0,
            }),
    {
        SystemTiming { name, call_count: 0, total_duration: 0, min_duration: u64::MAX, max_duration: 0 }
    }

    pub open spec fn can_record(&self, d: u64) -> bool {
        self.call_count < u64::MAX && self.total_duration + d <= u64::MAX
    }

    /// Counts one call that took `duration` nanoseconds.
    pub fn record(&mut self, duration: u64)
        requires
            old(self).can_record(duration),
        ensures
            *final(self) == recorded(*old(self), duration),
    {
        self.call_count = self.call_count + 1;
        self.total_duration = self.total_duration + duration;
        if duration < self.min_duration {
            self.min_duration = duration;
        }
        if duration > self.max_duration {
            self.max_duration = duration;
        }
    }

    /// Mean duration of a call, rounded down; zero before the first call.
    pub fn avg_duration(&self) -> (r: u64)
        ensures
            r == (if self.call_count > 0 { self.total_duration / self.call_count } else { 0 }),
    {
        if self.call_count > 0 {
            self.total_duration / self.call_count
        } else {
            0
        }
    }

    /// A copy of these figures.
    pub fn copy(&self) -> (r: SystemTiming)
        ensures
            r == *self,
    {
        SystemTiming {
            name: self.name.clone(),
            call_count: self.call_count,
            total_duration: self.total_duration,
            min_duration: self.min_duration,
            max_duration: self.max_duration,
        }
    }
}

/// Timing figures of all systems, one entry per system name.
pub struct Profiler {
    pub timings: Vec<SystemTiming>,
    pub total_frames: u64,
}

/// Whether no two entries of `s` share a name.
pub open spec fn names_unique(s: Seq<SystemTiming>) -> bool {
    forall|i: int, j: int| 0 <= i < j < s.len() ==> s[i].name@ != s[j].name@
}

/// Sum of the total durations of `s`.
pub open spec fn total_of(s: Seq<SystemTiming>) -> int
    decreases s.len(),
{
    if s.len() == 0 {
        0
    } else {
        total_of(s.drop_last()) + s.last().total_duration
    }
}

/// Whether `s` is ordered by total duration, longest first.
pub open spec fn longest_first(s: Seq<SystemTiming>) -> bool {
    forall|i: int, j: int| 0 <= i < j < s.len() ==> s[i].total_duration >= s[j].total_duration
}

/// Summary of a profile: frames, total time, and the systems by total time.
pub struct ProfileReport {
    pub total_frames: u64,
    pub total_time: u128,
    pub systems: Vec<SystemTiming>,
}

impl Profiler {
    pub open spec fn wf(&self) -> bool {
        names_unique(self.timings@)
    }

    pub fn new() -> (r: Profiler)
        ensures
            r.wf(),
            r.timings@.len() == 0,
            r.total_frames == 0,
    {
        Profiler { timings: Vec::new(), total_frames: 0 }
    }

    /// Counts a new frame.
    pub fn start_frame(&mut self)
        requires
            old(self).total_frames < u64::MAX,
        ensures
            final(self).total_frames == old(self).total_frames + 1,
            final(self).timings@ == old(self).timings@,
    {
        self.total_frames = self.total_frames + 1;
    }

    /// Records that system `name` ran for `duration` nanoseconds, adding an
    /// entry for it on its first call.
    pub fn record_system(&mut self, name: &str, duration: u64)
        requires
            old(self).wf(),
            forall|i: int|
                0 <= i < old(self).timings@.len() && old(self).timings@[i].name@ == name@ ==> (#[trigger] old(
                    self,
                ).timings@[i]).can_record(duration),
        ensures
            final(self).wf(),
            final(self).total_frames == old(self).total_frames,
            (exists|i: int| 0 <= i < old(self).timings@.len() && old(self).timings@[i].name@ == name@) ==> ({
                let i = choose|i: int| 0 <= i < old(self).timings@.len() && old(self).timings@[i].name@ == name@;
                final(self).timings@ == old(self).timings@.update(i, recorded(old(self).timings@[i], duration))
            }),
            !(exists|i: int| 0 <= i < old(self).timings@.len() && old(self).timings@[i].name@ == name@) ==> ({
                &&& final(self).timings@.len() == old(self).timings@.len() + 1
                &&& final(self).timings@.drop_last() == old(self).timings@
                &&& final(self).timings@.last().name@ == name@
                &&& final(self).timings@.last().call_count == 1
                &&& final(self).timings@.last().total_duration == duration
                &&& final(self).timings@.last().min_duration == duration
                &&& final(self).timings@.last().max_duration == duration
            }),
    {
        let key = name.to_string();
        proof {
            vstd::string::to_string_from_display_ensures_for_str(name, key);
        }
        let n = self.timings.len();
        let mut i: usize = 0;
        while i < n
            invariant
                n == self.timings@.len(),
                i <= n,
                self.timings@ == old(self).timings@,
                self.total_frames == old(self).total_frames,
                key@ == name@,
                forall|k: int| 0 <= k < i ==> self.timings@[k].name@ != name@,
                names_unique(old(self).timings@),
                forall|k: int|
                    0 <= k < old(self).timings@.len() && old(self).timings@[k].name@ == name@ ==> (#[trigger] old(
                        self,
                    ).timings@[k]).can_record(duration),
            decreases n - i,
        {
            if self.timings[i].name == key {
                let mut t = self.timings[i].copy();
                assert(old(self).timings@[i as int].can_record(duration));
                t.record(duration);
                self.timings.set(i, t);
                proof {
                    let j = choose|j: int| 0 <= j < old(self).timings@.len() && old(self).timings@[j].name@ == name@;
                    assert(j == i) by {
                        if j < i {
                        } else if j > i {
                            assert(old(self).timings@[i as int].name@ != old(self).timings@[j].name@);
                        }
                    }
                    assert(self.timings@ == old(self).timings@.update(i as int, recorded(old(self).timings@[i as int], duration)));
                    assert forall|a: int, b: int| 0 <= a < b < self.timings@.len() implies self.timings@[a].name@
                        != self.timings@[b].name@ by {
                        assert(self.timings@[a].name == old(self).timings@[a].name);
                        assert(self.timings@[b].name == old(self).timings@[b].name);
                    }
                }
                return;
            }
            i = i + 1;
        }
        let mut t = SystemTiming::new(key);
        t.record(duration);
        self.timings.push(t);
        assert(self.timings@.drop_last() =~= old(self).timings@);
        assert forall|a: int, b: int| 0 <= a < b < self.timings@.len() implies self.timings@[a].name@
            != self.timings@[b].name@ by {
            if b == n {
                assert(self.timings@[a] == old(self).timings@[a]);
            } else {
                assert(self.timings@[a] == old(self).timings@[a]);
                assert(self.timings@[b] == old(self).timings@[b]);
            }
        }
    }

    /// The profile so far, systems ordered by total time, longest first.
    pub fn report(&self) -> (r: ProfileReport)
        ensures
            r.total_frames == self.total_frames,
            r.total_time == total_of(self.timings@),
            r.systems@.len() == self.timings@.len(),
            longest_first(r.systems@),
            forall|k: int| 0 <= k < r.systems@.len() ==> self.timings@.contains(#[trigger] r.systems@[k]),
            forall|k: int| 0 <= k < self.timings@.len() ==> r.systems@.contains(#[trigger] self.timings@[k]),
    {
        let n = self.timings.len();
        let mut total: u128 = 0;
        let mut sorted: Vec<SystemTiming> = Vec::new();
        let mut i: usize = 0;
        while i < n
            invariant
                n == self.timings@.len(),
                i <= n,
                total == total_of(self.timings@.take(i as int)),
                total <= i * 0xFFFF_FFFF_FFFF_FFFF,
                sorted@.len() == i,
                longest_first(sorted@),
                forall|k: int| 0 <= k < sorted@.len() ==> self.timings@.take(i as int).contains(#[trigger] sorted@[k]),
                forall|k: int| 0 <= k < i ==> sorted@.contains(#[trigger] self.timings@[k]),
            decreases n - i,
        {
            proof {
                assert(self.timings@.take(i + 1).drop_last() == self.timings@.take(i as int));
                assert(self.timings@.take(i + 1).last() == self.timings@[i as int]);
                assert((i + 1) * 0xFFFF_FFFF_FFFF_FFFF == i * 0xFFFF_FFFF_FFFF_FFFF + 0xFFFF_FFFF_FFFF_FFFF) by (nonlinear_arith);
                assert(i * 0xFFFF_FFFF_FFFF_FFFF <= 0xFFFF_FFFF_FFFF_FFFF * 0xFFFF_FFFF_FFFF_FFFF) by (nonlinear_arith)
                    requires
                        i <= 0xFFFF_FFFF_FFFF_FFFF,
                ;
            }
            let t = self.timings[i].copy();
            total = total + t.total_duration as u128;
            let mut p: usize = 0;
            while p < sorted.len() && sorted[p].total_duration >= t.total_duration
                invariant
                    p <= sorted@.len(),
                    forall|k: int| 0 <= k < p ==> sorted@[k].total_duration >= t.total_duration,
                decreases sorted@.len() - p,
            {
                p = p + 1;
            }
            let ghost before = sorted@;
            sorted.insert(p, t);
            proof {
                assert forall|a: int, b: int| 0 <= a < b < sorted@.len() implies sorted@[a].total_duration
                    >= sorted@[b].total_duration by {
                    if b < p {
                    } else if b == p {
                    } else if a < p {
                        assert(sorted@[b] == before[b - 1]);
                        if p < before.len() {
                            assert(before[p as int].total_duration < t.total_duration);
                            assert(before[p as int].total_duration >= before[b - 1].total_duration || b - 1 == p);
                        }
                    } else if a == p {
                        assert(sorted@[b] == before[b - 1]);
                        assert(before[p as int].total_duration < t.total_duration);
                        assert(p == b - 1 || before[p as int].total_duration >= before[b - 1].total_duration);
                    } else {
                        assert(sorted@[a] == before[a - 1]);
                        assert(sorted@[b] == before[b - 1]);
                    }
                }
                assert forall|k: int| 0 <= k < sorted@.len() implies self.timings@.take(i + 1).contains(
                    #[trigger] sorted@[k],
                ) by {
                    if k < p {
                        assert(sorted@[k] == before[k]);
                        let w = choose|w: int| 0 <= w < i && self.timings@.take(i as int)[w] == before[k];
                        assert(self.timings@.take(i + 1)[w] == sorted@[k]);
                    } else if k == p {
                        assert(self.timings@.take(i + 1)[i as int] == sorted@[k]);
                    } else {
                        assert(sorted@[k] == before[k - 1]);
                        let w = choose|w: int| 0 <= w < i && self.timings@.take(i as int)[w] == before[k - 1];
                        assert(self.timings@.take(i + 1)[w] == sorted@[k]);
                    }
                }
                assert forall|k: int| 0 <= k < i + 1 implies sorted@.contains(#[trigger] self.timings@[k]) by {
                    if k == i {
                        assert(sorted@[p as int] == self.timings@[k]);
                    } else {
                        let w = choose|w: int| 0 <= w < before.len() && before[w] == self.timings@[k];
                        if w < p {
                            assert(sorted@[w] == self.timings@[k]);
                        } else {
                            assert(sorted@[w + 1] == self.timings@[k]);
                        }
                    }
                }
            }
            i = i + 1;
        }
        proof {
            assert(self.timings@.take(n as int) == self.timings@);
        }
        ProfileReport { total_frames: self.total_frames, total_time: total, systems: sorted }
    }

    /// Forgets every figure.
    pub fn reset(&mut self)
        ensures
            final(self).wf(),
            final(self).timings@.len() == 0,
            final(self).total_frames == 0,
    {
        self.timings = Vec::new();
        self.total_frames = 0;
    }
}

} // verus!
