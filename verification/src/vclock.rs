//! A virtual clock and a timer that schedules tasks against it. The timer
//! keeps its tasks ordered by due time; a tick fires, in that order, every
//! task that has come due and unschedules it. Running what a task does is
//! left to the caller, which learns the fired tasks by their sequence
//! numbers.

use vstd::prelude::*;
use vstd::seq_lib::{to_multiset_build, to_multiset_insert};

verus! {

/// A clock that only moves when told to.
pub struct VirtualClockRef {
    time: u64,
}

impl VirtualClockRef {
    /// The current time.
    pub closed spec fn time(&self) -> u64 {
        self.time
    }

    /// A clock at time 0.
    pub fn new() -> (r: Self)
        ensures
            r.time() == 0,
    {
        VirtualClockRef { time: 0 }
    }

    /// Sets the time.
    pub fn set(&mut self, time: u64)
        ensures
            final(self).time() == time,
    {
        self.time = time;
    }

    /// Moves the clock forward by `delta`, wrapping around at 2^64.
    pub fn advance(&mut self, delta: u64)
        ensures
            final(self).time() == (old(self).time() + delta) % 0x1_0000_0000_0000_0000,
    {
        self.time = self.time.wrapping_add(delta);
    }

    /// The current time.
    pub fn now(&self) -> (r: u64)
        ensures
            r == self.time(),
    {
        self.time
    }
}

/// Advancing by `a` and then by `b` moves the clock as advancing once by
/// `a + b`, wrapped to 64 bits.
pub proof fn law_advance_composes(t: u64, a: u64, b: u64)
    ensures
        ((t + a) % 0x1_0000_0000_0000_0000 + b) % 0x1_0000_0000_0000_0000 == (t + (a + b)
            % 0x1_0000_0000_0000_0000) % 0x1_0000_0000_0000_0000,
{
    let m: int = 0x1_0000_0000_0000_0000;
    vstd::arithmetic::div_mod::lemma_add_mod_noop(t as int, a as int, m);
    vstd::arithmetic::div_mod::lemma_add_mod_noop((t + a) as int, b as int, m);
    vstd::arithmetic::div_mod::lemma_add_mod_noop(t as int, (a + b) as int, m);
    vstd::arithmetic::div_mod::lemma_add_mod_noop(a as int, b as int, m);
    vstd::arithmetic::div_mod::lemma_mod_twice((t + a) as int, m);
    vstd::arithmetic::div_mod::lemma_small_mod(t as nat, m as nat);
    vstd::arithmetic::div_mod::lemma_small_mod(a as nat, m as nat);
    vstd::arithmetic::div_mod::lemma_small_mod(b as nat, m as nat);
}

/// The first task of a sorted list is due no later than any task of it, so
/// `Timer::next_due` gives the earliest due time of all tasks, unscheduled
/// ones counting as due at `u64::MAX`.
pub proof fn law_next_due_is_earliest(tasks: Seq<ScheduledTask>)
    requires
        sorted_by_due(tasks),
    ensures
        forall|i: int| 0 <= i < tasks.len() ==> tasks[0].due <= #[trigger] tasks[i].due,
{
}

/// A registered task: when it is due, and its sequence number. A task that
/// is not scheduled is due at `u64::MAX`.
#[derive(Clone, Copy, Debug, PartialEq, Eq, Structural)]
pub struct ScheduledTask {
    pub due: u64,
    pub seq: u64,
}

/// The tasks are ordered by due time.
pub open spec fn sorted_by_due(s: Seq<ScheduledTask>) -> bool {
    forall|i: int, j: int| 0 <= i <= j < s.len() ==> s[i].due <= s[j].due
}

/// No two tasks share a sequence number, and every number is below `next`.
pub open spec fn seqs_ok(s: Seq<ScheduledTask>, next: u64) -> bool {
    &&& forall|i: int| 0 <= i < s.len() ==> s[i].seq < next
    &&& forall|i: int, j: int| 0 <= i < s.len() && 0 <= j < s.len() && i != j ==> s[i].seq != s[j].seq
}

/// The tasks with the task of sequence number `seq`, if any, due at `due`.
pub open spec fn with_due(s: Seq<ScheduledTask>, seq: u64, due: u64) -> Seq<ScheduledTask> {
    s.map_values(|t: ScheduledTask| if t.seq == seq { ScheduledTask { due, seq } } else { t })
}

/// The tasks with the first `k` unscheduled.
pub open spec fn unschedule_prefix(s: Seq<ScheduledTask>, k: int) -> Seq<ScheduledTask> {
    Seq::new(s.len(), |i: int| if i < k { ScheduledTask { due: u64::MAX, seq: s[i].seq } } else { s[i] })
}

/// The tasks sorted by due time, in a stable order.
fn sort_by_due(tasks: &Vec<ScheduledTask>) -> (r: Vec<ScheduledTask>)
    ensures
        sorted_by_due(r@),
        r@.to_multiset() == tasks@.to_multiset(),
{
    let mut out: Vec<ScheduledTask> = Vec::new();
    let mut i: usize = 0;
    proof {
        assert(tasks@.subrange(0, 0).to_multiset() =~= out@.to_multiset()) by {
            assert(tasks@.subrange(0, 0) =~= out@);
        }
    }
    while i < tasks.len()
        invariant
            i <= tasks@.len(),
            sorted_by_due(out@),
            out@.to_multiset() == tasks@.subrange(0, i as int).to_multiset(),
        decreases tasks@.len() - i,
    {
        let x = tasks[i];
        let mut pos: usize = 0;
        while pos < out.len() && out[pos].due <= x.due
            invariant
                pos <= out@.len(),
                forall|k: int| 0 <= k < pos ==> out@[k].due <= x.due,
            decreases out@.len() - pos,
        {
            pos = pos + 1;
        }
        let ghost before = out@;
        out.insert(pos, x);
        proof {
            to_multiset_insert(before, pos as int, x);
            assert(tasks@.subrange(0, i as int + 1) =~= tasks@.subrange(0, i as int).push(x));
            to_multiset_build(tasks@.subrange(0, i as int), x);
            assert forall|a: int, b: int| 0 <= a <= b < out@.len() implies out@[a].due <= out@[b].due by {
                if pos < before.len() {
                    assert(before[pos as int].due > x.due);
                }
            }
        }
        i = i + 1;
    }
    proof {
        assert(tasks@.subrange(0, tasks@.len() as int) =~= tasks@);
    }
    out
}

/// Tasks scheduled against a virtual clock.
pub struct Timer {
    seq: u64,
    tasks: Vec<ScheduledTask>,
    vclock: VirtualClockRef,
}

impl Timer {
    /// The tasks, in their current order.
    pub closed spec fn tasks(&self) -> Seq<ScheduledTask> {
        self.tasks@
    }

    /// The sequence number that the next registered task gets.
    pub closed spec fn next_seq(&self) -> u64 {
        self.seq
    }

    /// The time of the timer's clock.
    pub closed spec fn time(&self) -> u64 {
        self.vclock.time()
    }

    /// The tasks are ordered by due time and have distinct sequence numbers.
    pub open spec fn wf(&self) -> bool {
        &&& sorted_by_due(self.tasks())
        &&& seqs_ok(self.tasks(), self.next_seq())
    }

    /// A timer with no tasks on the clock `vclock`.
    pub fn new(vclock: VirtualClockRef) -> (r: Self)
        ensures
            r.wf(),
            r.tasks() == Seq::<ScheduledTask>::empty(),
            r.next_seq() == 0,
            r.time() == vclock.time(),
    {
        Timer { seq: 0, tasks: Vec::new(), vclock }
    }

    /// The time of the timer's clock.
    pub fn now(&self) -> (r: u64)
        ensures
            r == self.time(),
    {
        self.vclock.now()
    }

    /// Sets the time of the timer's clock.
    pub fn set_time(&mut self, time: u64)
        ensures
            final(self).time() == time,
            final(self).tasks() == old(self).tasks(),
            final(self).next_seq() == old(self).next_seq(),
    {
        self.vclock.set(time);
    }

    /// Moves the timer's clock forward by `delta`.
    pub fn advance(&mut self, delta: u64)
        ensures
            final(self).time() == (old(self).time() + delta) % 0x1_0000_0000_0000_0000,
            final(self).tasks() == old(self).tasks(),
            final(self).next_seq() == old(self).next_seq(),
    {
        self.vclock.advance(delta);
    }

    /// Registers a task that is not yet scheduled and returns its sequence
    /// number.
    pub fn register(&mut self) -> (r: u64)
        requires
            old(self).next_seq() < u64::MAX,
            seqs_ok(old(self).tasks(), old(self).next_seq()),
        ensures
            r == old(self).next_seq(),
            final(self).next_seq() == old(self).next_seq() + 1,
            final(self).tasks() == old(self).tasks().push(ScheduledTask { due: u64::MAX, seq: r }),
            final(self).time() == old(self).time(),
            seqs_ok(final(self).tasks(), final(self).next_seq()),
            sorted_by_due(old(self).tasks()) ==> sorted_by_due(final(self).tasks()),
    {
        let st = ScheduledTask { due: u64::MAX, seq: self.seq };
        self.seq = self.seq + 1;
        self.tasks.push(st);
        self.seq - 1
    }

    /// Orders the tasks by due time.
    pub fn build(&mut self)
        ensures
            sorted_by_due(final(self).tasks()),
            final(self).tasks().to_multiset() == old(self).tasks().to_multiset(),
            final(self).next_seq() == old(self).next_seq(),
            final(self).time() == old(self).time(),
    {
        self.tasks = sort_by_due(&self.tasks);
    }

    /// Makes the task `seq` due at `new_due`, and reorders the tasks.
    pub fn set_due(&mut self, seq: u64, new_due: u64)
        requires
            old(self).wf(),
        ensures
            sorted_by_due(final(self).tasks()),
            final(self).tasks().to_multiset() == with_due(old(self).tasks(), seq, new_due).to_multiset(),
            final(self).next_seq() == old(self).next_seq(),
            final(self).time() == old(self).time(),
    {
        let mut g = TimerGuard { timer: Timer { seq: self.seq, tasks: Vec::new(), vclock: VirtualClockRef { time: self.vclock.time } } };
        g.timer.tasks = self.tasks.clone();
        proof {
            assert(g.timer.tasks@ =~= self.tasks@);
        }
        g.set_due(seq, new_due);
        let t = g.finish();
        *self = t;
    }

    /// Makes the task `seq` due `delay` after the current time, or at
    /// `u64::MAX` when that overflows.
    pub fn set_delay(&mut self, seq: u64, delay: u64)
        requires
            old(self).wf(),
        ensures
            sorted_by_due(final(self).tasks()),
            final(self).tasks().to_multiset() == with_due(
                old(self).tasks(),
                seq,
                if old(self).time() + delay > u64::MAX {
                    u64::MAX
                } else {
                    (old(self).time() + delay) as u64
                },
            ).to_multiset(),
            final(self).next_seq() == old(self).next_seq(),
            final(self).time() == old(self).time(),
    {
        let now = self.vclock.now();
        self.set_due(seq, now.saturating_add(delay));
    }

    /// Starts a batch of changes; the tasks are reordered once, when the
    /// batch is finished.
    pub fn guard(self) -> (r: TimerGuard)
        ensures
            r.timer == self,
    {
        TimerGuard { timer: self }
    }

    /// Fires, in order, every task due at or before the current time,
    /// unschedules them, and returns their sequence numbers.
    pub fn tick(&mut self) -> (fired: Vec<u64>)
        requires
            old(self).wf(),
        ensures
            sorted_by_due(final(self).tasks()),
            fired@.len() <= old(self).tasks().len(),
            forall|i: int| 0 <= i < fired@.len() ==> #[trigger] old(self).tasks()[i].due <= old(self).time(),
            forall|i: int| 0 <= i < fired@.len() ==> #[trigger] fired@[i] == old(self).tasks()[i].seq,
            fired@.len() < old(self).tasks().len() ==> old(self).tasks()[fired@.len() as int].due > old(
                self,
            ).time(),
            final(self).tasks().to_multiset() == unschedule_prefix(old(self).tasks(), fired@.len() as int).to_multiset(),
            final(self).next_seq() == old(self).next_seq(),
            final(self).time() == old(self).time(),
    {
        let now = self.vclock.now();
        let mut fired: Vec<u64> = Vec::new();
        let mut i: usize = 0;
        let ghost start = self.tasks@;
        while i < self.tasks.len() && self.tasks[i].due <= now
            invariant
                i <= self.tasks@.len(),
                self.tasks@.len() == start.len(),
                now == old(self).time(),
                start == old(self).tasks(),
                fired@.len() == i,
                forall|k: int| 0 <= k < i ==> #[trigger] start[k].due <= now,
                forall|k: int| 0 <= k < i ==> #[trigger] fired@[k] == start[k].seq,
                self.tasks@ == unschedule_prefix(start, i as int),
                self.seq == old(self).next_seq(),
                self.vclock.time() == old(self).time(),
            decreases start.len() - i,
        {
            let t = self.tasks[i];
            proof {
                assert(t == start[i as int]);
                assert(start[i as int].due <= now);
            }
            fired.push(t.seq);
            self.tasks.set(i, ScheduledTask { due: u64::MAX, seq: t.seq });
            i = i + 1;
            proof {
                assert(self.tasks@ =~= unschedule_prefix(start, i as int));
            }
        }
        self.build();
        fired
    }

    /// The due time of the first task, which is the earliest, if there is
    /// a task.
    pub fn next_due(&self) -> (r: Option<u64>)
        ensures
            r == if self.tasks().len() == 0 {
                None::<u64>
            } else {
                Some(self.tasks()[0].due)
            },
    {
        if self.tasks.len() == 0 {
            None
        } else {
            Some(self.tasks[0].due)
        }
    }
}

/// A batch of changes to a timer; the tasks are reordered when the batch is
/// finished.
pub struct TimerGuard {
    pub timer: Timer,
}

impl TimerGuard {
    /// Registers a task; see `Timer::register`.
    pub fn register(&mut self) -> (r: u64)
        requires
            old(self).timer.next_seq() < u64::MAX,
            seqs_ok(old(self).timer.tasks(), old(self).timer.next_seq()),
        ensures
            r == old(self).timer.next_seq(),
            final(self).timer.next_seq() == old(self).timer.next_seq() + 1,
            final(self).timer.tasks() == old(self).timer.tasks().push(ScheduledTask { due: u64::MAX, seq: r }),
            final(self).timer.time() == old(self).timer.time(),
            seqs_ok(final(self).timer.tasks(), final(self).timer.next_seq()),
    {
        self.timer.register()
    }

    /// Makes the task `seq` due at `new_due`, without reordering.
    pub fn set_due(&mut self, seq: u64, new_due: u64)
        requires
            seqs_ok(old(self).timer.tasks(), old(self).timer.next_seq()),
        ensures
            final(self).timer.tasks() == with_due(old(self).timer.tasks(), seq, new_due),
            final(self).timer.next_seq() == old(self).timer.next_seq(),
            final(self).timer.time() == old(self).timer.time(),
            seqs_ok(final(self).timer.tasks(), final(self).timer.next_seq()),
    {
        let ghost start = self.timer.tasks@;
        let mut i: usize = 0;
        while i < self.timer.tasks.len()
            invariant
                i <= self.timer.tasks@.len(),
                self.timer.tasks@.len() == start.len(),
                seqs_ok(start, self.timer.seq),
                self.timer.seq == old(self).timer.next_seq(),
                self.timer.vclock.time() == old(self).timer.time(),
                start == old(self).timer.tasks(),
                forall|k: int| 0 <= k < i ==> start[k].seq != seq,
                self.timer.tasks@ == start,
            decreases start.len() - i,
        {
            if self.timer.tasks[i].seq == seq {
                self.timer.tasks.set(i, ScheduledTask { due: new_due, seq });
                proof {
                    assert(self.timer.tasks@ =~= with_due(start, seq, new_due));
                }
                return;
            }
            i = i + 1;
        }
        proof {
            assert(self.timer.tasks@ =~= with_due(start, seq, new_due));
        }
    }

    /// Makes the task `seq` due `delay` after the current time, or at
    /// `u64::MAX` when that overflows, without reordering.
    pub fn set_delay(&mut self, seq: u64, delay: u64)
        requires
            seqs_ok(old(self).timer.tasks(), old(self).timer.next_seq()),
        ensures
            final(self).timer.tasks() == with_due(
                old(self).timer.tasks(),
                seq,
                if old(self).timer.time() + delay > u64::MAX {
                    u64::MAX
                } else {
                    (old(self).timer.time() + delay) as u64
                },
            ),
            final(self).timer.next_seq() == old(self).timer.next_seq(),
            final(self).timer.time() == old(self).timer.time(),
            seqs_ok(final(self).timer.tasks(), final(self).timer.next_seq()),
    {
        let now = self.timer.vclock.now();
        self.set_due(seq, now.saturating_add(delay));
    }

    /// Ends the batch: reorders the tasks and gives the timer back.
    pub fn finish(self) -> (r: Timer)
        ensures
            sorted_by_due(r.tasks()),
            r.tasks().to_multiset() == self.timer.tasks().to_multiset(),
            r.next_seq() == self.timer.next_seq(),
            r.time() == self.timer.time(),
    {
        let mut t = self.timer;
        t.build();
        t
    }
}

} // verus!
