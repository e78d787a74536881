//! The Lua task scheduler, the table of connected event handlers, and the
//! module cache of `require`. Times are nanoseconds on the engine's
//! monotonic clock; `K` is a key of the Lua registry.
use std::collections::VecDeque;
use vstd::prelude::*;

verus! {

/// A suspended Lua thread and when it may run again (`None`: next tick).
pub struct LuaTask<K> {
    pub thread_key: K,
    pub wake_time: Option<u64>,
}

/// Suspended threads, and threads deferred to the next tick.
pub struct LuaScheduler<K> {
    pub tasks: Vec<LuaTask<K>>,
    pub deferred: VecDeque<K>,
}

/// The task may run at `now`.
pub open spec fn is_due<K>(task: LuaTask<K>, now: u64) -> bool {
    match task.wake_time {
        None => true,
        Some(wake) => now >= wake,
    }
}

/// The keys of the due tasks, in order.
pub open spec fn due_keys<K>(tasks: Seq<LuaTask<K>>, now: u64) -> Seq<K>
    decreases tasks.len(),
{
    if tasks.len() == 0 {
        Seq::empty()
    } else if is_due(tasks.last(), now) {
        due_keys(tasks.drop_last(), now).push(tasks.last().thread_key)
    } else {
        due_keys(tasks.drop_last(), now)
    }
}

/// The tasks that are not due, in order.
pub open spec fn waiting_tasks<K>(tasks: Seq<LuaTask<K>>, now: u64) -> Seq<LuaTask<K>>
    decreases tasks.len(),
{
    if tasks.len() == 0 {
        Seq::empty()
    } else if is_due(tasks.last(), now) {
        waiting_tasks(tasks.drop_last(), now)
    } else {
        waiting_tasks(tasks.drop_last(), now).push(tasks.last())
    }
}

/// A tick loses no task: each task is either run now or kept, none of the
/// kept ones is due, and every kept task keeps its wake time.
pub proof fn lemma_tick_partitions_tasks<K>(tasks: Seq<LuaTask<K>>, now: u64)
    ensures
        due_keys(tasks, now).len() + waiting_tasks(tasks, now).len() == tasks.len(),
        forall|k: int|
            0 <= k < waiting_tasks(tasks, now).len() ==> !is_due(
                #[trigger] waiting_tasks(tasks, now)[k],
                now,
            ) && tasks.contains(waiting_tasks(tasks, now)[k]),
    decreases tasks.len(),
{
    if tasks.len() > 0 {
        lemma_tick_partitions_tasks(tasks.drop_last(), now);
        let w = waiting_tasks(tasks.drop_last(), now);
        assert forall|k: int| 0 <= k < w.len() implies tasks.contains(#[trigger] w[k]) by {
            assert(tasks.drop_last().contains(w[k]));
            let j = choose|j: int| 0 <= j < tasks.drop_last().len() && tasks.drop_last()[j] == w[k];
            assert(tasks[j] == w[k]);
        }
        assert(tasks[tasks.len() - 1] == tasks.last());
    }
}

impl<K> LuaScheduler<K> {
    /// No tasks.
    pub fn new() -> (r: Self)
        ensures
            r.tasks@.len() == 0,
            r.deferred@.len() == 0,
    {
        LuaScheduler { tasks: Vec::new(), deferred: VecDeque::new() }
    }

    /// `task.defer`: the thread runs on the next tick, after the due tasks.
    pub fn defer(&mut self, thread_key: K)
        ensures
            final(self).tasks@ == old(self).tasks@,
            final(self).deferred@ == old(self).deferred@.push(thread_key),
    {
        self.deferred.push_back(thread_key);
    }

    /// `task.delay` and yields: the thread waits until `wake_time`.
    pub fn schedule(&mut self, thread_key: K, wake_time: Option<u64>)
        ensures
            final(self).tasks@ == old(self).tasks@.push(LuaTask { thread_key, wake_time }),
            final(self).deferred@ == old(self).deferred@,
    {
        self.tasks.push(LuaTask { thread_key, wake_time });
    }

    /// The first half of a tick: takes out the tasks that are due at `now`,
    /// in order, followed by every deferred thread; the tasks that are not
    /// due stay, in order.
    pub fn take_due(&mut self, now: u64) -> (r: Vec<K>)
        ensures
            r@ == due_keys(old(self).tasks@, now) + old(self).deferred@,
            final(self).tasks@ == waiting_tasks(old(self).tasks@, now),
            final(self).deferred@.len() == 0,
    {
        let mut old_tasks: Vec<LuaTask<K>> = Vec::new();
        std::mem::swap(&mut old_tasks, &mut self.tasks);
        let ghost all = old_tasks@;
        assert(all == old(self).tasks@);
        let mut reversed: Vec<LuaTask<K>> = Vec::new();
        while old_tasks.len() > 0
            invariant
                old_tasks@.len() + reversed@.len() == all.len(),
                old_tasks@ == all.take(old_tasks@.len() as int),
                forall|k: int|
                    0 <= k < reversed@.len() ==> #[trigger] reversed@[k] == all[all.len() - 1 - k],
            decreases old_tasks.len(),
        {
            let t = old_tasks.pop().unwrap();
            reversed.push(t);
            assert(old_tasks@ == all.take(old_tasks@.len() as int));
        }
        let mut to_run: Vec<K> = Vec::new();
        let mut kept: Vec<LuaTask<K>> = Vec::new();
        while reversed.len() > 0
            invariant
                reversed@.len() <= all.len(),
                forall|k: int|
                    0 <= k < reversed@.len() ==> #[trigger] reversed@[k] == all[all.len() - 1 - k],
                to_run@ == due_keys(all.take(all.len() - reversed@.len()), now),
                kept@ == waiting_tasks(all.take(all.len() - reversed@.len()), now),
            decreases reversed.len(),
        {
            let ghost n: int = all.len() - reversed@.len();
            let t = reversed.pop().unwrap();
            assert(t == all[n]);
            assert(all.take(n + 1).drop_last() == all.take(n));
            let due = match t.wake_time {
                None => true,
                Some(wake) => now >= wake,
            };
            if due {
                to_run.push(t.thread_key);
            } else {
                kept.push(t);
            }
        }
        assert(all.take(all.len() as int) == all);
        self.tasks = kept;
        let ghost run_due = to_run@;
        let ghost queued = self.deferred@;
        while self.deferred.len() > 0
            invariant
                run_due + queued == to_run@ + self.deferred@,
                self.tasks@ == waiting_tasks(all, now),
            decreases self.deferred.len(),
        {
            let ghost before = self.deferred@;
            let k = self.deferred.pop_front().unwrap();
            to_run.push(k);
            assert(before == seq![k] + self.deferred@);
            assert(to_run@ + self.deferred@ == run_due + queued) by {
                assert(to_run@ + self.deferred@ =~= (to_run@.drop_last() + seq![k])
                    + self.deferred@);
            }
        }
        assert(to_run@ == to_run@ + self.deferred@);
        to_run
    }

    /// The second half of a tick: the threads that yielded again wait once more.
    pub fn requeue(&mut self, resumed: Vec<LuaTask<K>>)
        ensures
            final(self).tasks@ == old(self).tasks@ + resumed@,
            final(self).deferred@ == old(self).deferred@,
    {
        let mut resumed = resumed;
        let ghost start = self.tasks@;
        let ghost all = resumed@;
        let mut reversed: Vec<LuaTask<K>> = Vec::new();
        while resumed.len() > 0
            invariant
                resumed@.len() + reversed@.len() == all.len(),
                resumed@ == all.take(resumed@.len() as int),
                forall|k: int|
                    0 <= k < reversed@.len() ==> #[trigger] reversed@[k] == all[all.len() - 1 - k],
                self.tasks@ == start,
                self.deferred@ == old(self).deferred@,
            decreases resumed.len(),
        {
            let t = resumed.pop().unwrap();
            reversed.push(t);
            assert(resumed@ == all.take(resumed@.len() as int));
        }
        while reversed.len() > 0
            invariant
                reversed@.len() <= all.len(),
                forall|k: int|
                    0 <= k < reversed@.len() ==> #[trigger] reversed@[k] == all[all.len() - 1 - k],
                self.tasks@ == start + all.take(all.len() - reversed@.len()),
                self.deferred@ == old(self).deferred@,
            decreases reversed.len(),
        {
            let ghost n: int = all.len() - reversed@.len();
            let t = reversed.pop().unwrap();
            assert(t == all[n]);
            self.tasks.push(t);
            assert(all.take(n + 1) == all.take(n).push(all[n]));
        }
        assert(all.take(all.len() as int) == all);
    }
}

/// When a thread that waits `delay` nanoseconds from `now` wakes; `None`
/// when the instant cannot be represented.
pub fn checked_wake_time(now: u64, delay: u64) -> (r: Option<u64>)
    ensures
        now + delay <= u64::MAX ==> r == Some((now + delay) as u64),
        now + delay > u64::MAX ==> r is None,
{
    now.checked_add(delay)
}

/// How a resumed Lua thread came back.
#[derive(Clone, Copy, Debug, PartialEq, Eq, Structural)]
pub enum ResumeOutcome {
    /// The thread yielded; whether it can be resumed again, and the delay it
    /// asked for in nanoseconds (`None`: no valid delay).
    Yielded { resumable: bool, delay: Option<u64> },
    /// The thread raised an error.
    Failed,
    /// The registry no longer holds the thread.
    Missing,
}

/// What to do with a thread after it was resumed.
#[derive(Clone, Copy, Debug, PartialEq, Eq, Structural)]
pub enum ResumeAction {
    /// Keep the thread and resume it again at `wake_time` (`None`: next tick).
    Requeue { wake_time: Option<u64> },
    /// Drop the thread from the registry.
    Release,
}

/// A thread that yielded and can be resumed waits for the delay it asked
/// for (or runs on the next tick when the delay is missing or too far
/// away); a finished, failed or missing thread is released.
pub fn after_resume(outcome: ResumeOutcome, now: u64) -> (r: ResumeAction)
    ensures
        r == match outcome {
            ResumeOutcome::Yielded { resumable: true, delay } => ResumeAction::Requeue {
                wake_time: match delay {
                    Some(d) => if now + d <= u64::MAX {
                        Some((now + d) as u64)
                    } else {
                        None
                    },
                    None => None,
                },
            },
            _ => ResumeAction::Release,
        },
{
    match outcome {
        ResumeOutcome::Yielded { resumable, delay } => {
            if resumable {
                let wake_time = match delay {
                    Some(d) => checked_wake_time(now, d),
                    None => None,
                };
                ResumeAction::Requeue { wake_time }
            } else {
                ResumeAction::Release
            }
        },
        _ => ResumeAction::Release,
    }
}

} // verus!
