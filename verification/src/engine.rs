//! Engine bookkeeping: the frame counter and the scheduling of per-frame
//! tasks.
use vstd::prelude::*;

verus! {

/// An engine failure.
#[derive(Debug, Clone)]
pub enum EngineError {
    Generic(String),
}

/// State the engine keeps between frames.
pub struct EngineInternalState {
    current_frame: usize,
}

impl EngineInternalState {
    pub closed spec fn frame(&self) -> nat {
        self.current_frame as nat
    }

    /// The state before the first frame.
    pub fn new() -> (s: Self)
        ensures
            s.frame() == 0,
    {
        EngineInternalState { current_frame: 0 }
    }

    /// The number of the frame started last (0 before the first).
    pub fn current_frame(&self) -> (f: usize)
        ensures
            f == self.frame(),
    {
        self.current_frame
    }

    /// Starts a frame: advances the counter and returns the new frame number.
    pub fn next_frame(&mut self) -> (frame: usize)
        requires
            old(self).frame() < usize::MAX,
        ensures
            frame == old(self).frame() + 1,
            final(self).frame() == frame,
    {
        self.current_frame = self.current_frame + 1;
        self.current_frame
    }
}

/// The tasks that run in the next frame: the tasks that asked to keep
/// running (`keep[i]` is what task `i` returned), in order, then the tasks
/// queued during the frame.
pub open spec fn next_tasks_spec<T>(tasks: Seq<T>, keep: Seq<bool>, queued: Seq<T>) -> Seq<T>
    decreases tasks.len(),
{
    if tasks.len() == 0 {
        queued
    } else {
        let rest = next_tasks_spec(tasks.drop_first(), keep.drop_first(), queued);
        if keep[0] { seq![tasks[0]] + rest } else { rest }
    }
}

/// The task list for the next frame (see [`next_tasks_spec`]).
pub fn next_tasks<T>(tasks: Vec<T>, keep: &Vec<bool>, queued: Vec<T>) -> (r: Vec<T>)
    requires
        keep@.len() == tasks@.len(),
    ensures
        r@ == next_tasks_spec(tasks@, keep@, queued@),
{
    let ghost t0 = tasks@;
    let mut kept: Vec<T> = Vec::new();
    let mut rest = tasks;
    let mut i: usize = 0;
    let mut remaining: Vec<T> = Vec::new();
    // Reverse, so that popping yields the tasks in order.
    while rest.len() > 0
        invariant
            remaining@ + rest@.reverse() == t0.reverse(),
        decreases rest.len(),
    {
        let t = rest.pop().unwrap();
        let ghost r0 = rest@;
        remaining.push(t);
        assert(remaining@ + rest@.reverse() =~= t0.reverse()) by {
            assert((r0.push(t)).reverse() =~= seq![t] + r0.reverse());
        }
    }
    assert(remaining@ =~= t0.reverse());
    assert(t0.skip(0) =~= t0);
    assert(keep@.skip(0) =~= keep@);
    assert(kept@ + next_tasks_spec(t0, keep@, queued@) =~= next_tasks_spec(t0, keep@, queued@));
    while i < keep.len()
        invariant
            i <= keep@.len(),
            keep@.len() == t0.len(),
            remaining@ == t0.skip(i as int).reverse(),
            next_tasks_spec(t0, keep@, queued@) == kept@ + next_tasks_spec(t0.skip(i as int), keep@.skip(i as int), queued@),
        decreases keep.len() - i,
    {
        let ghost before = remaining@;
        let t = remaining.pop().unwrap();
        assert(t == t0[i as int]) by {
            assert(before.last() == t0.skip(i as int).reverse().last());
        }
        assert(remaining@ =~= t0.skip(i + 1).reverse()) by {
            assert(t0.skip(i as int).reverse().drop_last() =~= t0.skip(i + 1).reverse());
        }
        assert(t0.skip(i as int).drop_first() =~= t0.skip(i + 1));
        assert(keep@.skip(i as int).drop_first() =~= keep@.skip(i + 1));
        if keep[i] {
            kept.push(t);
        }
        i += 1;
    }
    assert(t0.skip(i as int) =~= Seq::<T>::empty());
    let mut queued = queued;
    kept.append(&mut queued);
    kept
}


//=========================================================================
// Laws
//=========================================================================

/// When every task asks to keep running, the next frame runs all of them,
/// in order, followed by the newly queued tasks.
pub proof fn law_all_tasks_kept<T>(tasks: Seq<T>, keep: Seq<bool>, queued: Seq<T>)
    requires
        keep.len() == tasks.len(),
        forall|i: int| 0 <= i < keep.len() ==> keep[i],
    ensures
        next_tasks_spec(tasks, keep, queued) == tasks + queued,
    decreases tasks.len(),
{
    if tasks.len() > 0 {
        law_all_tasks_kept(tasks.drop_first(), keep.drop_first(), queued);
        assert(seq![tasks[0]] + (tasks.drop_first() + queued) =~= tasks + queued);
    } else {
        assert(tasks + queued =~= queued);
    }
}

/// One-shot tasks (those that ask to stop) do not run again: when no task
/// asks to keep running, the next frame runs only the newly queued tasks.
pub proof fn law_finished_tasks_dropped<T>(tasks: Seq<T>, keep: Seq<bool>, queued: Seq<T>)
    requires
        keep.len() == tasks.len(),
        forall|i: int| 0 <= i < keep.len() ==> !keep[i],
    ensures
        next_tasks_spec(tasks, keep, queued) == queued,
    decreases tasks.len(),
{
    if tasks.len() > 0 {
        law_finished_tasks_dropped(tasks.drop_first(), keep.drop_first(), queued);
    }
}

/// The frame counter counts the frames started: starting a frame moves it
/// up by exactly one.
pub proof fn law_frames_count_up(before: &EngineInternalState, after: &EngineInternalState, frame: usize)
    requires
        frame == before.frame() + 1,
        after.frame() == frame,
    ensures
        after.frame() == before.frame() + 1,
        after.frame() > before.frame(),
{
}

} // verus!
