//! The intake buffer: the hand-off sequence between the submission path
//! and the control loop. Callers append with `enqueue`; the control loop
//! empties it in FIFO order and forwards everything to the engine. The
//! buffer holds no long-term state of its own — it is purely a channel,
//! and any mutual exclusion around it is the caller's affair, kept to
//! the brief move in `take_all` so submitters are never blocked by
//! engine processing.

use vstd::prelude::*;

use crate::controller::{job_valid, MotorController, MotorError, SlotView};
use crate::job::MotorJob;
use crate::motor::MotorContainer;

verus! {

/// The jobs a run of submissions accepts for motor `i`, in arrival
/// order: those that target `i` and are valid for an engine of
/// `motor_count` motors.
pub open spec fn jobs_for(jobs: Seq<MotorJob>, i: int, motor_count: int) -> Seq<MotorJob>
    decreases jobs.len(),
{
    if jobs.len() == 0 {
        Seq::<MotorJob>::empty()
    } else {
        let init = jobs_for(jobs.drop_last(), i, motor_count);
        if jobs.last().motor_index == i && job_valid(jobs.last(), motor_count) {
            init.push(jobs.last())
        } else {
            init
        }
    }
}

/// A shared hand-off sequence of pending jobs, FIFO in insertion order.
pub struct IntakeBuffer {
    jobs: Vec<MotorJob>,
}

impl View for IntakeBuffer {
    type V = Seq<MotorJob>;

    closed spec fn view(&self) -> Seq<MotorJob> {
        self.jobs@
    }
}

impl IntakeBuffer {
    pub fn new() -> (b: IntakeBuffer)
        ensures
            b@ == Seq::<MotorJob>::empty(),
    {
        IntakeBuffer { jobs: Vec::new() }
    }

    /// Append a job; called from the submission path.
    pub fn enqueue(&mut self, job: MotorJob)
        ensures
            final(self)@ == old(self)@.push(job),
    {
        self.jobs.push(job);
    }

    /// Whether anything is waiting to be drained.
    pub fn is_empty(&self) -> (r: bool)
        ensures
            r == (self@.len() == 0),
    {
        self.jobs.len() == 0
    }

    /// Move every queued job out, in FIFO order, leaving the buffer
    /// empty. This is the whole critical section: callers that share
    /// the buffer hold their lock only for this move.
    pub fn take_all(&mut self) -> (jobs: Vec<MotorJob>)
        ensures
            final(self)@ == Seq::<MotorJob>::empty(),
            jobs@ == old(self)@,
    {
        let mut out: Vec<MotorJob> = Vec::new();
        core::mem::swap(&mut out, &mut self.jobs);
        out
    }

    /// Empty the buffer and submit everything to the engine, in FIFO
    /// order: each motor's queue grows by exactly its own valid jobs,
    /// in arrival order, and no active job and no port is touched.
    /// Malformed jobs are rejected by the engine, never silently
    /// dropped: the first rejection is reported, and `Ok` comes back
    /// exactly when every job was accepted.
    pub fn drain_into<C: MotorContainer>(&mut self, engine: &mut MotorController<C>) -> (r: Result<
        (),
        MotorError,
    >)
        requires
            old(engine).wf(),
        ensures
            final(self)@ == Seq::<MotorJob>::empty(),
            final(engine).wf(),
            final(engine).num_motors() == old(engine).num_motors(),
            forall|i: int|
                0 <= i < old(engine).num_motors() ==> #[trigger] final(engine).slot(i)
                    == (SlotView {
                    queue: old(engine).slot(i).queue + jobs_for(
                        old(self)@,
                        i,
                        old(engine).num_motors(),
                    ),
                    active: old(engine).slot(i).active,
                }),
            forall|i: int|
                0 <= i < old(engine).num_motors() ==> #[trigger] final(engine).issued(i) == old(
                    engine,
                ).issued(i),
            r is Ok <==> (forall|j: int|
                0 <= j < old(self)@.len() ==> job_valid(
                    #[trigger] old(self)@[j],
                    old(engine).num_motors(),
                )),
            r is Err ==> r == Err::<(), MotorError>(MotorError::InvalidJob),
    {
        let ghost all = self@;
        let ghost pre = *engine;
        let ghost n = old(engine).num_motors();
        let jobs = self.take_all();
        let mut result: Result<(), MotorError> = Ok(());
        let mut k: usize = 0;
        while k < jobs.len()
            invariant
                k <= jobs.len(),
                jobs@ == all,
                engine.wf(),
                engine.num_motors() == n,
                pre.wf(),
                n == pre.num_motors(),
                forall|i: int|
                    0 <= i < n ==> #[trigger] engine.slot(i) == (SlotView {
                        queue: pre.slot(i).queue + jobs_for(all.take(k as int), i, n),
                        active: pre.slot(i).active,
                    }),
                forall|i: int| 0 <= i < n ==> #[trigger] engine.issued(i) == pre.issued(i),
                result is Ok <==> (forall|j: int|
                    0 <= j < k ==> job_valid(#[trigger] all[j], n)),
                result is Err ==> result == Err::<(), MotorError>(MotorError::InvalidJob),
            decreases jobs.len() - k,
        {
            let ghost engine0 = *engine;
            let job = jobs[k];
            let outcome = engine.add_job(job);
            proof {
                assert(all.take(k as int + 1).drop_last() =~= all.take(k as int));
                assert(all.take(k as int + 1).last() == all[k as int]);
                assert forall|i: int| 0 <= i < n implies #[trigger] engine.slot(i) == (SlotView {
                    queue: pre.slot(i).queue + jobs_for(all.take(k as int + 1), i, n),
                    active: pre.slot(i).active,
                }) by {
                    if job_valid(job, n) && i == job.motor_index {
                        assert(engine.slot(i).queue =~= pre.slot(i).queue + jobs_for(
                            all.take(k as int + 1),
                            i,
                            n,
                        ));
                        assert(engine.slot(i) =~= SlotView {
                            queue: pre.slot(i).queue + jobs_for(all.take(k as int + 1), i, n),
                            active: pre.slot(i).active,
                        });
                    } else {
                        assert(engine.slot(i) == engine0.slot(i));
                        assert(jobs_for(all.take(k as int + 1), i, n) == jobs_for(
                            all.take(k as int),
                            i,
                            n,
                        ));
                    }
                }
            }
            if outcome.is_err() {
                if result.is_ok() {
                    result = Err(MotorError::InvalidJob);
                }
            }
            k += 1;
        }
        proof {
            assert(all.take(jobs@.len() as int) =~= all);
        }
        result
    }
}

} // verus!
