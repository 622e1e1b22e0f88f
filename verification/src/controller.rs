//! The scheduling engine: per-motor FIFO work queues, the active-job
//! timing state machine, and the tick-driven dispatch loop that advances
//! all motors together.

use vstd::prelude::*;

use std::collections::VecDeque;

use crate::job::{ActiveMotorJob, MotorDirection, MotorJob};
use crate::motor::{AnyMotor, DriveCommand, MotorContainer};

verus! {

/// How the engine reports failure: a malformed submission, or a hardware
/// fault during dispatch tagged with the motor it struck.
#[derive(Debug, Clone, Copy, PartialEq, Eq, Structural)]
pub enum MotorError {
    InvalidJob,
    ActuationFailure { motor_index: usize },
}

/// The timing state of one active job, as mathematical integers.
#[verifier::ext_equal]
pub ghost struct ActiveView {
    pub elapsed: int,
    pub total: int,
}

/// Everything the engine holds for one motor: its pending queue, in
/// submission order, and its active job, if any.
#[verifier::ext_equal]
pub ghost struct SlotView {
    pub queue: Seq<MotorJob>,
    pub active: Option<ActiveView>,
}

/// A job the engine accepts: its target exists and its power is in
/// [1, 100].
pub open spec fn job_valid(job: MotorJob, motor_count: int) -> bool {
    &&& job.motor_index < motor_count
    &&& 1 <= job.power <= 100
}

/// The drive command a job asks for.
pub open spec fn command_of(job: MotorJob) -> DriveCommand {
    DriveCommand { direction: job.direction, power: job.power }
}

/// The idle command: power 0 de-energizes the motor, so the direction
/// carries no meaning, but a concrete value must be supplied.
pub open spec fn idle_command() -> DriveCommand {
    DriveCommand { direction: MotorDirection::Forward, power: 0 }
}

/// What an idle motor does on a tick: if work is pending, the front job
/// is dispatched — its command is issued exactly once and it becomes the
/// active job with no time elapsed; an idle motor with an empty queue
/// stays silent.
pub open spec fn dispatch_step(s: SlotView) -> (SlotView, Seq<DriveCommand>) {
    if s.queue.len() == 0 {
        (s, Seq::<DriveCommand>::empty())
    } else {
        (
            SlotView {
                queue: s.queue.drop_first(),
                active: Some(ActiveView { elapsed: 0, total: s.queue[0].time_ms as int }),
            },
            seq![command_of(s.queue[0])],
        )
    }
}

/// One tick of one motor slot: the new slot and the commands issued, in
/// order. An active job accrues the delta; while time remains nothing is
/// issued. On the tick where its elapsed time first reaches its duration
/// the job is cleared, and in that same tick the motor either starts the
/// next queued job (no idle pulse in between) or, with an empty queue,
/// issues the single idle command.
pub open spec fn slot_step(s: SlotView, delta: int) -> (SlotView, Seq<DriveCommand>) {
    match s.active {
        Some(a) => {
            if a.elapsed + delta < a.total {
                (
                    SlotView {
                        queue: s.queue,
                        active: Some(ActiveView { elapsed: a.elapsed + delta, total: a.total }),
                    },
                    Seq::<DriveCommand>::empty(),
                )
            } else {
                let cleared = SlotView { queue: s.queue, active: None };
                if s.queue.len() == 0 {
                    (cleared, seq![idle_command()])
                } else {
                    dispatch_step(cleared)
                }
            }
        },
        None => dispatch_step(s),
    }
}

/// Well-formedness of one slot: every queued job targets this motor with
/// a power in [1, 100], and an active job's elapsed time never exceeds
/// its duration, which fits a `u16`.
pub open spec fn slot_wf(s: SlotView, motor_index: int) -> bool {
    &&& forall|j: int|
        0 <= j < s.queue.len() ==> (#[trigger] s.queue[j]).motor_index == motor_index
            && 1 <= s.queue[j].power <= 100
    &&& match s.active {
        Some(a) => 0 <= a.elapsed <= a.total <= u16::MAX,
        None => true,
    }
}

/// Dispatching preserves slot well-formedness: the remaining queue is a
/// suffix of a well-formed queue and the fresh active job starts at zero.
pub proof fn lemma_dispatch_preserves_wf(s: SlotView, motor_index: int)
    requires
        slot_wf(s, motor_index),
    ensures
        slot_wf(dispatch_step(s).0, motor_index),
{
    if s.queue.len() > 0 {
        let post = dispatch_step(s).0;
        assert forall|j: int|
            0 <= j < post.queue.len() implies ((#[trigger] post.queue[j]).motor_index == motor_index
            && 1 <= post.queue[j].power <= 100) by {
            assert(post.queue[j] == s.queue[j + 1]);
        }
    }
}

/// A tick of one slot preserves its well-formedness.
pub proof fn lemma_slot_step_preserves_wf(s: SlotView, motor_index: int, delta: int)
    requires
        slot_wf(s, motor_index),
        delta >= 0,
    ensures
        slot_wf(slot_step(s, delta).0, motor_index),
{
    match s.active {
        Some(a) => {
            if a.elapsed + delta >= a.total && s.queue.len() > 0 {
                lemma_dispatch_preserves_wf(SlotView { queue: s.queue, active: None }, motor_index);
            }
        },
        None => {
            lemma_dispatch_preserves_wf(s, motor_index);
        },
    }
}

/// Motor `i` went through one tick: its slot advanced by `slot_step` and
/// exactly that step's commands were appended to its port's history.
pub open spec fn motor_stepped<C: MotorContainer>(
    pre: MotorController<C>,
    post: MotorController<C>,
    i: int,
    delta: int,
) -> bool {
    &&& post.slot(i) == slot_step(pre.slot(i), delta).0
    &&& post.issued(i) == pre.issued(i) + slot_step(pre.slot(i), delta).1
}

/// Motor `i` was left exactly as it was: same queue, same active job,
/// nothing new issued.
pub open spec fn motor_unchanged<C: MotorContainer>(
    pre: MotorController<C>,
    post: MotorController<C>,
    i: int,
) -> bool {
    &&& post.slot(i) == pre.slot(i)
    &&& post.issued(i) == pre.issued(i)
}

/// Manages a series of motor drives via per-motor job queues, advanced
/// together on a shared tick.
pub struct MotorController<C: MotorContainer> {
    /// The registered driver of each motor, each wiring up one
    /// actuation port.
    motor_drivers: Vec<C>,
    /// Work queues for the motors, FIFO in submission order.
    work_queues: Vec<VecDeque<MotorJob>>,
    /// The job each motor is currently executing, if any.
    current_jobs: Vec<Option<ActiveMotorJob>>,
}

impl<C: MotorContainer> MotorController<C> {
    /// The number of motor slots, fixed at construction.
    pub closed spec fn num_motors(&self) -> int {
        self.motor_drivers@.len() as int
    }

    /// The queue and active job of motor `i`.
    pub closed spec fn slot(&self, i: int) -> SlotView {
        SlotView {
            queue: self.work_queues@[i]@,
            active: match self.current_jobs@[i] {
                Some(a) => Some(
                    ActiveView { elapsed: a.current_time_ms as int, total: a.job_time_ms as int },
                ),
                None => None,
            },
        }
    }

    /// The commands motor `i`'s actuation port has accepted so far.
    pub closed spec fn issued(&self, i: int) -> Seq<DriveCommand> {
        self.motor_drivers@[i].motor().issued()
    }

    pub closed spec fn wf(&self) -> bool {
        &&& self.work_queues@.len() == self.num_motors()
        &&& self.current_jobs@.len() == self.num_motors()
        &&& forall|i: int| 0 <= i < self.num_motors() ==> slot_wf(#[trigger] self.slot(i), i)
    }

    /// Build an engine over the given actuation ports, one motor slot
    /// per port, every queue empty and every motor idle.
    pub fn new(motor_drivers: Vec<C>) -> (c: MotorController<C>)
        ensures
            c.wf(),
            c.num_motors() == motor_drivers@.len(),
            forall|i: int|
                0 <= i < motor_drivers@.len() ==> #[trigger] c.slot(i) == (SlotView {
                    queue: Seq::<MotorJob>::empty(),
                    active: None,
                }),
            forall|i: int|
                0 <= i < motor_drivers@.len() ==> #[trigger] c.issued(i)
                    == motor_drivers@[i].motor().issued(),
    {
        let n = motor_drivers.len();
        let mut work_queues: Vec<VecDeque<MotorJob>> = Vec::new();
        let mut current_jobs: Vec<Option<ActiveMotorJob>> = Vec::new();
        let mut i: usize = 0;
        while i < n
            invariant
                i <= n,
                work_queues@.len() == i,
                current_jobs@.len() == i,
                forall|k: int| 0 <= k < i ==> (#[trigger] work_queues@[k])@ == Seq::<MotorJob>::empty(),
                forall|k: int| 0 <= k < i ==> #[trigger] current_jobs@[k] == None::<ActiveMotorJob>,
            decreases n - i,
        {
            work_queues.push(VecDeque::new());
            current_jobs.push(None);
            i += 1;
        }
        MotorController { motor_drivers, work_queues, current_jobs }
    }

    /// The number of motors this engine was built over.
    pub fn motor_count(&self) -> (n: usize)
        ensures
            n == self.num_motors(),
    {
        self.motor_drivers.len()
    }

    /// How many jobs are pending for motor `index`.
    pub fn queue_len(&self, index: usize) -> (n: usize)
        requires
            self.wf(),
            index < self.num_motors(),
        ensures
            n == self.slot(index as int).queue.len(),
    {
        self.work_queues[index].len()
    }

    /// Whether motor `index` is executing a job right now.
    pub fn has_active_job(&self, index: usize) -> (r: bool)
        requires
            self.wf(),
            index < self.num_motors(),
        ensures
            r == (self.slot(index as int).active is Some),
    {
        self.current_jobs[index].is_some()
    }

    /// Borrow motor `index`'s registered driver, to inspect what its
    /// actuation port has been asked to do.
    pub fn get_motor(&self, index: usize) -> (c: &C)
        requires
            index < self.num_motors(),
        ensures
            c.motor().issued() == self.issued(index as int),
    {
        &self.motor_drivers[index]
    }

    /// Append a job to its target motor's queue. Dispatch happens only
    /// inside `process_jobs`; no command is issued here. A job whose
    /// motor index is out of range or whose power lies outside [1, 100]
    /// is rejected with `InvalidJob` and nothing changes.
    pub fn add_job(&mut self, job: MotorJob) -> (r: Result<(), MotorError>)
        requires
            old(self).wf(),
        ensures
            final(self).wf(),
            final(self).num_motors() == old(self).num_motors(),
            job_valid(job, old(self).num_motors()) ==> {
                &&& r is Ok
                &&& final(self).slot(job.motor_index as int) == (SlotView {
                    queue: old(self).slot(job.motor_index as int).queue.push(job),
                    active: old(self).slot(job.motor_index as int).active,
                })
                &&& forall|i: int|
                    0 <= i < old(self).num_motors() && i != job.motor_index
                        ==> #[trigger] final(self).slot(i) == old(self).slot(i)
            },
            !job_valid(job, old(self).num_motors()) ==> r == Err::<(), MotorError>(
                MotorError::InvalidJob,
            ) && forall|i: int|
                0 <= i < old(self).num_motors() ==> #[trigger] final(self).slot(i) == old(
                    self,
                ).slot(i),
            forall|i: int|
                0 <= i < old(self).num_motors() ==> #[trigger] final(self).issued(i) == old(
                    self,
                ).issued(i),
    {
        if job.motor_index >= self.motor_drivers.len() || job.power == 0 || job.power > 100 {
            return Err(MotorError::InvalidJob);
        }
        self.work_queues[job.motor_index].push_back(job);
        proof {
            assert(self.slot(job.motor_index as int) =~= SlotView {
                queue: old(self).slot(job.motor_index as int).queue.push(job),
                active: old(self).slot(job.motor_index as int).active,
            });
            assert forall|i: int| 0 <= i < self.num_motors() implies slot_wf(
                #[trigger] self.slot(i),
                i,
            ) by {
                assert(slot_wf(old(self).slot(i), i));
                if i != job.motor_index {
                    assert(self.slot(i) =~= old(self).slot(i));
                }
            }
        }
        Ok(())
    }

    /// Advance the whole system by one tick of `delta_ms` milliseconds.
    /// Every motor slot goes through `slot_step` independently: active
    /// jobs accrue the delta, finished jobs are cleared, and the next
    /// queued job — or, with an empty queue, the single idle command —
    /// is handed to the actuation port in the same tick.
    ///
    /// A hardware fault is surfaced as `ActuationFailure` tagged with
    /// the offending motor; that motor's queue and active job are left
    /// exactly as they were, so the next tick retries naturally, and the
    /// remaining motors still advance. When every port accepts its
    /// command, every motor has stepped and the result is `Ok`.
    pub fn process_jobs(&mut self, delta_ms: u16) -> (r: Result<(), MotorError>)
        requires
            old(self).wf(),
            delta_ms >= 1,
        ensures
            final(self).wf(),
            final(self).num_motors() == old(self).num_motors(),
            forall|k: int|
                0 <= k < old(self).num_motors() ==> #[trigger] motor_stepped(
                    *old(self),
                    *final(self),
                    k,
                    delta_ms as int,
                ) || (r is Err && motor_unchanged(*old(self), *final(self), k) && slot_step(
                    old(self).slot(k),
                    delta_ms as int,
                ).1.len() > 0),
            r is Ok ==> forall|k: int|
                0 <= k < old(self).num_motors() ==> #[trigger] motor_stepped(
                    *old(self),
                    *final(self),
                    k,
                    delta_ms as int,
                ),
            r is Err ==> (r matches Err(MotorError::ActuationFailure { motor_index })
                && motor_index < old(self).num_motors() && motor_unchanged(
                *old(self),
                *final(self),
                motor_index as int,
            ) && slot_step(old(self).slot(motor_index as int), delta_ms as int).1.len() > 0),
    {
        let ghost pre = *self;
        let ghost delta = delta_ms as int;
        let n = self.motor_drivers.len();
        let mut result: Result<(), MotorError> = Ok(());
        let mut i: usize = 0;
        while i < n
            invariant
                i <= n,
                n == pre.num_motors(),
                delta == delta_ms as int,
                delta_ms >= 1,
                pre.wf(),
                self.motor_drivers@.len() == n,
                self.work_queues@.len() == n,
                self.current_jobs@.len() == n,
                forall|k: int| 0 <= k < n ==> slot_wf(#[trigger] self.slot(k), k),
                forall|k: int|
                    i <= k < n ==> #[trigger] motor_unchanged(pre, *self, k),
                forall|k: int|
                    0 <= k < i ==> #[trigger] motor_stepped(pre, *self, k, delta) || (result is Err
                        && motor_unchanged(pre, *self, k) && slot_step(
                        pre.slot(k),
                        delta,
                    ).1.len() > 0),
                result is Ok ==> forall|k: int|
                    0 <= k < i ==> #[trigger] motor_stepped(pre, *self, k, delta),
                result is Err ==> (result matches Err(MotorError::ActuationFailure { motor_index })
                    && motor_index < i && motor_unchanged(pre, *self, motor_index as int)
                    && slot_step(pre.slot(motor_index as int), delta).1.len() > 0),
            decreases n - i,
        {
            let ghost self0 = *self;
            let ghost slot0 = self.slot(i as int);
            let ghost issued0 = self.issued(i as int);
            proof {
                assert(motor_unchanged(pre, *self, i as int));
                assert(slot0 == pre.slot(i as int));
                assert(issued0 == pre.issued(i as int));
                assert(slot_wf(slot0, i as int));
            }
            // Check if a job is currently running.
            let cur: Option<ActiveMotorJob> = self.current_jobs[i];
            let mut proceed = cur.is_none();
            let mut failed = false;
            if let Some(active0) = cur {
                let mut active = active0;
                active.increment_time(delta_ms);
                if active.is_active() {
                    // Still running: nothing further this tick.
                    self.current_jobs.set(i, Some(active));
                    proof {
                        assert(self.slot(i as int) =~= slot_step(slot0, delta).0);
                        assert(self.issued(i as int) =~= issued0 + slot_step(slot0, delta).1);
                        assert(motor_stepped(pre, *self, i as int, delta));
                    }
                } else {
                    // Job is done; clear it.
                    self.current_jobs.set(i, None);
                    if self.work_queues[i].len() == 0 {
                        // Nothing queued: force the de-energized idle state.
                        let container = &mut self.motor_drivers[i];
                        let port = container.get_motor();
                        let dr = port.drive_motor(MotorDirection::Forward, 0);
                        if dr.is_err() {
                            // Hardware fault: leave the motor as it was.
                            self.current_jobs.set(i, Some(active0));
                            failed = true;
                            proof {
                                assert(self.slot(i as int) =~= slot0);
                                assert(motor_unchanged(pre, *self, i as int));
                            }
                        } else {
                            proof {
                                assert(self.slot(i as int) =~= slot_step(slot0, delta).0);
                                assert(self.issued(i as int) =~= issued0 + slot_step(
                                    slot0,
                                    delta,
                                ).1);
                                assert(motor_stepped(pre, *self, i as int, delta));
                            }
                        }
                    } else {
                        // Queued work: fall through to dispatch in this tick.
                        proceed = true;
                    }
                }
            }
            if proceed {
                let q = &mut self.work_queues[i];
                let front = q.pop_front();
                match front {
                    Some(job) => {
                        proof {
                            assert(job == slot0.queue[0]);
                            assert(1 <= job.power <= 100);
                        }
                        let container = &mut self.motor_drivers[i];
                        let port = container.get_motor();
                        let dr = port.drive_motor(job.direction, job.power);
                        match dr {
                            Ok(_) => {
                                // Set the motor to the new job and activate it.
                                self.current_jobs.set(i, Some(job.activate_job()));
                                proof {
                                    assert(self.slot(i as int).queue =~= slot_step(
                                        slot0,
                                        delta,
                                    ).0.queue);
                                    assert(self.slot(i as int) =~= slot_step(slot0, delta).0);
                                    assert(self.issued(i as int) =~= issued0 + slot_step(
                                        slot0,
                                        delta,
                                    ).1);
                                    assert(motor_stepped(pre, *self, i as int, delta));
                                }
                            },
                            Err(_) => {
                                // Hardware fault: put the job back and
                                // restore the slot exactly as it was.
                                let q2 = &mut self.work_queues[i];
                                q2.push_front(job);
                                self.current_jobs.set(i, cur);
                                failed = true;
                                proof {
                                    assert(self.slot(i as int).queue =~= slot0.queue);
                                    assert(self.slot(i as int) =~= slot0);
                                    assert(motor_unchanged(pre, *self, i as int));
                                }
                            },
                        }
                    },
                    None => {
                        // Idle motor with an empty queue: stays silent.
                        proof {
                            assert(self.slot(i as int) =~= slot_step(slot0, delta).0);
                            assert(self.issued(i as int) =~= issued0 + slot_step(slot0, delta).1);
                            assert(motor_stepped(pre, *self, i as int, delta));
                        }
                    },
                }
            }
            if failed {
                if result.is_ok() {
                    result = Err(MotorError::ActuationFailure { motor_index: i });
                }
            }
            proof {
                lemma_slot_step_preserves_wf(slot0, i as int, delta);
                assert(motor_stepped(pre, *self, i as int, delta) || (failed && motor_unchanged(
                    pre,
                    *self,
                    i as int,
                ) && slot_step(slot0, delta).1.len() > 0));
                // This iteration touched nothing but motor `i`.
                assert forall|k: int| 0 <= k < n && k != i as int implies #[trigger] self.slot(k)
                    == self0.slot(k) && self.issued(k) == self0.issued(k) by {
                    assert(self.slot(k) =~= self0.slot(k));
                }
                assert forall|k: int| 0 <= k < n implies slot_wf(#[trigger] self.slot(k), k) by {
                    if k != i as int {
                        assert(slot_wf(self0.slot(k), k));
                    }
                }
                assert forall|k: int| i as int + 1 <= k < n implies #[trigger] motor_unchanged(
                    pre,
                    *self,
                    k,
                ) by {
                    assert(motor_unchanged(pre, self0, k));
                }
                assert forall|k: int|
                    0 <= k < i as int implies (#[trigger] motor_stepped(pre, *self, k, delta) || (
                    result is Err && motor_unchanged(pre, *self, k) && slot_step(
                    pre.slot(k),
                    delta,
                    ).1.len() > 0)) by {
                    assert(motor_stepped(pre, self0, k, delta) || (result is Err
                        && motor_unchanged(pre, self0, k) && slot_step(
                        pre.slot(k),
                        delta,
                    ).1.len() > 0));
                }
            }
            i += 1;
        }
        result
    }
}

} // verus!
