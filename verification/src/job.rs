//! The job model: a requested motor action and its elapsed-time tracking.

use vstd::prelude::*;

verus! {

/// Which way a motor turns.
#[derive(Debug, Clone, Copy, PartialEq, Eq, Structural)]
pub enum MotorDirection {
    Forward,
    Backward,
}

/// A single requested motor action: which motor, which way, how hard, and
/// for how long. Immutable once constructed.
#[derive(Debug, Clone, Copy, PartialEq, Eq, Structural)]
pub struct MotorJob {
    /// The target motor, bounded by the engine's motor count.
    pub motor_index: usize,
    pub direction: MotorDirection,
    /// A value between 1 and 100; 0 is reserved for the implicit idle
    /// command and is rejected at submission.
    pub power: u8,
    /// Requested run time in milliseconds.
    pub time_ms: u16,
}

impl MotorJob {
    pub fn new(motor_index: usize, direction: MotorDirection, power: u8, time_ms: u16) -> (job: MotorJob)
        ensures
            job == (MotorJob { motor_index, direction, power, time_ms }),
    {
        MotorJob { motor_index, direction, power, time_ms }
    }

    /// Begin executing this job: the derived timer starts with no time
    /// elapsed and runs for the job's requested duration.
    pub fn activate_job(&self) -> (active: ActiveMotorJob)
        ensures
            active == (ActiveMotorJob { current_time_ms: 0u32, job_time_ms: self.time_ms as u32 }),
    {
        ActiveMotorJob { current_time_ms: 0, job_time_ms: self.time_ms as u32 }
    }
}

/// A job currently being executed, with elapsed-time tracking.
#[derive(Debug, Clone, Copy, PartialEq, Eq, Structural)]
pub struct ActiveMotorJob {
    /// Accumulated time, in milliseconds, out of the ticks seen so far.
    pub current_time_ms: u32,
    /// The total duration the job runs for.
    pub job_time_ms: u32,
}

impl ActiveMotorJob {
    /// Whether the job still has time left to run.
    pub fn is_active(&self) -> (r: bool)
        ensures
            r == (self.current_time_ms < self.job_time_ms),
    {
        self.current_time_ms < self.job_time_ms
    }

    /// Account one tick's delta to the job's elapsed time.
    pub fn increment_time(&mut self, time_ms: u16)
        requires
            old(self).current_time_ms + time_ms <= u32::MAX,
        ensures
            *final(self) == (ActiveMotorJob {
                current_time_ms: (old(self).current_time_ms + time_ms) as u32,
                job_time_ms: old(self).job_time_ms,
            }),
    {
        self.current_time_ms += time_ms as u32;
    }
}

} // verus!
