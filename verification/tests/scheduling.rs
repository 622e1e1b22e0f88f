//! End-to-end behavior of the scheduling engine, observed through
//! recording actuation ports.

use motor_controller::controller::{MotorController, MotorError};
use motor_controller::job::{MotorDirection, MotorJob};
use motor_controller::motor::{DriveCommand, RecordingMotor};

fn engine(n: usize) -> MotorController<RecordingMotor> {
    let mut ports = Vec::new();
    for _ in 0..n {
        ports.push(RecordingMotor::new());
    }
    MotorController::new(ports)
}

fn cmd(direction: MotorDirection, power: u8) -> DriveCommand {
    DriveCommand { direction, power }
}

#[test]
fn fifo_same_motor_order() {
    let mut c = engine(1);
    c.add_job(MotorJob::new(0, MotorDirection::Forward, 10, 100)).unwrap();
    c.add_job(MotorJob::new(0, MotorDirection::Backward, 20, 100)).unwrap();
    c.add_job(MotorJob::new(0, MotorDirection::Forward, 30, 100)).unwrap();
    // Each job needs one tick to dispatch and one to run out; the next
    // job starts in the same tick its predecessor finishes, and the
    // last completion with an empty queue adds the single idle pulse.
    for _ in 0..4 {
        c.process_jobs(100).unwrap();
    }
    let issued = &c.get_motor(0).commands;
    assert_eq!(
        issued,
        &vec![
            cmd(MotorDirection::Forward, 10),
            cmd(MotorDirection::Backward, 20),
            cmd(MotorDirection::Forward, 30),
            cmd(MotorDirection::Forward, 0),
        ]
    );
}

#[test]
fn idle_motor_stays_silent() {
    let mut c = engine(3);
    for _ in 0..25 {
        c.process_jobs(100).unwrap();
    }
    for i in 0..3 {
        assert_eq!(c.get_motor(i).commands.len(), 0);
        assert!(!c.has_active_job(i));
        assert_eq!(c.queue_len(i), 0);
    }
}

#[test]
fn exact_duration_transition() {
    let mut c = engine(1);
    c.add_job(MotorJob::new(0, MotorDirection::Forward, 60, 250)).unwrap();
    // First tick dispatches the job; its timer starts at zero.
    c.process_jobs(100).unwrap();
    assert_eq!(c.get_motor(0).commands.len(), 1);
    assert!(c.has_active_job(0));
    // 100 + 100 elapsed: still short of 250, nothing new issued.
    c.process_jobs(100).unwrap();
    c.process_jobs(100).unwrap();
    assert_eq!(c.get_motor(0).commands.len(), 1);
    assert!(c.has_active_job(0));
    // 250 reached exactly on this tick: job ends, idle pulse goes out.
    c.process_jobs(50).unwrap();
    assert!(!c.has_active_job(0));
    assert_eq!(
        c.get_motor(0).commands,
        vec![cmd(MotorDirection::Forward, 60), cmd(MotorDirection::Forward, 0)]
    );
}

#[test]
fn idle_pulse_only_when_queue_empty() {
    let mut c = engine(1);
    c.add_job(MotorJob::new(0, MotorDirection::Forward, 40, 100)).unwrap();
    c.add_job(MotorJob::new(0, MotorDirection::Backward, 50, 100)).unwrap();
    c.process_jobs(100).unwrap(); // dispatch first job
    c.process_jobs(100).unwrap(); // first finishes, second starts: no idle pulse
    assert_eq!(
        c.get_motor(0).commands,
        vec![cmd(MotorDirection::Forward, 40), cmd(MotorDirection::Backward, 50)]
    );
    c.process_jobs(100).unwrap(); // second finishes, queue empty: one idle pulse
    assert_eq!(
        c.get_motor(0).commands,
        vec![
            cmd(MotorDirection::Forward, 40),
            cmd(MotorDirection::Backward, 50),
            cmd(MotorDirection::Forward, 0),
        ]
    );
    // Staying idle issues nothing further.
    c.process_jobs(100).unwrap();
    assert_eq!(c.get_motor(0).commands.len(), 3);
}

#[test]
fn motors_run_independently() {
    let mut c = engine(2);
    // A long job on motor 0 and short jobs on motor 1.
    c.add_job(MotorJob::new(0, MotorDirection::Forward, 90, 1000)).unwrap();
    c.add_job(MotorJob::new(1, MotorDirection::Backward, 10, 100)).unwrap();
    c.add_job(MotorJob::new(1, MotorDirection::Forward, 20, 100)).unwrap();
    c.process_jobs(100).unwrap(); // both dispatch at once
    assert_eq!(c.get_motor(0).commands, vec![cmd(MotorDirection::Forward, 90)]);
    assert_eq!(c.get_motor(1).commands, vec![cmd(MotorDirection::Backward, 10)]);
    c.process_jobs(100).unwrap(); // motor 1 moves on while motor 0 keeps running
    assert_eq!(c.get_motor(0).commands.len(), 1);
    assert_eq!(
        c.get_motor(1).commands,
        vec![cmd(MotorDirection::Backward, 10), cmd(MotorDirection::Forward, 20)]
    );
    assert!(c.has_active_job(0));
}

#[test]
fn back_to_back_jobs_scenario() {
    let mut c = engine(1);
    c.add_job(MotorJob::new(0, MotorDirection::Forward, 50, 250)).unwrap();
    c.add_job(MotorJob::new(0, MotorDirection::Backward, 30, 100)).unwrap();
    // Tick 1 dispatches the first job; its timer then needs three more
    // 100 ms ticks to reach 250.
    c.process_jobs(100).unwrap();
    c.process_jobs(100).unwrap();
    c.process_jobs(100).unwrap();
    assert_eq!(c.get_motor(0).commands, vec![cmd(MotorDirection::Forward, 50)]);
    // Elapsed reaches 300 >= 250 on this tick: the second job must be
    // dispatched within the same tick, with no idle pulse in between.
    c.process_jobs(100).unwrap();
    assert_eq!(
        c.get_motor(0).commands,
        vec![cmd(MotorDirection::Forward, 50), cmd(MotorDirection::Backward, 30)]
    );
    // After ticks totaling 100 ms more the queue is empty, so the
    // engine must force the de-energized state exactly once.
    c.process_jobs(100).unwrap();
    assert_eq!(
        c.get_motor(0).commands,
        vec![
            cmd(MotorDirection::Forward, 50),
            cmd(MotorDirection::Backward, 30),
            cmd(MotorDirection::Forward, 0),
        ]
    );
}

#[test]
fn zero_duration_job_completes_on_next_tick() {
    let mut c = engine(1);
    c.add_job(MotorJob::new(0, MotorDirection::Forward, 50, 0)).unwrap();
    c.process_jobs(100).unwrap(); // dispatched like any other job
    assert_eq!(c.get_motor(0).commands, vec![cmd(MotorDirection::Forward, 50)]);
    assert!(c.has_active_job(0));
    c.process_jobs(100).unwrap(); // elapsed 100 >= 0: done, idle pulse
    assert!(!c.has_active_job(0));
    assert_eq!(
        c.get_motor(0).commands,
        vec![cmd(MotorDirection::Forward, 50), cmd(MotorDirection::Forward, 0)]
    );
}

#[test]
fn oversized_delta_finishes_job_in_one_step() {
    let mut c = engine(1);
    c.add_job(MotorJob::new(0, MotorDirection::Backward, 100, 65535)).unwrap();
    c.process_jobs(65535).unwrap(); // dispatch; timer starts at zero
    assert!(c.has_active_job(0));
    c.process_jobs(65535).unwrap(); // 65535 >= 65535: completes at once
    assert!(!c.has_active_job(0));
    assert_eq!(
        c.get_motor(0).commands,
        vec![cmd(MotorDirection::Backward, 100), cmd(MotorDirection::Forward, 0)]
    );
}

#[test]
fn invalid_jobs_are_rejected() {
    let mut c = engine(2);
    // Power 0 is reserved for the implicit idle command.
    assert_eq!(
        c.add_job(MotorJob::new(0, MotorDirection::Forward, 0, 100)),
        Err(MotorError::InvalidJob)
    );
    // Power above 100 is out of range.
    assert_eq!(
        c.add_job(MotorJob::new(0, MotorDirection::Forward, 101, 100)),
        Err(MotorError::InvalidJob)
    );
    // Motor index out of range.
    assert_eq!(
        c.add_job(MotorJob::new(2, MotorDirection::Forward, 50, 100)),
        Err(MotorError::InvalidJob)
    );
    // No queue was altered.
    assert_eq!(c.queue_len(0), 0);
    assert_eq!(c.queue_len(1), 0);
    c.process_jobs(100).unwrap();
    assert_eq!(c.get_motor(0).commands.len(), 0);
    assert_eq!(c.get_motor(1).commands.len(), 0);
}

#[test]
fn actuation_failure_leaves_motor_untouched() {
    let mut c = MotorController::new(vec![motor_controller::motor::RejectingMotor]);
    c.add_job(MotorJob::new(0, MotorDirection::Forward, 50, 100)).unwrap();
    // The port rejects the dispatch: the tick reports the motor and the
    // job stays queued for a natural retry.
    assert_eq!(
        c.process_jobs(100),
        Err(MotorError::ActuationFailure { motor_index: 0 })
    );
    assert_eq!(c.queue_len(0), 1);
    assert!(!c.has_active_job(0));
    assert_eq!(
        c.process_jobs(100),
        Err(MotorError::ActuationFailure { motor_index: 0 })
    );
    assert_eq!(c.queue_len(0), 1);
}
