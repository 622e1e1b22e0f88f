//! Unit behavior of the job model, the recording port, and the intake
//! buffer.

use motor_controller::controller::{MotorController, MotorError};
use motor_controller::intake::IntakeBuffer;
use motor_controller::job::{MotorDirection, MotorJob};
use motor_controller::motor::{AnyMotor, DriveCommand, RecordingMotor};

#[test]
fn job_construction_keeps_fields() {
    let job = MotorJob::new(2, MotorDirection::Backward, 75, 1500);
    assert_eq!(job.motor_index, 2);
    assert!(matches!(job.direction, MotorDirection::Backward));
    assert_eq!(job.power, 75);
    assert_eq!(job.time_ms, 1500);
}

#[test]
fn activation_starts_at_zero() {
    let job = MotorJob::new(0, MotorDirection::Forward, 50, 250);
    let active = job.activate_job();
    assert_eq!(active.current_time_ms, 0);
    assert_eq!(active.job_time_ms, 250);
    assert!(active.is_active());
}

#[test]
fn increment_time_accumulates() {
    let job = MotorJob::new(0, MotorDirection::Forward, 50, 250);
    let mut active = job.activate_job();
    active.increment_time(100);
    assert_eq!(active.current_time_ms, 100);
    assert!(active.is_active());
    active.increment_time(100);
    active.increment_time(50);
    assert_eq!(active.current_time_ms, 250);
    // Elapsed has reached the duration exactly: no longer active.
    assert!(!active.is_active());
}

#[test]
fn zero_duration_job_is_never_active() {
    let job = MotorJob::new(0, MotorDirection::Forward, 50, 0);
    let active = job.activate_job();
    assert!(!active.is_active());
}

#[test]
fn recording_motor_keeps_history() {
    let mut m = RecordingMotor::new();
    assert_eq!(m.command_count(), 0);
    m.drive_motor(MotorDirection::Forward, 80).unwrap();
    m.drive_motor(MotorDirection::Backward, 0).unwrap();
    assert_eq!(m.command_count(), 2);
    assert_eq!(
        m.commands,
        vec![
            DriveCommand { direction: MotorDirection::Forward, power: 80 },
            DriveCommand { direction: MotorDirection::Backward, power: 0 },
        ]
    );
}

#[test]
fn intake_hands_jobs_over_in_fifo_order() {
    let mut buffer = IntakeBuffer::new();
    assert!(buffer.is_empty());
    buffer.enqueue(MotorJob::new(0, MotorDirection::Forward, 10, 100));
    buffer.enqueue(MotorJob::new(1, MotorDirection::Backward, 20, 200));
    assert!(!buffer.is_empty());
    let jobs = buffer.take_all();
    assert!(buffer.is_empty());
    assert_eq!(jobs.len(), 2);
    assert_eq!(jobs[0].power, 10);
    assert_eq!(jobs[1].power, 20);
}

#[test]
fn drain_distributes_to_motor_queues() {
    let mut buffer = IntakeBuffer::new();
    buffer.enqueue(MotorJob::new(0, MotorDirection::Forward, 10, 100));
    buffer.enqueue(MotorJob::new(1, MotorDirection::Backward, 20, 100));
    buffer.enqueue(MotorJob::new(0, MotorDirection::Forward, 30, 100));
    let mut c = MotorController::new(vec![RecordingMotor::new(), RecordingMotor::new()]);
    buffer.drain_into(&mut c).unwrap();
    assert!(buffer.is_empty());
    assert_eq!(c.queue_len(0), 2);
    assert_eq!(c.queue_len(1), 1);
    // The engine dispatches motor 0's jobs in arrival order.
    c.process_jobs(100).unwrap();
    c.process_jobs(100).unwrap();
    assert_eq!(
        c.get_motor(0).commands,
        vec![
            DriveCommand { direction: MotorDirection::Forward, power: 10 },
            DriveCommand { direction: MotorDirection::Forward, power: 30 },
        ]
    );
}

#[test]
fn drain_reports_invalid_jobs_but_keeps_the_rest() {
    let mut buffer = IntakeBuffer::new();
    buffer.enqueue(MotorJob::new(0, MotorDirection::Forward, 10, 100));
    buffer.enqueue(MotorJob::new(5, MotorDirection::Forward, 10, 100)); // bad index
    buffer.enqueue(MotorJob::new(0, MotorDirection::Backward, 20, 100));
    let mut c = MotorController::new(vec![RecordingMotor::new()]);
    assert_eq!(buffer.drain_into(&mut c), Err(MotorError::InvalidJob));
    assert!(buffer.is_empty());
    // The malformed job was rejected; the valid ones are queued in order.
    assert_eq!(c.queue_len(0), 2);
}

#[test]
fn motor_count_is_fixed_at_construction() {
    let c = MotorController::new(vec![
        RecordingMotor::new(),
        RecordingMotor::new(),
        RecordingMotor::new(),
    ]);
    assert_eq!(c.motor_count(), 3);
}
