//! The actuation capability: the hardware-facing side of the engine.

use vstd::prelude::*;

use crate::job::MotorDirection;

verus! {

/// One command handed to an actuation port: a direction and a power level
/// between 0 and 100. Power 0 de-energizes the motor whatever the
/// direction says.
#[derive(Debug, Clone, Copy, PartialEq, Eq, Structural)]
pub struct DriveCommand {
    pub direction: MotorDirection,
    pub power: u8,
}

/// An abstract representation of a motor: anything that can turn a
/// (direction, power) pair into physical signals. Implemented once per
/// concrete wiring and selected when the engine is constructed.
///
/// `issued` is the history of commands the port has accepted, oldest
/// first. A hardware fault is reported by `Err`, in which case the port
/// has accepted nothing new.
pub trait AnyMotor: Sized {
    spec fn issued(&self) -> Seq<DriveCommand>;

    fn drive_motor(&mut self, direction: MotorDirection, power: u8) -> (r: Result<(), ()>)
        requires
            power <= 100,
        ensures
            r is Ok ==> final(self).issued() == old(self).issued().push(
                DriveCommand { direction, power },
            ),
            r is Err ==> final(self).issued() == old(self).issued(),
    ;
}

/// An actuation port that records every accepted command and never
/// faults; the engine's observable output when no hardware is attached.
pub struct RecordingMotor {
    pub commands: Vec<DriveCommand>,
}

impl RecordingMotor {
    pub fn new() -> (m: RecordingMotor)
        ensures
            m.issued() == Seq::<DriveCommand>::empty(),
    {
        RecordingMotor { commands: Vec::new() }
    }

    /// How many commands the port has accepted so far.
    pub fn command_count(&self) -> (n: usize)
        ensures
            n == self.issued().len(),
    {
        self.commands.len()
    }
}

impl AnyMotor for RecordingMotor {
    open spec fn issued(&self) -> Seq<DriveCommand> {
        self.commands@
    }

    fn drive_motor(&mut self, direction: MotorDirection, power: u8) -> (r: Result<(), ()>) {
        self.commands.push(DriveCommand { direction, power });
        Ok(())
    }
}

/// Represents a generalized motor driver of any motor: a container
/// that wires up one motor and hands it out to be driven. Containers
/// let one engine hold differently-wired motors behind a single type.
///
/// `motor` is the contained port; `get_motor` borrows exactly it, and
/// whatever the borrower does to the port is what the container holds
/// afterwards.
pub trait MotorContainer: Sized {
    type M: AnyMotor;

    spec fn motor(&self) -> Self::M;

    fn get_motor(&mut self) -> (m: &mut Self::M)
        ensures
            *m == old(self).motor(),
            final(self).motor() == *final(m),
    ;
}

/// Every actuation port is its own container.
impl<M: AnyMotor> MotorContainer for M {
    type M = M;

    open spec fn motor(&self) -> M {
        *self
    }

    fn get_motor(&mut self) -> (m: &mut M) {
        self
    }
}

/// An actuation port whose hardware rejects every command: a stand-in
/// for a faulted driver, against which the engine's error handling can
/// be exercised.
pub struct RejectingMotor;

impl AnyMotor for RejectingMotor {
    open spec fn issued(&self) -> Seq<DriveCommand> {
        Seq::<DriveCommand>::empty()
    }

    fn drive_motor(&mut self, _direction: MotorDirection, _power: u8) -> (r: Result<(), ()>) {
        Err(())
    }
}

} // verus!
