//! Operator commands: how a request to queue one is answered, and what control
//! a queued command becomes.

use crate::idmap::IdMap;
use dnp3::app::control::{Group12Var1, OpType};
use dnp3::master::{CommandBuilder, CommandHeaders, CommandSupport};
use tokio::sync::mpsc::error::TrySendError;
use tokio::sync::mpsc::Sender;
use vstd::prelude::*;

verus! {

/// How many commands wait for one RTU at most.
pub const COMMAND_QUEUE_LEN: usize = 64;

/// What an operator asks of an RTU. It is an intent only: no snapshot changes
/// until telemetry shows the effect.
#[derive(Clone, Copy, Debug, PartialEq, Eq, Structural)]
pub enum RtuCommand {
    /// Set a binary output.
    SetBi { index: u16, value: bool },
    /// Set analog output 0 to the binary32 number with this bit pattern.
    SetAi0 { bits: u32 },
}

/// `dnp3::master::CommandHeaders`, the collection of controls in one request.
#[verifier::external_type_specification]
#[verifier::external_body]
pub struct ExCommandHeaders(CommandHeaders);

/// The binary controls in a request, in order: the index of the output, the
/// control code, the number of operations, and the on and off times in
/// milliseconds.
pub uninterp spec fn binary_controls(headers: CommandHeaders) -> Seq<(u16, u8, u8, u32, u32)>;

/// A lasting operation on a binary output.
#[derive(Clone, Copy, Debug, PartialEq, Eq, Structural)]
pub enum LatchOp {
    On,
    Off,
}

/// The control code of a latch operation.
pub open spec fn latch_code(op: LatchOp) -> u8 {
    match op {
        LatchOp::On => 3,
        LatchOp::Off => 4,
    }
}

/// Calls `dnp3::master::CommandBuilder::single_header_u16` on the control block
/// that `dnp3::app::control::Group12Var1::from_op_type` makes of a latch
/// operation. The request then holds that one control for the output `index`:
/// a plain latch, operated once, with on and off times of one second. That the
/// index is written with two bytes, and the status of the block, are left unsaid.
#[verifier::external_body]
fn single_latch(op: LatchOp, index: u16) -> (r: CommandHeaders)
    ensures
        binary_controls(r) == seq![(index, latch_code(op), 1u8, 1000u32, 1000u32)],
{
    let op_type = match op {
        LatchOp::On => OpType::LatchOn,
        LatchOp::Off => OpType::LatchOff,
    };
    CommandBuilder::single_header_u16(Group12Var1::from_op_type(op_type), index)
}

/// The control that a command becomes.
#[derive(Debug)]
pub enum Control {
    /// A request with one binary control.
    Binary(CommandHeaders),
    /// Set an analog output to the binary32 number with this bit pattern.
    Analog { bits: u32, index: u16 },
}

/// The latch operation that sets an output to `value`.
pub open spec fn latch_for(value: bool) -> LatchOp {
    if value {
        LatchOp::On
    } else {
        LatchOp::Off
    }
}

/// Turns a command into the control to operate: a binary output is latched on
/// or off, and the analog output is always the one at index 0.
pub fn control_for(command: RtuCommand) -> (r: Control)
    ensures
        match command {
            RtuCommand::SetBi { index, value } => r matches Control::Binary(headers)
                && binary_controls(headers) == seq![
                (index, latch_code(latch_for(value)), 1u8, 1000u32, 1000u32),
            ] && binary_controls(headers)[0].1 == (if value {
                3u8
            } else {
                4u8
            }),
            RtuCommand::SetAi0 { bits } => r == (Control::Analog { bits, index: 0 }),
        },
{
    match command {
        RtuCommand::SetBi { index, value } => {
            let op: LatchOp = if value {
                LatchOp::On
            } else {
                LatchOp::Off
            };
            Control::Binary(single_latch(op, index))
        },
        RtuCommand::SetAi0 { bits } => Control::Analog { bits, index: 0 },
    }
}

/// `tokio::sync::mpsc::Sender`, the sending end of a bounded queue.
#[verifier::external_type_specification]
#[verifier::external_body]
#[verifier::reject_recursive_types(T)]
pub struct ExSender<T>(Sender<T>);

/// Why a queue did not take a command, with the command.
#[derive(Clone, Copy, Debug, PartialEq, Eq, Structural)]
pub enum Refusal {
    /// The queue is full.
    Full(RtuCommand),
    /// Nothing takes commands from the queue any more.
    Closed(RtuCommand),
}

/// Calls `tokio::sync::mpsc::Sender::try_send`. Whether the queue takes the
/// command depends on what other tasks have put in and taken out; if it does
/// not, it gives back the command it was offered. That an accepted command is
/// later received is not stated.
#[verifier::external_body]
pub fn try_send(queue: &Sender<RtuCommand>, command: RtuCommand) -> (r: Result<(), Refusal>)
    ensures
        r matches Err(refusal) ==> refusal == Refusal::Full(command) || refusal == Refusal::Closed(
            command,
        ),
{
    match queue.try_send(command) {
        Ok(()) => Ok(()),
        Err(TrySendError::Full(back)) => Err(Refusal::Full(back)),
        Err(TrySendError::Closed(back)) => Err(Refusal::Closed(back)),
    }
}

/// Why a command was not queued.
#[derive(Clone, Copy, Debug, PartialEq, Eq, Structural)]
pub enum Rejection {
    /// No RTU has the id.
    UnknownRtu,
    /// The queue of the RTU did not take the command.
    Refused(Refusal),
}

/// What an offer comes to when the queue of the RTU made `outcome` of it.
pub open spec fn offered(outcome: Result<(), Refusal>) -> Result<(), Rejection> {
    match outcome {
        Ok(_) => Ok(()),
        Err(refusal) => Err(Rejection::Refused(refusal)),
    }
}

/// Offers a command to the queue of the RTU `id`. For an id that no RTU has,
/// nothing is offered.
pub fn offer(queues: &IdMap<Sender<RtuCommand>>, id: &String, command: RtuCommand) -> (r: Result<
    (),
    Rejection,
>)
    ensures
        match queues.lookup(id@) {
            None => r == Err::<(), Rejection>(Rejection::UnknownRtu),
            Some(queue) => exists|outcome: Result<(), Refusal>| #[trigger]
                call_ensures(try_send, (&queue, command), outcome) && r == offered(outcome),
        },
{
    match queues.get(id) {
        None => Err(Rejection::UnknownRtu),
        Some(queue) => match try_send(queue, command) {
            Ok(_) => Ok(()),
            Err(refusal) => Err(Rejection::Refused(refusal)),
        },
    }
}

/// The answer to a request to queue a command.
#[derive(Clone, Copy, Debug, PartialEq, Eq, Structural)]
pub enum CommandReply {
    /// The command is queued.
    Queued,
    /// No RTU has the id.
    UnknownRtu,
    /// The queue of the RTU does not take the command.
    QueueFull,
}

/// The answer for each outcome of an offer: any refusal counts as a full queue.
pub open spec fn reply(outcome: Result<(), Rejection>) -> CommandReply {
    match outcome {
        Ok(_) => CommandReply::Queued,
        Err(Rejection::UnknownRtu) => CommandReply::UnknownRtu,
        Err(Rejection::Refused(_)) => CommandReply::QueueFull,
    }
}

/// Picks the answer for the outcome of an offer.
pub fn reply_to(outcome: Result<(), Rejection>) -> (r: CommandReply)
    ensures
        r == reply(outcome),
{
    match outcome {
        Ok(_) => CommandReply::Queued,
        Err(Rejection::UnknownRtu) => CommandReply::UnknownRtu,
        Err(Rejection::Refused(_)) => CommandReply::QueueFull,
    }
}

impl CommandReply {
    /// The HTTP status of the answer.
    pub fn status(self) -> (r: u16)
        ensures
            r == match self {
                CommandReply::Queued => 200u16,
                CommandReply::UnknownRtu => 404u16,
                CommandReply::QueueFull => 503u16,
            },
    {
        match self {
            CommandReply::Queued => 200,
            CommandReply::UnknownRtu => 404,
            CommandReply::QueueFull => 503,
        }
    }

    /// The text of the answer.
    pub fn text(self) -> (r: &'static str)
        ensures
            r@ == match self {
                CommandReply::Queued => "OK"@,
                CommandReply::UnknownRtu => "UNKNOWN_RTU"@,
                CommandReply::QueueFull => "QUEUE_FULL"@,
            },
    {
        match self {
            CommandReply::Queued => "OK",
            CommandReply::UnknownRtu => "UNKNOWN_RTU",
            CommandReply::QueueFull => "QUEUE_FULL",
        }
    }
}

/// Offers a command to the queue of the RTU `id`, and answers the operator.
pub fn submit(queues: &IdMap<Sender<RtuCommand>>, id: &String, command: RtuCommand) -> (r:
    CommandReply)
    ensures
        match queues.lookup(id@) {
            None => r == CommandReply::UnknownRtu,
            Some(queue) => exists|outcome: Result<(), Refusal>| #[trigger]
                call_ensures(try_send, (&queue, command), outcome) && r == reply(
                    offered(outcome),
                ),
        },
{
    reply_to(offer(queues, id, command))
}

/// Switching an output on sends the control code 3, which latches it on, and
/// switching it off sends 4, which latches it off.
pub proof fn law_latch_follows_the_value(value: bool)
    ensures
        value ==> latch_code(latch_for(value)) == 3,
        !value ==> latch_code(latch_for(value)) == 4,
        latch_code(LatchOp::On) == 3,
        latch_code(LatchOp::Off) == 4,
{
}

/// The operator is told that a command is queued exactly if the queue took it,
/// that the RTU is unknown exactly if none has the id, and that the queue is
/// full exactly if it refused the command, for whatever reason. A refusal is
/// passed on as it is.
pub proof fn law_answer_tells_what_became_of_the_command(
    outcome: Result<(), Refusal>,
    offer: Result<(), Rejection>,
)
    ensures
        offered(outcome) is Ok <==> outcome is Ok,
        outcome matches Err(refusal) ==> offered(outcome) == Err::<(), Rejection>(
            Rejection::Refused(refusal),
        ),
        reply(offered(outcome)) == CommandReply::Queued <==> outcome is Ok,
        reply(offered(outcome)) == CommandReply::QueueFull <==> outcome is Err,
        reply(offer) == CommandReply::Queued <==> offer is Ok,
        reply(offer) == CommandReply::UnknownRtu <==> offer == Err::<(), Rejection>(
            Rejection::UnknownRtu,
        ),
{
}

} // verus!
