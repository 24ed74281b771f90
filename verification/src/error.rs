//! What can go wrong while events are read and dispatched.

use vstd::prelude::*;

verus! {

/// Why a physical read of the connection failed.
#[derive(Debug)]
pub enum ReadError {
    /// The peer broke the protocol.
    Protocol,
    /// The bytes received do not parse as a message.
    Parse,
    /// The socket failed, with the system's error number.
    Sys(i32),
}

/// Why a call on an event queue failed.
#[derive(Debug)]
pub enum QueueError {
    /// The socket failed or the peer went away, with the system's error number.
    Transport(i32),
    /// The peer sent bytes that are no valid frame.
    Protocol,
    /// A message came from an id that names no live object.
    UnknownObject(u32),
    /// The handler of an object refused a message.
    Dispatch { interface: String, id: u32 },
}

/// A failure of a queue with strings taken by their view.
pub ghost enum Failure {
    Transport(i32),
    Protocol,
    UnknownObject(u32),
    Dispatch(Seq<char>, u32),
}

impl View for QueueError {
    type V = Failure;

    open spec fn view(&self) -> Failure {
        match *self {
            QueueError::Transport(errno) => Failure::Transport(errno),
            QueueError::Protocol => Failure::Protocol,
            QueueError::UnknownObject(id) => Failure::UnknownObject(id),
            QueueError::Dispatch { interface, id } => Failure::Dispatch(interface@, id),
        }
    }
}

/// The failure of a queue that a failed read becomes: a socket failure keeps
/// its error number, everything else is a violation of the protocol.
pub open spec fn read_failure(e: ReadError) -> Failure {
    match e {
        ReadError::Protocol => Failure::Protocol,
        ReadError::Parse => Failure::Protocol,
        ReadError::Sys(errno) => Failure::Transport(errno),
    }
}

impl QueueError {
    /// Turns the failure of a read into the failure of the call that asked
    /// for it.
    pub fn from_read(e: ReadError) -> (failure: QueueError)
        ensures
            failure@ == read_failure(e),
    {
        match e {
            ReadError::Protocol => QueueError::Protocol,
            ReadError::Parse => QueueError::Protocol,
            ReadError::Sys(errno) => QueueError::Transport(errno),
        }
    }
}

} // verus!
