//! Wire messages as the event queues see them.

use vstd::prelude::*;

verus! {

/// One argument of a wire message.
#[derive(Clone, Debug)]
pub enum Argument {
    /// A signed integer.
    Int(i32),
    /// An unsigned integer.
    Uint(u32),
    /// A fixed-point number in units of 1/256.
    Fixed(i32),
    /// The bytes of a string, without the closing zero.
    Str(Vec<u8>),
    /// The id of an existing object.
    Object(u32),
    /// The id of an object that this message creates.
    NewId(u32),
    /// A byte array.
    Array(Vec<u8>),
    /// A file descriptor.
    Fd(i32),
}

/// One parsed frame, tagged with the id of the object it is addressed to.
#[derive(Clone, Debug)]
pub struct Message {
    /// Id of the object that sends this message.
    pub sender_id: u32,
    /// Opcode of the message.
    pub opcode: u16,
    /// Arguments of the message; the queues never look inside.
    pub args: Vec<Argument>,
}

} // verus!
