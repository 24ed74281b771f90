//! Event delivery for a client of an object-oriented wire protocol.
//!
//! Messages read from one shared connection wait in buffers: one display
//! buffer per connection, which carries the traffic of the control object, and
//! one private buffer per event queue. A queue hands each waiting message to
//! the handler of the object that sent it, display buffer first, each buffer in
//! arrival order. The right to read from the connection is a claim that at most
//! one queue holds at a time.

pub mod buffer;
pub mod error;
pub mod message;
pub mod objects;
pub mod queue;
pub mod trace;
