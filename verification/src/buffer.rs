//! Buffers of waiting messages, and how the frames of a read are shared out
//! between them.

use crate::error::ReadError;
use crate::message::Message;
use std::collections::VecDeque;
use vstd::prelude::*;

verus! {

/// The id of the control object, whose messages wait in the display buffer.
pub const DISPLAY_ID: u32 = 1;

/// The most messages that one buffer may hold after a read, so that the
/// messages of two buffers can be counted in a `u32`.
pub const BUFFER_LIMIT: usize = 0x7fff_ffff;

/// A buffer of waiting messages, oldest first.
pub fn create_queue_buffer() -> (buffer: VecDeque<Message>)
    ensures
        buffer@.len() == 0,
{
    VecDeque::new()
}

/// The messages of `frames` that go to the display buffer (`display`) or to
/// the private buffer (`!display`), in the order in which they arrived.
pub open spec fn routed(frames: Seq<Message>, display: bool) -> Seq<Message>
    decreases frames.len(),
{
    if frames.len() == 0 {
        Seq::empty()
    } else {
        let rest = routed(frames.drop_last(), display);
        if (frames.last().sender_id == DISPLAY_ID) == display {
            rest.push(frames.last())
        } else {
            rest
        }
    }
}

/// A message of the object `id` waits in `buffer`.
pub open spec fn waits_in(buffer: Seq<Message>, id: u32) -> bool {
    exists|i: int| 0 <= i < buffer.len() && (#[trigger] buffer[i]).sender_id == id
}

/// Whether a message of the object `id` waits in `buffer`.
pub fn contains_sender(buffer: &VecDeque<Message>, id: u32) -> (found: bool)
    ensures
        found == waits_in(buffer@, id),
{
    let mut i: usize = 0;
    while i < buffer.len()
        invariant
            i <= buffer@.len(),
            forall|j: int| 0 <= j < i ==> (#[trigger] buffer@[j]).sender_id != id,
        decreases buffer@.len() - i,
    {
        if buffer[i].sender_id == id {
            return true;
        }
        i += 1;
    }
    false
}

/// Both buffers stay within `BUFFER_LIMIT` with `frames` behind them.
pub open spec fn fits(display: Seq<Message>, private: Seq<Message>, frames: Seq<Message>) -> bool {
    display.len() + frames.len() <= BUFFER_LIMIT && private.len() + frames.len() <= BUFFER_LIMIT
}

/// What a read adds to the display buffer (`to_display`) or to the private
/// buffer: its share of the frames where the read succeeded and they fit,
/// nothing otherwise.
pub open spec fn taken(
    display: Seq<Message>,
    private: Seq<Message>,
    read: Result<VecDeque<Message>, ReadError>,
    to_display: bool,
) -> Seq<Message> {
    match read {
        Ok(frames) => if fits(display, private, frames@) {
            routed(frames@, to_display)
        } else {
            Seq::empty()
        },
        Err(_) => Seq::empty(),
    }
}

/// Every frame goes to exactly one of the two buffers.
pub proof fn lemma_routed_parts(frames: Seq<Message>)
    ensures
        routed(frames, true).len() + routed(frames, false).len() == frames.len(),
    decreases frames.len(),
{
    if frames.len() > 0 {
        lemma_routed_parts(frames.drop_last());
    }
}

/// One frame of a read, with the number of the queue that its sender belongs
/// to.
#[derive(Debug)]
pub struct Frame {
    pub message: Message,
    pub queue: u64,
}

/// The frame is for the queue `queue` to dispatch: its sender is the control
/// object, or belongs to that queue.
pub open spec fn is_for(frame: Frame, queue: u64) -> bool {
    frame.message.sender_id == DISPLAY_ID || frame.queue == queue
}

/// The messages of the frames that are for the queue `queue`, in the order in
/// which they arrived.
pub open spec fn own_messages(frames: Seq<Frame>, queue: u64) -> Seq<Message>
    decreases frames.len(),
{
    if frames.len() == 0 {
        Seq::empty()
    } else {
        let rest = own_messages(frames.drop_last(), queue);
        if is_for(frames.last(), queue) {
            rest.push(frames.last().message)
        } else {
            rest
        }
    }
}

/// The frames that are for other queues than `queue`, in the order in which
/// they arrived.
pub open spec fn foreign_frames(frames: Seq<Frame>, queue: u64) -> Seq<Frame>
    decreases frames.len(),
{
    if frames.len() == 0 {
        Seq::empty()
    } else {
        let rest = foreign_frames(frames.drop_last(), queue);
        if is_for(frames.last(), queue) {
            rest
        } else {
            rest.push(frames.last())
        }
    }
}

/// Parts the frames of a read: the messages that the queue `queue` is to
/// dispatch, and the frames that belong to other queues.
pub fn sort_frames(frames: VecDeque<Frame>, queue: u64) -> (sorted: (
    VecDeque<Message>,
    VecDeque<Frame>,
))
    ensures
        sorted.0@ == own_messages(frames@, queue),
        sorted.1@ == foreign_frames(frames@, queue),
{
    let ghost all = frames@;
    let mut rest = frames;
    let mut own: VecDeque<Message> = VecDeque::new();
    let mut foreign: VecDeque<Frame> = VecDeque::new();
    loop
        invariant
            all == frames@,
            own@.len() + foreign@.len() + rest@.len() == all.len(),
            rest@ == all.skip(all.len() - rest@.len()),
            own@ =~= own_messages(all.take(all.len() - rest@.len()), queue),
            foreign@ =~= foreign_frames(all.take(all.len() - rest@.len()), queue),
        decreases rest@.len(),
    {
        let ghost done = all.len() - rest@.len();
        match rest.pop_front() {
            None => {
                proof {
                    assert(all.take(done) =~= all);
                }
                return (own, foreign);
            },
            Some(frame) => {
                proof {
                    assert(all.take(done + 1).drop_last() =~= all.take(done));
                    assert(all.take(done + 1).last() == frame);
                    assert(rest@ =~= all.skip(done + 1));
                }
                if frame.message.sender_id == DISPLAY_ID || frame.queue == queue {
                    own.push_back(frame.message);
                } else {
                    foreign.push_back(frame);
                }
            },
        }
    }
}

/// Parts what a read gave: for the queue `queue` the messages that it is to
/// dispatch, or the failure of the read, and for the connection the frames
/// that belong to other queues.
pub fn own_share(read: Result<VecDeque<Frame>, ReadError>, queue: u64) -> (shares: (
    Result<VecDeque<Message>, ReadError>,
    VecDeque<Frame>,
))
    ensures
        match read {
            Ok(frames) => {
                &&& shares.0 matches Ok(own)
                &&& own@ == own_messages(frames@, queue)
                &&& shares.1@ == foreign_frames(frames@, queue)
            },
            Err(e) => {
                &&& shares.0 matches Err(f)
                &&& f == e
                &&& shares.1@.len() == 0
            },
        },
{
    match read {
        Ok(frames) => {
            let sorted = sort_frames(frames, queue);
            (Ok(sorted.0), sorted.1)
        },
        Err(e) => (Err(e), VecDeque::new()),
    }
}

} // verus!
