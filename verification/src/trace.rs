//! The record of what a queue has handed to handlers, and what a dispatch call
//! owes to it.

use crate::error::{Failure, QueueError};
use crate::message::Message;
use crate::objects::lookup;
use vstd::prelude::*;

verus! {

/// One message taken from a buffer: the message, the live objects at the
/// moment its sender was looked up, the id and interface of the object handle
/// that the handler was given with it (none where no handler was called), and
/// whether the handler took it.
pub ghost struct Delivery {
    pub message: Message,
    pub live: Map<u32, Seq<char>>,
    pub handle: Option<(u32, Seq<char>)>,
    pub accepted: bool,
}

impl Delivery {
    /// The interface of the message's sender, if the sender was live.
    pub open spec fn interface(self) -> Option<Seq<char>> {
        lookup(self.live, self.message.sender_id)
    }

    /// The sender was live and its handler took the message.
    pub open spec fn delivered(self) -> bool {
        self.interface() is Some && self.accepted
    }

    /// The handler was called exactly where the sender was live, and was
    /// given the handle of the sender: its id, with the interface that the
    /// store had for it.
    pub open spec fn rightly_handed(self) -> bool {
        self.handle == match self.interface() {
            Some(name) => Some((self.message.sender_id, name)),
            None => None,
        }
    }
}

/// `longer` is `shorter` with more deliveries behind it.
pub open spec fn extends(longer: Seq<Delivery>, shorter: Seq<Delivery>) -> bool {
    shorter.len() <= longer.len() && longer.take(shorter.len() as int) =~= shorter
}

/// What `longer` holds behind `shorter`.
pub open spec fn since(longer: Seq<Delivery>, shorter: Seq<Delivery>) -> Seq<Delivery> {
    longer.skip(shorter.len() as int)
}

/// A history that got `trace` behind it extends the old one by `trace`.
pub proof fn lemma_appended(start: Seq<Delivery>, trace: Seq<Delivery>)
    ensures
        extends(start + trace, start),
        since(start + trace, start) == trace,
{
    assert((start + trace).take(start.len() as int) =~= start);
    assert((start + trace).skip(start.len() as int) =~= trace);
}

/// A history that was extended twice: what it got in all is what it got
/// first, as long as `middle` has it, followed by what it got then.
pub proof fn lemma_extended_twice(start: Seq<Delivery>, middle: Seq<Delivery>, end: Seq<Delivery>)
    requires
        extends(middle, start),
        extends(end, middle),
    ensures
        extends(end, start),
        since(end, start).take(middle.len() - start.len()) == since(middle, start),
        since(end, start).skip(middle.len() - start.len()) == since(end, middle),
{
    let k = middle.len() - start.len();
    assert(end.take(start.len() as int) =~= middle.take(start.len() as int));
    assert(since(end, start).take(k) =~= since(middle, start));
    assert(since(end, start).skip(k) =~= since(end, middle));
}

/// `trace` is what dispatching `backlog` leaves behind: the messages in
/// arrival order, each one delivered but possibly the last, none skipped, and
/// an end before the backlog's end only at a message that was not delivered.
pub open spec fn follows(backlog: Seq<Message>, trace: Seq<Delivery>) -> bool {
    &&& trace.len() <= backlog.len()
    &&& (backlog.len() > 0 ==> trace.len() > 0)
    &&& forall|i: int| 0 <= i < trace.len() ==> (#[trigger] trace[i]).message == backlog[i]
    &&& forall|i: int| 0 <= i < trace.len() ==> (#[trigger] trace[i]).rightly_handed()
    &&& forall|i: int| 0 <= i < trace.len() - 1 ==> (#[trigger] trace[i]).delivered()
    &&& (trace.len() < backlog.len() ==> !trace.last().delivered())
}

/// What a dispatch call returns after `trace`: the number of deliveries, or
/// the failure at its last message.
pub open spec fn outcome(trace: Seq<Delivery>) -> Result<int, Failure> {
    if trace.len() == 0 {
        Ok(0)
    } else {
        let last = trace.last();
        match last.interface() {
            None => Err(Failure::UnknownObject(last.message.sender_id)),
            Some(name) => if last.accepted {
                Ok(trace.len() as int)
            } else {
                Err(Failure::Dispatch(name, last.message.sender_id))
            },
        }
    }
}

/// The outcome of the display buffer's trace followed by that of the private
/// buffer: the second counts only where the first did not fail.
pub open spec fn both(first: Result<int, Failure>, second: Result<int, Failure>) -> Result<
    int,
    Failure,
> {
    match first {
        Err(f) => Err(f),
        Ok(n) => match second {
            Err(f) => Err(f),
            Ok(m) => Ok(n + m),
        },
    }
}

/// The result `r` is the outcome `expected`.
pub open spec fn reports(r: Result<u32, QueueError>, expected: Result<int, Failure>) -> bool {
    match (r, expected) {
        (Ok(n), Ok(m)) => n == m,
        (Err(e), Err(f)) => e@ == f,
        _ => false,
    }
}

/// The first message of `trace`, if there is one, was resolved among `live`.
pub open spec fn starts_from(trace: Seq<Delivery>, live: Map<u32, Seq<char>>) -> bool {
    trace.len() > 0 ==> trace[0].live == live
}

/// How many deliveries of `trace` belong to a display buffer of `display`
/// messages: all of them up to the buffer's length.
pub open spec fn display_share(display: Seq<Message>, trace: Seq<Delivery>) -> int {
    if trace.len() <= display.len() {
        trace.len() as int
    } else {
        display.len() as int
    }
}

/// `trace` is what one dispatch of the display buffer and then of the private
/// buffer leaves behind: the display buffer's messages come first, and those
/// of the private buffer only after every one of them was delivered.
pub open spec fn drains(
    display: Seq<Message>,
    private: Seq<Message>,
    trace: Seq<Delivery>,
) -> bool {
    let k = display_share(display, trace);
    &&& follows(display, trace.take(k))
    &&& match outcome(trace.take(k)) {
        Err(_) => trace.len() == k,
        Ok(_) => follows(private, trace.skip(k)),
    }
}

/// What a dispatch of both buffers returns after `trace`.
pub open spec fn drained(display: Seq<Message>, trace: Seq<Delivery>) -> Result<int, Failure> {
    let k = display_share(display, trace);
    both(outcome(trace.take(k)), outcome(trace.skip(k)))
}

/// What one dispatch of both buffers owes, whoever makes it: `trace` is what
/// it leaves behind of `display` and `private`, the first sender was looked up
/// among `live`, `r` is the outcome, the display buffer ends empty, and the
/// private buffer ends empty, or as it was where the display buffer failed.
pub open spec fn pending_done(
    display: Seq<Message>,
    private: Seq<Message>,
    live: Map<u32, Seq<char>>,
    trace: Seq<Delivery>,
    r: Result<u32, QueueError>,
    display_after: Seq<Message>,
    private_after: Seq<Message>,
) -> bool {
    &&& drains(display, private, trace)
    &&& reports(r, drained(display, trace))
    &&& starts_from(trace, live)
    &&& display_after.len() == 0
    &&& private_after =~= left_waiting(display, private, trace)
}

/// What the private buffer holds after a dispatch of both buffers: nothing,
/// or all of it where the display buffer failed.
pub open spec fn left_waiting(
    display: Seq<Message>,
    private: Seq<Message>,
    trace: Seq<Delivery>,
) -> Seq<Message> {
    if outcome(trace.take(display_share(display, trace))) is Err {
        private
    } else {
        Seq::empty()
    }
}

/// The handler of the object `id` took a message in `trace`.
pub open spec fn heard_from(trace: Seq<Delivery>, id: u32) -> bool {
    exists|i: int|
        0 <= i < trace.len() && (#[trigger] trace[i]).message.sender_id == id
            && trace[i].delivered()
}

/// Messages are dispatched in arrival order, and those of the display buffer
/// before those of the private buffer: the messages of a dispatch's trace are
/// the first of the display buffer's followed by the private buffer's.
pub proof fn lemma_arrival_order(display: Seq<Message>, private: Seq<Message>, trace: Seq<Delivery>)
    requires
        drains(display, private, trace),
    ensures
        trace.len() <= display.len() + private.len(),
        forall|i: int|
            0 <= i < trace.len() ==> (#[trigger] trace[i]).message == (display + private)[i],
        trace.len() > display.len() ==> forall|i: int|
            0 <= i < display.len() ==> (#[trigger] trace[i]).delivered(),
{
    let k = display_share(display, trace);
    let head = trace.take(k);
    let tail = trace.skip(k);
    assert(forall|i: int| 0 <= i < head.len() ==> head[i] == trace[i]);
    assert(forall|i: int| 0 <= i < tail.len() ==> tail[i] == trace[i + k]);
    assert forall|i: int| 0 <= i < trace.len() implies (#[trigger] trace[i]).message == (display
        + private)[i] by {
        if i < k {
            assert(head[i].message == display[i]);
        } else {
            assert(tail[i - k].message == private[i - k]);
        }
    }
    if trace.len() > display.len() {
        assert forall|i: int| 0 <= i < display.len() implies (#[trigger] trace[i]).delivered() by {
            assert(head[i].delivered());
        }
    }
}

/// Every message of `trace` was delivered.
pub open spec fn all_delivered(trace: Seq<Delivery>) -> bool {
    forall|i: int| 0 <= i < trace.len() ==> (#[trigger] trace[i]).delivered()
}

/// A dispatch in which every sender was live and every handler took its
/// message hands on exactly the messages of the display buffer followed by
/// those of the private buffer, none left out, repeated or out of order, and
/// returns their number.
pub proof fn lemma_all_delivered(
    display: Seq<Message>,
    private: Seq<Message>,
    trace: Seq<Delivery>,
)
    requires
        drains(display, private, trace),
        all_delivered(trace),
    ensures
        trace.len() == display.len() + private.len(),
        forall|i: int|
            0 <= i < trace.len() ==> (#[trigger] trace[i]).message == (display + private)[i],
        forall|i: int| 0 <= i < trace.len() ==> (#[trigger] trace[i]).rightly_handed(),
        drained(display, trace) == Ok::<int, Failure>((display.len() + private.len()) as int),
{
    let k = display_share(display, trace);
    let head = trace.take(k);
    let tail = trace.skip(k);
    assert(forall|i: int| 0 <= i < head.len() ==> head[i] == trace[i]);
    assert(forall|i: int| 0 <= i < tail.len() ==> tail[i] == trace[i + k]);
    if head.len() > 0 {
        assert(head.last().delivered());
    }
    assert(head.len() == display.len());
    if tail.len() > 0 {
        assert(tail.last().delivered());
    }
    assert(tail.len() == private.len());
    lemma_arrival_order(display, private, trace);
    assert forall|i: int| 0 <= i < trace.len() implies (#[trigger] trace[i]).rightly_handed() by {
        if i < k {
            assert(head[i].rightly_handed());
        } else {
            assert(tail[i - k].rightly_handed());
        }
    }
}

/// The order of a dispatch depends on what the two buffers hold and on
/// nothing else: two dispatches of the same buffers in which everything was
/// delivered hand on the same messages in the same order, and return the
/// same number.
pub proof fn lemma_order_depends_on_contents(
    display: Seq<Message>,
    private: Seq<Message>,
    first: Seq<Delivery>,
    second: Seq<Delivery>,
)
    requires
        drains(display, private, first),
        drains(display, private, second),
        all_delivered(first),
        all_delivered(second),
    ensures
        first.len() == second.len(),
        forall|i: int| 0 <= i < first.len() ==> (#[trigger] first[i]).message == second[i].message,
        drained(display, first) == drained(display, second),
{
    lemma_all_delivered(display, private, first);
    lemma_all_delivered(display, private, second);
}

/// With nothing waiting in either buffer, a dispatch delivers nothing and
/// returns 0.
pub proof fn lemma_nothing_waits(trace: Seq<Delivery>)
    requires
        drains(Seq::empty(), Seq::empty(), trace),
    ensures
        trace.len() == 0,
        drained(Seq::empty(), trace) == Ok::<int, Failure>(0),
{
    assert(trace.take(0).len() == 0);
    assert(trace.skip(0) =~= trace);
}

/// A message whose sender is not live when it is looked up fails the
/// dispatch, and the failure names the sender's id.
pub proof fn lemma_unknown_sender_named(
    display: Seq<Message>,
    private: Seq<Message>,
    trace: Seq<Delivery>,
    i: int,
)
    requires
        drains(display, private, trace),
        0 <= i < trace.len(),
        trace[i].interface() is None,
    ensures
        i == trace.len() - 1,
        drained(display, trace) == Err::<int, Failure>(
            Failure::UnknownObject(trace[i].message.sender_id),
        ),
{
    let k = display_share(display, trace);
    let head = trace.take(k);
    let tail = trace.skip(k);
    assert(forall|j: int| 0 <= j < head.len() ==> head[j] == trace[j]);
    assert(forall|j: int| 0 <= j < tail.len() ==> tail[j] == trace[j + k]);
    if i < k {
        assert(!head[i].delivered());
    } else {
        assert(!tail[i - k].delivered());
    }
}

/// A queue whose first waiting message comes from an id that is not live
/// fails at once: nothing is delivered, and the failure names that id.
pub proof fn lemma_first_sender_unknown(
    display: Seq<Message>,
    private: Seq<Message>,
    trace: Seq<Delivery>,
    live: Map<u32, Seq<char>>,
)
    requires
        drains(display, private, trace),
        starts_from(trace, live),
        display.len() + private.len() > 0,
        lookup(live, (display + private)[0].sender_id) is None,
    ensures
        trace.len() == 1,
        drained(display, trace) == Err::<int, Failure>(
            Failure::UnknownObject((display + private)[0].sender_id),
        ),
{
    let k = display_share(display, trace);
    assert(trace.take(k).len() == k);
    assert(trace.skip(k).len() == trace.len() - k);
    if display.len() == 0 {
        assert(trace.skip(0) =~= trace);
    }
    lemma_arrival_order(display, private, trace);
    assert(trace.len() > 0);
    lemma_unknown_sender_named(display, private, trace, 0);
}

} // verus!
