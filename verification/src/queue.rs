//! Event queues: the read claim and the dispatch of waiting messages.

use crate::buffer::{
    contains_sender, create_queue_buffer, fits, lemma_routed_parts, own_share, routed, taken,
    waits_in, Frame, BUFFER_LIMIT, DISPLAY_ID,
};
use crate::error::{read_failure, Failure, QueueError, ReadError};
use crate::message::Message;
use crate::objects::{live_objects, ObjectHandle, Objects};
use crate::trace::{
    display_share, drained, drains, extends, follows, heard_from, lemma_appended,
    left_waiting, lemma_extended_twice, lemma_nothing_waits, outcome, pending_done, reports,
    since, starts_from, Delivery,
};
use std::collections::VecDeque;
use vstd::prelude::*;

verus! {

/// The handler of an object: it is given a message that the object sent, the
/// object, and the store, in which it may look up or register the objects that
/// the message's arguments name. It answers `Err` where it refuses the message.
pub trait Dispatcher {
    fn dispatch(&mut self, msg: Message, object: &ObjectHandle, objects: &mut Objects) -> Result<
        (),
        (),
    >;
}

/// What the answer of a handler makes of the call that asked it: a refusal
/// fails the call and names the object's interface and id.
pub fn settle(object: ObjectHandle, answer: Result<(), ()>) -> (r: Result<(), QueueError>)
    ensures
        answer is Ok ==> r is Ok,
        answer is Err ==> (r matches Err(e) && e@ == Failure::Dispatch(
            object.interface@,
            object.id,
        )),
{
    match answer {
        Ok(()) => Ok(()),
        Err(()) => Err(QueueError::Dispatch { interface: object.interface, id: object.id }),
    }
}

/// Takes every message out of `buffer` and hands them in arrival order to
/// `handler`, each with the object that sent it, until one names no live
/// object or is refused. What was not handed over by then is dropped. `log`
/// grows by one entry for each message that was looked up.
pub(crate) fn dispatch_buffer<D: Dispatcher>(
    buffer: &mut VecDeque<Message>,
    objects: &mut Objects,
    handler: &mut D,
    log: &mut Ghost<Seq<Delivery>>,
) -> (r: Result<u32, QueueError>)
    requires
        old(buffer)@.len() <= u32::MAX,
    ensures
        final(buffer)@.len() == 0,
        extends(final(log)@, old(log)@),
        follows(old(buffer)@, since(final(log)@, old(log)@)),
        reports(r, outcome(since(final(log)@, old(log)@))),
        starts_from(since(final(log)@, old(log)@), live_objects(*old(objects))),
        final(log)@.len() == old(log)@.len() ==> live_objects(*final(objects)) == live_objects(
            *old(objects),
        ),
{
    let ghost backlog = buffer@;
    let ghost start = log@;
    let ghost live_before = live_objects(*objects);
    let ghost mut trace: Seq<Delivery> = Seq::empty();
    let mut count: u32 = 0;
    loop
        invariant
            backlog == old(buffer)@,
            start == old(log)@,
            live_before == live_objects(*old(objects)),
            backlog.len() <= u32::MAX,
            count <= backlog.len(),
            buffer@ == backlog.skip(count as int),
            trace.len() == count,
            log@ == start,
            forall|i: int| 0 <= i < trace.len() ==> (#[trigger] trace[i]).message == backlog[i],
            forall|i: int| 0 <= i < trace.len() ==> (#[trigger] trace[i]).delivered(),
            forall|i: int| 0 <= i < trace.len() ==> (#[trigger] trace[i]).rightly_handed(),
            starts_from(trace, live_before),
            count == 0 ==> live_objects(*objects) == live_before,
        decreases buffer@.len(),
    {
        match buffer.pop_front() {
            None => {
                *log = Ghost(start + trace);
                proof {
                    lemma_appended(start, trace);
                }
                return Ok(count);
            },
            Some(msg) => {
                let id = msg.sender_id;
                let ghost unknown = Delivery {
                    message: msg,
                    live: live_objects(*objects),
                    handle: None,
                    accepted: false,
                };
                match objects.find(id) {
                    None => {
                        buffer.clear();
                        *log = Ghost(start + trace.push(unknown));
                        proof {
                            lemma_appended(start, trace.push(unknown));
                        }
                        return Err(QueueError::UnknownObject(id));
                    },
                    Some(object) => {
                        let ghost entry = Delivery {
                            handle: Some((object.id, object.interface@)),
                            ..unknown
                        };
                        let answer = handler.dispatch(msg, &object, objects);
                        match settle(object, answer) {
                            Err(e) => {
                                buffer.clear();
                                *log = Ghost(start + trace.push(entry));
                                proof {
                                    lemma_appended(start, trace.push(entry));
                                }
                                return Err(e);
                            },
                            Ok(()) => {
                                proof {
                                    trace = trace.push(Delivery { accepted: true, ..entry });
                                }
                                count += 1;
                            },
                        }
                    },
                }
            },
        }
    }
}


/// The socket of a connection: it writes what is queued for the peer, and
/// reads and parses what the peer has sent.
pub trait Transport {
    /// Writes the queued requests; fails with the system's error number.
    fn flush(&mut self) -> Result<(), i32>;

    /// Reads once for the queue with the number `queue`, parses the complete
    /// frames that have arrived, and gives them, each with the number of the
    /// queue that its sender belongs to, behind the frames that it has kept
    /// for that queue.
    fn read_events(&mut self, queue: u64) -> Result<VecDeque<Frame>, ReadError>;

    /// Keeps the frames that a read gave for other queues than the reader,
    /// for their reads.
    fn keep(&mut self, frames: VecDeque<Frame>);
}

/// What the event queues of one connection share: the object store, the
/// display buffer, the read claim with the number of the queue that holds it,
/// and the count of the queues made so far.
pub struct Connection {
    pub objects: Objects,
    pub display_buffer: VecDeque<Message>,
    pub claim: Option<u64>,
    pub queues: u64,
}

/// One event queue: its private buffer, its number among the queues of its
/// connection, and the record of what it has handed to handlers.
pub struct EventQueueInner {
    pub buffer: VecDeque<Message>,
    pub id: u64,
    pub delivered: Ghost<Seq<Delivery>>,
}

/// The claim after the queue `id` has given it back: free where that queue
/// held it, as before where it did not.
pub open spec fn released(claim: Option<u64>, id: u64) -> Option<u64> {
    if claim == Some(id) {
        None
    } else {
        claim
    }
}

/// What a dispatch does next.
#[derive(Debug)]
pub enum Step {
    /// Write the queued requests to the peer.
    Flush,
    /// Read once from the connection.
    Read,
    /// Dispatch what waits.
    Dispatch,
}

/// What one round of a roundtrip owes once the reading is over, whoever
/// makes it: what a dispatch of both buffers owes, with the failure of a
/// dispatch that failed, and otherwise the total, done exactly where a
/// message of `callback` waited.
pub open spec fn sync_done(
    display: Seq<Message>,
    private: Seq<Message>,
    live: Map<u32, Seq<char>>,
    trace: Seq<Delivery>,
    r: Result<Roundtrip, QueueError>,
    callback: u32,
    so_far: u64,
    display_after: Seq<Message>,
    private_after: Seq<Message>,
) -> bool {
    &&& drains(display, private, trace)
    &&& starts_from(trace, live)
    &&& display_after.len() == 0
    &&& private_after =~= left_waiting(display, private, trace)
    &&& match drained(display, trace) {
        Ok(n) => progress(
            r,
            waits_in(display, callback) || waits_in(private, callback),
            so_far + n,
        ),
        Err(f) => r matches Err(e) && e@ == f,
    }
}

/// The result `r` says that a roundtrip is done or not, as `done` has it, with
/// `total` messages dispatched.
pub open spec fn progress(r: Result<Roundtrip, QueueError>, done: bool, total: int) -> bool {
    match r {
        Ok(Roundtrip::Done(n)) => done && n == total,
        Ok(Roundtrip::Waiting(n)) => !done && n == total,
        Err(_) => false,
    }
}

/// How far a synchronization roundtrip has come, with the number of messages
/// dispatched since it began.
#[derive(Debug)]
pub enum Roundtrip {
    /// The reply has not been dispatched yet.
    Waiting(u64),
    /// The reply has been dispatched.
    Done(u64),
}

impl Connection {
    /// The number of the queue that holds the read claim, if one does.
    pub open spec fn claimed_by(self) -> Option<u64> {
        self.claim
    }

    /// How many queues this connection has made.
    pub open spec fn queues_made(self) -> u64 {
        self.queues
    }

    /// The claim, where it is held, is held by a queue that this connection
    /// has made.
    pub open spec fn wf(self) -> bool {
        self.claimed_by() matches Some(holder) ==> holder < self.queues_made()
    }

    /// The shared state of a fresh connection: no waiting message, no claim,
    /// no queue.
    pub fn new(objects: Objects) -> (connection: Connection)
        ensures
            connection.objects == objects,
            connection.display_buffer@.len() == 0,
            connection.claimed_by() is None,
            connection.queues_made() == 0,
            connection.wf(),
    {
        Connection { objects, display_buffer: VecDeque::new(), claim: None, queues: 0 }
    }

    /// Whether some queue holds the read claim.
    pub fn read_claimed(&self) -> (claimed: bool)
        ensures
            claimed == self.claimed_by() is Some,
    {
        self.claim.is_some()
    }
}

impl EventQueueInner {
    /// The deliveries that this queue has made so far.
    pub open spec fn history(self) -> Seq<Delivery> {
        self.delivered@
    }

    /// The number of this queue among the queues of its connection.
    pub open spec fn id(self) -> u64 {
        self.id
    }

    /// This queue is one of those that `connection` has made.
    pub open spec fn belongs_to(self, connection: Connection) -> bool {
        self.id() < connection.queues_made()
    }

    /// This queue holds the read claim of `connection`.
    pub open spec fn holds_claim(self, connection: Connection) -> bool {
        connection.claimed_by() == Some(self.id())
    }

    /// This queue may take the read claim: none of its two buffers holds a
    /// message, and nobody holds the claim.
    pub open spec fn may_claim(self, connection: Connection) -> bool {
        &&& connection.display_buffer@.len() == 0
        &&& self.buffer@.len() == 0
        &&& connection.claimed_by() is None
    }

    /// A new queue of `connection`, on the given buffer or on a fresh one. It
    /// gets the next number, holds no claim and has delivered nothing.
    pub fn new(connection: &mut Connection, buffer: Option<VecDeque<Message>>) -> (queue:
        EventQueueInner)
        requires
            old(connection).queues_made() < u64::MAX,
        ensures
            buffer matches Some(given) ==> queue.buffer == given,
            buffer is None ==> queue.buffer@.len() == 0,
            queue.id() == old(connection).queues_made(),
            queue.belongs_to(*final(connection)),
            queue.history().len() == 0,
            old(connection).wf() ==> final(connection).wf(),
            final(connection).queues_made() == old(connection).queues_made() + 1,
            final(connection).claimed_by() == old(connection).claimed_by(),
            final(connection).display_buffer == old(connection).display_buffer,
            final(connection).objects == old(connection).objects,
    {
        let buffer = match buffer {
            Some(given) => given,
            None => create_queue_buffer(),
        };
        let id: u64 = connection.queues;
        connection.queues = id + 1;
        EventQueueInner { buffer, id, delivered: Ghost(Seq::empty()) }
    }

    /// Whether this queue holds the read claim of `connection`.
    pub fn has_claim(&self, connection: &Connection) -> (held: bool)
        ensures
            held == self.holds_claim(*connection),
    {
        match connection.claim {
            Some(holder) => holder == self.id,
            None => false,
        }
    }

    /// Asks for the right to make the next read of the connection. It is
    /// granted exactly where no message waits for this queue and nobody holds
    /// it; a refusal changes nothing.
    pub fn prepare_read(&mut self, connection: &mut Connection) -> (claim: Result<(), ()>)
        ensures
            claim is Ok <==> old(self).may_claim(*old(connection)),
            claim is Ok ==> final(connection).claimed_by() == Some(old(self).id()),
            claim is Err ==> final(connection).claimed_by() == old(connection).claimed_by(),
            old(connection).wf() && old(self).belongs_to(*old(connection))
                ==> final(connection).wf(),
            final(connection).queues_made() == old(connection).queues_made(),
            final(self).id() == old(self).id(),
            final(self).buffer == old(self).buffer,
            final(self).history() == old(self).history(),
            final(connection).display_buffer == old(connection).display_buffer,
            final(connection).objects == old(connection).objects,
    {
        if connection.claim.is_some() || connection.display_buffer.len() != 0
            || self.buffer.len() != 0 {
            Err(())
        } else {
            connection.claim = Some(self.id);
            Ok(())
        }
    }

    /// Gives back the claim without a read, where this queue holds it; does
    /// nothing where it does not.
    pub fn cancel_read(&mut self, connection: &mut Connection)
        ensures
            final(connection).claimed_by() == released(
                old(connection).claimed_by(),
                old(self).id(),
            ),
            final(connection).queues_made() == old(connection).queues_made(),
            final(self).id() == old(self).id(),
            final(self).buffer == old(self).buffer,
            final(self).history() == old(self).history(),
            final(connection).display_buffer == old(connection).display_buffer,
            final(connection).objects == old(connection).objects,
    {
        if self.has_claim(connection) {
            connection.claim = None;
        }
    }

    /// Dispatches what waits, without reading: first every message of the
    /// display buffer, then every message of the private buffer, each buffer
    /// in arrival order. A message from an id that names no live object, or
    /// one that its handler refuses, ends the call with the failure that
    /// names it; the rest of the buffer it stood in is dropped, and the
    /// private buffer is left alone where the display buffer failed.
    pub fn dispatch_pending<D: Dispatcher>(
        &mut self,
        connection: &mut Connection,
        handler: &mut D,
    ) -> (r: Result<u32, QueueError>)
        requires
            old(connection).display_buffer@.len() + old(self).buffer@.len() <= u32::MAX,
        ensures
            extends(final(self).history(), old(self).history()),
            pending_done(
                old(connection).display_buffer@,
                old(self).buffer@,
                live_objects(old(connection).objects),
                since(final(self).history(), old(self).history()),
                r,
                final(connection).display_buffer@,
                final(self).buffer@,
            ),
            final(self).history() == old(self).history() ==> live_objects(
                final(connection).objects,
            ) == live_objects(old(connection).objects),
            old(connection).display_buffer@.len() + old(self).buffer@.len() == 0 ==> reports(
                r,
                Ok(0int),
            ) && final(self).history() == old(self).history(),
            final(self).id() == old(self).id(),
            final(connection).claimed_by() == old(connection).claimed_by(),
            final(connection).queues_made() == old(connection).queues_made(),
    {
        let ghost start = self.delivered@;
        let ghost display = connection.display_buffer@;
        let ghost private = self.buffer@;
        let display_dispatched = match dispatch_buffer(
            &mut connection.display_buffer,
            &mut connection.objects,
            handler,
            &mut self.delivered,
        ) {
            Ok(n) => n,
            Err(e) => {
                proof {
                    let trace = self.delivered@.skip(start.len() as int);
                    assert(trace.take(trace.len() as int) =~= trace);
                    assert(trace.skip(trace.len() as int) =~= Seq::<Delivery>::empty());
                }
                return Err(e);
            },
        };
        let ghost middle = self.delivered@;
        let self_dispatched = match dispatch_buffer(
            &mut self.buffer,
            &mut connection.objects,
            handler,
            &mut self.delivered,
        ) {
            Ok(n) => n,
            Err(e) => {
                proof {
                    lemma_extended_twice(start, middle, self.delivered@);
                }
                return Err(e);
            },
        };
        proof {
            let trace = since(self.delivered@, start);
            lemma_extended_twice(start, middle, self.delivered@);
            if display.len() + private.len() == 0 {
                assert(display =~= Seq::empty());
                assert(private =~= Seq::empty());
                lemma_nothing_waits(trace);
                assert(self.delivered@ =~= start);
            }
        }
        Ok(display_dispatched + self_dispatched)
    }

    /// Takes in what one read of the connection gave to this queue. The
    /// claim, where this queue holds it, is given back. The frames of a read
    /// that succeeded are put behind what waits, those of the control object
    /// in the display buffer and the others, which are this queue's, in the
    /// private buffer, and counted; they are refused as a violation of the
    /// protocol where a buffer would grow beyond `BUFFER_LIMIT`. A read that
    /// failed fails the call.
    pub fn enqueue(
        &mut self,
        connection: &mut Connection,
        read: Result<VecDeque<Message>, ReadError>,
    ) -> (r: Result<i32, QueueError>)
        ensures
            final(connection).claimed_by() == released(
                old(connection).claimed_by(),
                old(self).id(),
            ),
            final(connection).queues_made() == old(connection).queues_made(),
            final(self).id() == old(self).id(),
            final(self).history() == old(self).history(),
            final(connection).objects == old(connection).objects,
            match read {
                Err(e) => r matches Err(f) && f@ == read_failure(e),
                Ok(frames) => if fits(
                    old(connection).display_buffer@,
                    old(self).buffer@,
                    frames@,
                ) {
                    r matches Ok(n) && n == frames@.len()
                } else {
                    r matches Err(f) && f@ == Failure::Protocol
                },
            },
            final(connection).display_buffer@ =~= old(connection).display_buffer@ + taken(
                old(connection).display_buffer@,
                old(self).buffer@,
                read,
                true,
            ),
            final(self).buffer@ =~= old(self).buffer@ + taken(
                old(connection).display_buffer@,
                old(self).buffer@,
                read,
                false,
            ),
    {
        self.cancel_read(connection);
        let mut frames = match read {
            Ok(frames) => frames,
            Err(e) => {
                return Err(QueueError::from_read(e));
            },
        };
        let total = frames.len();
        if connection.display_buffer.len() > BUFFER_LIMIT || self.buffer.len() > BUFFER_LIMIT
            || total > BUFFER_LIMIT - connection.display_buffer.len() || total > BUFFER_LIMIT
            - self.buffer.len() {
            return Err(QueueError::Protocol);
        }
        let ghost all = frames@;
        let ghost display = connection.display_buffer@;
        let ghost private = self.buffer@;
        let mut moved: usize = 0;
        loop
            invariant
                read is Ok,
                read->Ok_0@ == all,
                display == old(connection).display_buffer@,
                private == old(self).buffer@,
                fits(display, private, all),
                total == all.len(),
                moved <= total,
                frames@ == all.skip(moved as int),
                connection.display_buffer@ =~= display + routed(all.take(moved as int), true),
                self.buffer@ =~= private + routed(all.take(moved as int), false),
                connection.objects == old(connection).objects,
                connection.claimed_by() == released(old(connection).claimed_by(), old(self).id()),
                connection.queues_made() == old(connection).queues_made(),
                self.id() == old(self).id(),
                self.history() == old(self).history(),
            decreases frames@.len(),
        {
            match frames.pop_front() {
                None => {
                    proof {
                        assert(all.take(moved as int) =~= all);
                    }
                    return Ok(total as i32);
                },
                Some(message) => {
                    proof {
                        assert(all.take(moved + 1).drop_last() =~= all.take(moved as int));
                        assert(all.take(moved + 1).last() == message);
                    }
                    if message.sender_id == DISPLAY_ID {
                        connection.display_buffer.push_back(message);
                    } else {
                        self.buffer.push_back(message);
                    }
                    moved += 1;
                },
            }
        }
    }

    /// What a queue does first in a dispatch: it asks for the read claim, and
    /// flushes where it was granted, or dispatches what waits where it was
    /// not.
    pub fn first_step(&mut self, connection: &mut Connection) -> (step: Step)
        ensures
            step == if old(self).may_claim(*old(connection)) {
                Step::Flush
            } else {
                Step::Dispatch
            },
            final(connection).claimed_by() == if old(self).may_claim(*old(connection)) {
                Some(old(self).id())
            } else {
                old(connection).claimed_by()
            },
            final(connection).queues_made() == old(connection).queues_made(),
            final(self).id() == old(self).id(),
            final(self).buffer == old(self).buffer,
            final(self).history() == old(self).history(),
            final(connection).display_buffer == old(connection).display_buffer,
            final(connection).objects == old(connection).objects,
    {
        match self.prepare_read(connection) {
            Ok(()) => Step::Flush,
            Err(()) => Step::Dispatch,
        }
    }

    /// What follows the flush of the queued requests: the read where the
    /// flush succeeded, with the claim kept; where it failed, the claim is
    /// given back and the call fails with the error number of the flush.
    /// Nothing else changes.
    pub fn after_flush(&mut self, connection: &mut Connection, flushed: Result<(), i32>) -> (r:
        Result<Step, QueueError>)
        ensures
            match flushed {
                Ok(_) => {
                    &&& r matches Ok(Step::Read)
                    &&& final(connection).claimed_by() == old(connection).claimed_by()
                },
                Err(errno) => {
                    &&& r matches Err(e)
                    &&& e@ == Failure::Transport(errno)
                    &&& final(connection).claimed_by() == released(
                        old(connection).claimed_by(),
                        old(self).id(),
                    )
                },
            },
            final(connection).queues_made() == old(connection).queues_made(),
            final(self).id() == old(self).id(),
            final(self).buffer == old(self).buffer,
            final(self).history() == old(self).history(),
            final(connection).display_buffer == old(connection).display_buffer,
            final(connection).objects == old(connection).objects,
    {
        match flushed {
            Ok(()) => Ok(Step::Read),
            Err(errno) => {
                self.cancel_read(connection);
                Err(QueueError::Transport(errno))
            },
        }
    }

    /// Takes in what one read of the connection gave, as `enqueue` does, and
    /// dispatches what then waits, as `dispatch_pending` does. Nothing is
    /// dispatched where the read failed or its frames were refused.
    pub fn dispatch_read<D: Dispatcher>(
        &mut self,
        connection: &mut Connection,
        read: Result<VecDeque<Message>, ReadError>,
        handler: &mut D,
    ) -> (r: Result<u32, QueueError>)
        ensures
            extends(final(self).history(), old(self).history()),
            final(connection).claimed_by() == released(
                old(connection).claimed_by(),
                old(self).id(),
            ),
            final(connection).queues_made() == old(connection).queues_made(),
            final(self).id() == old(self).id(),
            final(self).history() == old(self).history() ==> live_objects(
                final(connection).objects,
            ) == live_objects(old(connection).objects),
            match read {
                Ok(frames) if fits(old(connection).display_buffer@, old(self).buffer@, frames@) => {
                    pending_done(
                        old(connection).display_buffer@ + routed(frames@, true),
                        old(self).buffer@ + routed(frames@, false),
                        live_objects(old(connection).objects),
                        since(final(self).history(), old(self).history()),
                        r,
                        final(connection).display_buffer@,
                        final(self).buffer@,
                    )
                },
                Ok(_) => {
                    &&& r matches Err(f)
                    &&& f@ == Failure::Protocol
                    &&& final(self).history() == old(self).history()
                    &&& final(connection).display_buffer@ == old(connection).display_buffer@
                    &&& final(self).buffer@ == old(self).buffer@
                },
                Err(e) => {
                    &&& r matches Err(f)
                    &&& f@ == read_failure(e)
                    &&& final(self).history() == old(self).history()
                    &&& final(connection).display_buffer@ == old(connection).display_buffer@
                    &&& final(self).buffer@ == old(self).buffer@
                },
            },
    {
        proof {
            if read is Ok {
                lemma_routed_parts(read->Ok_0@);
            }
        }
        match self.enqueue(connection, read) {
            Ok(_) => {},
            Err(e) => {
                return Err(e);
            },
        }
        self.dispatch_pending(connection, handler)
    }

    /// Reads if there is nothing to do, then dispatches what waits.
    ///
    /// Where a message waits in one of this queue's buffers, or a queue holds
    /// the claim, the transport is not touched and the call is
    /// `dispatch_pending`. Otherwise the steps are `first_step`, the flush,
    /// `after_flush`, one read, `own_share`, which leaves the frames of other
    /// queues with the transport, and `dispatch_read`: what the call returns
    /// and leaves behind is what those say for what the flush and the read
    /// gave.
    pub fn dispatch<T: Transport, D: Dispatcher>(
        &mut self,
        connection: &mut Connection,
        transport: &mut T,
        handler: &mut D,
    ) -> (r: Result<u32, QueueError>)
        requires
            old(connection).display_buffer@.len() + old(self).buffer@.len() <= u32::MAX,
        ensures
            extends(final(self).history(), old(self).history()),
            starts_from(
                since(final(self).history(), old(self).history()),
                live_objects(old(connection).objects),
            ),
            final(self).history() == old(self).history() ==> live_objects(
                final(connection).objects,
            ) == live_objects(old(connection).objects),
            final(connection).display_buffer@.len() == 0,
            final(self).id() == old(self).id(),
            final(connection).queues_made() == old(connection).queues_made(),
            !old(self).may_claim(*old(connection)) ==> {
                &&& *final(transport) == *old(transport)
                &&& pending_done(
                    old(connection).display_buffer@,
                    old(self).buffer@,
                    live_objects(old(connection).objects),
                    since(final(self).history(), old(self).history()),
                    r,
                    final(connection).display_buffer@,
                    final(self).buffer@,
                )
                &&& final(connection).claimed_by() == old(connection).claimed_by()
                &&& (old(connection).display_buffer@.len() + old(self).buffer@.len() == 0
                    ==> reports(r, Ok(0int)) && final(self).history() == old(self).history())
            },
            old(self).may_claim(*old(connection)) ==> {
                &&& final(connection).claimed_by() is None
                &&& (r matches Ok(n) ==> {
                    &&& n == since(final(self).history(), old(self).history()).len()
                    &&& final(self).buffer@.len() == 0
                })
                &&& (r matches Err(QueueError::Transport(_)) ==> {
                    &&& final(self).history() == old(self).history()
                    &&& final(self).buffer@.len() == 0
                })
                &&& (r matches Err(QueueError::Protocol) ==> {
                    &&& final(self).history() == old(self).history()
                    &&& final(self).buffer@.len() == 0
                })
                &&& (r matches Err(QueueError::UnknownObject(_)) ==> since(
                    final(self).history(),
                    old(self).history(),
                ).len() > 0)
                &&& (r matches Err(QueueError::Dispatch { .. }) ==> since(
                    final(self).history(),
                    old(self).history(),
                ).len() > 0)
            },
    {
        match self.first_step(connection) {
            Step::Flush => {},
            _ => {
                return self.dispatch_pending(connection, handler);
            },
        }
        let flushed = transport.flush();
        match self.after_flush(connection, flushed) {
            Ok(_) => {},
            Err(e) => {
                return Err(e);
            },
        }
        let ghost start = self.delivered@;
        let shares = own_share(transport.read_events(self.id), self.id);
        transport.keep(shares.1);
        let read = shares.0;
        let ghost display = if read is Ok {
            connection.display_buffer@ + routed(read->Ok_0@, true)
        } else {
            connection.display_buffer@
        };
        let r = self.dispatch_read(connection, read, handler);
        proof {
            lemma_count_is_length(display, since(self.delivered@, start));
        }
        r
    }

    /// The part of a synchronization roundtrip that follows a read: it
    /// dispatches what waits, as `dispatch_pending` does, and adds the number
    /// to the `so_far` messages dispatched since the roundtrip began. The
    /// roundtrip is done exactly where a message of the object `callback`,
    /// from which the reply comes, waited and everything was dispatched. A
    /// dispatch that fails fails the call with its failure.
    pub fn sync_pending<D: Dispatcher>(
        &mut self,
        connection: &mut Connection,
        handler: &mut D,
        callback: u32,
        so_far: u64,
    ) -> (r: Result<Roundtrip, QueueError>)
        requires
            old(connection).display_buffer@.len() + old(self).buffer@.len() <= u32::MAX,
            so_far <= u64::MAX - u32::MAX,
        ensures
            extends(final(self).history(), old(self).history()),
            sync_done(
                old(connection).display_buffer@,
                old(self).buffer@,
                live_objects(old(connection).objects),
                since(final(self).history(), old(self).history()),
                r,
                callback,
                so_far,
                final(connection).display_buffer@,
                final(self).buffer@,
            ),
            r is Ok ==> (r matches Ok(Roundtrip::Done(_)) <==> heard_from(
                since(final(self).history(), old(self).history()),
                callback,
            )),
            old(connection).display_buffer@.len() + old(self).buffer@.len() == 0 ==> progress(
                r,
                false,
                so_far as int,
            ) && final(self).history() == old(self).history(),
            final(self).history() == old(self).history() ==> live_objects(
                final(connection).objects,
            ) == live_objects(old(connection).objects),
            final(self).id() == old(self).id(),
            final(connection).claimed_by() == old(connection).claimed_by(),
            final(connection).queues_made() == old(connection).queues_made(),
    {
        let ghost start = self.delivered@;
        let ghost display = connection.display_buffer@;
        let ghost private = self.buffer@;
        let waiting = contains_sender(&connection.display_buffer, callback) || contains_sender(
            &self.buffer,
            callback,
        );
        match self.dispatch_pending(connection, handler) {
            Err(e) => Err(e),
            Ok(n) => {
                proof {
                    lemma_heard_when_drained(
                        display,
                        private,
                        since(self.delivered@, start),
                        callback,
                    );
                }
                let total = so_far + n as u64;
                if waiting {
                    Ok(Roundtrip::Done(total))
                } else {
                    Ok(Roundtrip::Waiting(total))
                }
            },
        }
    }

    /// Takes in what one read of the connection gave, as `enqueue` does, and
    /// goes on as `sync_pending` does. Nothing is dispatched where the read
    /// failed or its frames were refused.
    pub fn sync_read<D: Dispatcher>(
        &mut self,
        connection: &mut Connection,
        read: Result<VecDeque<Message>, ReadError>,
        handler: &mut D,
        callback: u32,
        so_far: u64,
    ) -> (r: Result<Roundtrip, QueueError>)
        requires
            so_far <= u64::MAX - u32::MAX,
        ensures
            extends(final(self).history(), old(self).history()),
            final(connection).claimed_by() == released(
                old(connection).claimed_by(),
                old(self).id(),
            ),
            final(connection).queues_made() == old(connection).queues_made(),
            final(self).id() == old(self).id(),
            final(self).history() == old(self).history() ==> live_objects(
                final(connection).objects,
            ) == live_objects(old(connection).objects),
            match read {
                Ok(frames) if fits(old(connection).display_buffer@, old(self).buffer@, frames@) => {
                    sync_done(
                        old(connection).display_buffer@ + routed(frames@, true),
                        old(self).buffer@ + routed(frames@, false),
                        live_objects(old(connection).objects),
                        since(final(self).history(), old(self).history()),
                        r,
                        callback,
                        so_far,
                        final(connection).display_buffer@,
                        final(self).buffer@,
                    )
                },
                Ok(_) => {
                    &&& r matches Err(f)
                    &&& f@ == Failure::Protocol
                    &&& final(self).history() == old(self).history()
                    &&& final(connection).display_buffer@ == old(connection).display_buffer@
                    &&& final(self).buffer@ == old(self).buffer@
                },
                Err(e) => {
                    &&& r matches Err(f)
                    &&& f@ == read_failure(e)
                    &&& final(self).history() == old(self).history()
                    &&& final(connection).display_buffer@ == old(connection).display_buffer@
                    &&& final(self).buffer@ == old(self).buffer@
                },
            },
    {
        proof {
            if read is Ok {
                lemma_routed_parts(read->Ok_0@);
            }
        }
        match self.enqueue(connection, read) {
            Ok(_) => {},
            Err(e) => {
                return Err(e);
            },
        }
        self.sync_pending(connection, handler, callback, so_far)
    }

    /// One round of a synchronization roundtrip that waits for a message of
    /// the object `callback`. Where a message waits in one of this queue's
    /// buffers, or a queue holds the claim, the transport is not touched and
    /// the call is `sync_pending`. Otherwise the steps are `first_step`, the
    /// flush, `after_flush`, one read, `own_share`, which leaves the frames of
    /// other queues with the transport, and `sync_read`. A caller repeats the
    /// round, handing each total to the next, until it is done or fails.
    pub fn sync_roundtrip<T: Transport, D: Dispatcher>(
        &mut self,
        connection: &mut Connection,
        transport: &mut T,
        handler: &mut D,
        callback: u32,
        so_far: u64,
    ) -> (r: Result<Roundtrip, QueueError>)
        requires
            old(connection).display_buffer@.len() + old(self).buffer@.len() <= u32::MAX,
            so_far <= u64::MAX - u32::MAX,
        ensures
            extends(final(self).history(), old(self).history()),
            starts_from(
                since(final(self).history(), old(self).history()),
                live_objects(old(connection).objects),
            ),
            final(self).history() == old(self).history() ==> live_objects(
                final(connection).objects,
            ) == live_objects(old(connection).objects),
            final(connection).display_buffer@.len() == 0,
            final(self).id() == old(self).id(),
            final(connection).queues_made() == old(connection).queues_made(),
            r is Ok ==> progress(
                r,
                heard_from(since(final(self).history(), old(self).history()), callback),
                so_far + since(final(self).history(), old(self).history()).len(),
            ),
            r is Ok ==> final(self).buffer@.len() == 0,
            !old(self).may_claim(*old(connection)) ==> {
                &&& *final(transport) == *old(transport)
                &&& sync_done(
                    old(connection).display_buffer@,
                    old(self).buffer@,
                    live_objects(old(connection).objects),
                    since(final(self).history(), old(self).history()),
                    r,
                    callback,
                    so_far,
                    final(connection).display_buffer@,
                    final(self).buffer@,
                )
                &&& final(connection).claimed_by() == old(connection).claimed_by()
                &&& (old(connection).display_buffer@.len() + old(self).buffer@.len() == 0
                    ==> progress(r, false, so_far as int) && final(self).history() == old(
                    self,
                ).history())
            },
            old(self).may_claim(*old(connection)) ==> {
                &&& final(connection).claimed_by() is None
                &&& (r matches Err(QueueError::Transport(_)) ==> {
                    &&& final(self).history() == old(self).history()
                    &&& final(self).buffer@.len() == 0
                })
                &&& (r matches Err(QueueError::Protocol) ==> {
                    &&& final(self).history() == old(self).history()
                    &&& final(self).buffer@.len() == 0
                })
                &&& (r matches Err(QueueError::UnknownObject(_)) ==> since(
                    final(self).history(),
                    old(self).history(),
                ).len() > 0)
                &&& (r matches Err(QueueError::Dispatch { .. }) ==> since(
                    final(self).history(),
                    old(self).history(),
                ).len() > 0)
            },
    {
        match self.first_step(connection) {
            Step::Flush => {},
            _ => {
                let ghost start = self.delivered@;
                let ghost display = connection.display_buffer@;
                let ghost private = self.buffer@;
                let r = self.sync_pending(connection, handler, callback, so_far);
                proof {
                    lemma_count_is_length(display, since(self.delivered@, start));
                }
                return r;
            },
        }
        let flushed = transport.flush();
        match self.after_flush(connection, flushed) {
            Ok(_) => {},
            Err(e) => {
                return Err(e);
            },
        }
        let ghost start = self.delivered@;
        let shares = own_share(transport.read_events(self.id), self.id);
        transport.keep(shares.1);
        let read = shares.0;
        let ghost display = if read is Ok {
            connection.display_buffer@ + routed(read->Ok_0@, true)
        } else {
            connection.display_buffer@
        };
        let ghost private = if read is Ok {
            self.buffer@ + routed(read->Ok_0@, false)
        } else {
            self.buffer@
        };
        let r = self.sync_read(connection, read, handler, callback, so_far);
        proof {
            lemma_count_is_length(display, since(self.delivered@, start));
            if r is Ok {
                lemma_heard_when_drained(
                    display,
                    private,
                    since(self.delivered@, start),
                    callback,
                );
            }
        }
        r
    }

    /// Reads once from the connection, leaves the frames of other queues with
    /// the transport, and takes in the others, as `enqueue` does.
    pub fn read_events<T: Transport>(
        &mut self,
        connection: &mut Connection,
        transport: &mut T,
    ) -> (r: Result<i32, QueueError>)
        ensures
            final(connection).claimed_by() == released(
                old(connection).claimed_by(),
                old(self).id(),
            ),
            final(connection).queues_made() == old(connection).queues_made(),
            final(self).id() == old(self).id(),
            final(self).history() == old(self).history(),
            final(connection).objects == old(connection).objects,
            r matches Ok(n) ==> {
                &&& n >= 0
                &&& final(connection).display_buffer@.len() + final(self).buffer@.len() == old(
                    connection,
                ).display_buffer@.len() + old(self).buffer@.len() + n
                &&& final(connection).display_buffer@.len() <= BUFFER_LIMIT
                &&& final(self).buffer@.len() <= BUFFER_LIMIT
            },
            r is Err ==> {
                &&& final(connection).display_buffer@ == old(connection).display_buffer@
                &&& final(self).buffer@ == old(self).buffer@
            },
    {
        let shares = own_share(transport.read_events(self.id), self.id);
        transport.keep(shares.1);
        let read = shares.0;
        proof {
            if read is Ok {
                lemma_routed_parts(read->Ok_0@);
            }
        }
        self.enqueue(connection, read)
    }
}

/// A dispatch of both buffers that succeeds has delivered every message of
/// both, and returns their number.
pub proof fn lemma_count_is_length(display: Seq<Message>, trace: Seq<Delivery>)
    ensures
        drained(display, trace) matches Ok(n) ==> n == trace.len(),
{
    let k = display_share(display, trace);
    assert(trace.take(k).len() == k);
    assert(trace.skip(k).len() == trace.len() - k);
}

/// After a dispatch of both buffers that succeeds, the handler of an object
/// has taken a message exactly where one of its messages waited in one of the
/// buffers.
pub proof fn lemma_heard_when_drained(
    display: Seq<Message>,
    private: Seq<Message>,
    trace: Seq<Delivery>,
    id: u32,
)
    requires
        drains(display, private, trace),
        drained(display, trace) is Ok,
    ensures
        heard_from(trace, id) <==> waits_in(display, id) || waits_in(private, id),
{
    let k = display_share(display, trace);
    let head = trace.take(k);
    let tail = trace.skip(k);
    assert(head.len() == display.len());
    assert(tail.len() == private.len());
    assert(forall|i: int| 0 <= i < head.len() ==> head[i] == trace[i]);
    assert(forall|i: int| 0 <= i < tail.len() ==> tail[i] == trace[i + k]);
    if heard_from(trace, id) {
        let i = choose|i: int|
            0 <= i < trace.len() && (#[trigger] trace[i]).message.sender_id == id
                && trace[i].delivered();
        if i < k {
            assert(head[i].message == display[i]);
        } else {
            assert(tail[i - k].message == private[i - k]);
        }
    }
    if waits_in(display, id) {
        let i = choose|i: int| 0 <= i < display.len() && (#[trigger] display[i]).sender_id == id;
        assert(head[i].message == display[i]);
        assert(head[i].delivered());
        assert(trace[i].message.sender_id == id && trace[i].delivered());
    }
    if waits_in(private, id) {
        let i = choose|i: int| 0 <= i < private.len() && (#[trigger] private[i]).sender_id == id;
        assert(tail[i].message == private[i]);
        assert(tail[i].delivered());
        assert(trace[i + k].message.sender_id == id && trace[i + k].delivered());
    }
}

/// At most one queue holds the read claim of a connection: of two queues
/// with different numbers, not both hold it.
pub proof fn lemma_claim_is_exclusive(
    connection: Connection,
    one: EventQueueInner,
    other: EventQueueInner,
)
    requires
        one.id() != other.id(),
    ensures
        !(one.holds_claim(connection) && other.holds_claim(connection)),
{
}

/// While a queue holds the read claim of a connection, no queue of that
/// connection is granted it.
pub proof fn lemma_claim_held_refuses(
    connection: Connection,
    holder: EventQueueInner,
    asking: EventQueueInner,
)
    requires
        holder.holds_claim(connection),
    ensures
        !asking.may_claim(connection),
{
}

/// A queue with a message waiting in one of its buffers is not granted the
/// read claim.
pub proof fn lemma_backlog_refuses_claim(connection: Connection, queue: EventQueueInner)
    requires
        connection.display_buffer@.len() + queue.buffer@.len() > 0,
    ensures
        !queue.may_claim(connection),
{
}

} // verus!
