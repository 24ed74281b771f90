use event_queues::error::{QueueError, ReadError};
use event_queues::message::Message;
use event_queues::objects::{ObjectHandle, Objects};
use event_queues::buffer::{own_share, sort_frames, Frame, BUFFER_LIMIT, DISPLAY_ID};
use event_queues::queue::{
    Connection, Dispatcher, EventQueueInner, Roundtrip, Step, Transport,
};
use std::collections::VecDeque;

struct Counter {
    ids: Vec<u32>,
}

impl Dispatcher for Counter {
    fn dispatch(&mut self, msg: Message, _: &ObjectHandle, _: &mut Objects) -> Result<(), ()> {
        self.ids.push(msg.sender_id);
        Ok(())
    }
}

struct Script {
    flushes: u32,
    reads: u32,
    asked_by: Vec<u64>,
    calls: Vec<String>,
    flush_error: Option<i32>,
    batches: VecDeque<Result<Vec<(u32, Option<u64>)>, ReadError>>,
    kept: Vec<(u32, u64)>,
}

impl Script {
    fn new() -> Script {
        Script {
            flushes: 0,
            reads: 0,
            asked_by: Vec::new(),
            calls: Vec::new(),
            flush_error: None,
            batches: VecDeque::new(),
            kept: Vec::new(),
        }
    }

    fn batch(&mut self, senders: &[u32]) {
        self.batches.push_back(Ok(senders.iter().map(|id| (*id, None)).collect()));
    }

    fn batch_of(&mut self, frames: &[(u32, u64)]) {
        self.batches.push_back(Ok(frames.iter().map(|f| (f.0, Some(f.1))).collect()));
    }
}

impl Transport for Script {
    fn flush(&mut self) -> Result<(), i32> {
        self.flushes += 1;
        self.calls.push("flush".to_string());
        match self.flush_error {
            Some(errno) => Err(errno),
            None => Ok(()),
        }
    }

    fn keep(&mut self, frames: VecDeque<Frame>) {
        for frame in frames {
            self.kept.push((frame.message.sender_id, frame.queue));
        }
    }

    fn read_events(&mut self, queue: u64) -> Result<VecDeque<Frame>, ReadError> {
        self.reads += 1;
        self.calls.push("read".to_string());
        self.asked_by.push(queue);
        match self.batches.pop_front() {
            None => Ok(VecDeque::new()),
            Some(Err(e)) => Err(e),
            Some(Ok(frames)) => Ok(frames
                .into_iter()
                .map(|f| Frame { message: msg(f.0), queue: f.1.unwrap_or(queue) })
                .collect()),
        }
    }
}

fn msg(sender_id: u32) -> Message {
    Message { sender_id, opcode: 0, args: Vec::new() }
}

fn connection() -> Connection {
    let mut objects = Objects::new();
    objects.insert_at(1, "core_display").unwrap();
    objects.insert_at(2, "surface").unwrap();
    objects.insert_at(3, "callback").unwrap();
    Connection::new(objects)
}

#[test]
fn claim_is_granted_when_idle_and_free() {
    let mut connection = connection();
    let mut queue = EventQueueInner::new(&mut connection, None);
    assert_eq!(queue.prepare_read(&mut connection), Ok(()));
    assert!(connection.read_claimed());
    assert!(queue.has_claim(&connection));
}

#[test]
fn claim_is_refused_with_backlog() {
    let mut connection = connection();
    let mut queue = EventQueueInner::new(&mut connection, None);
    queue.buffer.push_back(msg(2));
    assert_eq!(queue.prepare_read(&mut connection), Err(()));
    assert!(!connection.read_claimed());
    assert!(!queue.has_claim(&connection));
    let mut other = EventQueueInner::new(&mut connection, None);
    connection.display_buffer.push_back(msg(1));
    assert_eq!(other.prepare_read(&mut connection), Err(()));
    assert!(!connection.read_claimed());
}

#[test]
fn only_one_of_two_queues_gets_the_claim() {
    let mut connection = connection();
    let mut first = EventQueueInner::new(&mut connection, None);
    let mut second = EventQueueInner::new(&mut connection, None);
    assert_eq!(first.prepare_read(&mut connection), Ok(()));
    assert_eq!(second.prepare_read(&mut connection), Err(()));
    assert!(!second.has_claim(&connection));
    let mut handler = Counter { ids: Vec::new() };
    assert!(matches!(second.dispatch_pending(&mut connection, &mut handler), Ok(0)));
    second.cancel_read(&mut connection);
    assert!(connection.read_claimed());
    assert!(first.has_claim(&connection));
    first.cancel_read(&mut connection);
    assert!(!connection.read_claimed());
    assert!(!first.has_claim(&connection));
    assert_eq!(second.prepare_read(&mut connection), Ok(()));
}

#[test]
fn dispatch_with_backlog_reads_nothing() {
    let mut connection = connection();
    let mut queue = EventQueueInner::new(&mut connection, None);
    queue.buffer.push_back(msg(2));
    queue.buffer.push_back(msg(3));
    let mut script = Script::new();
    script.batch(&[2, 2, 2]);
    let mut handler = Counter { ids: Vec::new() };
    let r = queue.dispatch(&mut connection, &mut script, &mut handler);
    assert!(matches!(r, Ok(2)));
    assert_eq!(script.flushes, 0);
    assert_eq!(script.reads, 0);
    assert_eq!(handler.ids, vec![2, 3]);
}

#[test]
fn dispatch_without_claim_reads_nothing() {
    let mut connection = connection();
    let mut holder = EventQueueInner::new(&mut connection, None);
    assert_eq!(holder.prepare_read(&mut connection), Ok(()));
    let mut queue = EventQueueInner::new(&mut connection, None);
    let mut script = Script::new();
    script.batch(&[2]);
    let mut handler = Counter { ids: Vec::new() };
    let r = queue.dispatch(&mut connection, &mut script, &mut handler);
    assert!(matches!(r, Ok(0)));
    assert_eq!(script.reads, 0);
    assert!(connection.read_claimed());
}

#[test]
fn dispatch_when_idle_flushes_reads_and_dispatches() {
    let mut connection = connection();
    let mut queue = EventQueueInner::new(&mut connection, None);
    let mut script = Script::new();
    script.batch(&[2, 1, 3]);
    let mut handler = Counter { ids: Vec::new() };
    let r = queue.dispatch(&mut connection, &mut script, &mut handler);
    assert!(matches!(r, Ok(3)));
    assert_eq!(script.flushes, 1);
    assert_eq!(script.reads, 1);
    assert_eq!(handler.ids, vec![1, 2, 3]);
    assert!(!connection.read_claimed());
    assert!(!queue.has_claim(&connection));
}

#[test]
fn flush_failure_fails_dispatch_before_the_read() {
    let mut connection = connection();
    let mut queue = EventQueueInner::new(&mut connection, None);
    let mut script = Script::new();
    script.flush_error = Some(32);
    let mut handler = Counter { ids: Vec::new() };
    let r = queue.dispatch(&mut connection, &mut script, &mut handler);
    assert!(matches!(r, Err(QueueError::Transport(32))));
    assert_eq!(script.reads, 0);
    assert!(!connection.read_claimed());
}

#[test]
fn read_failure_fails_dispatch() {
    for (failure, protocol) in
        [(ReadError::Protocol, true), (ReadError::Parse, true), (ReadError::Sys(104), false)]
    {
        let mut connection = connection();
        let mut queue = EventQueueInner::new(&mut connection, None);
        let mut script = Script::new();
        script.batches.push_back(Err(failure));
        let mut handler = Counter { ids: Vec::new() };
        let r = queue.dispatch(&mut connection, &mut script, &mut handler);
        if protocol {
            assert!(matches!(r, Err(QueueError::Protocol)));
        } else {
            assert!(matches!(r, Err(QueueError::Transport(104))));
        }
        assert!(handler.ids.is_empty());
        assert!(!connection.read_claimed());
    }
}

#[test]
fn read_events_routes_and_counts() {
    let mut connection = connection();
    let mut queue = EventQueueInner::new(&mut connection, None);
    queue.buffer.push_back(msg(3));
    let mut script = Script::new();
    script.batch(&[2, DISPLAY_ID, 2, DISPLAY_ID, 3]);
    let r = queue.read_events(&mut connection, &mut script);
    assert!(matches!(r, Ok(5)));
    let display: Vec<u32> = connection.display_buffer.iter().map(|m| m.sender_id).collect();
    let private: Vec<u32> = queue.buffer.iter().map(|m| m.sender_id).collect();
    assert_eq!(display, vec![1, 1]);
    assert_eq!(private, vec![3, 2, 2, 3]);
}

#[test]
fn enqueue_gives_the_claim_back() {
    let mut connection = connection();
    let mut queue = EventQueueInner::new(&mut connection, None);
    assert_eq!(queue.prepare_read(&mut connection), Ok(()));
    let r = queue.enqueue(&mut connection, Err(ReadError::Sys(11)));
    assert!(matches!(r, Err(QueueError::Transport(11))));
    assert!(!connection.read_claimed());
    assert!(!queue.has_claim(&connection));
    assert!(matches!(queue.enqueue(&mut connection, Ok(VecDeque::new())), Ok(0)));
}

#[test]
fn buffer_limit_is_the_largest_i32() {
    assert_eq!(BUFFER_LIMIT, 2147483647);
    assert_eq!(DISPLAY_ID, 1);
}

#[test]
fn roundtrip_waits_for_the_callback() {
    let mut connection = connection();
    let mut queue = EventQueueInner::new(&mut connection, None);
    let mut script = Script::new();
    script.batch(&[2, 2]);
    script.batch(&[]);
    script.batch(&[1, 3, 2]);
    let mut handler = Counter { ids: Vec::new() };
    let first = queue.sync_roundtrip(&mut connection, &mut script, &mut handler, 3, 0);
    assert!(matches!(first, Ok(Roundtrip::Waiting(2))));
    let second = queue.sync_roundtrip(&mut connection, &mut script, &mut handler, 3, 2);
    assert!(matches!(second, Ok(Roundtrip::Waiting(2))));
    let third = queue.sync_roundtrip(&mut connection, &mut script, &mut handler, 3, 2);
    assert!(matches!(third, Ok(Roundtrip::Done(5))));
    assert_eq!(handler.ids, vec![2, 2, 1, 3, 2]);
    assert_eq!(script.reads, 3);
}

#[test]
fn roundtrip_with_backlog_reads_nothing() {
    let mut connection = connection();
    let mut queue = EventQueueInner::new(&mut connection, None);
    queue.buffer.push_back(msg(3));
    let mut script = Script::new();
    let mut handler = Counter { ids: Vec::new() };
    let r = queue.sync_roundtrip(&mut connection, &mut script, &mut handler, 3, 7);
    assert!(matches!(r, Ok(Roundtrip::Done(8))));
    assert_eq!(script.reads, 0);
}

#[test]
fn roundtrip_fails_with_the_dispatch() {
    let mut connection = connection();
    let mut queue = EventQueueInner::new(&mut connection, None);
    queue.buffer.push_back(msg(9));
    let mut script = Script::new();
    let mut handler = Counter { ids: Vec::new() };
    let r = queue.sync_roundtrip(&mut connection, &mut script, &mut handler, 3, 0);
    assert!(matches!(r, Err(QueueError::UnknownObject(9))));
}

#[test]
fn dispatch_read_takes_in_and_dispatches() {
    let mut connection = connection();
    let mut queue = EventQueueInner::new(&mut connection, None);
    assert_eq!(queue.prepare_read(&mut connection), Ok(()));
    let frames: VecDeque<Message> = [3, 1, 2].iter().map(|id| msg(*id)).collect();
    let mut handler = Counter { ids: Vec::new() };
    let r = queue.dispatch_read(&mut connection, Ok(frames), &mut handler);
    assert!(matches!(r, Ok(3)));
    assert_eq!(handler.ids, vec![1, 3, 2]);
    assert!(!connection.read_claimed());
}

#[test]
fn dispatch_read_fails_with_the_read() {
    let mut connection = connection();
    let mut queue = EventQueueInner::new(&mut connection, None);
    queue.buffer.push_back(msg(2));
    let mut handler = Counter { ids: Vec::new() };
    let r = queue.dispatch_read(&mut connection, Err(ReadError::Parse), &mut handler);
    assert!(matches!(r, Err(QueueError::Protocol)));
    assert!(handler.ids.is_empty());
    assert_eq!(queue.buffer.len(), 1);
}

#[test]
fn dispatch_read_stops_at_an_unknown_sender() {
    let mut connection = connection();
    let mut queue = EventQueueInner::new(&mut connection, None);
    let frames: VecDeque<Message> = [2, 8, 1].iter().map(|id| msg(*id)).collect();
    let mut handler = Counter { ids: Vec::new() };
    let r = queue.dispatch_read(&mut connection, Ok(frames), &mut handler);
    assert!(matches!(r, Err(QueueError::UnknownObject(8))));
    assert_eq!(handler.ids, vec![1, 2]);
    assert_eq!(queue.buffer.len(), 0);
}

#[test]
fn sync_pending_is_done_when_the_callback_was_heard() {
    let mut connection = connection();
    let mut queue = EventQueueInner::new(&mut connection, None);
    let mut handler = Counter { ids: Vec::new() };
    assert!(matches!(
        queue.sync_pending(&mut connection, &mut handler, 3, 4),
        Ok(Roundtrip::Waiting(4))
    ));
    queue.buffer.push_back(msg(2));
    connection.display_buffer.push_back(msg(1));
    assert!(matches!(
        queue.sync_pending(&mut connection, &mut handler, 3, 4),
        Ok(Roundtrip::Waiting(6))
    ));
    queue.buffer.push_back(msg(3));
    queue.buffer.push_back(msg(2));
    assert!(matches!(
        queue.sync_pending(&mut connection, &mut handler, 3, 6),
        Ok(Roundtrip::Done(8))
    ));
    assert_eq!(handler.ids, vec![1, 2, 3, 2]);
}

#[test]
fn sync_pending_fails_before_the_callback() {
    let mut connection = connection();
    let mut queue = EventQueueInner::new(&mut connection, None);
    queue.buffer.push_back(msg(7));
    queue.buffer.push_back(msg(3));
    let mut handler = Counter { ids: Vec::new() };
    let r = queue.sync_pending(&mut connection, &mut handler, 3, 0);
    assert!(matches!(r, Err(QueueError::UnknownObject(7))));
    assert!(handler.ids.is_empty());
}

#[test]
fn first_step_flushes_only_with_the_claim() {
    let mut connection = connection();
    let mut queue = EventQueueInner::new(&mut connection, None);
    let mut other = EventQueueInner::new(&mut connection, None);
    assert!(matches!(queue.first_step(&mut connection), Step::Flush));
    assert!(queue.has_claim(&connection));
    assert!(matches!(other.first_step(&mut connection), Step::Dispatch));
    assert!(queue.has_claim(&connection));
    queue.cancel_read(&mut connection);
    other.buffer.push_back(msg(2));
    assert!(matches!(other.first_step(&mut connection), Step::Dispatch));
    assert!(!connection.read_claimed());
}

#[test]
fn after_flush_reads_or_fails_with_the_errno() {
    let mut connection = connection();
    let mut queue = EventQueueInner::new(&mut connection, None);
    assert!(matches!(queue.first_step(&mut connection), Step::Flush));
    assert!(matches!(queue.after_flush(&mut connection, Ok(())), Ok(Step::Read)));
    assert!(queue.has_claim(&connection));
    assert!(matches!(
        queue.after_flush(&mut connection, Err(32)),
        Err(QueueError::Transport(32))
    ));
    assert!(!connection.read_claimed());
    assert_eq!(queue.buffer.len(), 0);
    assert_eq!(connection.display_buffer.len(), 0);
}

#[test]
fn dispatch_flushes_once_before_one_read_for_its_own_queue() {
    let mut connection = connection();
    let _first = EventQueueInner::new(&mut connection, None);
    let mut queue = EventQueueInner::new(&mut connection, None);
    let mut script = Script::new();
    script.batch(&[2]);
    let mut handler = Counter { ids: Vec::new() };
    let r = queue.dispatch(&mut connection, &mut script, &mut handler);
    assert!(matches!(r, Ok(1)));
    assert_eq!(script.flushes, 1);
    assert_eq!(script.reads, 1);
    assert_eq!(script.asked_by, vec![1]);
    assert_eq!(script.calls, vec!["flush".to_string(), "read".to_string()]);
}

#[test]
fn dispatch_with_one_waiting_message_does_not_read() {
    let mut objects = Objects::new();
    for id in 1..=5 {
        objects.insert_at(id, "surface").unwrap();
    }
    let mut connection = Connection::new(objects);
    let mut queue = EventQueueInner::new(&mut connection, None);
    queue.buffer.push_back(Message { sender_id: 5, opcode: 0, args: Vec::new() });
    let mut script = Script::new();
    script.batch(&[5]);
    let mut handler = Counter { ids: Vec::new() };
    let r = queue.dispatch(&mut connection, &mut script, &mut handler);
    assert!(matches!(r, Ok(1)));
    assert_eq!(handler.ids, vec![5]);
    assert_eq!(script.reads, 0);
    assert_eq!(script.flushes, 0);
}

#[test]
fn sync_read_takes_in_and_reports_progress() {
    let mut connection = connection();
    let mut queue = EventQueueInner::new(&mut connection, None);
    let mut handler = Counter { ids: Vec::new() };
    let frames: VecDeque<Message> = [2, 1].iter().map(|id| msg(*id)).collect();
    let r = queue.sync_read(&mut connection, Ok(frames), &mut handler, 3, 1);
    assert!(matches!(r, Ok(Roundtrip::Waiting(3))));
    let frames: VecDeque<Message> = [3].iter().map(|id| msg(*id)).collect();
    let r = queue.sync_read(&mut connection, Ok(frames), &mut handler, 3, 3);
    assert!(matches!(r, Ok(Roundtrip::Done(4))));
    let r = queue.sync_read(&mut connection, Err(ReadError::Sys(104)), &mut handler, 3, 4);
    assert!(matches!(r, Err(QueueError::Transport(104))));
    let frames: VecDeque<Message> = [9, 3].iter().map(|id| msg(*id)).collect();
    let r = queue.sync_read(&mut connection, Ok(frames), &mut handler, 3, 4);
    assert!(matches!(r, Err(QueueError::UnknownObject(9))));
    assert_eq!(handler.ids, vec![1, 2, 3]);
}

#[test]
fn roundtrip_fails_with_the_flush_or_the_read() {
    let mut connection = connection();
    let mut queue = EventQueueInner::new(&mut connection, None);
    let mut handler = Counter { ids: Vec::new() };
    let mut script = Script::new();
    script.flush_error = Some(32);
    let r = queue.sync_roundtrip(&mut connection, &mut script, &mut handler, 3, 0);
    assert!(matches!(r, Err(QueueError::Transport(32))));
    assert_eq!(script.reads, 0);
    let mut script = Script::new();
    script.batches.push_back(Err(ReadError::Protocol));
    let r = queue.sync_roundtrip(&mut connection, &mut script, &mut handler, 3, 0);
    assert!(matches!(r, Err(QueueError::Protocol)));
    assert!(!connection.read_claimed());
}

#[test]
fn frames_of_other_queues_are_kept_and_not_counted() {
    let mut connection = connection();
    let _first = EventQueueInner::new(&mut connection, None);
    let mut queue = EventQueueInner::new(&mut connection, None);
    let mut script = Script::new();
    script.batch_of(&[(2, 0), (3, 1), (1, 0), (2, 1), (3, 0)]);
    let mut handler = Counter { ids: Vec::new() };
    let r = queue.dispatch(&mut connection, &mut script, &mut handler);
    assert!(matches!(r, Ok(3)));
    assert_eq!(handler.ids, vec![1, 3, 2]);
    assert_eq!(script.kept, vec![(2, 0), (3, 0)]);
    assert_eq!(script.asked_by, vec![1]);
}

#[test]
fn read_events_counts_only_its_own_frames() {
    let mut connection = connection();
    let mut queue = EventQueueInner::new(&mut connection, None);
    let mut script = Script::new();
    script.batch_of(&[(2, 0), (2, 4), (1, 4)]);
    assert!(matches!(queue.read_events(&mut connection, &mut script), Ok(2)));
    assert_eq!(queue.buffer.len(), 1);
    assert_eq!(connection.display_buffer.len(), 1);
    assert_eq!(script.kept, vec![(2, 4)]);
}

#[test]
fn sort_frames_parts_by_owner_in_order() {
    let frames: VecDeque<Frame> = [(4, 0u64), (1, 7), (5, 2), (6, 0), (7, 2)]
        .iter()
        .map(|f| Frame { message: msg(f.0), queue: f.1 })
        .collect();
    let (own, foreign) = sort_frames(frames, 2);
    let own: Vec<u32> = own.iter().map(|m| m.sender_id).collect();
    let foreign: Vec<(u32, u64)> = foreign.iter().map(|f| (f.message.sender_id, f.queue)).collect();
    assert_eq!(own, vec![1, 5, 7]);
    assert_eq!(foreign, vec![(4, 0), (6, 0)]);
}

#[test]
fn own_share_passes_a_failure_on() {
    let (own, foreign) = own_share(Err(ReadError::Sys(11)), 0);
    assert!(matches!(own, Err(ReadError::Sys(11))));
    assert_eq!(foreign.len(), 0);
    let frames: VecDeque<Frame> = [Frame { message: msg(2), queue: 3 }].into_iter().collect();
    let (own, foreign) = own_share(Ok(frames), 0);
    assert_eq!(own.unwrap().len(), 0);
    assert_eq!(foreign.len(), 1);
}
