use fire_ssr::runtime::{IdCounter, RequestReceiver, ResponseSenders, Runtime};
use fire_ssr::worker::{LoopAction, LoopEvent, RuntimeLoop};
use tokio::sync::oneshot;

type Rt = Runtime<&'static str, u32, String, Vec<u8>>;

fn runtime() -> (Rt, flume::Sender<(u32, oneshot::Sender<String>)>) {
    let (tx, rx) = flume::bounded(4);
    (Runtime::new(Some("pit"), RequestReceiver(rx), vec![1, 2]), tx)
}

#[test]
fn ids_count_up_from_zero() {
    let mut ids = IdCounter::new();
    assert_eq!(ids.next(), 0);
    assert_eq!(ids.next(), 1);
    assert_eq!(ids.next(), 2);
}

#[test]
fn a_sender_is_taken_once() {
    let mut senders = ResponseSenders::<u8>::new();
    let (tx, mut rx) = oneshot::channel();
    assert!(senders.take(3).is_none());
    senders.insert(3, tx);
    assert!(senders.take(4).is_none());
    senders.take(3).unwrap().send(8).unwrap();
    assert_eq!(rx.try_recv(), Ok(8));
    assert!(senders.take(3).is_none());
}

#[test]
fn a_sender_replaces_the_one_before() {
    let mut senders = ResponseSenders::<u8>::new();
    let (first, mut lost) = oneshot::channel();
    let (second, mut kept) = oneshot::channel();
    senders.insert(3, first);
    senders.insert(3, second);
    senders.take(3).unwrap().send(8).unwrap();
    assert!(lost.try_recv().is_err());
    assert_eq!(kept.try_recv(), Ok(8));
}

#[test]
fn a_request_is_taken_and_answered() {
    let (mut rt, queue) = runtime();
    let (tx, mut back) = oneshot::channel();
    queue.send((40, tx)).unwrap();
    let (id, source) = rt.op_next_request_begin().unwrap();
    assert_eq!(id, 0);
    let received = source.0.try_recv().ok();
    let taken = rt.op_next_request_end(id, received).unwrap();
    assert_eq!(taken.id, 0);
    assert_eq!(taken.req, 40);
    assert_eq!(rt.op_send_response(0, "hi".to_string()), Some(()));
    assert_eq!(back.try_recv(), Ok("hi".to_string()));
    assert_eq!(rt.op_send_response(0, "again".to_string()), None);
}

#[test]
fn nobody_waits_for_the_response_any_more() {
    let (mut rt, _queue) = runtime();
    let (tx, back) = oneshot::channel();
    rt.op_next_request_end(5, Some((1, tx)));
    drop(back);
    assert_eq!(rt.op_send_response(5, "late".to_string()), None);
}

#[test]
fn a_response_that_is_not_owed_goes_nowhere() {
    let (mut rt, _queue) = runtime();
    assert_eq!(rt.op_send_response(1, "what".to_string()), None);
}

#[test]
fn requests_that_wait_at_once_have_different_ids() {
    let (mut rt, _queue) = runtime();
    let (first, _) = rt.op_next_request_begin().unwrap();
    let (second, _) = rt.op_next_request_begin().unwrap();
    assert_eq!((first, second), (0, 1));
}

#[test]
fn a_closed_queue_gives_no_request() {
    let (mut rt, queue) = runtime();
    drop(queue);
    let (id, source) = rt.op_next_request_begin().unwrap();
    let received = source.0.recv().ok();
    assert!(rt.op_next_request_end(id, received).is_none());
    assert_eq!(rt.op_send_response(id, "none".to_string()), None);
}

#[test]
fn no_request_is_taken_once_the_receiver_is_removed() {
    let (mut rt, _queue) = runtime();
    let (tx, mut back) = oneshot::channel();
    let (id, _) = rt.op_next_request_begin().unwrap();
    assert!(rt.has_request_receiver());
    rt.remove_request_receiver();
    assert!(!rt.has_request_receiver());
    assert!(rt.op_next_request_begin().is_none());
    // what was taken before is still answered
    assert!(rt.op_next_request_end(id, Some((1, tx))).is_some());
    assert_eq!(rt.op_send_response(id, "last".to_string()), Some(()));
    assert_eq!(back.try_recv(), Ok("last".to_string()));
}

#[test]
fn options_and_router_are_handed_out() {
    let (rt, _queue) = runtime();
    assert_eq!(rt.op_get_options(), vec![1, 2]);
    assert_eq!(rt.op_fetch_pit(), Some("pit"));
    let (_tx, rx) = flume::bounded::<(u32, oneshot::Sender<String>)>(1);
    let bare: Rt = Runtime::new(None, RequestReceiver(rx), vec![]);
    assert_eq!(bare.op_fetch_pit(), None);
}

#[test]
fn the_loop_removes_the_receiver_once_and_goes_on() {
    let mut state = RuntimeLoop::new();
    assert!(state.is_listening());
    assert_eq!(state.on_event(LoopEvent::RuntimeIdle), LoopAction::Nothing);
    assert!(state.is_listening());
    assert_eq!(state.on_event(LoopEvent::ShutdownRequested), LoopAction::RemoveRequestReceiver);
    assert!(!state.is_listening());
    assert_eq!(state.on_event(LoopEvent::RuntimeIdle), LoopAction::Nothing);
    assert!(!state.is_listening());
}
