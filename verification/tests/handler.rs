use fire_ssr::handler::{PoolHandle, PoolHandler, PoolMsg, PoolStep, GC_INTERVAL_SECS};
use fire_ssr::pool::ThreadHandle;
use tokio::sync::oneshot;

type Handler = PoolHandler<u32, &'static str, u32, String>;

fn thread(id: u32) -> ThreadHandle<u32> {
    ThreadHandle::spawn_new_runtime(move |_rx: oneshot::Receiver<()>| id)
}

fn request(n: u32) -> (PoolMsg<&'static str, u32, String>, oneshot::Receiver<String>) {
    PoolHandle::request(n)
}

fn count(handler: &Handler) -> usize {
    handler.pool().threads().len()
}

fn unfinished(handler: &Handler) -> Vec<bool> {
    vec![false; count(handler)]
}

#[test]
fn gc_runs_once_a_minute() {
    assert_eq!(GC_INTERVAL_SECS, 60);
}

#[test]
fn the_first_request_starts_a_thread() {
    let mut handler = Handler::new(2);
    let (msg, mut back) = request(7);
    match handler.on_message(msg, &vec![]) {
        PoolStep::Forward { job, spawn } => {
            assert_eq!(job.0, 7);
            let plan = spawn.unwrap();
            assert!(plan.pit.is_none());
            // the thread serves the queue that the request goes to
            handler.queue().send(job).unwrap();
            let (req, tx) = plan.receiver.0.try_recv().unwrap();
            assert_eq!(req, 7);
            tx.send("done".to_string()).unwrap();
            assert_eq!(back.try_recv(), Ok("done".to_string()));
        }
        PoolStep::Continue => panic!("not passed on"),
    }
}

#[test]
fn the_router_is_kept_for_new_threads() {
    let mut handler = Handler::new(2);
    assert!(matches!(handler.on_message(PoolMsg::SetPit("one"), &vec![]), PoolStep::Continue));
    assert!(matches!(handler.on_message(PoolMsg::SetPit("two"), &vec![]), PoolStep::Continue));
    let (msg, _back) = request(1);
    match handler.on_message(msg, &vec![]) {
        PoolStep::Forward { spawn, .. } => assert_eq!(spawn.unwrap().pit, Some("two")),
        PoolStep::Continue => panic!("not passed on"),
    }
}

fn spawns(handler: &mut Handler, n: u32) -> bool {
    let finished = unfinished(handler);
    let (msg, _back) = request(n);
    match handler.on_message(msg, &finished) {
        PoolStep::Forward { job, spawn } => {
            assert_eq!(job.0, n);
            spawn.is_some()
        }
        PoolStep::Continue => panic!("not passed on"),
    }
}

#[test]
fn more_threads_come_only_with_a_full_queue_and_up_to_the_limit() {
    let mut handler = Handler::new(2);
    assert!(spawns(&mut handler, 1));
    handler.add_thread(thread(1));
    assert!(!spawns(&mut handler, 2));
    for n in 0..2 {
        let (tx, _rx) = oneshot::channel();
        handler.queue().try_send((n, tx)).unwrap();
    }
    let (tx, _rx) = oneshot::channel();
    assert!(handler.queue().try_send((9, tx)).is_err());
    assert!(spawns(&mut handler, 3));
    handler.add_thread(thread(2));
    assert!(!spawns(&mut handler, 4));
    assert_eq!(count(&handler), 2);
}

#[test]
fn a_request_replaces_threads_that_are_gone() {
    let mut handler = Handler::new(2);
    handler.add_thread(thread(1));
    let (msg, _back) = request(1);
    match handler.on_message(msg, &vec![true]) {
        PoolStep::Forward { spawn, .. } => assert!(spawn.is_some()),
        PoolStep::Continue => panic!("not passed on"),
    }
    assert_eq!(count(&handler), 0);
}

#[test]
fn gc_stops_a_thread_while_the_queue_is_idle() {
    let mut handler = Handler::new(4);
    for id in 0..3 {
        handler.add_thread(thread(id));
    }
    handler.on_gc(&vec![true, false, false]);
    let left: Vec<u32> = handler.pool().threads().iter().map(|t| t.inner).collect();
    assert_eq!(left, vec![2, 1]);
    let stopping: Vec<bool> =
        handler.pool().threads().iter().map(|t| t.shutdown.is_none()).collect();
    assert_eq!(stopping, vec![false, true]);
}

#[test]
fn gc_stops_no_thread_while_requests_wait() {
    let mut handler = Handler::new(4);
    for id in 0..3 {
        handler.add_thread(thread(id));
    }
    let (tx, _rx) = oneshot::channel();
    handler.queue().try_send((5, tx)).unwrap();
    handler.on_gc(&vec![false, false, true]);
    assert_eq!(count(&handler), 2);
    assert!(handler.pool().threads().iter().all(|t| t.shutdown.is_some()));
}

#[test]
fn a_handle_leads_to_its_pool() {
    let (handle, mut messages, handler) = PoolHandle::<&'static str, u32, String>::new::<u32>(1);
    assert_eq!(count(&handler), 0);
    assert_eq!(handle.sender().max_capacity(), 1);
    let other = handle.clone();
    assert!(other.sender().same_channel(handle.sender()));
    assert!(other.sender().try_send(PoolMsg::SetPit("pit")).is_ok());
    assert!(handle.sender().try_send(PoolMsg::SetPit("pit")).is_err());
    assert!(matches!(messages.try_recv(), Ok(PoolMsg::SetPit("pit"))));
}

#[test]
fn the_queue_is_as_long_as_the_pool_is_large() {
    let handler = Handler::new(3);
    assert_eq!(handler.queue().capacity(), Some(3));
}
