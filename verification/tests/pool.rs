use fire_ssr::pool::{Pool, ThreadHandle};
use tokio::sync::oneshot;

fn thread(id: u32) -> (ThreadHandle<u32>, oneshot::Receiver<()>) {
    let (tx, rx) = oneshot::channel();
    (ThreadHandle { inner: id, shutdown: Some(tx) }, rx)
}

fn pool_of(ids: &[u32], max_threads: usize) -> (Pool<u32>, Vec<oneshot::Receiver<()>>) {
    let mut pool = Pool::new(max_threads);
    let mut stops = vec![];
    for id in ids {
        let (handle, stop) = thread(*id);
        pool.push(handle);
        stops.push(stop);
    }
    (pool, stops)
}

fn ids(pool: &Pool<u32>) -> Vec<u32> {
    pool.threads().iter().map(|t| t.inner).collect()
}

fn stopping(pool: &Pool<u32>) -> Vec<bool> {
    pool.threads().iter().map(|t| t.shutdown.is_none()).collect()
}

#[test]
fn finished_threads_are_replaced_from_the_end() {
    let (mut pool, _stops) = pool_of(&[0, 1, 2, 3, 4], 8);
    pool.check_threads(&vec![false, true, false, true, false]);
    assert_eq!(ids(&pool), vec![0, 4, 2]);
}

#[test]
fn dropping_the_first_moves_the_last_to_the_front() {
    let (mut pool, _stops) = pool_of(&[0, 1, 2, 3], 8);
    pool.check_threads(&vec![true, false, false, false]);
    assert_eq!(ids(&pool), vec![3, 1, 2]);
}

#[test]
fn dropping_two_neighbours_turns_the_rest_twice() {
    let (mut pool, _stops) = pool_of(&[0, 1, 2, 3, 4], 8);
    pool.check_threads(&vec![true, true, false, false, false]);
    assert_eq!(ids(&pool), vec![3, 4, 2]);
}

#[test]
fn nothing_finished_changes_nothing() {
    let (mut pool, _stops) = pool_of(&[5, 6, 7], 8);
    pool.check_threads(&vec![false, false, false]);
    assert_eq!(ids(&pool), vec![5, 6, 7]);
}

#[test]
fn all_finished_leaves_none() {
    let (mut pool, _stops) = pool_of(&[5, 6, 7], 8);
    pool.check_threads(&vec![true, true, true]);
    assert_eq!(ids(&pool), Vec::<u32>::new());
    assert!(pool.is_empty());
}

#[test]
fn capacity_ends_at_the_limit() {
    let (mut pool, _stops) = pool_of(&[1], 2);
    assert!(pool.has_capacity());
    assert!(!pool.is_empty());
    let (handle, _stop) = thread(2);
    pool.push(handle);
    assert!(!pool.has_capacity());
}

#[test]
fn a_thread_is_wanted_when_there_is_none_or_the_queue_is_full() {
    let (empty, _stops) = pool_of(&[], 2);
    assert!(empty.wants_thread(false));
    assert!(empty.wants_thread(true));
    let (one, _stops) = pool_of(&[1], 2);
    assert!(!one.wants_thread(false));
    assert!(one.wants_thread(true));
    let (two, _stops) = pool_of(&[1, 2], 2);
    assert!(!two.wants_thread(true));
}

#[test]
fn a_pool_without_a_limit_still_gets_its_first_thread() {
    let (empty, _stops) = pool_of(&[], 0);
    assert!(!empty.has_capacity());
    assert!(empty.wants_thread(false));
}

#[test]
fn reduce_signals_the_last_thread() {
    let (mut pool, mut stops) = pool_of(&[1, 2, 3], 8);
    pool.reduce_one();
    assert_eq!(ids(&pool), vec![1, 2, 3]);
    assert_eq!(stopping(&pool), vec![false, false, true]);
    assert_eq!(stops[2].try_recv(), Ok(()));
    assert!(stops[0].try_recv().is_err());
    assert!(stops[1].try_recv().is_err());
}

#[test]
fn reduce_stops_one_thread_at_a_time() {
    let (mut pool, _stops) = pool_of(&[1, 2, 3], 8);
    pool.reduce_one();
    pool.reduce_one();
    assert_eq!(stopping(&pool), vec![false, false, true]);
    pool.check_threads(&vec![false, false, true]);
    pool.reduce_one();
    assert_eq!(stopping(&pool), vec![false, true]);
}

#[test]
fn reduce_spares_a_single_thread() {
    let (mut pool, mut stops) = pool_of(&[1], 8);
    pool.reduce_one();
    assert_eq!(stopping(&pool), vec![false]);
    assert!(stops[0].try_recv().is_err());
    let (mut none, _stops) = pool_of(&[], 8);
    none.reduce_one();
    assert!(none.is_empty());
}

#[test]
fn a_request_to_stop_is_sent_once() {
    let (mut handle, mut stop) = thread(9);
    handle.request_shutdown();
    assert!(handle.shutdown.is_none());
    assert_eq!(handle.inner, 9);
    assert_eq!(stop.try_recv(), Ok(()));
    handle.request_shutdown();
    assert!(handle.shutdown.is_none());
}

#[test]
fn a_spawned_thread_hears_the_request_to_stop() {
    let mut handle = ThreadHandle::spawn_new_runtime(|rx: oneshot::Receiver<()>| rx);
    assert!(handle.shutdown.is_some());
    assert!(handle.inner.try_recv().is_err());
    handle.request_shutdown();
    assert_eq!(handle.inner.try_recv(), Ok(()));
}
