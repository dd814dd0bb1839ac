//! The pool's side of a conversation: what it is told, and what it does about it.
use crate::pool::{Pool, ThreadHandle};
#[allow(unused_imports)]
use crate::pool::{
    check_keeps_sound, check_keeps_the_unfinished, may_reduce, push_keeps_sound, reduce_keeps_sound,
    reduce_stops_one_at_a_time, reduced, sound, survivors, unfinished, wants_thread,
    check_drops_a_finished_last_thread, check_without_finished_changes_nothing,
    reduce_stops_the_last_of_running_threads,
};
use crate::runtime::RequestReceiver;
use tokio::sync::{mpsc, oneshot};
use vstd::prelude::*;

verus! {

/// How many seconds pass between two looks for threads that are no longer needed.
pub const GC_INTERVAL_SECS: u64 = 60;

/// What the pool is told: the router to answer local requests with, or a request together with
/// the way back for its response.
#[verifier::reject_recursive_types(R)]
pub enum PoolMsg<P, Q, R> {
    SetPit(P),
    Request((Q, oneshot::Sender<R>)),
}

/// What a new thread is given: the router, if there is one yet, and the queue to serve.
#[verifier::reject_recursive_types(Q)]
#[verifier::reject_recursive_types(R)]
pub struct SpawnPlan<P, Q, R> {
    pub pit: Option<P>,
    pub receiver: RequestReceiver<Q, R>,
}

/// What the pool does about a message: nothing, or start a thread where `spawn` says so and then
/// queue the request.
#[verifier::reject_recursive_types(Q)]
#[verifier::reject_recursive_types(R)]
pub enum PoolStep<P, Q, R> {
    Continue,
    Forward { job: (Q, oneshot::Sender<R>), spawn: Option<SpawnPlan<P, Q, R>> },
}

/// A way to talk to a pool.
#[verifier::reject_recursive_types(P)]
#[verifier::reject_recursive_types(Q)]
#[verifier::reject_recursive_types(R)]
pub struct PoolHandle<P, Q, R> {
    sender: mpsc::Sender<PoolMsg<P, Q, R>>,
}

impl<P, Q, R> PoolHandle<P, Q, R> {
    /// The channel that leads to the pool.
    pub closed spec fn channel(&self) -> mpsc::Sender<PoolMsg<P, Q, R>> {
        self.sender
    }

    /// Makes a pool of at most `max_threads` threads: a way to talk to it, the messages that
    /// arrive that way, and the pool's state, which waits for them.
    pub fn new<J>(max_threads: usize) -> (r: (
        Self,
        mpsc::Receiver<PoolMsg<P, Q, R>>,
        PoolHandler<J, P, Q, R>,
    ))
        requires
            0 < max_threads <= usize::MAX / 8,
        ensures
            call_ensures(
                mpsc::channel::<PoolMsg<P, Q, R>>,
                (max_threads,),
                (r.0.channel(), r.1),
            ),
            r.2.is_new(max_threads),
            r.2.threads().len() == 0,
            r.2.limit() == max_threads,
            r.2.pit() is None,
            call_ensures(
                flume::bounded::<(Q, oneshot::Sender<R>)>,
                (max_threads,),
                (r.2.queue_in(), r.2.queue_out()),
            ),
    {
        let (sender, messages) = mpsc::channel::<PoolMsg<P, Q, R>>(max_threads);
        (PoolHandle { sender }, messages, PoolHandler::new(max_threads))
    }

    /// The channel that leads to the pool, to send on.
    pub fn sender(&self) -> (r: &mpsc::Sender<PoolMsg<P, Q, R>>)
        ensures
            *r == self.channel(),
    {
        &self.sender
    }

    /// The message that asks for `req` to be rendered, and where the response will arrive.
    pub fn request(req: Q) -> (r: (PoolMsg<P, Q, R>, oneshot::Receiver<R>))
        ensures
            r.0 matches PoolMsg::Request((asked, back)) && asked == req && call_ensures(
                oneshot::channel::<R>,
                (),
                (back, r.1),
            ),
    {
        let (tx, rx) = oneshot::channel::<R>();
        (PoolMsg::Request((req, tx)), rx)
    }
}

impl<P, Q, R> Clone for PoolHandle<P, Q, R> {
    /// Another way to talk to the same pool.
    fn clone(&self) -> (r: Self)
        ensures
            r == *self,
    {
        PoolHandle { sender: self.sender.clone() }
    }
}

/// A pool and the queue that its threads serve.
#[verifier::reject_recursive_types(Q)]
#[verifier::reject_recursive_types(R)]
pub struct PoolHandler<J, P, Q, R> {
    pool: Pool<J>,
    pit: Option<P>,
    tx: flume::Sender<(Q, oneshot::Sender<R>)>,
    req_rx: flume::Receiver<(Q, oneshot::Sender<R>)>,
}

impl<J, P, Q, R> PoolHandler<J, P, Q, R> {
    /// The threads.
    pub closed spec fn threads(&self) -> Seq<ThreadHandle<J>> {
        self.pool@
    }

    /// How many threads there may be.
    pub closed spec fn limit(&self) -> usize {
        self.pool.limit()
    }

    /// The router that new threads get.
    pub closed spec fn pit(&self) -> Option<P> {
        self.pit
    }

    /// Where requests are queued.
    pub closed spec fn queue_in(&self) -> flume::Sender<(Q, oneshot::Sender<R>)> {
        self.tx
    }

    /// Where threads take requests from.
    pub closed spec fn queue_out(&self) -> flume::Receiver<(Q, oneshot::Sender<R>)> {
        self.req_rx
    }

    /// A pool at its start: no thread, no router, and a fresh queue as long as the pool is large.
    pub open spec fn is_new(&self, max_threads: usize) -> bool {
        &&& self.threads() == Seq::<ThreadHandle<J>>::empty()
        &&& self.limit() == max_threads
        &&& self.pit() is None
        &&& call_ensures(
            flume::bounded::<(Q, oneshot::Sender<R>)>,
            (max_threads,),
            (self.queue_in(), self.queue_out()),
        )
    }

    pub fn new(max_threads: usize) -> (r: Self)
        ensures
            r.is_new(max_threads),
            r.threads().len() == 0,
            r.limit() == max_threads,
            r.pit() is None,
            call_ensures(
                flume::bounded::<(Q, oneshot::Sender<R>)>,
                (max_threads,),
                (r.queue_in(), r.queue_out()),
            ),
    {
        let (tx, req_rx) = flume::bounded::<(Q, oneshot::Sender<R>)>(max_threads);
        PoolHandler { pool: Pool::new(max_threads), pit: None, tx, req_rx }
    }

    /// The pool's threads, to look at.
    pub fn pool(&self) -> (r: &Pool<J>)
        ensures
            r@ == self.threads(),
            r.limit() == self.limit(),
    {
        &self.pool
    }

    /// Where requests are queued, to send on.
    pub fn queue(&self) -> (r: &flume::Sender<(Q, oneshot::Sender<R>)>)
        ensures
            *r == self.queue_in(),
    {
        &self.tx
    }

    /// Takes a message in. A router is kept for the threads to come. A request first makes the
    /// finished threads go, `finished[i]` telling whether thread `i` is one; it is then passed
    /// on, with a new thread to be started before where [`wants_thread`] says so.
    pub fn on_message(&mut self, msg: PoolMsg<P, Q, R>, finished: &Vec<bool>) -> (r: PoolStep<
        P,
        Q,
        R,
    >) where P: Clone
        requires
            msg is Request ==> finished@.len() == old(self).threads().len(),
        ensures
            final(self).limit() == old(self).limit(),
            final(self).queue_in() == old(self).queue_in(),
            final(self).queue_out() == old(self).queue_out(),
            msg matches PoolMsg::SetPit(pit) ==> {
                &&& r is Continue
                &&& final(self).pit() == Some(pit)
                &&& final(self).threads() == old(self).threads()
            },
            msg matches PoolMsg::Request(request) ==> {
                &&& r matches PoolStep::Forward { job, spawn }
                &&& job == request
                &&& final(self).pit() == old(self).pit()
                &&& final(self).threads() == survivors(old(self).threads(), finished@)
                &&& exists|full: bool|
                    {
                        &&& #[trigger] call_ensures(
                            flume::Sender::<(Q, oneshot::Sender<R>)>::is_full,
                            (&old(self).queue_in(),),
                            full,
                        )
                        &&& spawn is Some == wants_thread(
                            final(self).threads().len(),
                            old(self).limit(),
                            full,
                        )
                        &&& spawn is Some == (final(self).threads().len() == 0 || (full
                            && final(self).threads().len() < old(self).limit()))
                    }
                &&& spawn matches Some(plan) ==> {
                    &&& plan.receiver.0 == old(self).queue_out()
                    &&& plan.pit is Some == old(self).pit() is Some
                    &&& plan.pit matches Some(pit) ==> cloned(old(self).pit()->Some_0, pit)
                }
            },
    {
        let job = match msg {
            PoolMsg::SetPit(pit) => {
                self.pit = Some(pit);
                return PoolStep::Continue;
            },
            PoolMsg::Request(job) => job,
        };
        self.pool.check_threads(finished);
        let full: bool = self.tx.is_full();
        assert(call_ensures(
            flume::Sender::<(Q, oneshot::Sender<R>)>::is_full,
            (&old(self).queue_in(),),
            full,
        ));
        let spawn = if self.pool.wants_thread(full) {
            Some(
                SpawnPlan {
                    pit: self.pit.clone(),
                    receiver: RequestReceiver(self.req_rx.clone()),
                },
            )
        } else {
            None
        };
        PoolStep::Forward { job, spawn }
    }

    /// Takes a thread in that has been started.
    pub fn add_thread(&mut self, thread: ThreadHandle<J>)
        ensures
            final(self).threads() == old(self).threads().push(thread),
            final(self).limit() == old(self).limit(),
            final(self).pit() == old(self).pit(),
            final(self).queue_in() == old(self).queue_in(),
            final(self).queue_out() == old(self).queue_out(),
    {
        self.pool.push(thread);
    }

    /// Looks for threads that are no longer needed: the finished ones go, and where no request
    /// waits in the queue one more is asked to stop.
    pub fn on_gc(&mut self, finished: &Vec<bool>)
        requires
            finished@.len() == old(self).threads().len(),
        ensures
            final(self).limit() == old(self).limit(),
            final(self).pit() == old(self).pit(),
            final(self).queue_in() == old(self).queue_in(),
            final(self).queue_out() == old(self).queue_out(),
            exists|idle: bool|
                {
                    &&& #[trigger] call_ensures(
                        flume::Sender::<(Q, oneshot::Sender<R>)>::is_empty,
                        (&old(self).queue_in(),),
                        idle,
                    )
                    &&& final(self).threads() == swept(old(self).threads(), finished@, idle)
                    &&& idle && may_reduce(survivors(old(self).threads(), finished@)) ==> exists|
                        sent: Result<(), ()>,
                    |
                        call_ensures(
                            oneshot::Sender::<()>::send,
                            (survivors(old(self).threads(), finished@).last().shutdown->Some_0, ()),
                            sent,
                        )
                },
    {
        self.pool.check_threads(finished);
        if self.tx.is_empty() {
            self.pool.reduce_one();
        }
    }
}

/// The threads after a look for those that are no longer needed, the queue being idle or not.
pub open spec fn swept<J>(
    threads: Seq<ThreadHandle<J>>,
    finished: Seq<bool>,
    idle: bool,
) -> Seq<ThreadHandle<J>> {
    if idle {
        reduced(survivors(threads, finished))
    } else {
        survivors(threads, finished)
    }
}

/// The threads after a request has been passed on, `thread` being the one that is started where
/// one is wanted.
pub open spec fn served<J>(
    threads: Seq<ThreadHandle<J>>,
    limit: usize,
    finished: Seq<bool>,
    full: bool,
    thread: ThreadHandle<J>,
) -> Seq<ThreadHandle<J>> {
    let kept = survivors(threads, finished);
    if wants_thread(kept.len(), limit, full) {
        kept.push(thread)
    } else {
        kept
    }
}

/// Something that happens to the threads of a pool, with what was found when it did.
pub enum PoolEvent<J> {
    PitSet,
    Served { finished: Seq<bool>, full: bool, thread: ThreadHandle<J> },
    Swept { finished: Seq<bool>, idle: bool },
}

/// The threads after an event.
pub open spec fn after<J>(
    threads: Seq<ThreadHandle<J>>,
    limit: usize,
    event: PoolEvent<J>,
) -> Seq<ThreadHandle<J>> {
    match event {
        PoolEvent::PitSet => threads,
        PoolEvent::Served { finished, full, thread } => served(
            threads,
            limit,
            finished,
            full,
            thread,
        ),
        PoolEvent::Swept { finished, idle } => swept(threads, finished, idle),
    }
}

/// Whether an event can befall `threads`: it knows of each thread whether it has finished, and a
/// thread that it brings runs.
pub open spec fn can_happen<J>(threads: Seq<ThreadHandle<J>>, event: PoolEvent<J>) -> bool {
    match event {
        PoolEvent::PitSet => true,
        PoolEvent::Served { finished, full, thread } => {
            &&& finished.len() == threads.len()
            &&& !thread.is_stopping()
        },
        PoolEvent::Swept { finished, idle } => finished.len() == threads.len(),
    }
}

/// The threads after a history of events that began with none.
pub open spec fn after_all<J>(limit: usize, history: Seq<PoolEvent<J>>) -> Seq<ThreadHandle<J>>
    decreases history.len(),
{
    if history.len() == 0 {
        Seq::empty()
    } else {
        after(after_all(limit, history.drop_last()), limit, history.last())
    }
}

/// Whether each event of a history can befall the threads that the earlier ones left.
pub open spec fn is_history<J>(limit: usize, history: Seq<PoolEvent<J>>) -> bool
    decreases history.len(),
{
    history.len() > 0 ==> {
        &&& is_history(limit, history.drop_last())
        &&& can_happen(after_all(limit, history.drop_last()), history.last())
    }
}

/// Once a request has been passed on the pool has a thread, and it is still sound. That thread may
/// be one that is shutting down.
pub proof fn a_request_leaves_a_thread<J>(
    threads: Seq<ThreadHandle<J>>,
    limit: usize,
    finished: Seq<bool>,
    full: bool,
    thread: ThreadHandle<J>,
)
    requires
        limit > 0,
        sound(threads, limit),
        finished.len() == threads.len(),
        !thread.is_stopping(),
    ensures
        served(threads, limit, finished, full, thread).len() > 0,
        sound(served(threads, limit, finished, full, thread), limit),
{
    check_keeps_sound(threads, finished, limit);
    let kept = survivors(threads, finished);
    if wants_thread(kept.len(), limit, full) {
        push_keeps_sound(kept, thread, limit);
    }
}

/// A look for threads that are no longer needed keeps the pool sound and takes away no thread but
/// the finished ones.
pub proof fn a_sweep_keeps_running_threads<J>(
    threads: Seq<ThreadHandle<J>>,
    limit: usize,
    finished: Seq<bool>,
    idle: bool,
)
    requires
        sound(threads, limit),
        finished.len() == threads.len(),
    ensures
        swept(threads, finished, idle).len() == unfinished(threads, finished).len(),
        forall|i: int|
            0 <= i < survivors(threads, finished).len() ==> (#[trigger] swept(
                threads,
                finished,
                idle,
            )[i]).inner == survivors(threads, finished)[i].inner,
        sound(swept(threads, finished, idle), limit),
{
    check_keeps_sound(threads, finished, limit);
    check_keeps_the_unfinished(threads, finished);
    reduce_keeps_sound(survivors(threads, finished), limit);
    reduce_stops_one_at_a_time(survivors(threads, finished));
}

/// Whatever happens to a pool, it never has more threads than allowed, and never more than one
/// of them is shutting down.
pub proof fn every_history_is_sound<J>(limit: usize, history: Seq<PoolEvent<J>>)
    requires
        limit > 0,
        is_history(limit, history),
    ensures
        sound(after_all(limit, history), limit),
    decreases history.len(),
{
    if history.len() > 0 {
        every_history_is_sound(limit, history.drop_last());
        let before = after_all(limit, history.drop_last());
        match history.last() {
            PoolEvent::PitSet => {},
            PoolEvent::Served { finished, full, thread } => {
                a_request_leaves_a_thread(before, limit, finished, full, thread);
            },
            PoolEvent::Swept { finished, idle } => {
                a_sweep_keeps_running_threads(before, limit, finished, idle);
            },
        }
    }
}

/// A request that finds no thread finished and a full queue makes a pool below its limit larger
/// by the thread that is started; at the limit, or with room in the queue, a pool that has a
/// thread stays as it is.
pub proof fn a_request_adds_a_thread_to_a_full_queue<J>(
    threads: Seq<ThreadHandle<J>>,
    limit: usize,
    finished: Seq<bool>,
    thread: ThreadHandle<J>,
)
    requires
        threads.len() > 0,
        finished.len() == threads.len(),
        forall|i: int| 0 <= i < finished.len() ==> !(#[trigger] finished[i]),
    ensures
        threads.len() < limit ==> served(threads, limit, finished, true, thread) == threads.push(
            thread,
        ),
        threads.len() >= limit ==> served(threads, limit, finished, true, thread) == threads,
        served(threads, limit, finished, false, thread) == threads,
{
    check_without_finished_changes_nothing(threads, finished);
}

/// Whether nothing happens in a history but requests that find no thread finished, and the queue
/// full or not as `full` says.
pub open spec fn only_requests<J>(history: Seq<PoolEvent<J>>, full: bool) -> bool {
    forall|i: int|
        0 <= i < history.len() ==> ((#[trigger] history[i]) matches PoolEvent::Served {
            finished,
            full: found,
            thread,
        } && found == full && forall|k: int| 0 <= k < finished.len() ==> !(#[trigger] finished[k]))
}

/// Requests that keep finding the queue full bring one thread each until the limit is reached,
/// and the pool stays at its limit from then on.
pub proof fn a_backlog_grows_the_pool_to_its_limit<J>(limit: usize, history: Seq<PoolEvent<J>>)
    requires
        limit > 0,
        is_history(limit, history),
        only_requests(history, true),
    ensures
        history.len() <= limit ==> after_all(limit, history).len() == history.len(),
        history.len() >= limit ==> after_all(limit, history).len() == limit,
    decreases history.len(),
{
    if history.len() > 0 {
        let init = history.drop_last();
        assert(only_requests(init, true)) by {
            assert forall|i: int| 0 <= i < init.len() implies #[trigger] init[i] == history[i] by {}
        }
        a_backlog_grows_the_pool_to_its_limit(limit, init);
        let before = after_all(limit, init);
        assert(history[history.len() - 1] == history.last());
        if let PoolEvent::Served { finished, full, thread } = history.last() {
            if before.len() > 0 {
                a_request_adds_a_thread_to_a_full_queue(before, limit, finished, thread);
            }
        }
    }
}

/// Requests that keep finding room in the queue are served by one thread.
pub proof fn without_a_backlog_one_thread_is_enough<J>(limit: usize, history: Seq<PoolEvent<J>>)
    requires
        limit > 0,
        history.len() > 0,
        is_history(limit, history),
        only_requests(history, false),
    ensures
        after_all(limit, history).len() == 1,
    decreases history.len(),
{
    let init = history.drop_last();
    assert(history[history.len() - 1] == history.last());
    let before = after_all(limit, init);
    if init.len() > 0 {
        assert(only_requests(init, false)) by {
            assert forall|i: int| 0 <= i < init.len() implies #[trigger] init[i] == history[i] by {}
        }
        without_a_backlog_one_thread_is_enough(limit, init);
        if let PoolEvent::Served { finished, full, thread } = history.last() {
            a_request_adds_a_thread_to_a_full_queue(before, limit, finished, thread);
        }
    }
}

/// While requests wait, a sweep does no more than to drop the finished threads. While none waits
/// it also asks the last of the others to stop, where there are two or more and all of them run.
pub proof fn a_sweep_asks_one_thread_to_stop_when_idle<J>(
    threads: Seq<ThreadHandle<J>>,
    finished: Seq<bool>,
)
    requires
        finished.len() == threads.len(),
    ensures
        swept(threads, finished, false) == survivors(threads, finished),
        survivors(threads, finished).len() < 2 ==> swept(threads, finished, true) == survivors(
            threads,
            finished,
        ),
        survivors(threads, finished).len() >= 2 && (forall|i: int|
            0 <= i < survivors(threads, finished).len() ==> (#[trigger] survivors(
                threads,
                finished,
            )[i]).shutdown is Some) ==> swept(threads, finished, true) == survivors(
            threads,
            finished,
        ).drop_last().push(
            ThreadHandle { inner: survivors(threads, finished).last().inner, shutdown: None },
        ),
        (exists|i: int|
            0 <= i < survivors(threads, finished).len() && (#[trigger] survivors(
                threads,
                finished,
            )[i]).shutdown is None) ==> swept(threads, finished, true) == survivors(
            threads,
            finished,
        ),
{
    let kept = survivors(threads, finished);
    if exists|i: int| 0 <= i < kept.len() && (#[trigger] kept[i]).shutdown is None {
        let i = choose|i: int| 0 <= i < kept.len() && (#[trigger] kept[i]).shutdown is None;
        assert(kept[i].is_stopping());
    } else if kept.len() >= 2 {
        reduce_stops_the_last_of_running_threads(kept);
    }
}

/// Which threads have finished, if each has that was asked to stop and no other.
pub open spec fn obedient<J>(threads: Seq<ThreadHandle<J>>) -> Seq<bool> {
    Seq::new(threads.len(), |i: int| threads[i].shutdown is None)
}

/// The threads after some sweeps without any request, between which the thread that was asked to
/// stop has finished each time.
pub open spec fn idle_sweeps<J>(threads: Seq<ThreadHandle<J>>, sweeps: nat) -> Seq<ThreadHandle<J>>
    decreases sweeps,
{
    if sweeps == 0 {
        threads
    } else {
        let before = idle_sweeps(threads, (sweeps - 1) as nat);
        swept(before, obedient(before), true)
    }
}

/// An idle pool shrinks by one thread from sweep to sweep, the last one first, until only the
/// first is left, which goes on running.
pub proof fn an_idle_pool_shrinks_to_one_thread<J>(threads: Seq<ThreadHandle<J>>, sweeps: nat)
    requires
        threads.len() > 0,
        sweeps > 0,
        forall|i: int| 0 <= i < threads.len() ==> (#[trigger] threads[i]).shutdown is Some,
    ensures
        sweeps < threads.len() ==> idle_sweeps(threads, sweeps) == threads.take(
            threads.len() - sweeps,
        ).push(ThreadHandle { inner: threads[threads.len() - sweeps].inner, shutdown: None }),
        sweeps >= threads.len() ==> idle_sweeps(threads, sweeps) == seq![threads[0]],
    decreases sweeps,
{
    let fewer = (sweeps - 1) as nat;
    let before = idle_sweeps(threads, fewer);
    let flags = obedient(before);
    let kept = survivors(before, flags);
    if fewer == 0 {
        check_without_finished_changes_nothing(before, flags);
        assert(kept =~= threads.take(threads.len() as int));
    } else {
        an_idle_pool_shrinks_to_one_thread(threads, fewer);
        if fewer < threads.len() {
            check_drops_a_finished_last_thread(before, flags);
            assert(kept =~= threads.take(threads.len() - fewer));
        } else {
            check_without_finished_changes_nothing(before, flags);
            assert(kept =~= threads.take(1));
        }
    }
    if kept.len() >= 2 {
        reduce_stops_the_last_of_running_threads(kept);
        assert(kept.drop_last() =~= threads.take(threads.len() - sweeps));
    } else {
        assert(kept =~= seq![threads[0]]);
    }
}

} // verus!
