//! The threads of a pool: how many there are, which are gone and which one is asked to stop.
use tokio::sync::oneshot;
use vstd::prelude::*;

verus! {

/// A running thread, `inner` being whatever joins it, with the means to ask it to stop.
///
/// The sender is used up by the request, so a thread without one is shutting down.
pub struct ThreadHandle<J> {
    pub inner: J,
    pub shutdown: Option<oneshot::Sender<()>>,
}

impl<J> ThreadHandle<J> {
    /// Whether the thread has been asked to stop.
    pub open spec fn is_stopping(self) -> bool {
        self.shutdown is None
    }

    /// The same thread, asked to stop.
    pub open spec fn stopped(self) -> Self {
        ThreadHandle { inner: self.inner, shutdown: None }
    }

    /// Starts a thread: `start` gets the receiving half of a fresh channel, on which the request
    /// to stop will arrive, and returns what joins the thread.
    pub fn spawn_new_runtime<F: FnOnce(oneshot::Receiver<()>) -> J>(start: F) -> (r: Self)
        requires
            forall|rx: oneshot::Receiver<()>| #[trigger] start.requires((rx,)),
        ensures
            r.shutdown is Some,
            exists|rx: oneshot::Receiver<()>|
                {
                    &&& call_ensures(oneshot::channel::<()>, (), (r.shutdown->Some_0, rx))
                    &&& #[trigger] start.ensures((rx,), r.inner)
                },
    {
        let (tx, rx) = oneshot::channel::<()>();
        let ghost chosen = rx;
        let inner = start(rx);
        let r = ThreadHandle { inner, shutdown: Some(tx) };
        assert(start.ensures((chosen,), r.inner));
        r
    }

    /// Asks the thread to stop, unless that was done before.
    pub fn request_shutdown(&mut self)
        ensures
            *final(self) == old(self).stopped(),
            final(self).inner == old(self).inner,
            final(self).shutdown is None,
            old(self).shutdown matches Some(tx) ==> exists|sent: Result<(), ()>|
                call_ensures(oneshot::Sender::<()>::send, (tx, ()), sent),
    {
        if let Some(tx) = self.shutdown.take() {
            let _sent: Result<(), ()> = tx.send(());
        }
    }
}

/// The last item moved to the front.
pub open spec fn rotated<T>(s: Seq<T>) -> Seq<T> {
    if s.len() == 0 {
        s
    } else {
        seq![s.last()] + s.drop_last()
    }
}

/// What is left of `threads` once the finished ones are dropped, the last of them first, each
/// hole being filled with the thread that is then at the end.
pub open spec fn survivors<T>(threads: Seq<T>, finished: Seq<bool>) -> Seq<T>
    decreases threads.len(),
{
    if threads.len() == 0 {
        threads
    } else {
        let rest = survivors(threads.drop_first(), finished.drop_first());
        if finished[0] {
            rotated(rest)
        } else {
            seq![threads[0]] + rest
        }
    }
}

/// Whether the last thread may be asked to stop: some other thread stays, and none is stopping.
pub open spec fn may_reduce<J>(threads: Seq<ThreadHandle<J>>) -> bool {
    &&& threads.len() > 1
    &&& forall|i: int| 0 <= i < threads.len() ==> !(#[trigger] threads[i]).is_stopping()
}

/// `threads` with the last one asked to stop, where that is allowed.
pub open spec fn reduced<J>(threads: Seq<ThreadHandle<J>>) -> Seq<ThreadHandle<J>> {
    if may_reduce(threads) {
        threads.update(threads.len() - 1, threads.last().stopped())
    } else {
        threads
    }
}

/// Whether a request calls for one more thread: there is none, or the queue is full and the limit
/// not reached.
pub open spec fn wants_thread(count: nat, limit: usize, queue_full: bool) -> bool {
    ||| count == 0
    ||| queue_full && count < limit
}

/// The threads that serve requests, and how many of them there may be.
pub struct Pool<J> {
    threads: Vec<ThreadHandle<J>>,
    max_threads: usize,
}

impl<J> Pool<J> {
    /// The threads in the pool's own order.
    pub closed spec fn view(&self) -> Seq<ThreadHandle<J>> {
        self.threads@
    }

    /// How many threads the pool may grow to.
    pub closed spec fn limit(&self) -> usize {
        self.max_threads
    }

    /// A pool without threads.
    pub fn new(max_threads: usize) -> (r: Self)
        ensures
            r@ == Seq::<ThreadHandle<J>>::empty(),
            r.limit() == max_threads,
    {
        Pool { threads: Vec::new(), max_threads }
    }

    /// The threads, to look at.
    pub fn threads(&self) -> (r: &Vec<ThreadHandle<J>>)
        ensures
            r@ == self@,
    {
        &self.threads
    }

    /// Adds a thread at the end.
    pub fn push(&mut self, thread: ThreadHandle<J>)
        ensures
            final(self)@ == old(self)@.push(thread),
            final(self).limit() == old(self).limit(),
    {
        self.threads.push(thread);
    }

    /// Drops every thread that has finished; `finished[i]` tells whether thread `i` has.
    pub fn check_threads(&mut self, finished: &Vec<bool>)
        requires
            finished@.len() == old(self)@.len(),
        ensures
            final(self)@ == survivors(old(self)@, finished@),
            final(self).limit() == old(self).limit(),
    {
        let ghost all = self.threads@;
        let mut i: usize = self.threads.len();
        while i > 0
            invariant
                i <= all.len(),
                finished@.len() == all.len(),
                self.max_threads == old(self).max_threads,
                self.threads@ == all.take(i as int) + survivors(
                    all.skip(i as int),
                    finished@.skip(i as int),
                ),
            decreases i,
        {
            i -= 1;
            assert(all.skip(i as int).drop_first() =~= all.skip(i + 1));
            assert(finished@.skip(i as int).drop_first() =~= finished@.skip(i + 1));
            if finished[i] {
                self.threads.swap_remove(i);
            }
        }
        assert(all.skip(0) =~= all);
        assert(finished@.skip(0) =~= finished@);
    }

    /// Whether another thread may be added.
    pub fn has_capacity(&self) -> (r: bool)
        ensures
            r == (self@.len() < self.limit()),
    {
        self.threads.len() < self.max_threads
    }

    /// Whether there is no thread at all.
    pub fn is_empty(&self) -> (r: bool)
        ensures
            r == (self@.len() == 0),
    {
        self.threads.len() == 0
    }

    /// Whether a request that comes while the queue is full, or not, calls for one more thread.
    pub fn wants_thread(&self, queue_full: bool) -> (r: bool)
        ensures
            r == wants_thread(self@.len(), self.limit(), queue_full),
            r == (self@.len() == 0 || (queue_full && self@.len() < self.limit())),
    {
        self.is_empty() || (queue_full && self.has_capacity())
    }

    /// Asks the last thread to stop, unless it is the only one or some thread is stopping
    /// already.
    pub fn reduce_one(&mut self)
        ensures
            final(self)@ == reduced(old(self)@),
            final(self).limit() == old(self).limit(),
            may_reduce(old(self)@) ==> exists|sent: Result<(), ()>|
                call_ensures(
                    oneshot::Sender::<()>::send,
                    (old(self)@.last().shutdown->Some_0, ()),
                    sent,
                ),
            old(self)@.len() >= 2 && (forall|i: int|
                0 <= i < old(self)@.len() ==> (#[trigger] old(self)@[i]).shutdown is Some)
                ==> exists|sent: Result<(), ()>|
                call_ensures(
                    oneshot::Sender::<()>::send,
                    (old(self)@.last().shutdown->Some_0, ()),
                    sent,
                ),
    {
        let count: usize = self.threads.len();
        if count <= 1 {
            return ;
        }
        let mut i: usize = 0;
        while i < count
            invariant
                i <= count,
                count == self.threads@.len(),
                forall|k: int| 0 <= k < i ==> !(#[trigger] self.threads@[k]).is_stopping(),
                *self == *old(self),
            decreases count - i,
        {
            if self.threads[i].shutdown.is_none() {
                return ;
            }
            i += 1;
        }
        self.threads[count - 1].request_shutdown();
    }
}

/// The threads that have not finished, in their old order.
pub open spec fn unfinished<T>(threads: Seq<T>, finished: Seq<bool>) -> Seq<T>
    decreases threads.len(),
{
    if threads.len() == 0 {
        threads
    } else {
        let rest = unfinished(threads.drop_first(), finished.drop_first());
        if finished[0] {
            rest
        } else {
            seq![threads[0]] + rest
        }
    }
}

/// How many of `threads` have been asked to stop.
pub open spec fn stopping<J>(threads: Seq<ThreadHandle<J>>) -> nat
    decreases threads.len(),
{
    if threads.len() == 0 {
        0
    } else {
        (if threads[0].is_stopping() {
            1nat
        } else {
            0nat
        }) + stopping(threads.drop_first())
    }
}

/// What holds of the threads of a pool at all times: no more of them than allowed, and at most
/// one of them shutting down.
pub open spec fn sound<J>(threads: Seq<ThreadHandle<J>>, limit: usize) -> bool {
    &&& threads.len() <= limit
    &&& stopping(threads) <= 1
}

proof fn lemma_rotated_multiset<T>(s: Seq<T>)
    ensures
        rotated(s).to_multiset() == s.to_multiset(),
{
    if s.len() > 0 {
        let last = seq![s.last()];
        vstd::seq_lib::lemma_multiset_commutative(last, s.drop_last());
        vstd::seq_lib::lemma_multiset_commutative(s.drop_last(), last);
        assert(s.drop_last() + last =~= s);
    }
}

proof fn lemma_stopping_concat<J>(a: Seq<ThreadHandle<J>>, b: Seq<ThreadHandle<J>>)
    ensures
        stopping(a + b) == stopping(a) + stopping(b),
    decreases a.len(),
{
    if a.len() > 0 {
        assert((a + b).drop_first() =~= a.drop_first() + b);
        lemma_stopping_concat(a.drop_first(), b);
    }
}

proof fn lemma_stopping_single<J>(t: ThreadHandle<J>)
    ensures
        stopping(seq![t]) == (if t.is_stopping() {
            1nat
        } else {
            0nat
        }),
{
    assert(seq![t].drop_first() =~= Seq::<ThreadHandle<J>>::empty());
    assert(stopping(Seq::<ThreadHandle<J>>::empty()) == 0);
}

proof fn lemma_none_stopping<J>(threads: Seq<ThreadHandle<J>>)
    requires
        forall|i: int| 0 <= i < threads.len() ==> !(#[trigger] threads[i]).is_stopping(),
    ensures
        stopping(threads) == 0,
    decreases threads.len(),
{
    if threads.len() > 0 {
        lemma_none_stopping(threads.drop_first());
    }
}

/// Dropping the finished threads keeps each unfinished one, once, and nothing else; only their
/// order may change.
pub proof fn check_keeps_the_unfinished<T>(threads: Seq<T>, finished: Seq<bool>)
    requires
        finished.len() == threads.len(),
    ensures
        survivors(threads, finished).to_multiset() == unfinished(threads, finished).to_multiset(),
        survivors(threads, finished).len() == unfinished(threads, finished).len(),
        survivors(threads, finished).len() <= threads.len(),
    decreases threads.len(),
{
    if threads.len() > 0 {
        let rest = survivors(threads.drop_first(), finished.drop_first());
        let kept = unfinished(threads.drop_first(), finished.drop_first());
        check_keeps_the_unfinished(threads.drop_first(), finished.drop_first());
        if finished[0] {
            lemma_rotated_multiset(rest);
        } else {
            vstd::seq_lib::lemma_multiset_commutative(seq![threads[0]], rest);
            vstd::seq_lib::lemma_multiset_commutative(seq![threads[0]], kept);
        }
    }
}

/// Where no thread has finished, nothing changes, not even the order.
pub proof fn check_without_finished_changes_nothing<T>(threads: Seq<T>, finished: Seq<bool>)
    requires
        finished.len() == threads.len(),
        forall|i: int| 0 <= i < finished.len() ==> !(#[trigger] finished[i]),
    ensures
        survivors(threads, finished) == threads,
    decreases threads.len(),
{
    if threads.len() > 0 {
        check_without_finished_changes_nothing(threads.drop_first(), finished.drop_first());
    }
}

/// Where every thread has finished, none is left.
pub proof fn check_drops_all_finished<T>(threads: Seq<T>, finished: Seq<bool>)
    requires
        finished.len() == threads.len(),
        forall|i: int| 0 <= i < finished.len() ==> #[trigger] finished[i],
    ensures
        survivors(threads, finished).len() == 0,
    decreases threads.len(),
{
    if threads.len() > 0 {
        check_drops_all_finished(threads.drop_first(), finished.drop_first());
    }
}

/// Dropping finished threads keeps a pool sound.
pub proof fn check_keeps_sound<J>(
    threads: Seq<ThreadHandle<J>>,
    finished: Seq<bool>,
    limit: usize,
)
    requires
        finished.len() == threads.len(),
        sound(threads, limit),
    ensures
        sound(survivors(threads, finished), limit),
{
    check_keeps_the_unfinished(threads, finished);
    lemma_check_stopping(threads, finished);
}

proof fn lemma_check_stopping<J>(threads: Seq<ThreadHandle<J>>, finished: Seq<bool>)
    requires
        finished.len() == threads.len(),
    ensures
        stopping(survivors(threads, finished)) <= stopping(threads),
    decreases threads.len(),
{
    if threads.len() > 0 {
        let rest = survivors(threads.drop_first(), finished.drop_first());
        lemma_check_stopping(threads.drop_first(), finished.drop_first());
        if finished[0] {
            if rest.len() > 0 {
                lemma_stopping_concat(seq![rest.last()], rest.drop_last());
                lemma_stopping_concat(rest.drop_last(), seq![rest.last()]);
                assert(rest.drop_last() + seq![rest.last()] =~= rest);
            }
        } else {
            lemma_stopping_concat(seq![threads[0]], rest);
            lemma_stopping_single(threads[0]);
        }
    }
}

/// Adding a thread that runs keeps a pool sound, where the pool has room for one.
pub proof fn push_keeps_sound<J>(
    threads: Seq<ThreadHandle<J>>,
    thread: ThreadHandle<J>,
    limit: usize,
)
    requires
        threads.len() < limit,
        sound(threads, limit),
        !thread.is_stopping(),
    ensures
        sound(threads.push(thread), limit),
{
    lemma_stopping_concat(threads, seq![thread]);
    lemma_stopping_single(thread);
    assert(threads + seq![thread] =~= threads.push(thread));
}

/// Asking a thread to stop keeps a pool sound.
pub proof fn reduce_keeps_sound<J>(threads: Seq<ThreadHandle<J>>, limit: usize)
    requires
        sound(threads, limit),
    ensures
        sound(reduced(threads), limit),
{
    if may_reduce(threads) {
        let last = threads.last().stopped();
        lemma_none_stopping(threads.drop_last());
        lemma_stopping_concat(threads.drop_last(), seq![last]);
        lemma_stopping_single(last);
        assert(threads.drop_last() + seq![last] =~= reduced(threads));
    }
}

/// Asking a thread to stop drops none and changes none but the last, and doing it again right
/// away changes nothing: the next thread waits until the first is gone.
pub proof fn reduce_stops_one_at_a_time<J>(threads: Seq<ThreadHandle<J>>)
    ensures
        reduced(threads).len() == threads.len(),
        forall|i: int|
            0 <= i < threads.len() - 1 ==> #[trigger] reduced(threads)[i] == threads[i],
        forall|i: int|
            0 <= i < threads.len() ==> (#[trigger] reduced(threads)[i]).inner == threads[i].inner,
        reduced(reduced(threads)) == reduced(threads),
{
}

/// The only thread of a pool is never asked to stop.
pub proof fn reduce_spares_the_last_thread<J>(threads: Seq<ThreadHandle<J>>)
    requires
        threads.len() <= 1,
    ensures
        reduced(threads) == threads,
{
}

/// A full queue calls for one more thread as long as the limit is not reached, and then for none.
/// A queue that has room calls for a thread only where there is none at all.
pub proof fn a_full_queue_calls_for_threads_up_to_the_limit(count: nat, limit: usize)
    ensures
        0 < count < limit ==> wants_thread(count, limit, true),
        0 < count && limit <= count ==> !wants_thread(count, limit, true),
        0 < count ==> !wants_thread(count, limit, false),
        count == 0 ==> wants_thread(count, limit, true) && wants_thread(count, limit, false),
{
}

/// Of two or more threads that all run, the last one is asked to stop, and it alone.
pub proof fn reduce_stops_the_last_of_running_threads<J>(threads: Seq<ThreadHandle<J>>)
    requires
        threads.len() >= 2,
        forall|i: int| 0 <= i < threads.len() ==> (#[trigger] threads[i]).shutdown is Some,
    ensures
        reduced(threads) == threads.drop_last().push(
            ThreadHandle { inner: threads.last().inner, shutdown: None },
        ),
        reduced(threads).last().shutdown is None,
        forall|i: int|
            0 <= i < threads.len() - 1 ==> (#[trigger] reduced(threads)[i]).shutdown is Some,
{
}

/// While one thread is shutting down no other is asked to stop.
pub proof fn reduce_waits_for_a_stopping_thread<J>(threads: Seq<ThreadHandle<J>>, i: int)
    requires
        0 <= i < threads.len(),
        threads[i].shutdown is None,
    ensures
        reduced(threads) == threads,
{
    assert(threads[i].is_stopping());
}

/// A thread is kept if and only if it has not finished, and as many are kept as have not.
pub proof fn check_keeps_a_thread_iff_it_runs<T>(threads: Seq<T>, finished: Seq<bool>)
    requires
        finished.len() == threads.len(),
    ensures
        forall|i: int|
            0 <= i < threads.len() && !finished[i] ==> survivors(threads, finished).contains(
                #[trigger] threads[i],
            ),
        forall|k: int|
            0 <= k < survivors(threads, finished).len() ==> exists|i: int|
                0 <= i < threads.len() && !finished[i] && #[trigger] threads[i]
                    == #[trigger] survivors(threads, finished)[k],
        survivors(threads, finished).len() == finished.to_multiset().count(false),
    decreases threads.len(),
{
    let kept = survivors(threads, finished);
    if threads.len() > 0 {
        let tail = threads.drop_first();
        let flags = finished.drop_first();
        let rest = survivors(tail, flags);
        check_keeps_a_thread_iff_it_runs(tail, flags);
        vstd::seq_lib::lemma_multiset_commutative(seq![finished[0]], flags);
        assert(seq![finished[0]] + flags =~= finished);
        assert(seq![finished[0]].to_multiset() =~= vstd::multiset::Multiset::singleton(
            finished[0],
        )) by {
            assert(seq![finished[0]] =~= Seq::<bool>::empty().push(finished[0]));
            broadcast use vstd::seq_lib::group_to_multiset_ensures;
        }
        assert forall|i: int| 0 <= i < threads.len() && !finished[i] implies kept.contains(
            #[trigger] threads[i],
        ) by {
            if i == 0 {
                assert(kept[0] == threads[0]);
            } else {
                assert(threads[i] == tail[i - 1]);
                assert(!flags[i - 1]);
                let k = choose|k: int| 0 <= k < rest.len() && rest[k] == threads[i];
                if finished[0] {
                    if k == rest.len() - 1 {
                        assert(kept[0] == threads[i]);
                    } else {
                        assert(kept[k + 1] == threads[i]);
                    }
                } else {
                    assert(kept[k + 1] == threads[i]);
                }
            }
        }
        assert forall|k: int| 0 <= k < kept.len() implies exists|i: int|
            0 <= i < threads.len() && !finished[i] && #[trigger] threads[i]
                == #[trigger] kept[k] by {
            if !finished[0] && k == 0 {
                assert(threads[0] == kept[0]);
            } else {
                let from: int = if finished[0] && k == 0 {
                    rest.len() - 1
                } else {
                    k - 1
                };
                assert(kept[k] == rest[from]);
                let i = choose|i: int|
                    0 <= i < tail.len() && !flags[i] && #[trigger] tail[i] == rest[from];
                assert(threads[i + 1] == kept[k]);
                assert(!finished[i + 1]);
            }
        }
    } else {
        assert(finished =~= Seq::<bool>::empty());
        broadcast use vstd::seq_lib::group_to_multiset_ensures;
    }
}

/// Dropping the finished threads is to begin with the last of them, `i`: the thread at the end
/// takes its place, and the others that have finished follow in the same way.
pub proof fn check_begins_with_the_last_finished<T>(threads: Seq<T>, finished: Seq<bool>, i: int)
    requires
        finished.len() == threads.len(),
        0 <= i < threads.len(),
        finished[i],
        forall|k: int| i < k < finished.len() ==> !(#[trigger] finished[k]),
    ensures
        survivors(threads, finished) == survivors(
            threads.update(i, threads.last()).drop_last(),
            finished.update(i, false).drop_last(),
        ),
    decreases threads.len(),
{
    let fewer = threads.update(i, threads.last()).drop_last();
    let flags = finished.update(i, false).drop_last();
    if i == 0 {
        check_without_finished_changes_nothing(threads.drop_first(), finished.drop_first());
        check_without_finished_changes_nothing(fewer, flags);
        assert(survivors(threads, finished) =~= fewer);
    } else {
        let tail = threads.drop_first();
        let rest = finished.drop_first();
        check_begins_with_the_last_finished(tail, rest, i - 1);
        assert(fewer.drop_first() =~= tail.update(i - 1, tail.last()).drop_last());
        assert(flags.drop_first() =~= rest.update(i - 1, false).drop_last());
    }
}

/// Where only the last thread has finished, it goes and the others stay in their order.
pub proof fn check_drops_a_finished_last_thread<T>(threads: Seq<T>, finished: Seq<bool>)
    requires
        finished.len() == threads.len(),
        threads.len() > 0,
        finished.last(),
        forall|k: int| 0 <= k < finished.len() - 1 ==> !(#[trigger] finished[k]),
    ensures
        survivors(threads, finished) == threads.drop_last(),
{
    let i = threads.len() - 1;
    check_begins_with_the_last_finished(threads, finished, i);
    let fewer = threads.update(i, threads.last()).drop_last();
    check_without_finished_changes_nothing(fewer, finished.update(i, false).drop_last());
    assert(fewer =~= threads.drop_last());
}

/// A thread may be asked to stop exactly where there are two or more, each with the means to be
/// asked left; one more running thread never stands in the way.
pub proof fn two_running_threads_may_be_reduced<J>(
    threads: Seq<ThreadHandle<J>>,
    more: ThreadHandle<J>,
)
    ensures
        may_reduce(threads) <==> threads.len() >= 2 && forall|i: int|
            0 <= i < threads.len() ==> (#[trigger] threads[i]).shutdown is Some,
        may_reduce(threads) && more.shutdown is Some ==> may_reduce(threads.push(more)),
        may_reduce(threads) <==> reduced(threads) != threads,
{
    if may_reduce(threads) {
        assert(threads.last().shutdown is Some);
        assert(reduced(threads).last().shutdown is None);
    }
    assert forall|i: int|
        0 <= i < threads.len() && may_reduce(threads) implies (
    #[trigger] threads[i]).shutdown is Some by {
        assert(!threads[i].is_stopping());
    }
}

} // verus!
