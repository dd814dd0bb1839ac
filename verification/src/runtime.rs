//! What one runtime keeps between the calls that its script makes.
use std::collections::HashMap;
use tokio::sync::oneshot;
use vstd::prelude::*;

verus! {

broadcast use vstd::std_specs::hash::group_hash_axioms;

/// Where a runtime takes its requests from.
#[verifier::reject_recursive_types(Q)]
#[verifier::reject_recursive_types(R)]
pub struct RequestReceiver<Q, R>(pub flume::Receiver<(Q, oneshot::Sender<R>)>);

impl<Q, R> Clone for RequestReceiver<Q, R> {
    /// Another handle of the same queue.
    fn clone(&self) -> (r: Self)
        ensures
            r == *self,
    {
        RequestReceiver(self.0.clone())
    }
}

/// How many ids there are before they repeat.
pub open spec fn id_count() -> int {
    usize::MAX + 1
}

/// The id that is given out `n` ids after `id`. The ids go round.
pub open spec fn id_after(id: usize, n: nat) -> usize {
    ((id + n) % id_count()) as usize
}

/// The id that is given out right after `id`.
pub open spec fn following(id: usize) -> usize {
    if id == usize::MAX {
        0
    } else {
        (id + 1) as usize
    }
}

/// Gives out ids, one after the other.
pub struct IdCounter {
    inner: usize,
}

impl IdCounter {
    /// The id that comes next.
    pub closed spec fn view(&self) -> usize {
        self.inner
    }

    pub fn new() -> (r: Self)
        ensures
            r@ == 0,
    {
        IdCounter { inner: 0 }
    }

    /// Gives out an id.
    pub fn next(&mut self) -> (r: usize)
        ensures
            r == old(self)@,
            final(self)@ == following(old(self)@),
            old(self)@ < usize::MAX ==> final(self)@ == old(self)@ + 1,
            old(self)@ == usize::MAX ==> final(self)@ == 0,
    {
        let id: usize = self.inner;
        self.inner = self.inner.wrapping_add(1);
        id
    }
}

/// The ways back for the responses that are still owed, by request id.
#[verifier::reject_recursive_types(R)]
pub struct ResponseSenders<R> {
    inner: HashMap<usize, oneshot::Sender<R>>,
}

impl<R> ResponseSenders<R> {
    /// The way back for each id.
    pub closed spec fn view(&self) -> Map<usize, oneshot::Sender<R>> {
        self.inner@
    }

    pub fn new() -> (r: Self)
        ensures
            r@ == Map::<usize, oneshot::Sender<R>>::empty(),
    {
        ResponseSenders { inner: HashMap::new() }
    }

    /// Keeps `sender` for `id`, in place of what was kept for it before.
    pub fn insert(&mut self, id: usize, sender: oneshot::Sender<R>)
        ensures
            final(self)@ == old(self)@.insert(id, sender),
    {
        self.inner.insert(id, sender);
    }

    /// Hands out what is kept for `id`, if anything.
    pub fn take(&mut self, id: usize) -> (r: Option<oneshot::Sender<R>>)
        ensures
            r == (if old(self)@.contains_key(id) {
                Some(old(self)@[id])
            } else {
                None
            }),
            final(self)@ == old(self)@.remove(id),
    {
        self.inner.remove(&id)
    }
}

/// A request as the script gets it.
pub struct OpSsrRequest<Q> {
    pub id: usize,
    pub req: Q,
}

/// What the operations of one runtime share: the queue of requests, until it is taken away, the
/// router for local fetches, if there is one, and the responses that are owed.
#[verifier::reject_recursive_types(Q)]
#[verifier::reject_recursive_types(R)]
pub struct Runtime<P, Q, R, O> {
    receiver: Option<RequestReceiver<Q, R>>,
    pit: Option<P>,
    ids: IdCounter,
    senders: ResponseSenders<R>,
    options: O,
}

impl<P, Q, R, O> Runtime<P, Q, R, O> {
    /// The queue of requests, unless it was taken away.
    pub closed spec fn receiver(&self) -> Option<RequestReceiver<Q, R>> {
        self.receiver
    }

    /// The router for local fetches.
    pub closed spec fn pit(&self) -> Option<P> {
        self.pit
    }

    /// The id that the next request gets.
    pub closed spec fn next_id(&self) -> usize {
        self.ids@
    }

    /// The way back for each response that is owed.
    pub closed spec fn pending(&self) -> Map<usize, oneshot::Sender<R>> {
        self.senders@
    }

    /// What the script is configured with.
    pub closed spec fn options(&self) -> O {
        self.options
    }

    /// A runtime that owes no response yet.
    pub fn new(pit: Option<P>, rx: RequestReceiver<Q, R>, opts: O) -> (r: Self)
        ensures
            r.receiver() == Some(rx),
            r.pit() == pit,
            r.next_id() == 0,
            r.pending() == Map::<usize, oneshot::Sender<R>>::empty(),
            r.options() == opts,
    {
        Runtime {
            receiver: Some(rx),
            pit,
            ids: IdCounter::new(),
            senders: ResponseSenders::new(),
            options: opts,
        }
    }

    /// Whether the queue of requests is still there to be taken away.
    pub fn has_request_receiver(&self) -> (r: bool)
        ensures
            r == (self.receiver() is Some),
    {
        self.receiver.is_some()
    }

    /// Takes the queue of requests away, so that no further request is taken from it.
    pub fn remove_request_receiver(&mut self)
        requires
            old(self).receiver() is Some,
        ensures
            final(self).receiver() is None,
            final(self).pit() == old(self).pit(),
            final(self).next_id() == old(self).next_id(),
            final(self).pending() == old(self).pending(),
            final(self).options() == old(self).options(),
    {
        self.receiver = None;
    }

    /// What the script is configured with.
    pub fn op_get_options(&self) -> (r: O) where O: Clone
        ensures
            cloned(self.options(), r),
    {
        self.options.clone()
    }

    /// The router for local fetches.
    pub fn op_fetch_pit(&self) -> (r: Option<P>) where P: Clone
        ensures
            r is Some == self.pit() is Some,
            r matches Some(pit) ==> cloned(self.pit()->Some_0, pit),
    {
        self.pit.clone()
    }

    /// Begins to take a request: gives out its id and the queue on which to wait for it. Nothing,
    /// and no id used up, where the queue was taken away: then the script stops asking.
    pub fn op_next_request_begin(&mut self) -> (r: Option<(usize, RequestReceiver<Q, R>)>)
        ensures
            r is Some == old(self).receiver() is Some,
            r matches Some((id, queue)) ==> {
                &&& id == old(self).next_id()
                &&& Some(queue) == old(self).receiver()
                &&& final(self).next_id() == following(id)
                &&& id < usize::MAX ==> final(self).next_id() == id + 1
                &&& id == usize::MAX ==> final(self).next_id() == 0
            },
            r is None ==> final(self).next_id() == old(self).next_id(),
            final(self).receiver() == old(self).receiver(),
            final(self).pit() == old(self).pit(),
            final(self).pending() == old(self).pending(),
            final(self).options() == old(self).options(),
    {
        match &self.receiver {
            None => None,
            Some(receiver) => {
                let queue = receiver.clone();
                let id: usize = self.ids.next();
                Some((id, queue))
            },
        }
    }

    /// Ends to take a request: what came out of the queue becomes the request `id`, and its
    /// response is owed from now on. Nothing comes out of a queue that is closed.
    pub fn op_next_request_end(
        &mut self,
        id: usize,
        received: Option<(Q, oneshot::Sender<R>)>,
    ) -> (r: Option<OpSsrRequest<Q>>)
        ensures
            received matches Some((req, tx)) ==> {
                &&& r == Some(OpSsrRequest { id, req })
                &&& final(self).pending() == old(self).pending().insert(id, tx)
            },
            received is None ==> {
                &&& r is None
                &&& final(self).pending() == old(self).pending()
            },
            final(self).receiver() == old(self).receiver(),
            final(self).pit() == old(self).pit(),
            final(self).next_id() == old(self).next_id(),
            final(self).options() == old(self).options(),
    {
        match received {
            None => None,
            Some((req, tx)) => {
                self.senders.insert(id, tx);
                Some(OpSsrRequest { id, req })
            },
        }
    }

    /// Sends the response to the request `id` back. Nothing where none is owed, or where nobody
    /// waits for it any more; either way none is owed afterwards.
    pub fn op_send_response(&mut self, id: usize, resp: R) -> (r: Option<()>)
        ensures
            final(self).pending() == old(self).pending().remove(id),
            !old(self).pending().contains_key(id) ==> r is None,
            old(self).pending().contains_key(id) ==> exists|sent: Result<(), R>|
                {
                    &&& #[trigger] call_ensures(
                        oneshot::Sender::<R>::send,
                        (old(self).pending()[id], resp),
                        sent,
                    )
                    &&& r is Some == sent is Ok
                },
            final(self).receiver() == old(self).receiver(),
            final(self).pit() == old(self).pit(),
            final(self).next_id() == old(self).next_id(),
            final(self).options() == old(self).options(),
    {
        match self.senders.take(id) {
            None => None,
            Some(tx) => tx.send(resp).ok(),
        }
    }
}

/// Whether each id in `ids` was given out, and at most `n` ids before `next`.
pub open spec fn recently_given(ids: Set<usize>, next: usize, n: nat) -> bool {
    forall|id: usize| #[trigger]
        ids.contains(id) ==> exists|k: nat| 1 <= k <= n && id_after(id, k) == next
}

/// The id that follows another is the one that comes one id after it.
pub proof fn following_is_one_after(id: usize)
    ensures
        following(id) == id_after(id, 1),
{
    if id == usize::MAX {
        vstd::arithmetic::div_mod::lemma_mod_self_0(id_count());
    } else {
        vstd::arithmetic::div_mod::lemma_small_mod((id + 1) as nat, id_count() as nat);
    }
}

/// Ids go on as if counted one by one: `n` steps after one step are `n + 1` steps.
pub proof fn ids_follow_each_other(id: usize, n: nat)
    ensures
        id_after(id_after(id, 1), n) == id_after(id, n + 1),
{
    vstd::arithmetic::div_mod::lemma_add_mod_noop(id + 1, n as int, id_count());
    vstd::arithmetic::div_mod::lemma_add_mod_noop((id + 1) % id_count(), n as int, id_count());
    vstd::arithmetic::div_mod::lemma_mod_twice(id + 1, id_count());
}

/// Two ids are different unless as many ids as there are lie between them.
pub proof fn ids_do_not_repeat_soon(id: usize, i: nat, j: nat)
    requires
        i < j,
        j - i < id_count(),
    ensures
        id_after(id, i) != id_after(id, j),
{
    let m = id_count();
    vstd::arithmetic::div_mod::lemma_mod_equivalence(id + j, id + i, m);
    vstd::arithmetic::div_mod::lemma_small_mod((j - i) as nat, m as nat);
    vstd::arithmetic::div_mod::lemma_mod_bound(id + i, m);
    vstd::arithmetic::div_mod::lemma_mod_bound(id + j, m);
}

/// While a response is owed that is not too old, the id of the next request is free: no request
/// takes the way back of another.
pub proof fn next_id_is_free(pending: Set<usize>, next: usize, n: nat)
    requires
        recently_given(pending, next, n),
        n < id_count(),
    ensures
        !pending.contains(next),
{
    if pending.contains(next) {
        let k = choose|k: nat| 1 <= k <= n && id_after(next, k) == next;
        ids_do_not_repeat_soon(next, 0, k);
        vstd::arithmetic::div_mod::lemma_small_mod(next as nat, id_count() as nat);
    }
}

/// Giving out an id, owing its response and sending responses back keep what is owed recent.
pub proof fn pending_stays_recent(pending: Set<usize>, next: usize, n: nat, answered: usize)
    requires
        recently_given(pending, next, n),
    ensures
        recently_given(pending.insert(next), id_after(next, 1), n + 1),
        recently_given(pending, id_after(next, 1), n + 1),
        recently_given(pending.remove(answered), next, n),
{
    assert forall|id: usize| #[trigger] pending.insert(next).contains(id) implies exists|k: nat|
        1 <= k <= n + 1 && id_after(id, k) == id_after(next, 1) by {
        if id == next {
            assert(id_after(id, 1) == id_after(next, 1));
        } else {
            let k = choose|k: nat| 1 <= k <= n && id_after(id, k) == next;
            lemma_one_more(id, k);
        }
    }
    assert forall|id: usize| #[trigger] pending.contains(id) implies exists|k: nat|
        1 <= k <= n + 1 && id_after(id, k) == id_after(next, 1) by {
        assert(pending.insert(next).contains(id));
    }
}

proof fn lemma_one_more(id: usize, k: nat)
    ensures
        id_after(id_after(id, k), 1) == id_after(id, k + 1),
{
    vstd::arithmetic::div_mod::lemma_mod_bound(id + k, id_count());
    vstd::arithmetic::div_mod::lemma_add_mod_noop(id + k, 1, id_count());
    vstd::arithmetic::div_mod::lemma_add_mod_noop((id + k) % id_count(), 1, id_count());
    vstd::arithmetic::div_mod::lemma_mod_twice(id + k, id_count());
}

/// Each request can be answered, once: from the moment it is taken a response is owed for its id,
/// and after the response none is, whatever else is owed staying as it was.
pub proof fn a_request_is_answered_once<R>(
    pending: Map<usize, oneshot::Sender<R>>,
    id: usize,
    tx: oneshot::Sender<R>,
    other: usize,
)
    requires
        other != id,
    ensures
        pending.insert(id, tx).contains_key(id),
        pending.insert(id, tx)[id] == tx,
        !pending.insert(id, tx).remove(id).contains_key(id),
        pending.insert(id, tx).remove(id).contains_key(other) == pending.contains_key(other),
        pending.contains_key(other) ==> pending.insert(id, tx).remove(id)[other] == pending[other],
{
}

/// The ids of one runtime: the next one, those of requests that are waited for, those of requests
/// whose response is owed, and how many have been given out so far.
pub struct IdModel {
    pub next: usize,
    pub waiting: Set<usize>,
    pub pending: Set<usize>,
    pub given: nat,
}

/// Something that happens to the ids of a runtime.
pub enum IdEvent {
    /// A request is waited for.
    Begin,
    /// The wait is over, with a request or without.
    End { id: usize, received: bool },
    /// A response is sent.
    Respond { id: usize },
}

/// The ids of a runtime that has just started.
pub open spec fn first_ids() -> IdModel {
    IdModel { next: 0, waiting: Set::empty(), pending: Set::empty(), given: 0 }
}

/// Whether an event can happen: a wait ends that has begun.
pub open spec fn id_event_possible(ids: IdModel, event: IdEvent) -> bool {
    event matches IdEvent::End { id, .. } ==> ids.waiting.contains(id)
}

/// The ids after an event.
pub open spec fn ids_after(ids: IdModel, event: IdEvent) -> IdModel {
    match event {
        IdEvent::Begin => IdModel {
            next: following(ids.next),
            waiting: ids.waiting.insert(ids.next),
            pending: ids.pending,
            given: ids.given + 1,
        },
        IdEvent::End { id, received } => IdModel {
            next: ids.next,
            waiting: ids.waiting.remove(id),
            pending: if received {
                ids.pending.insert(id)
            } else {
                ids.pending
            },
            given: ids.given,
        },
        IdEvent::Respond { id } => IdModel {
            next: ids.next,
            waiting: ids.waiting,
            pending: ids.pending.remove(id),
            given: ids.given,
        },
    }
}

/// The ids after a history of events from the start.
pub open spec fn ids_after_all(history: Seq<IdEvent>) -> IdModel
    decreases history.len(),
{
    if history.len() == 0 {
        first_ids()
    } else {
        ids_after(ids_after_all(history.drop_last()), history.last())
    }
}

/// Whether each event of a history can happen after the earlier ones.
pub open spec fn is_id_history(history: Seq<IdEvent>) -> bool
    decreases history.len(),
{
    history.len() > 0 ==> {
        &&& is_id_history(history.drop_last())
        &&& id_event_possible(ids_after_all(history.drop_last()), history.last())
    }
}

/// As long as the ids have not gone round, no request that is waited for has the id of one whose
/// response is owed, so that no way back is ever lost.
pub proof fn no_way_back_is_lost(history: Seq<IdEvent>)
    requires
        is_id_history(history),
        ids_after_all(history).given <= id_count(),
    ensures
        ids_after_all(history).waiting.disjoint(ids_after_all(history).pending),
        recently_given(
            ids_after_all(history).waiting.union(ids_after_all(history).pending),
            ids_after_all(history).next,
            ids_after_all(history).given,
        ),
    decreases history.len(),
{
    if history.len() > 0 {
        let before = ids_after_all(history.drop_last());
        let ids = ids_after_all(history);
        no_way_back_is_lost(history.drop_last());
        let open = before.waiting.union(before.pending);
        match history.last() {
            IdEvent::Begin => {
                next_id_is_free(open, before.next, before.given);
                pending_stays_recent(open, before.next, before.given, 0);
                following_is_one_after(before.next);
                assert(ids.waiting.union(ids.pending) =~= open.insert(before.next));
            },
            IdEvent::End { id, received } => {
                assert forall|one: usize| #[trigger]
                    ids.waiting.union(ids.pending).contains(one) implies exists|k: nat|
                    1 <= k <= ids.given && id_after(one, k) == ids.next by {
                    assert(open.contains(one));
                }
            },
            IdEvent::Respond { id } => {
                assert forall|one: usize| #[trigger]
                    ids.waiting.union(ids.pending).contains(one) implies exists|k: nat|
                    1 <= k <= ids.given && id_after(one, k) == ids.next by {
                    assert(open.contains(one));
                }
            },
        }
    }
}

/// Ids count up by one and start again at zero after the largest; no two of them are followed by
/// the same one.
pub proof fn ids_count_up(one: usize, other: usize)
    ensures
        one < usize::MAX ==> following(one) == one + 1,
        one == usize::MAX ==> following(one) == 0,
        following(one) == following(other) ==> one == other,
{
}

/// The id `n` ids after the first is `n`, as long as there is such a number.
pub proof fn ids_number_the_requests(n: usize)
    ensures
        id_after(0, n as nat) == n,
{
    vstd::arithmetic::div_mod::lemma_small_mod(n as nat, id_count() as nat);
}

} // verus!
