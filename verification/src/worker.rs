//! The loop of a thread that drives one runtime.
use vstd::prelude::*;

verus! {

/// What wakes the loop: the runtime has nothing to do for now, or the thread is asked to stop.
#[derive(Debug, Clone, Copy, PartialEq, Eq, Structural)]
pub enum LoopEvent {
    RuntimeIdle,
    ShutdownRequested,
}

/// What the loop does before it lets the runtime run again.
#[derive(Debug, Clone, Copy, PartialEq, Eq, Structural)]
pub enum LoopAction {
    Nothing,
    RemoveRequestReceiver,
}

/// What an event calls for.
pub open spec fn action_for(event: LoopEvent) -> LoopAction {
    match event {
        LoopEvent::RuntimeIdle => LoopAction::Nothing,
        LoopEvent::ShutdownRequested => LoopAction::RemoveRequestReceiver,
    }
}

/// What the loop remembers: whether it has been asked to stop. It goes on all the same, so that
/// the requests that were taken are answered.
pub struct RuntimeLoop {
    shutdown_received: bool,
}

impl RuntimeLoop {
    /// Whether the request to stop is still waited for.
    pub closed spec fn listening(&self) -> bool {
        !self.shutdown_received
    }

    pub fn new() -> (r: Self)
        ensures
            r.listening(),
    {
        RuntimeLoop { shutdown_received: false }
    }

    /// Whether to wait for the request to stop beside the runtime. It comes once.
    pub fn is_listening(&self) -> (r: bool)
        ensures
            r == self.listening(),
    {
        !self.shutdown_received
    }

    /// Takes an event in and says what to do.
    pub fn on_event(&mut self, event: LoopEvent) -> (r: LoopAction)
        requires
            event is ShutdownRequested ==> old(self).listening(),
        ensures
            r == action_for(event),
            r is RemoveRequestReceiver <==> event is ShutdownRequested,
            final(self).listening() == (old(self).listening() && event is RuntimeIdle),
    {
        match event {
            LoopEvent::RuntimeIdle => LoopAction::Nothing,
            LoopEvent::ShutdownRequested => {
                self.shutdown_received = true;
                LoopAction::RemoveRequestReceiver
            },
        }
    }
}

/// Whether the request to stop is still waited for after these events.
pub open spec fn listening_after(events: Seq<LoopEvent>) -> bool {
    !events.contains(LoopEvent::ShutdownRequested)
}

/// Whether the loop can see these events, in this order: the request to stop is only seen while
/// it is waited for.
pub open spec fn can_occur(events: Seq<LoopEvent>) -> bool {
    forall|i: int|
        0 <= i < events.len() && (#[trigger] events[i]) is ShutdownRequested ==> listening_after(
            events.take(i),
        )
}

/// One more event changes what is waited for as the loop does.
pub proof fn listening_follows_the_events(events: Seq<LoopEvent>, event: LoopEvent)
    ensures
        listening_after(events.push(event)) == (listening_after(events) && event is RuntimeIdle),
{
    let more = events.push(event);
    if events.contains(LoopEvent::ShutdownRequested) {
        let i = choose|i: int| 0 <= i < events.len() && events[i] == LoopEvent::ShutdownRequested;
        assert(more[i] == LoopEvent::ShutdownRequested);
    }
    if event is ShutdownRequested {
        assert(more[events.len() as int] == LoopEvent::ShutdownRequested);
    }
}

/// However long the loop runs, the request receiver is removed at most once.
pub proof fn receiver_is_removed_at_most_once(events: Seq<LoopEvent>, i: int, j: int)
    requires
        can_occur(events),
        0 <= i < events.len(),
        0 <= j < events.len(),
        action_for(events[i]) == LoopAction::RemoveRequestReceiver,
        action_for(events[j]) == LoopAction::RemoveRequestReceiver,
    ensures
        i == j,
{
    if i < j {
        assert(events.take(j)[i] == LoopEvent::ShutdownRequested);
    }
    if j < i {
        assert(events.take(i)[j] == LoopEvent::ShutdownRequested);
    }
}

/// The receiver is removed upon the request to stop, and upon nothing else: it has been removed
/// if and only if the request was among the events.
pub proof fn the_receiver_is_removed_upon_request(events: Seq<LoopEvent>)
    ensures
        events.contains(LoopEvent::ShutdownRequested) <==> exists|i: int|
            0 <= i < events.len() && action_for(#[trigger] events[i])
                == LoopAction::RemoveRequestReceiver,
        listening_after(events) <==> forall|i: int|
            0 <= i < events.len() ==> action_for(#[trigger] events[i]) == LoopAction::Nothing,
        listening_after(events) <==> !events.contains(LoopEvent::ShutdownRequested),
{
    if events.contains(LoopEvent::ShutdownRequested) {
        let i = choose|i: int| 0 <= i < events.len() && events[i] == LoopEvent::ShutdownRequested;
        assert(action_for(events[i]) == LoopAction::RemoveRequestReceiver);
    } else {
        assert forall|i: int| 0 <= i < events.len() implies action_for(#[trigger] events[i])
            == LoopAction::Nothing by {
            if events[i] is ShutdownRequested {
                assert(events.contains(events[i]));
            }
        }
    }
}

} // verus!
