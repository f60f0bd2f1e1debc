//! Restart or stop: what the serving loop does when a session has ended.
//!
//! A session is restarted when, and only when, a reload was requested while
//! it was serving. That the wait for a request was given up, because the
//! session ended for another reason, is never taken for a request.

use vstd::prelude::*;

verus! {

/// What the serving loop does once a session has ended.
#[derive(Debug, Clone, Copy, PartialEq, Eq, Structural)]
pub enum Decision {
    /// Bind again and serve the new content.
    Restart,
    /// Leave the serving loop.
    Stop,
}

/// Where a session stands.
#[derive(Debug, Clone, Copy, PartialEq, Eq, Structural)]
pub enum SessionState {
    /// The session serves, and no reload has been requested.
    Serving,
    /// A reload has been requested and the session has been asked to stop.
    Reloading,
    /// The session has ended, with the decision that was taken then.
    Ended(Decision),
}

/// What the coordinator is told.
#[derive(Debug, Clone, Copy, PartialEq, Eq, Structural)]
pub enum SessionEvent {
    /// A reload request arrived.
    ReloadRequested,
    /// The wait for a request was given up: every handle that could have
    /// sent one is gone.
    WaitAbandoned,
    /// The session has stopped for good.
    SessionEnded,
}

/// What the coordinator asks for.
#[derive(Debug, Clone, Copy, PartialEq, Eq, Structural)]
pub enum SessionAction {
    /// Ask the session to stop gracefully.
    StopSession,
    /// Nothing is to be done.
    Nothing,
    /// The session is over: act on the decision.
    Decide(Decision),
}

/// The state that follows `state` on `event`.
pub open spec fn state_after(state: SessionState, event: SessionEvent) -> SessionState {
    match (state, event) {
        (SessionState::Serving, SessionEvent::ReloadRequested) => SessionState::Reloading,
        (SessionState::Serving, SessionEvent::SessionEnded) => SessionState::Ended(Decision::Stop),
        (SessionState::Reloading, SessionEvent::SessionEnded) => SessionState::Ended(
            Decision::Restart,
        ),
        _ => state,
    }
}

/// The action that `event` calls for in `state`.
pub open spec fn action_on(state: SessionState, event: SessionEvent) -> SessionAction {
    match (state, event) {
        (SessionState::Serving, SessionEvent::ReloadRequested) => SessionAction::StopSession,
        (SessionState::Serving, SessionEvent::SessionEnded) => SessionAction::Decide(
            Decision::Stop,
        ),
        (SessionState::Reloading, SessionEvent::SessionEnded) => SessionAction::Decide(
            Decision::Restart,
        ),
        (SessionState::Ended(decision), SessionEvent::SessionEnded) => SessionAction::Decide(
            decision,
        ),
        _ => SessionAction::Nothing,
    }
}

/// Arbitrates, for one session, between restarting and stopping.
pub struct ReloadCoordinator {
    state: SessionState,
}

impl ReloadCoordinator {
    /// Where the session stands.
    pub closed spec fn state(self) -> SessionState {
        self.state
    }

    /// The coordinator of a session that has just begun to serve.
    pub fn new() -> (c: Self)
        ensures
            c.state() == SessionState::Serving,
    {
        ReloadCoordinator { state: SessionState::Serving }
    }

    /// Where the session stands.
    pub fn current(&self) -> (s: SessionState)
        ensures
            s == self.state(),
    {
        self.state
    }

    /// Takes in one event and says what is to be done.
    pub fn step(&mut self, event: SessionEvent) -> (action: SessionAction)
        ensures
            final(self).state() == state_after(old(self).state(), event),
            action == action_on(old(self).state(), event),
    {
        match self.state {
            SessionState::Serving => match event {
                SessionEvent::ReloadRequested => {
                    self.state = SessionState::Reloading;
                    SessionAction::StopSession
                },
                SessionEvent::SessionEnded => {
                    self.state = SessionState::Ended(Decision::Stop);
                    SessionAction::Decide(Decision::Stop)
                },
                SessionEvent::WaitAbandoned => SessionAction::Nothing,
            },
            SessionState::Reloading => match event {
                SessionEvent::SessionEnded => {
                    self.state = SessionState::Ended(Decision::Restart);
                    SessionAction::Decide(Decision::Restart)
                },
                _ => SessionAction::Nothing,
            },
            SessionState::Ended(decision) => match event {
                SessionEvent::SessionEnded => SessionAction::Decide(decision),
                _ => SessionAction::Nothing,
            },
        }
    }
}

/// The state that a session is in after a run of events.
pub open spec fn state_after_all(state: SessionState, events: Seq<SessionEvent>) -> SessionState
    decreases events.len(),
{
    if events.len() == 0 {
        state
    } else {
        state_after_all(state_after(state, events[0]), events.drop_first())
    }
}

/// How many times a run of events has the session asked to stop.
pub open spec fn stops_asked(state: SessionState, events: Seq<SessionEvent>) -> nat
    decreases events.len(),
{
    if events.len() == 0 {
        0
    } else {
        let here: nat = if action_on(state, events[0]) == SessionAction::StopSession {
            1
        } else {
            0
        };
        here + stops_asked(state_after(state, events[0]), events.drop_first())
    }
}

/// Only the first reload request counts: once one has been taken in, no run
/// of events has the session asked to stop again.
pub proof fn lemma_later_requests_do_nothing(state: SessionState, events: Seq<SessionEvent>)
    requires
        state != SessionState::Serving,
    ensures
        stops_asked(state, events) == 0,
        state == SessionState::Reloading ==> state_after_all(state, events)
            == SessionState::Reloading || state_after_all(state, events) == SessionState::Ended(
            Decision::Restart,
        ),
        state is Ended ==> state_after_all(state, events) == state,
    decreases events.len(),
{
    if events.len() > 0 {
        lemma_later_requests_do_nothing(state_after(state, events[0]), events.drop_first());
    }
}

/// A session that serves is asked to stop once for all the reload requests
/// that reach it while it serves, however many they are, and not at all
/// when none does.
pub proof fn lemma_one_stop_for_all_requests(events: Seq<SessionEvent>)
    ensures
        stops_asked(SessionState::Serving, events) <= 1,
        stops_asked(SessionState::Serving, events) == 1 <==> state_after_all(
            SessionState::Serving,
            events,
        ) == SessionState::Reloading || state_after_all(SessionState::Serving, events)
            == SessionState::Ended(Decision::Restart),
    decreases events.len(),
{
    if events.len() > 0 {
        let next = state_after(SessionState::Serving, events[0]);
        if next == SessionState::Serving {
            lemma_one_stop_for_all_requests(events.drop_first());
        } else {
            lemma_later_requests_do_nothing(next, events.drop_first());
        }
    }
}

/// The session is restarted if and only if a reload was requested before it
/// ended. A wait that was given up is no request: a session that ends
/// without one is stopped.
pub proof fn lemma_restart_iff_requested(before: Seq<SessionEvent>, after: Seq<SessionEvent>)
    requires
        forall|i: int| 0 <= i < before.len() ==> #[trigger] before[i] != SessionEvent::SessionEnded,
    ensures
        state_after_all(
            SessionState::Serving,
            before + seq![SessionEvent::SessionEnded] + after,
        ) == SessionState::Ended(
            if before.contains(SessionEvent::ReloadRequested) {
                Decision::Restart
            } else {
                Decision::Stop
            },
        ),
{
    lemma_before_the_end(SessionState::Serving, before);
    let at_end = state_after_all(SessionState::Serving, before);
    let ended = state_after(at_end, SessionEvent::SessionEnded);
    lemma_runs_join(SessionState::Serving, before, seq![SessionEvent::SessionEnded] + after);
    assert(before + (seq![SessionEvent::SessionEnded] + after) =~= before
        + seq![SessionEvent::SessionEnded] + after);
    let tail = seq![SessionEvent::SessionEnded] + after;
    assert(tail[0] == SessionEvent::SessionEnded);
    assert(tail.drop_first() =~= after);
    lemma_later_requests_do_nothing(ended, after);
}

/// Until the session ends, its state says whether a reload was requested.
proof fn lemma_before_the_end(state: SessionState, events: Seq<SessionEvent>)
    requires
        state == SessionState::Serving || state == SessionState::Reloading,
        forall|i: int| 0 <= i < events.len() ==> #[trigger] events[i] != SessionEvent::SessionEnded,
    ensures
        state_after_all(state, events) == if state == SessionState::Reloading || events.contains(
            SessionEvent::ReloadRequested,
        ) {
            SessionState::Reloading
        } else {
            SessionState::Serving
        },
    decreases events.len(),
{
    if events.len() > 0 {
        let rest = events.drop_first();
        assert(events[0] != SessionEvent::SessionEnded);
        assert forall|i: int| 0 <= i < rest.len() implies #[trigger] rest[i]
            != SessionEvent::SessionEnded by {
            assert(rest[i] == events[i + 1]);
        }
        lemma_before_the_end(state_after(state, events[0]), rest);
        if rest.contains(SessionEvent::ReloadRequested) {
            let i = choose|i: int| 0 <= i < rest.len() && rest[i] == SessionEvent::ReloadRequested;
            assert(events[i + 1] == SessionEvent::ReloadRequested);
        }
        if events.contains(SessionEvent::ReloadRequested) && events[0]
            != SessionEvent::ReloadRequested {
            let i = choose|i: int|
                0 <= i < events.len() && events[i] == SessionEvent::ReloadRequested;
            assert(rest[i - 1] == SessionEvent::ReloadRequested);
        }
    } else {
        assert(!events.contains(SessionEvent::ReloadRequested));
    }
}

/// A run of events is its first part followed by the rest.
proof fn lemma_runs_join(state: SessionState, first: Seq<SessionEvent>, rest: Seq<SessionEvent>)
    ensures
        state_after_all(state, first + rest) == state_after_all(
            state_after_all(state, first),
            rest,
        ),
    decreases first.len(),
{
    if first.len() == 0 {
        assert(first + rest =~= rest);
    } else {
        assert((first + rest).drop_first() =~= first.drop_first() + rest);
        assert((first + rest)[0] == first[0]);
        lemma_runs_join(state_after(state, first[0]), first.drop_first(), rest);
    }
}

} // verus!
