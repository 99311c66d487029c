//! The order in which a sign-in session does its work.
//!
//! The session itself sleeps, binds sockets and opens a browser; none of
//! that happens here.  This module decides: given where the session stands
//! and what just happened, what is to be done next.  Whoever runs the
//! session performs each action and reports its outcome as the next event.
use crate::consent::{consent_url, consent_url_text};
use crate::tokens::{
    absorb_all, lemma_missing_key_never_completes, sets, AuthInfo, AuthInfoView, Field,
    TokenState, TokenView,
};
use crate::text::split_on;
use vstd::prelude::*;
use vstd::string::*;

verus! {

/// How long a signaled listener is given to release its port, in
/// milliseconds.
pub const GRACE_MILLIS: u64 = 100;

/// How long to wait between two looks at the token record, in milliseconds.
pub const POLL_MILLIS: u64 = 1000;

/// Why a sign-in ended without a result.
#[derive(Debug)]
pub enum AuthError {
    /// No loopback port could be bound.
    Bind(String),
    /// The browser could not be launched.
    Browser(String),
    /// An event was reported that the session was not waiting for.
    OutOfSequence,
}

/// An `AuthError` as plain text.
pub enum AuthErrorView {
    Bind(Seq<char>),
    Browser(Seq<char>),
    OutOfSequence,
}

impl View for AuthError {
    type V = AuthErrorView;

    open spec fn view(&self) -> AuthErrorView {
        match self {
            AuthError::Bind(reason) => AuthErrorView::Bind(reason@),
            AuthError::Browser(reason) => AuthErrorView::Browser(reason@),
            AuthError::OutOfSequence => AuthErrorView::OutOfSequence,
        }
    }
}

/// The message of an error of which no cause was reported.
pub open spec fn out_of_sequence_text() -> Seq<char> {
    "sign-in received an event it was not waiting for"@
}

impl AuthError {
    /// The error as the text that the caller is shown: the reported cause
    /// where there is one.
    pub open spec fn message_text(self) -> Seq<char> {
        match self {
            AuthError::Bind(reason) => reason@,
            AuthError::Browser(reason) => reason@,
            AuthError::OutOfSequence => out_of_sequence_text(),
        }
    }

    /// The error as text.
    pub fn message(&self) -> (text: String)
        ensures
            text@ == self.message_text(),
    {
        match self {
            AuthError::Bind(reason) => reason.clone(),
            AuthError::Browser(reason) => reason.clone(),
            AuthError::OutOfSequence => String::from_str(
                "sign-in received an event it was not waiting for",
            ),
        }
    }
}

/// Where a session stands.
#[derive(Clone, Copy, Debug, PartialEq, Eq, Structural)]
pub enum AuthPhase {
    /// Nothing has been done yet.
    Idle,
    /// The previous session's listener is being told to stop.
    Preempting,
    /// A previous listener was signaled and is given time to go away.
    Grace,
    /// A loopback port is being bound.
    Binding,
    /// The listener is bound to `port`; its stop signal is being installed.
    Installing { port: u16 },
    /// The browser is being opened.
    Launching,
    /// The listener is being put to work in the background.
    Starting,
    /// The token record is being looked at.
    Reading,
    /// The record was incomplete; the session sleeps before it looks again.
    Pausing,
    /// The session has ended.
    Finished,
}

/// What happened since the last action.
#[derive(Debug)]
pub enum AuthEvent {
    /// The caller asked for a sign-in.
    Started,
    /// The shutdown slot was emptied; `was_present` says whether it held
    /// the signal of an earlier session.
    Preempted { was_present: bool },
    /// The requested sleep is over.
    TimerElapsed,
    /// The listener is bound, to `port`.
    Bound { port: u16 },
    /// No port could be bound.
    BindFailed { reason: String },
    /// This session's stop signal is in the shutdown slot.
    SlotInstalled,
    /// The browser was launched.
    BrowserOpened,
    /// The browser could not be launched.
    BrowserFailed { reason: String },
    /// The listener now serves requests in the background.
    Serving,
    /// The token record as it stood when it was looked at.
    TokensRead { tokens: TokenState },
}

/// What is to be done next.
#[derive(Debug)]
pub enum AuthAction {
    /// Empty the shutdown slot and fire what it held.
    PreemptPrior,
    /// Sleep without blocking the listener.
    Sleep { millis: u64 },
    /// Bind a listener on the loopback interface, on a port of the system's
    /// choosing, that records callbacks in `tokens`.
    BindLoopback { tokens: TokenState },
    /// Put this session's stop signal into the shutdown slot.
    InstallSlot,
    /// Open `url` in the default browser.
    OpenBrowser { url: String },
    /// Let the listener serve requests in the background.
    Serve,
    /// Take the lock on the token record and report what it holds.
    ReadTokens,
    /// Return `outcome` to the caller: the session is over.
    Finish { outcome: Result<AuthInfo, AuthError> },
}

/// An `AuthAction` as plain values.
pub enum ActionView {
    PreemptPrior,
    Sleep { millis: u64 },
    BindLoopback { tokens: TokenView },
    InstallSlot,
    OpenBrowser { url: Seq<char> },
    Serve,
    ReadTokens,
    Finish { outcome: Result<AuthInfoView, AuthErrorView> },
}

impl View for AuthAction {
    type V = ActionView;

    open spec fn view(&self) -> ActionView {
        match self {
            AuthAction::PreemptPrior => ActionView::PreemptPrior,
            AuthAction::Sleep { millis } => ActionView::Sleep { millis: *millis },
            AuthAction::BindLoopback { tokens } => ActionView::BindLoopback { tokens: tokens@ },
            AuthAction::InstallSlot => ActionView::InstallSlot,
            AuthAction::OpenBrowser { url } => ActionView::OpenBrowser { url: url@ },
            AuthAction::Serve => ActionView::Serve,
            AuthAction::ReadTokens => ActionView::ReadTokens,
            AuthAction::Finish { outcome } => ActionView::Finish {
                outcome: match outcome {
                    Ok(info) => Ok(info@),
                    Err(error) => Err(error@),
                },
            },
        }
    }
}

/// The action that ends a session for an event nobody was waiting for.
pub open spec fn out_of_sequence() -> (AuthPhase, ActionView) {
    (AuthPhase::Finished, ActionView::Finish { outcome: Err(AuthErrorView::OutOfSequence) })
}

/// The rule of the session: from a phase and an event, the next phase and
/// the action to perform.
pub open spec fn next(phase: AuthPhase, event: AuthEvent) -> (AuthPhase, ActionView) {
    match phase {
        AuthPhase::Idle => match event {
            AuthEvent::Started => (AuthPhase::Preempting, ActionView::PreemptPrior),
            _ => out_of_sequence(),
        },
        AuthPhase::Preempting => match event {
            AuthEvent::Preempted { was_present } => if was_present {
                (AuthPhase::Grace, ActionView::Sleep { millis: GRACE_MILLIS })
            } else {
                (AuthPhase::Binding, ActionView::BindLoopback { tokens: TokenView::empty() })
            },
            _ => out_of_sequence(),
        },
        AuthPhase::Grace => match event {
            AuthEvent::TimerElapsed => (
                AuthPhase::Binding,
                ActionView::BindLoopback { tokens: TokenView::empty() },
            ),
            _ => out_of_sequence(),
        },
        AuthPhase::Binding => match event {
            AuthEvent::Bound { port } => (AuthPhase::Installing { port }, ActionView::InstallSlot),
            AuthEvent::BindFailed { reason } => (
                AuthPhase::Finished,
                ActionView::Finish { outcome: Err(AuthErrorView::Bind(reason@)) },
            ),
            _ => out_of_sequence(),
        },
        AuthPhase::Installing { port } => match event {
            AuthEvent::SlotInstalled => (
                AuthPhase::Launching,
                ActionView::OpenBrowser { url: consent_url_text(port) },
            ),
            _ => out_of_sequence(),
        },
        AuthPhase::Launching => match event {
            AuthEvent::BrowserOpened => (AuthPhase::Starting, ActionView::Serve),
            AuthEvent::BrowserFailed { reason } => (
                AuthPhase::Finished,
                ActionView::Finish { outcome: Err(AuthErrorView::Browser(reason@)) },
            ),
            _ => out_of_sequence(),
        },
        AuthPhase::Starting => match event {
            AuthEvent::Serving => (AuthPhase::Reading, ActionView::ReadTokens),
            _ => out_of_sequence(),
        },
        AuthPhase::Reading => match event {
            AuthEvent::TokensRead { tokens } => if tokens@.is_complete() {
                (
                    AuthPhase::Finished,
                    ActionView::Finish {
                        outcome: Ok(
                            AuthInfoView {
                                user_id: tokens@.user_id->0,
                                access_token: tokens@.access_token->0,
                            },
                        ),
                    },
                )
            } else {
                (AuthPhase::Pausing, ActionView::Sleep { millis: POLL_MILLIS })
            },
            _ => out_of_sequence(),
        },
        AuthPhase::Pausing => match event {
            AuthEvent::TimerElapsed => (AuthPhase::Reading, ActionView::ReadTokens),
            _ => out_of_sequence(),
        },
        AuthPhase::Finished => out_of_sequence(),
    }
}

/// Where a session that began in `phase` stands after `events`, and the
/// actions it asked for, one for each event.
pub open spec fn run(phase: AuthPhase, events: Seq<AuthEvent>) -> (AuthPhase, Seq<ActionView>)
    decreases events.len(),
{
    if events.len() == 0 {
        (phase, Seq::<ActionView>::empty())
    } else {
        let (mid, actions) = run(phase, events.drop_last());
        let (end, action) = next(mid, events.last());
        (end, actions.push(action))
    }
}

/// What holds of every session run from the start, after any events.
spec fn well_ordered(events: Seq<AuthEvent>) -> bool {
    let (phase, actions) = run(AuthPhase::Idle, events);
    let n = events.len();
    &&& actions.len() == n
    &&& phase == AuthPhase::Idle <==> n == 0
    &&& phase == AuthPhase::Preempting ==> n == 1 && actions[0] == ActionView::PreemptPrior
    &&& phase == AuthPhase::Grace ==> {
        &&& n == 2
        &&& actions[0] == ActionView::PreemptPrior
        &&& actions[1] == ActionView::Sleep { millis: GRACE_MILLIS }
        &&& events[1] is Preempted
        &&& events[1]->was_present
    }
    &&& phase matches AuthPhase::Installing { port } ==> {
        &&& n >= 1
        &&& events[n - 1] is Bound
        &&& events[n - 1]->port == port
    }
    &&& forall|k: int|
        0 <= k < n && #[trigger] actions[k] is BindLoopback ==> {
            &&& actions[0] == ActionView::PreemptPrior
            &&& actions[k]->tokens == TokenView::empty()
            &&& events[1] is Preempted
            &&& if events[1]->was_present {
                k == 2 && actions[1] == ActionView::Sleep { millis: GRACE_MILLIS }
            } else {
                k == 1
            }
        }
    &&& forall|k: int|
        0 <= k < n && #[trigger] actions[k] is OpenBrowser ==> {
            &&& k >= 1
            &&& events[k - 1] is Bound
            &&& actions[k]->url == consent_url_text(events[k - 1]->port)
        }
}

proof fn lemma_well_ordered(events: Seq<AuthEvent>)
    ensures
        well_ordered(events),
    decreases events.len(),
{
    if events.len() > 0 {
        let front = events.drop_last();
        lemma_well_ordered(front);
        let (mid, before) = run(AuthPhase::Idle, front);
        let (end, actions) = run(AuthPhase::Idle, events);
        let n = events.len() as int;
        assert(actions == before.push(next(mid, events.last()).1));
        assert(end == next(mid, events.last()).0);
        assert(events.last() == events[n - 1]);
        assert forall|k: int| 0 <= k < n - 1 implies #[trigger] actions[k] == before[k]
            && #[trigger] events[k] == front[k] by {}
        assert forall|k: int| 0 <= k < n && #[trigger] actions[k] is BindLoopback implies {
            &&& actions[0] == ActionView::PreemptPrior
            &&& actions[k]->tokens == TokenView::empty()
            &&& events[1] is Preempted
            &&& if events[1]->was_present {
                k == 2 && actions[1] == ActionView::Sleep { millis: GRACE_MILLIS }
            } else {
                k == 1
            }
        } by {
            if k < n - 1 {
                assert(before[k] is BindLoopback);
                assert(events[1] == front[1]);
            }
        }
        assert forall|k: int| 0 <= k < n && #[trigger] actions[k] is OpenBrowser implies {
            &&& k >= 1
            &&& events[k - 1] is Bound
            &&& actions[k]->url == consent_url_text(events[k - 1]->port)
        } by {
            if k < n - 1 {
                assert(before[k] is OpenBrowser);
                assert(events[k - 1] == front[k - 1]);
            }
        }
    }
}

/// A session tells the previous listener to stop before it binds its own:
/// whenever it asks for a listener, its first action was to empty the
/// shutdown slot, and the outcome of that was reported.  If the slot held a
/// signal, the grace sleep lies between the two; if not, the bind follows at
/// once.  The listener is always asked for with an empty token record.
pub proof fn lemma_preempt_precedes_bind(events: Seq<AuthEvent>, k: int)
    requires
        0 <= k < events.len(),
        run(AuthPhase::Idle, events).1[k] is BindLoopback,
    ensures
        k >= 1,
        run(AuthPhase::Idle, events).1[0] == ActionView::PreemptPrior,
        run(AuthPhase::Idle, events).1[k]->tokens == TokenView::empty(),
        events[1] is Preempted,
        events[1]->was_present ==> k == 2 && run(AuthPhase::Idle, events).1[1]
            == (ActionView::Sleep { millis: GRACE_MILLIS }),
        !events[1]->was_present ==> k == 1,
{
    lemma_well_ordered(events);
}

/// The address handed to the browser always carries the port that the
/// listener was just reported bound to.
pub proof fn lemma_browser_gets_bound_port(events: Seq<AuthEvent>, k: int)
    requires
        0 <= k < events.len(),
        run(AuthPhase::Idle, events).1[k] is OpenBrowser,
    ensures
        k >= 1,
        events[k - 1] is Bound,
        run(AuthPhase::Idle, events).1[k]->url == consent_url_text(events[k - 1]->port),
{
    lemma_well_ordered(events);
}

/// A session resolves with a result only on reading a complete token
/// record, and then with exactly the two values in it.
pub proof fn lemma_resolves_only_when_complete(phase: AuthPhase, event: AuthEvent)
    requires
        next(phase, event).1 matches ActionView::Finish { outcome } && outcome is Ok,
    ensures
        phase == AuthPhase::Reading,
        event is TokensRead,
        event->tokens@.is_complete(),
        next(phase, event).1->outcome == Ok::<AuthInfoView, AuthErrorView>(
            AuthInfoView {
                user_id: event->tokens@.user_id->0,
                access_token: event->tokens@.access_token->0,
            },
        ),
{
}

/// While one of the two keys has never arrived, in however many callbacks,
/// the wait goes on: reading the record leads to a sleep, and the sleep to
/// the next reading.
pub proof fn lemma_missing_key_keeps_waiting(
    queries: Seq<Seq<char>>,
    f: Field,
    tokens: TokenState,
)
    requires
        tokens@ == absorb_all(TokenView::empty(), queries),
        forall|q: int, k: int|
            0 <= q < queries.len() && 0 <= k < split_on(queries[q], '&').len() ==> !sets(
                #[trigger] split_on(queries[q], '&')[k],
                f,
            ),
    ensures
        next(AuthPhase::Reading, AuthEvent::TokensRead { tokens }) == (
            AuthPhase::Pausing,
            ActionView::Sleep { millis: POLL_MILLIS },
        ),
        next(AuthPhase::Pausing, AuthEvent::TimerElapsed) == (
            AuthPhase::Reading,
            ActionView::ReadTokens,
        ),
{
    lemma_missing_key_never_completes(queries, f);
}

/// A finished session stays finished.
pub proof fn lemma_finished_is_final(events: Seq<AuthEvent>)
    ensures
        run(AuthPhase::Finished, events).0 == AuthPhase::Finished,
    decreases events.len(),
{
    if events.len() > 0 {
        lemma_finished_is_final(events.drop_last());
    }
}

/// One sign-in session's place in its sequence.
pub struct AuthFlow {
    phase: AuthPhase,
}

impl AuthFlow {
    /// Where the session stands.
    pub closed spec fn phase(&self) -> AuthPhase {
        self.phase
    }

    /// A session that has not begun.
    pub fn new() -> (flow: Self)
        ensures
            flow.phase() == AuthPhase::Idle,
    {
        AuthFlow { phase: AuthPhase::Idle }
    }

    /// Where the session stands.
    pub fn current_phase(&self) -> (phase: AuthPhase)
        ensures
            phase == self.phase(),
    {
        self.phase
    }

    /// Takes in what just happened and says what to do next.
    pub fn step(&mut self, event: AuthEvent) -> (action: AuthAction)
        ensures
            (final(self).phase(), action@) == next(old(self).phase(), event),
    {
        let phase = self.phase;
        let mut after = AuthPhase::Finished;
        let mut action = AuthAction::Finish { outcome: Err(AuthError::OutOfSequence) };
        match phase {
            AuthPhase::Idle => match event {
                AuthEvent::Started => {
                    after = AuthPhase::Preempting;
                    action = AuthAction::PreemptPrior;
                },
                _ => {},
            },
            AuthPhase::Preempting => match event {
                AuthEvent::Preempted { was_present } => {
                    if was_present {
                        after = AuthPhase::Grace;
                        action = AuthAction::Sleep { millis: GRACE_MILLIS };
                    } else {
                        after = AuthPhase::Binding;
                        action = AuthAction::BindLoopback { tokens: TokenState::new() };
                    }
                },
                _ => {},
            },
            AuthPhase::Grace => match event {
                AuthEvent::TimerElapsed => {
                    after = AuthPhase::Binding;
                    action = AuthAction::BindLoopback { tokens: TokenState::new() };
                },
                _ => {},
            },
            AuthPhase::Binding => match event {
                AuthEvent::Bound { port } => {
                    after = AuthPhase::Installing { port };
                    action = AuthAction::InstallSlot;
                },
                AuthEvent::BindFailed { reason } => {
                    action = AuthAction::Finish { outcome: Err(AuthError::Bind(reason)) };
                },
                _ => {},
            },
            AuthPhase::Installing { port } => match event {
                AuthEvent::SlotInstalled => {
                    after = AuthPhase::Launching;
                    action = AuthAction::OpenBrowser { url: consent_url(port) };
                },
                _ => {},
            },
            AuthPhase::Launching => match event {
                AuthEvent::BrowserOpened => {
                    after = AuthPhase::Starting;
                    action = AuthAction::Serve;
                },
                AuthEvent::BrowserFailed { reason } => {
                    action = AuthAction::Finish { outcome: Err(AuthError::Browser(reason)) };
                },
                _ => {},
            },
            AuthPhase::Starting => match event {
                AuthEvent::Serving => {
                    after = AuthPhase::Reading;
                    action = AuthAction::ReadTokens;
                },
                _ => {},
            },
            AuthPhase::Reading => match event {
                AuthEvent::TokensRead { tokens } => {
                    match (tokens.user_id, tokens.access_token) {
                        (Some(user_id), Some(access_token)) => {
                            action = AuthAction::Finish {
                                outcome: Ok(AuthInfo { user_id, access_token }),
                            };
                        },
                        _ => {
                            after = AuthPhase::Pausing;
                            action = AuthAction::Sleep { millis: POLL_MILLIS };
                        },
                    }
                },
                _ => {},
            },
            AuthPhase::Pausing => match event {
                AuthEvent::TimerElapsed => {
                    after = AuthPhase::Reading;
                    action = AuthAction::ReadTokens;
                },
                _ => {},
            },
            AuthPhase::Finished => {},
        }
        self.phase = after;
        action
    }
}

} // verus!
