use crate::models::ConnectionTestResult;
use vstd::prelude::*;

verus! {

/// Verdict of a probe whose session opened and whose query ran.
pub open spec fn success_spec(r: ConnectionTestResult) -> bool {
    &&& r.success
    &&& r.message@ == ("Connection successful!")@
    &&& r.error is None
}

/// Verdict of a probe that never obtained a session, whether DNS, TCP, TLS
/// or authentication stopped it. `detail` is the driver's error text, kept
/// verbatim.
pub open spec fn connect_failure_spec(r: ConnectionTestResult, detail: Seq<char>) -> bool {
    &&& !r.success
    &&& r.message@ == ("Failed to connect to database")@
    &&& r.error is Some
    &&& r.error.unwrap()@ == detail
}

/// Verdict of a probe that opened a session and then saw its query
/// rejected. `detail` is the driver's error text, kept verbatim.
pub open spec fn query_failure_spec(r: ConnectionTestResult, detail: Seq<char>) -> bool {
    &&& !r.success
    &&& r.message@ == ("Failed to execute test query")@
    &&& r.error is Some
    &&& r.error.unwrap()@ == detail
}

impl ConnectionTestResult {
    /// The verdict for a probe whose session opened and whose liveness query
    /// succeeded.
    pub fn successful() -> (r: ConnectionTestResult)
        ensures
            success_spec(r),
            r.wf(),
    {
        ConnectionTestResult {
            success: true,
            message: String::from_str("Connection successful!"),
            error: None,
        }
    }

    /// The verdict for a probe that could not establish a session.
    pub fn connect_failure(detail: String) -> (r: ConnectionTestResult)
        ensures
            connect_failure_spec(r, detail@),
            r.wf(),
    {
        ConnectionTestResult {
            success: false,
            message: String::from_str("Failed to connect to database"),
            error: Some(detail),
        }
    }

    /// The verdict for a probe whose session opened but whose liveness query
    /// was rejected.
    pub fn query_failure(detail: String) -> (r: ConnectionTestResult)
        ensures
            query_failure_spec(r, detail@),
            r.wf(),
    {
        ConnectionTestResult {
            success: false,
            message: String::from_str("Failed to execute test query"),
            error: Some(detail),
        }
    }
}

/// What the probe observed from the driver at one suspension point.
pub enum ProbeEvent {
    /// Session establishment succeeded; a session is now open.
    Connected,
    /// Session establishment failed with the driver's error text.
    ConnectRefused { detail: String },
    /// The liveness query ran on the open session.
    QueryPassed,
    /// The liveness query was rejected; the session is still open.
    QueryRejected { detail: String },
    /// The open session has been released.
    SessionClosed,
}

/// One stage of a probe. The caller performs the I/O the stage calls for and
/// reports the outcome as a `ProbeEvent`.
pub enum ProbeStep {
    /// Attempt to open a session to the target; no session exists yet.
    Connect,
    /// A session is open: run the liveness query on it.
    Query,
    /// The verdict is settled but the session is still open: it must be
    /// released before the probe may finish.
    Close { pending: ConnectionTestResult },
    /// The probe is finished; no session remains open.
    Done { result: ConnectionTestResult },
}

/// Whether a stage holds an open session that still has to be released.
pub open spec fn session_open(s: ProbeStep) -> bool {
    s is Query || s is Close
}

/// Which driver outcomes can be reported at each stage.
pub open spec fn event_allowed(s: ProbeStep, e: ProbeEvent) -> bool {
    match s {
        ProbeStep::Connect => e is Connected || e is ConnectRefused,
        ProbeStep::Query => e is QueryPassed || e is QueryRejected,
        ProbeStep::Close { .. } => e is SessionClosed,
        ProbeStep::Done { .. } => false,
    }
}

/// The probe's transition relation: how a stage answers a driver outcome.
pub open spec fn step_rel(s: ProbeStep, e: ProbeEvent, r: ProbeStep) -> bool {
    match (s, e) {
        (ProbeStep::Connect, ProbeEvent::Connected) => r is Query,
        (ProbeStep::Connect, ProbeEvent::ConnectRefused { detail }) => {
            &&& r is Done
            &&& connect_failure_spec(done_result(r), detail@)
        },
        (ProbeStep::Query, ProbeEvent::QueryPassed) => {
            &&& r is Close
            &&& success_spec(pending_result(r))
        },
        (ProbeStep::Query, ProbeEvent::QueryRejected { detail }) => {
            &&& r is Close
            &&& query_failure_spec(pending_result(r), detail@)
        },
        (ProbeStep::Close { pending }, ProbeEvent::SessionClosed) => {
            &&& r is Done
            &&& done_result(r) == pending
        },
        _ => false,
    }
}

/// The settled verdict carried by a `Close` stage.
pub open spec fn pending_result(s: ProbeStep) -> ConnectionTestResult
    recommends
        s is Close,
{
    match s {
        ProbeStep::Close { pending } => pending,
        _ => arbitrary(),
    }
}

/// The verdict carried by a `Done` stage.
pub open spec fn done_result(s: ProbeStep) -> ConnectionTestResult
    recommends
        s is Done,
{
    match s {
        ProbeStep::Done { result } => result,
        _ => arbitrary(),
    }
}

/// A fresh probe: the first thing to do is attempt a session.
pub fn probe_start() -> (s: ProbeStep)
    ensures
        s is Connect,
        !session_open(s),
{
    ProbeStep::Connect
}

/// Advance the probe by one observed driver outcome.
///
/// A session becomes open only on `Connected`, and the probe reaches `Done`
/// from an open session only through `SessionClosed`: the verdict of a query
/// outcome is parked in `Close` until the session is released.
pub fn probe_step(s: ProbeStep, e: ProbeEvent) -> (r: ProbeStep)
    requires
        event_allowed(s, e),
    ensures
        step_rel(s, e, r),
        session_open(r) <==> (e is Connected || e is QueryPassed || e is QueryRejected),
{
    match (s, e) {
        (ProbeStep::Connect, ProbeEvent::Connected) => ProbeStep::Query,
        (ProbeStep::Connect, ProbeEvent::ConnectRefused { detail }) => ProbeStep::Done {
            result: ConnectionTestResult::connect_failure(detail),
        },
        (ProbeStep::Query, ProbeEvent::QueryPassed) => ProbeStep::Close {
            pending: ConnectionTestResult::successful(),
        },
        (ProbeStep::Query, ProbeEvent::QueryRejected { detail }) => ProbeStep::Close {
            pending: ConnectionTestResult::query_failure(detail),
        },
        (ProbeStep::Close { pending }, ProbeEvent::SessionClosed) => ProbeStep::Done {
            result: pending,
        },
        (other, _) => other,
    }
}

/// A complete record of one probe run: `states[0]` is the fresh probe and the
/// `i`-th event takes `states[i]` to `states[i + 1]`.
pub open spec fn valid_trace(states: Seq<ProbeStep>, events: Seq<ProbeEvent>) -> bool {
    &&& states.len() == events.len() + 1
    &&& states[0] is Connect
    &&& forall|i: int|
        0 <= i < events.len() ==> #[trigger] event_allowed(states[i], events[i]) && step_rel(
            states[i],
            events[i],
            states[i + 1],
        )
}

/// How many sessions a run of events has opened.
pub open spec fn count_opened(es: Seq<ProbeEvent>) -> int
    decreases es.len(),
{
    if es.len() == 0 {
        0
    } else {
        count_opened(es.drop_last()) + if es.last() is Connected {
            1int
        } else {
            0int
        }
    }
}

/// How many sessions a run of events has released.
pub open spec fn count_closed(es: Seq<ProbeEvent>) -> int
    decreases es.len(),
{
    if es.len() == 0 {
        0
    } else {
        count_closed(es.drop_last()) + if es.last() is SessionClosed {
            1int
        } else {
            0int
        }
    }
}

proof fn lemma_session_balance(states: Seq<ProbeStep>, events: Seq<ProbeEvent>, i: int)
    requires
        valid_trace(states, events),
        0 <= i <= events.len(),
    ensures
        count_opened(events.take(i)) - count_closed(events.take(i)) == if session_open(
            states[i],
        ) {
            1int
        } else {
            0int
        },
    decreases i,
{
    if i == 0 {
        assert(events.take(0) =~= Seq::<ProbeEvent>::empty());
    } else {
        lemma_session_balance(states, events, i - 1);
        assert(events.take(i).drop_last() =~= events.take(i - 1));
        assert(events.take(i).last() == events[i - 1]);
        assert(event_allowed(states[i - 1], events[i - 1]));
    }
}

/// Resource safety: a finished probe holds no session, and over the whole
/// run every session that was opened was also released.
pub proof fn lemma_no_session_leak(states: Seq<ProbeStep>, events: Seq<ProbeEvent>)
    requires
        valid_trace(states, events),
        states.last() is Done,
    ensures
        !session_open(states.last()),
        count_opened(events) == count_closed(events),
{
    lemma_session_balance(states, events, events.len() as int);
    assert(events.take(events.len() as int) =~= events);
    assert(states.last() == states[events.len() as int]);
}

/// An open session reaches `Done` only through an explicit `SessionClosed`
/// event: no transition discards a session silently.
pub proof fn lemma_close_before_done(s: ProbeStep, e: ProbeEvent, r: ProbeStep)
    requires
        event_allowed(s, e),
        step_rel(s, e, r),
        session_open(s),
        r is Done,
    ensures
        e is SessionClosed,
        s is Close,
{
}

/// Verdict equality: the same outcome, message and diagnostic text.
pub open spec fn result_eq(a: ConnectionTestResult, b: ConnectionTestResult) -> bool {
    &&& a.success == b.success
    &&& a.message@ == b.message@
    &&& (a.error is Some <==> b.error is Some)
    &&& (a.error is Some ==> a.error.unwrap()@ == b.error.unwrap()@)
}

/// Event equality: the same driver outcome with the same error text.
pub open spec fn event_eq(a: ProbeEvent, b: ProbeEvent) -> bool {
    match (a, b) {
        (ProbeEvent::Connected, ProbeEvent::Connected) => true,
        (
            ProbeEvent::ConnectRefused { detail: d1 },
            ProbeEvent::ConnectRefused { detail: d2 },
        ) => d1@ == d2@,
        (ProbeEvent::QueryPassed, ProbeEvent::QueryPassed) => true,
        (
            ProbeEvent::QueryRejected { detail: d1 },
            ProbeEvent::QueryRejected { detail: d2 },
        ) => d1@ == d2@,
        (ProbeEvent::SessionClosed, ProbeEvent::SessionClosed) => true,
        _ => false,
    }
}

/// Stage equality: the same stage, carrying equal verdicts if any.
pub open spec fn step_eq(a: ProbeStep, b: ProbeStep) -> bool {
    match (a, b) {
        (ProbeStep::Connect, ProbeStep::Connect) => true,
        (ProbeStep::Query, ProbeStep::Query) => true,
        (ProbeStep::Close { .. }, ProbeStep::Close { .. }) => result_eq(
            pending_result(a),
            pending_result(b),
        ),
        (ProbeStep::Done { .. }, ProbeStep::Done { .. }) => result_eq(
            done_result(a),
            done_result(b),
        ),
        _ => false,
    }
}

/// One transition is deterministic up to string contents: equal stages fed
/// equal driver outcomes answer with equal stages.
pub proof fn lemma_step_deterministic(
    s1: ProbeStep,
    e1: ProbeEvent,
    r1: ProbeStep,
    s2: ProbeStep,
    e2: ProbeEvent,
    r2: ProbeStep,
)
    requires
        step_eq(s1, s2),
        event_eq(e1, e2),
        event_allowed(s1, e1),
        step_rel(s1, e1, r1),
        event_allowed(s2, e2),
        step_rel(s2, e2, r2),
    ensures
        step_eq(r1, r2),
{
}

/// Pointwise event equality of two runs.
pub open spec fn events_eq(es1: Seq<ProbeEvent>, es2: Seq<ProbeEvent>) -> bool {
    &&& es1.len() == es2.len()
    &&& forall|i: int| 0 <= i < es1.len() ==> #[trigger] event_eq(es1[i], es2[i])
}

proof fn lemma_trace_eq(
    st1: Seq<ProbeStep>,
    es1: Seq<ProbeEvent>,
    st2: Seq<ProbeStep>,
    es2: Seq<ProbeEvent>,
    i: int,
)
    requires
        valid_trace(st1, es1),
        valid_trace(st2, es2),
        events_eq(es1, es2),
        0 <= i <= es1.len(),
    ensures
        step_eq(st1[i], st2[i]),
    decreases i,
{
    if i > 0 {
        lemma_trace_eq(st1, es1, st2, es2, i - 1);
        assert(event_allowed(st1[i - 1], es1[i - 1]));
        assert(event_allowed(st2[i - 1], es2[i - 1]));
        assert(event_eq(es1[i - 1], es2[i - 1]));
        lemma_step_deterministic(
            st1[i - 1],
            es1[i - 1],
            st1[i],
            st2[i - 1],
            es2[i - 1],
            st2[i],
        );
    }
}

/// Idempotence: the verdict is a function of the observed driver outcomes.
/// Two complete runs in which the driver answered the same way finish with
/// equal verdicts — in particular with the same `success` value.
pub proof fn lemma_probe_deterministic(
    st1: Seq<ProbeStep>,
    es1: Seq<ProbeEvent>,
    st2: Seq<ProbeStep>,
    es2: Seq<ProbeEvent>,
)
    requires
        valid_trace(st1, es1),
        valid_trace(st2, es2),
        events_eq(es1, es2),
        st1.last() is Done,
        st2.last() is Done,
    ensures
        result_eq(done_result(st1.last()), done_result(st2.last())),
        done_result(st1.last()).success == done_result(st2.last()).success,
{
    lemma_trace_eq(st1, es1, st2, es2, es1.len() as int);
    assert(st1.last() == st1[es1.len() as int]);
    assert(st2.last() == st2[es2.len() as int]);
}

/// The two failure shapes are distinguishable: a connection-layer failure
/// and a query-layer failure never carry the same message.
pub proof fn lemma_failure_shapes_distinct(
    a: ConnectionTestResult,
    b: ConnectionTestResult,
    d1: Seq<char>,
    d2: Seq<char>,
)
    requires
        connect_failure_spec(a, d1),
        query_failure_spec(b, d2),
    ensures
        a.message@ != b.message@,
        !a.success && !b.success,
{
    reveal_strlit("Failed to connect to database");
    reveal_strlit("Failed to execute test query");
    assert(a.message@.len() != b.message@.len());
}

} // verus!

