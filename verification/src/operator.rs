//! The operator's scale decision: stage the change in the twin, apply it to
//! the cluster only if the predicted CPU per pod stays within the limit,
//! then commit the twin; otherwise roll the twin back.
use vstd::prelude::*;
use crate::json::{Json, JsonV, jget, ji64, jstr, str_of};
use crate::text::owned;

verus! {

/// What a `/simulate` request asks: scale a deployment to a replica count.
pub struct ScaleRequest {
    pub namespace: String,
    pub deployment: String,
    pub replicas: i64,
}

/// The text of a string value, or the empty text.
pub open spec fn text_or_empty(v: JsonV) -> Seq<char> {
    match jstr(v) {
        Some(s) => s,
        None => Seq::empty(),
    }
}

/// Reads a `/simulate` request body: `namespace` and `deployment` strings
/// (empty if absent) and the integer `replicas` (zero if absent).
pub fn scale_request(body: &Json) -> (r: ScaleRequest)
    ensures
        r.namespace@ == text_or_empty(jget(body@, "namespace"@)),
        r.deployment@ == text_or_empty(jget(body@, "deployment"@)),
        r.replicas == match ji64(jget(body@, "replicas"@)) {
            Some(n) => n,
            None => 0,
        },
{
    let namespace = match str_of(body.get("namespace")) {
        Some(s) => owned(s),
        None => String::new(),
    };
    let deployment = match str_of(body.get("deployment")) {
        Some(s) => owned(s),
        None => String::new(),
    };
    let replicas = match body.get("replicas") {
        Some(v) => match v.as_i64() {
            Some(n) => n,
            None => 0,
        },
        None => 0,
    };
    ScaleRequest { namespace, deployment, replicas }
}

/// How a `/simulate` request ends.
pub enum Outcome {
    /// The twin could not be reached or answered an error.
    TwinError(String),
    /// The twin does not know the deployment.
    Unknown,
    /// The twin's simulation had an unexpected shape.
    BadShape(String),
    /// The predicted CPU per pod exceeds the limit; the twin was restored.
    OverLimit,
    /// The cluster refused the scale; the twin was restored.
    ScaleFailed(String),
    /// The cluster was scaled and the twin committed.
    Applied,
}

impl Outcome {
    /// The HTTP status of the reply.
    pub open spec fn status_spec(&self) -> u16 {
        match self {
            Outcome::TwinError(_) => 502,
            Outcome::Unknown => 404,
            Outcome::BadShape(_) => 502,
            Outcome::OverLimit => 409,
            Outcome::ScaleFailed(_) => 502,
            Outcome::Applied => 200,
        }
    }

    /// The HTTP status of the reply.
    pub fn status(&self) -> (s: u16)
        ensures
            s == self.status_spec(),
    {
        match self {
            Outcome::TwinError(_) => 502,
            Outcome::Unknown => 404,
            Outcome::BadShape(_) => 502,
            Outcome::OverLimit => 409,
            Outcome::ScaleFailed(_) => 502,
            Outcome::Applied => 200,
        }
    }
}

/// Where a `/simulate` request stands.
pub enum Phase {
    /// Waiting for the twin's simulation.
    Simulating,
    /// Waiting for the apiserver's answer to the scale.
    Applying,
    /// Waiting for the twin to roll back, then replying with the outcome.
    RollingBack(Outcome),
    /// Waiting for the twin to commit.
    Committing,
    /// Replied.
    Done(Outcome),
}

/// What the operator learns after each action.
pub enum Event {
    /// The twin call failed.
    TwinFailed(String),
    /// The twin answered `null`: it does not know the deployment.
    TwinNull,
    /// The twin's answer did not decode as a simulation.
    Undecodable(String),
    /// The twin staged the change; whether the predicted CPU per pod
    /// exceeds the limit.
    Staged { over_limit: bool },
    /// The apiserver scaled the deployment.
    Patched,
    /// The apiserver refused the scale.
    PatchFailed(String),
    /// The twin finished a rollback or a commit (its answer is not used).
    TwinDone,
}

/// What the operator does next.
pub enum Action {
    /// Ask the twin to stage the scale and simulate it.
    Simulate,
    /// Scale the deployment in the cluster.
    Patch,
    /// Ask the twin to roll the staged change back.
    Rollback,
    /// Ask the twin to commit the staged change.
    Commit,
    /// Reply to the request.
    Reply(Outcome),
    /// Nothing: the event did not answer the pending action.
    Wait,
}

/// The state machine of one `/simulate` request.
pub open spec fn step_spec(p: Phase, e: Event) -> (Phase, Action) {
    match (p, e) {
        (Phase::Simulating, Event::TwinFailed(m)) => (Phase::Done(Outcome::TwinError(m)), Action::Reply(Outcome::TwinError(m))),
        (Phase::Simulating, Event::TwinNull) => (Phase::Done(Outcome::Unknown), Action::Reply(Outcome::Unknown)),
        (Phase::Simulating, Event::Undecodable(m)) => (Phase::Done(Outcome::BadShape(m)), Action::Reply(Outcome::BadShape(m))),
        (Phase::Simulating, Event::Staged { over_limit }) => if over_limit {
            (Phase::RollingBack(Outcome::OverLimit), Action::Rollback)
        } else {
            (Phase::Applying, Action::Patch)
        },
        (Phase::Applying, Event::Patched) => (Phase::Committing, Action::Commit),
        (Phase::Applying, Event::PatchFailed(m)) => (Phase::RollingBack(Outcome::ScaleFailed(m)), Action::Rollback),
        (Phase::RollingBack(o), Event::TwinDone) => (Phase::Done(o), Action::Reply(o)),
        (Phase::Committing, Event::TwinDone) => (Phase::Done(Outcome::Applied), Action::Reply(Outcome::Applied)),
        (p, _) => (p, Action::Wait),
    }
}

/// Starts a `/simulate` request: the twin simulates first.
pub fn start() -> (r: (Phase, Action))
    ensures
        r == (Phase::Simulating, Action::Simulate),
{
    (Phase::Simulating, Action::Simulate)
}

/// Advances a `/simulate` request by one event.
pub fn step(p: Phase, e: Event) -> (r: (Phase, Action))
    ensures
        r == step_spec(p, e),
{
    match (p, e) {
        (Phase::Simulating, Event::TwinFailed(m)) => {
            let a = Outcome::TwinError(m.clone());
            (Phase::Done(Outcome::TwinError(m)), Action::Reply(a))
        },
        (Phase::Simulating, Event::TwinNull) => (Phase::Done(Outcome::Unknown), Action::Reply(Outcome::Unknown)),
        (Phase::Simulating, Event::Undecodable(m)) => {
            let a = Outcome::BadShape(m.clone());
            (Phase::Done(Outcome::BadShape(m)), Action::Reply(a))
        },
        (Phase::Simulating, Event::Staged { over_limit }) => if over_limit {
            (Phase::RollingBack(Outcome::OverLimit), Action::Rollback)
        } else {
            (Phase::Applying, Action::Patch)
        },
        (Phase::Applying, Event::Patched) => (Phase::Committing, Action::Commit),
        (Phase::Applying, Event::PatchFailed(m)) => (Phase::RollingBack(Outcome::ScaleFailed(m)), Action::Rollback),
        (Phase::RollingBack(o), Event::TwinDone) => {
            let a = o.duplicate();
            (Phase::Done(o), Action::Reply(a))
        },
        (Phase::Committing, Event::TwinDone) => (Phase::Done(Outcome::Applied), Action::Reply(Outcome::Applied)),
        (p, _) => (p, Action::Wait),
    }
}

impl Outcome {
    /// A copy of this outcome.
    pub fn duplicate(&self) -> (r: Outcome)
        ensures
            r == *self,
    {
        match self {
            Outcome::TwinError(m) => Outcome::TwinError(m.clone()),
            Outcome::Unknown => Outcome::Unknown,
            Outcome::BadShape(m) => Outcome::BadShape(m.clone()),
            Outcome::OverLimit => Outcome::OverLimit,
            Outcome::ScaleFailed(m) => Outcome::ScaleFailed(m.clone()),
            Outcome::Applied => Outcome::Applied,
        }
    }
}

} // verus!

verus! {

/// Whether an event answers the action that the phase waits on.
pub open spec fn answers(p: Phase, e: Event) -> bool {
    !(step_spec(p, e).1 is Wait)
}

/// The phase reached, and the actions taken, after a run of events from
/// the start of a request.
pub open spec fn run(events: Seq<Event>) -> (Phase, Seq<Action>)
    decreases events.len(),
{
    if events.len() == 0 {
        (Phase::Simulating, seq![Action::Simulate])
    } else {
        let prev = run(events.drop_last());
        let next = step_spec(prev.0, events.last());
        (next.0, prev.1.push(next.1))
    }
}

/// Whether each event of a run answers the action its phase waited on.
pub open spec fn well_formed(events: Seq<Event>) -> bool {
    forall|i: int| 0 <= i < events.len() ==> answers(#[trigger] run(events.take(i)).0, events[i])
}

/// The runs of a request, one per way it can go.
pub open spec fn run_shape(events: Seq<Event>, p: Phase, acts: Seq<Action>) -> bool {
    match p {
        Phase::Simulating => events.len() == 0 && acts == seq![Action::Simulate],
        Phase::Applying => events == seq![Event::Staged { over_limit: false }] && acts == seq![
            Action::Simulate,
            Action::Patch,
        ],
        Phase::Committing => events == seq![Event::Staged { over_limit: false }, Event::Patched]
            && acts == seq![Action::Simulate, Action::Patch, Action::Commit],
        Phase::RollingBack(o) => match o {
            Outcome::OverLimit => events == seq![Event::Staged { over_limit: true }] && acts == seq![
                Action::Simulate,
                Action::Rollback,
            ],
            Outcome::ScaleFailed(m) => events == seq![
                Event::Staged { over_limit: false },
                Event::PatchFailed(m),
            ] && acts == seq![Action::Simulate, Action::Patch, Action::Rollback],
            _ => false,
        },
        Phase::Done(o) => match o {
            Outcome::TwinError(m) => events == seq![Event::TwinFailed(m)] && acts == seq![
                Action::Simulate,
                Action::Reply(o),
            ],
            Outcome::Unknown => events == seq![Event::TwinNull] && acts == seq![
                Action::Simulate,
                Action::Reply(o),
            ],
            Outcome::BadShape(m) => events == seq![Event::Undecodable(m)] && acts == seq![
                Action::Simulate,
                Action::Reply(o),
            ],
            Outcome::OverLimit => events == seq![Event::Staged { over_limit: true }, Event::TwinDone]
                && acts == seq![Action::Simulate, Action::Rollback, Action::Reply(o)],
            Outcome::ScaleFailed(m) => events == seq![
                Event::Staged { over_limit: false },
                Event::PatchFailed(m),
                Event::TwinDone,
            ] && acts == seq![Action::Simulate, Action::Patch, Action::Rollback, Action::Reply(o)],
            Outcome::Applied => events == seq![
                Event::Staged { over_limit: false },
                Event::Patched,
                Event::TwinDone,
            ] && acts == seq![Action::Simulate, Action::Patch, Action::Commit, Action::Reply(o)],
        },
    }
}

/// Every well-formed run of a request is one of the runs of `run_shape`.
pub proof fn lemma_run_shape(events: Seq<Event>)
    requires
        well_formed(events),
    ensures
        run_shape(events, run(events).0, run(events).1),
    decreases events.len(),
{
    if events.len() > 0 {
        let prev = events.drop_last();
        assert forall|i: int| 0 <= i < prev.len() implies answers(#[trigger] run(prev.take(i)).0, prev[i]) by {
            assert(prev.take(i) =~= events.take(i));
            assert(answers(run(events.take(i)).0, events[i]));
        }
        lemma_run_shape(prev);
        let n = events.len() - 1;
        assert(events.take(n) =~= prev);
        assert(answers(run(events.take(n)).0, events[n]));
        let e = events.last();
        assert(events =~= prev.push(e));
        let p = run(prev).0;
        let acts = run(prev).1;
        assert(run(events) == (step_spec(p, e).0, acts.push(step_spec(p, e).1)));
        match p {
            Phase::Simulating => {
                assert(events =~= seq![e]);
                assert(acts.push(step_spec(p, e).1) =~= seq![Action::Simulate, step_spec(p, e).1]);
            },
            Phase::Applying => {
                assert(events =~= seq![Event::Staged { over_limit: false }, e]);
                assert(acts.push(step_spec(p, e).1) =~= seq![Action::Simulate, Action::Patch, step_spec(p, e).1]);
            },
            Phase::Committing => {
                assert(events =~= seq![Event::Staged { over_limit: false }, Event::Patched, e]);
                assert(acts.push(step_spec(p, e).1) =~= seq![Action::Simulate, Action::Patch, Action::Commit, step_spec(p, e).1]);
            },
            Phase::RollingBack(o) => {
                match o {
                    Outcome::OverLimit => {
                        assert(events =~= seq![Event::Staged { over_limit: true }, e]);
                        assert(acts.push(step_spec(p, e).1) =~= seq![Action::Simulate, Action::Rollback, step_spec(p, e).1]);
                    },
                    Outcome::ScaleFailed(m) => {
                        assert(events =~= seq![Event::Staged { over_limit: false }, Event::PatchFailed(m), e]);
                        assert(acts.push(step_spec(p, e).1) =~= seq![Action::Simulate, Action::Patch, Action::Rollback, step_spec(p, e).1]);
                    },
                    _ => {},
                }
            },
            Phase::Done(o) => {},
        }
    }
}

} // verus!

verus! {

/// The cluster is scaled only after the twin staged the change with the
/// predicted CPU per pod within the limit; a request over the limit is never
/// applied and, once finished, has rolled the twin back and answered 409.
pub proof fn lemma_scale_only_within_limit(events: Seq<Event>)
    requires
        well_formed(events),
    ensures
        run(events).1.contains(Action::Patch) ==> events.len() > 0 && events[0] == (Event::Staged { over_limit: false }),
        events.len() > 0 && events[0] == (Event::Staged { over_limit: true }) ==> !run(events).1.contains(Action::Patch),
        events.len() > 0 && events[0] == (Event::Staged { over_limit: true }) && run(events).0 is Done ==> run(events).0 == Phase::Done(Outcome::OverLimit)
            && run(events).1.contains(Action::Rollback),
{
    lemma_run_shape(events);
    let acts = run(events).1;
    if acts.contains(Action::Patch) {
        let i = choose|i: int| 0 <= i < acts.len() && acts[i] == Action::Patch;
    }
    if events.len() > 0 && events[0] == (Event::Staged { over_limit: true }) {
        assert forall|i: int| 0 <= i < acts.len() implies acts[i] != Action::Patch by {}
        if run(events).0 is Done {
            assert(acts[1] == Action::Rollback);
        }
    }
}

/// A request answered as applied staged the change within the limit,
/// scaled the cluster and committed the twin, and never rolled back.
pub proof fn lemma_applied_means_committed(events: Seq<Event>)
    requires
        well_formed(events),
        run(events).0 == Phase::Done(Outcome::Applied),
    ensures
        events == seq![Event::Staged { over_limit: false }, Event::Patched, Event::TwinDone],
        run(events).1.contains(Action::Patch),
        run(events).1.contains(Action::Commit),
        !run(events).1.contains(Action::Rollback),
{
    lemma_run_shape(events);
    let acts = run(events).1;
    assert(acts[1] == Action::Patch);
    assert(acts[2] == Action::Commit);
    assert forall|i: int| 0 <= i < acts.len() implies acts[i] != Action::Rollback by {}
}

/// Once the twin has staged a change, a finished request has settled it:
/// it has either committed it or rolled it back, exactly one of the two.
pub proof fn lemma_staged_change_is_settled(events: Seq<Event>)
    requires
        well_formed(events),
        events.len() > 0,
        events[0] is Staged,
        run(events).0 is Done,
    ensures
        run(events).1.contains(Action::Commit) != run(events).1.contains(Action::Rollback),
{
    lemma_run_shape(events);
    let acts = run(events).1;
    match run(events).0 {
        Phase::Done(o) => match o {
            Outcome::Applied => {
                assert(acts[2] == Action::Commit);
                assert forall|i: int| 0 <= i < acts.len() implies acts[i] != Action::Rollback by {}
            },
            Outcome::OverLimit => {
                assert(acts[1] == Action::Rollback);
                assert forall|i: int| 0 <= i < acts.len() implies acts[i] != Action::Commit by {}
            },
            Outcome::ScaleFailed(_) => {
                assert(acts[2] == Action::Rollback);
                assert forall|i: int| 0 <= i < acts.len() implies acts[i] != Action::Commit by {}
            },
            _ => {},
        },
        _ => {},
    }
}

/// How a finished request ends, over its whole run: it answers 200 exactly
/// when it committed the twin, exactly when the cluster accepted the scale;
/// it never both commits and rolls back; once the twin has staged a
/// simulation, exactly one of the two happens, and otherwise neither.
pub proof fn lemma_finished_run(events: Seq<Event>)
    requires
        well_formed(events),
        run(events).0 is Done,
    ensures
        (run(events).0 matches Phase::Done(o) && o.status_spec() == 200) <==> run(events).1.contains(Action::Commit),
        run(events).1.contains(Action::Commit) <==> events.contains(Event::Patched),
        !(run(events).1.contains(Action::Commit) && run(events).1.contains(Action::Rollback)),
        events[0] is Staged ==> run(events).1.contains(Action::Commit) != run(events).1.contains(Action::Rollback),
        !(events[0] is Staged) ==> !run(events).1.contains(Action::Commit) && !run(events).1.contains(Action::Rollback),
{
    lemma_run_shape(events);
    let acts = run(events).1;
    match run(events).0 {
        Phase::Done(o) => match o {
            Outcome::Applied => {
                assert(acts[2] == Action::Commit);
                assert(events[1] == Event::Patched);
                assert forall|i: int| 0 <= i < acts.len() implies acts[i] != Action::Rollback by {}
            },
            Outcome::OverLimit => {
                assert(acts[1] == Action::Rollback);
                assert forall|i: int| 0 <= i < acts.len() implies acts[i] != Action::Commit by {}
                assert forall|i: int| 0 <= i < events.len() implies events[i] != Event::Patched by {}
            },
            Outcome::ScaleFailed(_) => {
                assert(acts[2] == Action::Rollback);
                assert forall|i: int| 0 <= i < acts.len() implies acts[i] != Action::Commit by {}
                assert forall|i: int| 0 <= i < events.len() implies events[i] != Event::Patched by {}
            },
            _ => {
                assert forall|i: int| 0 <= i < acts.len() implies acts[i] != Action::Commit && acts[i] != Action::Rollback by {}
                assert forall|i: int| 0 <= i < events.len() implies events[i] != Event::Patched by {}
            },
        },
        _ => {},
    }
}

} // verus!

verus! {

/// What a request to the operator asks for.
#[derive(PartialEq, Eq, Structural, Clone, Copy, Debug)]
pub enum Route {
    /// `/healthz`, whatever the method.
    Health,
    /// `POST /simulate`.
    Simulate,
    /// Anything else.
    NotFound,
}

/// Routes a request to the operator.
pub fn route(is_post: bool, path: &str) -> (r: Route)
    ensures
        r == if path@ == "/healthz"@ {
            Route::Health
        } else if is_post && path@ == "/simulate"@ {
            Route::Simulate
        } else {
            Route::NotFound
        },
{
    if crate::text::str_eq(path, "/healthz") {
        Route::Health
    } else if is_post && crate::text::str_eq(path, "/simulate") {
        Route::Simulate
    } else {
        Route::NotFound
    }
}

} // verus!
