//! When the sidecar is started, and when it stops.
use vstd::prelude::*;
use vstd::string::*;

verus! {

/// The connections of the sidecar, and whether it is to stop.
#[derive(Debug, Clone, Copy, PartialEq, Eq, Structural)]
pub struct MainLoop {
    /// The number of connections.
    pub active: i32,
    /// The number of looks in a row at which there was no connection.
    pub idle: i32,
    /// Whether the sidecar is to stop.
    pub cancelled: bool,
}

/// What came of waiting for a connection.
#[derive(Debug, Clone, Copy, PartialEq, Eq, Structural)]
pub enum AcceptEvent {
    /// A connection.
    Accepted,
    /// A failure.
    Failed,
    /// The sidecar is to stop.
    Cancelled,
}

/// What the sidecar does then.
#[derive(Debug, Clone, Copy, PartialEq, Eq, Structural)]
pub enum AcceptAction {
    /// It serves the connection.
    Serve,
    /// It fails as waiting did.
    Fail,
    /// It stops.
    Stop,
}

/// A number and a small number, in the range of the type, round its ends.
pub open spec fn wrapped_sum(a: i32, b: i32) -> i32 {
    if a + b > i32::MAX {
        (a + b - 0x1_0000_0000) as i32
    } else if a + b < i32::MIN {
        (a + b + 0x1_0000_0000) as i32
    } else {
        (a + b) as i32
    }
}

impl MainLoop {
    /// There is no connection yet.
    pub fn new() -> (r: Self)
        ensures
            r == (MainLoop { active: 0, idle: 0, cancelled: false }),
    {
        MainLoop { active: 0, idle: 0, cancelled: false }
    }

    /// What to do once something came of waiting for a connection.
    pub fn on_accept(&mut self, event: AcceptEvent) -> (r: AcceptAction)
        ensures
            match event {
                AcceptEvent::Accepted => {
                    &&& r == AcceptAction::Serve
                    &&& *final(self) == (MainLoop {
                        active: wrapped_sum(old(self).active, 1),
                        ..*old(self)
                    })
                },
                AcceptEvent::Failed => r == AcceptAction::Fail && *final(self) == *old(self),
                AcceptEvent::Cancelled => r == AcceptAction::Stop && *final(self) == *old(self),
            },
    {
        match event {
            AcceptEvent::Accepted => {
                self.active = self.active.wrapping_add(1);
                AcceptAction::Serve
            },
            AcceptEvent::Failed => AcceptAction::Fail,
            AcceptEvent::Cancelled => AcceptAction::Stop,
        }
    }

    /// A connection was served.
    pub fn on_served(&mut self)
        ensures
            *final(self) == (MainLoop { active: wrapped_sum(old(self).active, -1i32), ..*old(self) }),
    {
        self.active = self.active.wrapping_add(-1);
    }

    /// Looks whether there is a connection. When there was none twice in a row, the sidecar is to
    /// stop.
    pub fn on_tick(&mut self)
        requires
            old(self).idle < i32::MAX,
        ensures
            *final(self) == old(self).ticked(),
    {
        if self.active <= 0 {
            self.idle = self.idle + 1;
        } else {
            self.idle = 0;
        }
        if self.idle > 1 {
            self.cancelled = true;
        }
    }

    /// After a look whether there is a connection.
    pub open spec fn ticked(self) -> MainLoop {
        let idle = if self.active <= 0 {
            (self.idle + 1) as i32
        } else {
            0
        };
        MainLoop { idle, cancelled: self.cancelled || idle > 1, ..self }
    }
}

/// After looks at which there were so many connections.
pub open spec fn after_ticks(looks: Seq<i32>) -> MainLoop
    decreases looks.len(),
{
    if looks.len() == 0 {
        MainLoop { active: 0, idle: 0, cancelled: false }
    } else {
        MainLoop { active: looks.last(), ..after_ticks(looks.drop_last()) }.ticked()
    }
}

/// The sidecar stops if and only if there was no connection at two looks in a row.
pub proof fn stops_after_two_idle_looks(looks: Seq<i32>)
    requires
        looks.len() < i32::MAX,
    ensures
        after_ticks(looks).cancelled <==> exists|i: int|
            0 <= i < looks.len() - 1 && (#[trigger] looks[i]) <= 0 && looks[i + 1] <= 0,
{
    lemma_ticks(looks);
}

proof fn lemma_ticks(looks: Seq<i32>)
    requires
        looks.len() < i32::MAX,
    ensures
        0 <= after_ticks(looks).idle <= looks.len(),
        after_ticks(looks).idle > 0 <==> looks.len() > 0 && looks.last() <= 0,
        after_ticks(looks).idle > 1 <==> looks.len() > 1 && looks.last() <= 0
            && looks[looks.len() - 2] <= 0,
        after_ticks(looks).cancelled <==> exists|i: int|
            0 <= i < looks.len() - 1 && (#[trigger] looks[i]) <= 0 && looks[i + 1] <= 0,
    decreases looks.len(),
{
    if looks.len() > 0 {
        let before = looks.drop_last();
        lemma_ticks(before);
        if after_ticks(before).cancelled {
            let i = choose|i: int|
                0 <= i < before.len() - 1 && (#[trigger] before[i]) <= 0 && before[i + 1] <= 0;
            assert(looks[i] <= 0 && looks[i + 1] <= 0);
        }
        if exists|i: int|
            0 <= i < looks.len() - 1 && (#[trigger] looks[i]) <= 0 && looks[i + 1] <= 0 {
            let i = choose|i: int|
                0 <= i < looks.len() - 1 && (#[trigger] looks[i]) <= 0 && looks[i + 1] <= 0;
            if i < before.len() - 1 {
                assert(before[i] <= 0 && before[i + 1] <= 0);
            }
        }
        if looks.len() > 1 && looks.last() <= 0 && looks[looks.len() - 2] <= 0 {
            let i = looks.len() - 2;
            assert(looks[i] <= 0 && looks[i + 1] <= 0);
        }
    }
}

/// Which agent is started.
#[derive(Debug, Clone, Copy, PartialEq, Eq, Structural)]
pub enum AgentKind {
    /// The sidecar, which writes a log.
    Sidecar,
    /// The small agent, which does not.
    MiniAgent,
}

/// The next thing to do to start an agent, if none runs yet, and to connect to it.
#[derive(Debug, Clone, Copy, PartialEq, Eq, Structural)]
pub enum StartStep {
    /// Open the file for the output.
    OpenStdout,
    /// Open the file for the errors.
    OpenStderr,
    /// Try to become the one that listens.
    AttemptListen,
    /// Start the agent, and pass it the socket to listen at.
    Spawn,
    /// Connect to the agent.
    Connect,
    /// Keep the connection open for as long as the process lives.
    KeepOpen,
    /// See to it that the connection does not block.
    SetNonblocking,
    /// The agent runs, and is connected.
    Done,
    /// Fail as the last step did.
    Failed,
}

/// What came of a step.
#[derive(Debug, Clone, Copy, PartialEq, Eq, Structural)]
pub enum StepEvent {
    /// It succeeded.
    Succeeded,
    /// It succeeded, but someone else listens already.
    NotListening,
    /// It failed.
    Failed,
}

/// The file that the output of the sidecar goes to.
pub fn stdout_path() -> (r: &'static str)
    ensures
        r@ == "/tmp/sidecar.stdout.log"@,
{
    "/tmp/sidecar.stdout.log"
}

/// The file that the errors of the sidecar go to.
pub fn stderr_path() -> (r: &'static str)
    ensures
        r@ == "/tmp/sidecar.stderr.log"@,
{
    "/tmp/sidecar.stderr.log"
}

impl AgentKind {
    /// The name of the process of the agent.
    pub fn process_name(self) -> (r: &'static str)
        ensures
            r@ == (match self {
                AgentKind::Sidecar => "datadog-ipc-sidecar"@,
                AgentKind::MiniAgent => "datadog-mini-agent-sidecar"@,
            }),
    {
        match self {
            AgentKind::Sidecar => "datadog-ipc-sidecar",
            AgentKind::MiniAgent => "datadog-mini-agent-sidecar",
        }
    }

    /// The first thing to do.
    pub fn maybe_start(self) -> (r: StartStep)
        ensures
            r == self.first_step(),
    {
        match self {
            AgentKind::Sidecar => StartStep::OpenStdout,
            AgentKind::MiniAgent => StartStep::AttemptListen,
        }
    }

    /// The first thing to do.
    pub open spec fn first_step(self) -> StartStep {
        match self {
            AgentKind::Sidecar => StartStep::OpenStdout,
            AgentKind::MiniAgent => StartStep::AttemptListen,
        }
    }

    /// What to do after a step.
    pub open spec fn step_after(self, step: StartStep, event: StepEvent) -> StartStep {
        match (step, event) {
            (StartStep::Done, _) => StartStep::Done,
            (_, StepEvent::Failed) => StartStep::Failed,
            (StartStep::OpenStdout, _) => StartStep::OpenStderr,
            (StartStep::OpenStderr, _) => StartStep::AttemptListen,
            (StartStep::AttemptListen, StepEvent::Succeeded) => StartStep::Spawn,
            (StartStep::AttemptListen, StepEvent::NotListening) => StartStep::Connect,
            (StartStep::Spawn, _) => StartStep::Connect,
            (StartStep::Connect, _) => StartStep::KeepOpen,
            (StartStep::KeepOpen, _) => match self {
                AgentKind::Sidecar => StartStep::SetNonblocking,
                AgentKind::MiniAgent => StartStep::Done,
            },
            (StartStep::SetNonblocking, _) => StartStep::Done,
            (StartStep::Failed, _) => StartStep::Failed,
        }
    }

    /// What to do after a step.
    pub fn after(self, step: StartStep, event: StepEvent) -> (r: StartStep)
        ensures
            r == self.step_after(step, event),
    {
        match step {
            StartStep::Done => {
                return StartStep::Done;
            },
            _ => {},
        }
        match event {
            StepEvent::Failed => {
                return StartStep::Failed;
            },
            _ => {},
        }
        match step {
            StartStep::OpenStdout => StartStep::OpenStderr,
            StartStep::OpenStderr => StartStep::AttemptListen,
            StartStep::AttemptListen => match event {
                StepEvent::NotListening => StartStep::Connect,
                _ => StartStep::Spawn,
            },
            StartStep::Spawn => StartStep::Connect,
            StartStep::Connect => StartStep::KeepOpen,
            StartStep::KeepOpen => match self {
                AgentKind::Sidecar => StartStep::SetNonblocking,
                AgentKind::MiniAgent => StartStep::Done,
            },
            StartStep::SetNonblocking => StartStep::Done,
            StartStep::Failed => StartStep::Failed,
            StartStep::Done => StartStep::Done,
        }
    }
}

/// The step after some events.
pub open spec fn step_after_all(kind: AgentKind, events: Seq<StepEvent>) -> StartStep
    decreases events.len(),
{
    if events.len() == 0 {
        kind.first_step()
    } else {
        kind.step_after(step_after_all(kind, events.drop_last()), events.last())
    }
}

/// The steps that are taken while some events come.
pub open spec fn steps_taken(kind: AgentKind, events: Seq<StepEvent>) -> Seq<StartStep> {
    Seq::new(events.len() + 1, |i: int| step_after_all(kind, events.take(i)))
}

/// An agent is started if and only if nobody else listens.
pub proof fn spawns_only_where_it_listens(kind: AgentKind, events: Seq<StepEvent>)
    requires
        events.len() > 0,
    ensures
        step_after_all(kind, events) == StartStep::Spawn <==> step_after_all(
            kind,
            events.drop_last(),
        ) == StartStep::AttemptListen && events.last() == StepEvent::Succeeded,
{
}

/// Whoever is done has connected, and kept the connection open.
pub proof fn done_means_connected(kind: AgentKind, events: Seq<StepEvent>)
    requires
        step_after_all(kind, events) == StartStep::Done,
    ensures
        steps_taken(kind, events).contains(StartStep::Connect),
        steps_taken(kind, events).contains(StartStep::KeepOpen),
{
    lemma_steps(kind, events);
}

proof fn lemma_steps(kind: AgentKind, events: Seq<StepEvent>)
    ensures
        ({
            let step = step_after_all(kind, events);
            let taken = steps_taken(kind, events);
            &&& taken.contains(step)
            &&& step == StartStep::KeepOpen || step == StartStep::SetNonblocking || step
                == StartStep::Done ==> taken.contains(StartStep::Connect)
            &&& step == StartStep::SetNonblocking || step == StartStep::Done ==> taken.contains(
                StartStep::KeepOpen,
            )
        }),
    decreases events.len(),
{
    let taken = steps_taken(kind, events);
    assert(events.take(events.len() as int) =~= events);
    assert(taken[events.len() as int] == step_after_all(kind, events));
    if events.len() > 0 {
        let before = events.drop_last();
        lemma_steps(kind, before);
        let earlier = steps_taken(kind, before);
        assert forall|step: StartStep| earlier.contains(step) implies taken.contains(step) by {
            let i = earlier.index_of(step);
            assert(before.take(i) =~= events.take(i));
            assert(taken[i] == step);
        }
    }
}

/// Where a request to the small agent goes.
#[derive(Debug, Clone, Copy, PartialEq, Eq, Structural)]
pub enum Route {
    /// It brings traces.
    Traces,
    /// Nothing is there.
    NotFound,
}

/// Whether a request brings traces.
pub open spec fn brings_traces(method: Seq<char>, path: Seq<char>) -> bool {
    (method == "POST"@ || method == "PUT"@) && path == "/v0.4/traces"@
}

/// Where a request to the small agent goes.
pub fn route(method: &str, path: &str) -> (r: Route)
    ensures
        r == (if brings_traces(method@, path@) {
            Route::Traces
        } else {
            Route::NotFound
        }),
{
    let method = method.to_owned();
    let path = path.to_owned();
    if (method == String::from_str("POST") || method == String::from_str("PUT")) && path
        == String::from_str("/v0.4/traces") {
        Route::Traces
    } else {
        Route::NotFound
    }
}

/// Connections are counted: one more with each that is accepted, one less with each that was
/// served, and as many as before once it was.
pub proof fn connections_are_counted(active: i32)
    ensures
        active < i32::MAX ==> wrapped_sum(active, 1) == active + 1,
        active > i32::MIN ==> wrapped_sum(active, -1i32) == active - 1,
        wrapped_sum(wrapped_sum(active, 1), -1i32) == active,
{
}

/// A look at which there is a connection begins the count anew. One at which there is none counts,
/// and from the second in a row on the sidecar is to stop. It does not change its mind.
pub proof fn idle_looks_are_counted(state: MainLoop)
    requires
        0 <= state.idle < i32::MAX,
    ensures
        state.active > 0 ==> state.ticked().idle == 0 && state.ticked().cancelled
            == state.cancelled,
        state.active <= 0 ==> state.ticked().idle == state.idle + 1,
        state.active <= 0 && state.idle >= 1 ==> state.ticked().cancelled,
        state.active <= 0 && state.idle == 0 ==> state.ticked().cancelled == state.cancelled,
        state.ticked().active == state.active,
{
}

/// A step that fails ends the start, and an end is final.
pub proof fn failure_ends_the_start(kind: AgentKind, step: StartStep, event: StepEvent)
    ensures
        step != StartStep::Done ==> kind.step_after(step, StepEvent::Failed) == StartStep::Failed,
        kind.step_after(StartStep::Failed, event) == StartStep::Failed,
        kind.step_after(StartStep::Done, event) == StartStep::Done,
{
}

/// The steps of a start come in order: the logs, for the sidecar alone, then the attempt to listen,
/// then the agent itself, unless someone else listens, then the connection, which is kept, and for
/// the sidecar does not block.
pub proof fn steps_come_in_order(event: StepEvent)
    requires
        event != StepEvent::Failed,
    ensures
        AgentKind::Sidecar.first_step() == StartStep::OpenStdout,
        AgentKind::MiniAgent.first_step() == StartStep::AttemptListen,
        AgentKind::Sidecar.step_after(StartStep::OpenStdout, event) == StartStep::OpenStderr,
        AgentKind::Sidecar.step_after(StartStep::OpenStderr, event) == StartStep::AttemptListen,
        forall|kind: AgentKind| #[trigger]
            kind.step_after(StartStep::AttemptListen, StepEvent::Succeeded) == StartStep::Spawn,
        forall|kind: AgentKind| #[trigger]
            kind.step_after(StartStep::AttemptListen, StepEvent::NotListening)
                == StartStep::Connect,
        forall|kind: AgentKind| #[trigger]
            kind.step_after(StartStep::Spawn, event) == StartStep::Connect,
        forall|kind: AgentKind| #[trigger]
            kind.step_after(StartStep::Connect, event) == StartStep::KeepOpen,
        AgentKind::Sidecar.step_after(StartStep::KeepOpen, event) == StartStep::SetNonblocking,
        AgentKind::MiniAgent.step_after(StartStep::KeepOpen, event) == StartStep::Done,
        AgentKind::Sidecar.step_after(StartStep::SetNonblocking, event) == StartStep::Done,
{
}

/// Traces are brought by `POST` and by `PUT`, to one path.
pub proof fn traces_are_posted_or_put(method: Seq<char>, path: Seq<char>)
    ensures
        brings_traces("POST"@, "/v0.4/traces"@),
        brings_traces("PUT"@, "/v0.4/traces"@),
        path != "/v0.4/traces"@ ==> !brings_traces(method, path),
        method != "POST"@ && method != "PUT"@ ==> !brings_traces(method, path),
{
}

} // verus!
