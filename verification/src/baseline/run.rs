//! A run that builds the profiles of several agents from one stream of events.
//!
//! The caller reads the stream and the store. It asks `step` what an event needs,
//! fetches a profile where one is asked for, and hands the event to `process`.

use vstd::prelude::*;

use crate::baseline::builder::{is_duplicate, BaselineBuilder, BuilderView};
use crate::baseline::{Baseline, BaselineView};
use crate::event::{BehavioralEvent, EventView};
use crate::order::{opt_view, views};
use crate::text::same_text;
use crate::time::Timestamp;

verus! {

/// What an event needs before it can be taken in.
#[derive(Debug, Clone, Copy, PartialEq, Eq, Structural)]
pub enum Step {
    /// The event is of an agent that is not asked for.
    Ignore,
    /// The agent is new to the run: its profile is to be fetched.
    FetchBaseline,
    /// The event can be taken in.
    Process,
}

/// One agent in a run.
pub struct AgentBuild {
    agent_id: String,
    builder: BaselineBuilder,
    events: Vec<BehavioralEvent>,
}

/// The model of an `AgentBuild`.
#[verifier::ext_equal]
pub struct AgentView {
    pub agent_id: Seq<char>,
    pub builder: BuilderView,
    /// The events that were taken in, in their order.
    pub events: Seq<EventView>,
}

impl View for AgentBuild {
    type V = AgentView;

    closed spec fn view(&self) -> AgentView {
        AgentView {
            agent_id: self.agent_id@,
            builder: self.builder@,
            events: views(self.events@),
        }
    }
}

/// What a run leaves behind of one agent.
pub struct AgentResult {
    pub agent_id: String,
    /// The events that were taken in, in their order.
    pub events: Vec<BehavioralEvent>,
    pub baseline: Baseline,
}

/// The model of an `AgentResult`.
#[verifier::ext_equal]
pub struct ResultView {
    pub agent_id: Seq<char>,
    pub events: Seq<EventView>,
    pub baseline: BaselineView,
}

impl View for AgentResult {
    type V = ResultView;

    open spec fn view(&self) -> ResultView {
        ResultView {
            agent_id: self.agent_id@,
            events: views(self.events@),
            baseline: self.baseline@,
        }
    }
}

/// A run over one stream of events.
pub struct BuildRun {
    filter: Option<String>,
    agents: Vec<AgentBuild>,
    line_count: u64,
    skipped: u64,
}

/// The model of a `BuildRun`.
#[verifier::ext_equal]
pub struct RunView {
    /// The one agent that is asked for, where not all are.
    pub filter: Option<Seq<char>>,
    /// The agents in the order in which they came.
    pub agents: Seq<AgentView>,
    /// How many events were taken in.
    pub line_count: u64,
    /// How many lines could not be read.
    pub skipped: u64,
}

/// No two agents have the same id.
pub open spec fn distinct(agents: Seq<AgentView>) -> bool {
    forall|i: int, j: int|
        0 <= i < j < agents.len() ==> (#[trigger] agents[i]).agent_id != (
        #[trigger] agents[j]).agent_id
}

impl View for BuildRun {
    type V = RunView;

    closed spec fn view(&self) -> RunView {
        RunView {
            filter: opt_view(self.filter),
            agents: views(self.agents@),
            line_count: self.line_count,
            skipped: self.skipped,
        }
    }
}

impl AgentView {
    /// The agent with an event taken in. A duplicate is not kept.
    pub open spec fn taking(self, event: EventView) -> AgentView {
        AgentView {
            agent_id: self.agent_id,
            builder: self.builder.after(event),
            events: if is_duplicate(self.builder.baseline, event) {
                self.events
            } else {
                self.events.push(event)
            },
        }
    }
}

impl RunView {
    /// The run has met the agent.
    pub open spec fn knows(self, agent_id: Seq<char>) -> bool {
        exists|i: int| 0 <= i < self.agents.len() && (#[trigger] self.agents[i]).agent_id == agent_id
    }

    /// What an event needs.
    pub open spec fn step(self, event: EventView) -> Step {
        if self.filter is Some && self.filter != Some(event.agent_id) {
            Step::Ignore
        } else if !self.knows(event.agent_id) {
            Step::FetchBaseline
        } else {
            Step::Process
        }
    }

    /// The event is one that the profile of its agent already holds.
    pub open spec fn holds(self, event: EventView) -> bool {
        exists|i: int|
            0 <= i < self.agents.len() && (#[trigger] self.agents[i]).agent_id == event.agent_id
                && is_duplicate(self.agents[i].builder.baseline, event)
    }

    /// No counter that the event moves stands at its limit.
    pub open spec fn has_room(self, event: EventView) -> bool {
        &&& !self.holds(event) ==> self.line_count < u64::MAX
        &&& forall|i: int|
            0 <= i < self.agents.len() && (#[trigger] self.agents[i]).agent_id == event.agent_id
                ==> self.agents[i].builder.has_room(event)
    }

    /// The run after an event. Only the event's own agent changes.
    pub open spec fn after(self, event: EventView) -> RunView {
        RunView {
            agents: Seq::new(
                self.agents.len(),
                |i: int|
                    if self.agents[i].agent_id == event.agent_id {
                        self.agents[i].taking(event)
                    } else {
                        self.agents[i]
                    },
            ),
            line_count: if self.holds(event) {
                self.line_count
            } else {
                (self.line_count + 1) as u64
            },
            ..self
        }
    }

    /// The run with one agent more.
    pub open spec fn with_agent(self, agent_id: Seq<char>, baseline: BaselineView) -> RunView {
        RunView {
            agents: self.agents.push(
                AgentView {
                    agent_id,
                    builder: BuilderView::resumed(baseline),
                    events: Seq::empty(),
                },
            ),
            ..self
        }
    }

    /// Every agent's open session can be counted.
    pub open spec fn can_finish(self) -> bool {
        forall|i: int|
            0 <= i < self.agents.len() ==> (#[trigger] self.agents[i]).builder.can_finish()
    }

    /// What the run leaves behind.
    pub open spec fn results(self) -> Seq<ResultView> {
        self.agents.map_values(
            |a: AgentView|
                ResultView {
                    agent_id: a.agent_id,
                    events: a.events,
                    baseline: a.builder.finished(),
                },
        )
    }
}

impl BuildRun {
    #[verifier::type_invariant]
    spec fn agents_differ(self) -> bool {
        distinct(views(self.agents@))
    }

    /// A run for one agent, or for all.
    pub fn new(filter: Option<String>) -> (r: Self)
        ensures
            r@ == (RunView {
                filter: opt_view(filter),
                agents: Seq::empty(),
                line_count: 0,
                skipped: 0,
            }),
    {
        let r = BuildRun { filter, agents: Vec::new(), line_count: 0, skipped: 0 };
        proof {
            assert(r@.agents =~= Seq::<AgentView>::empty());
        }
        r
    }

    /// Where the agent stands among the others.
    fn position(&self, agent_id: &str) -> (r: Option<usize>)
        ensures
            match r {
                Some(i) => i < self@.agents.len() && self@.agents[i as int].agent_id == agent_id@,
                None => !self@.knows(agent_id@),
            },
    {
        let mut i: usize = 0;
        while i < self.agents.len()
            invariant
                i <= self.agents.len(),
                forall|j: int| 0 <= j < i ==> (#[trigger] self@.agents[j]).agent_id != agent_id@,
            decreases self.agents.len() - i,
        {
            proof {
                assert(self@.agents[i as int] == self.agents@[i as int]@);
            }
            if same_text(self.agents[i].agent_id.as_str(), agent_id) {
                return Some(i);
            }
            i = i + 1;
        }
        None
    }

    /// What an event needs.
    pub fn step(&self, event: &BehavioralEvent) -> (r: Step)
        ensures
            r == self@.step(event@),
    {
        match &self.filter {
            Some(wanted) => {
                if !same_text(wanted.as_str(), event.agent_id.as_str()) {
                    return Step::Ignore;
                }
            },
            None => {},
        }
        match self.position(event.agent_id.as_str()) {
            Some(i) => {
                proof {
                    assert(self@.agents[i as int].agent_id == event@.agent_id);
                }
                Step::Process
            },
            None => Step::FetchBaseline,
        }
    }

    /// Takes an agent in, with the profile that was fetched for it; without one, with
    /// a fresh profile.
    pub fn add_agent(&mut self, agent_id: &str, existing: Option<Baseline>)
        requires
            !old(self)@.knows(agent_id@),
        ensures
            match existing {
                Some(baseline) => final(self)@ == old(self)@.with_agent(agent_id@, baseline@),
                None => exists|now: Timestamp|
                    final(self)@ == old(self)@.with_agent(
                        agent_id@,
                        #[trigger] BaselineView::fresh(agent_id@, now),
                    ),
            },
    {
        proof {
            use_type_invariant(&*self);
        }
        let ghost before = self@;
        let builder = match existing {
            Some(baseline) => BaselineBuilder::from_baseline(baseline),
            None => BaselineBuilder::new(agent_id),
        };
        let agent = AgentBuild { agent_id: agent_id.to_owned(), builder, events: Vec::new() };
        let mut agents: Vec<AgentBuild> = Vec::new();
        std::mem::swap(&mut agents, &mut self.agents);
        let ghost old_agents = agents@;
        proof {
            assert(views(agent.events@) =~= Seq::<EventView>::empty());
            assert(views(old_agents.push(agent)) =~= views(old_agents).push(agent@));
            assert(distinct(views(old_agents.push(agent)))) by {
                let all = views(old_agents).push(agent@);
                assert forall|i: int, j: int| 0 <= i < j < all.len() implies (
                #[trigger] all[i]).agent_id != (#[trigger] all[j]).agent_id by {
                    assert(all[i] == before.agents[i]);
                }
            }
        }
        agents.push(agent);
        self.agents = agents;
        proof {
            assert(self@ =~= before.with_agent(agent_id@, builder@.baseline));
        }
    }

    /// Whether no counter that the event moves stands at its limit.
    pub fn accepts(&self, event: &BehavioralEvent) -> (r: bool)
        ensures
            r == self@.has_room(event@),
    {
        proof {
            use_type_invariant(self);
        }
        match self.position(event.agent_id.as_str()) {
            Some(i) => {
                let builder = &self.agents[i].builder;
                let r = builder.accepts(event) && (self.line_count < u64::MAX || builder.seen(event));
                proof {
                    let agents = self@.agents;
                    assert(agents[i as int] == self.agents@[i as int]@);
                    assert forall|j: int|
                        0 <= j < agents.len() && (#[trigger] agents[j]).agent_id
                            == event@.agent_id implies j == i by {
                        if j < i {
                            assert(agents[j].agent_id != agents[i as int].agent_id);
                        }
                        if i < j {
                            assert(agents[i as int].agent_id != agents[j].agent_id);
                        }
                    }
                }
                r
            },
            None => self.line_count < u64::MAX,
        }
    }

    /// Takes an event in. Returns `false` where its agent's profile already holds it.
    pub fn process(&mut self, event: BehavioralEvent) -> (r: bool)
        requires
            old(self)@.step(event@) == Step::Process,
            old(self)@.has_room(event@),
        ensures
            r == !old(self)@.holds(event@),
            final(self)@ == old(self)@.after(event@),
    {
        proof {
            use_type_invariant(&*self);
        }
        let ghost before = self@;
        let i: usize = match self.position(event.agent_id.as_str()) {
            Some(i) => i,
            None => {
                return false;
            },
        };
        proof {
            assert forall|j: int|
                0 <= j < before.agents.len() && (#[trigger] before.agents[j]).agent_id
                    == event@.agent_id implies j == i by {
                if j < i {
                    assert(before.agents[j].agent_id != before.agents[i as int].agent_id);
                }
                if i < j {
                    assert(before.agents[i as int].agent_id != before.agents[j].agent_id);
                }
            }
            assert(before.agents[i as int].builder.has_room(event@));
        }
        let ghost wanted = before.after(event@);
        let mut agents: Vec<AgentBuild> = Vec::new();
        std::mem::swap(&mut agents, &mut self.agents);
        let ghost old_agents = agents@;
        proof {
            assert(before.agents[i as int] == old_agents[i as int]@);
        }
        let taken = agents[i].builder.process(&event);
        if taken {
            let ghost kept = agents@[i as int].events@;
            let ghost view = event@;
            agents[i].events.push(event);
            proof {
                assert(views(agents@[i as int].events@) =~= views(kept).push(view));
            }
        }
        proof {
            assert(taken == !before.holds(event@));
            assert forall|j: int| 0 <= j < agents@.len() implies #[trigger] views(agents@)[j]
                == wanted.agents[j] by {
                if j != i {
                    assert(agents@[j] == old_agents[j]);
                    assert(before.agents[j] == old_agents[j]@);
                    assert(before.agents[j].agent_id != event@.agent_id);
                }
            }
            assert(views(agents@) =~= wanted.agents);
            assert forall|j: int, k: int| 0 <= j < k < wanted.agents.len() implies (
            #[trigger] wanted.agents[j]).agent_id != (#[trigger] wanted.agents[k]).agent_id by {
                assert(before.agents[j].agent_id != before.agents[k].agent_id);
            }
        }
        self.agents = agents;
        if taken {
            self.line_count = self.line_count + 1;
        }
        taken
    }

    /// Whether another line that cannot be read can be counted.
    pub fn can_skip(&self) -> (r: bool)
        ensures
            r == (self@.line_count < u64::MAX && self@.skipped < u64::MAX),
    {
        self.line_count < u64::MAX && self.skipped < u64::MAX
    }

    /// Counts a line that cannot be read. Returns the number to report it under: one
    /// more than events were taken in.
    pub fn skip(&mut self) -> (r: u64)
        requires
            old(self)@.line_count < u64::MAX,
            old(self)@.skipped < u64::MAX,
        ensures
            r == old(self)@.line_count + 1,
            final(self)@ == (RunView {
                skipped: (old(self)@.skipped + 1) as u64,
                ..old(self)@
            }),
    {
        proof {
            use_type_invariant(&*self);
        }
        self.skipped = self.skipped + 1;
        self.line_count + 1
    }

    /// How many lines could not be read.
    pub fn skipped(&self) -> (r: u64)
        ensures
            r == self@.skipped,
    {
        self.skipped
    }

    /// Whether the run has met no agent.
    pub fn is_empty(&self) -> (r: bool)
        ensures
            r == (self@.agents.len() == 0),
    {
        self.agents.len() == 0
    }

    /// Whether every agent's open session can be counted.
    pub fn can_finish(&self) -> (r: bool)
        ensures
            r == self@.can_finish(),
    {
        let mut i: usize = 0;
        while i < self.agents.len()
            invariant
                i <= self.agents.len(),
                forall|j: int| 0 <= j < i ==> (#[trigger] self@.agents[j]).builder.can_finish(),
            decreases self.agents.len() - i,
        {
            proof {
                assert(self@.agents[i as int] == self.agents@[i as int]@);
            }
            if !self.agents[i].builder.can_finish() {
                return false;
            }
            i = i + 1;
        }
        true
    }

    /// Ends the run. Gives for each agent, in the order in which they came, the events
    /// to be kept and the finished profile.
    pub fn finish(self) -> (r: Vec<AgentResult>)
        requires
            self@.can_finish(),
        ensures
            views(r@) == self@.results(),
    {
        let ghost all = self@.agents;
        let ghost wanted = self@.results();
        let agents = self.agents;
        let mut out: Vec<AgentResult> = Vec::new();
        proof {
            assert(views(out@) =~= wanted.take(0));
        }
        for agent in it: agents
            invariant
                it.seq() == agents@,
                all == views(agents@),
                forall|i: int| 0 <= i < all.len() ==> (#[trigger] all[i]).builder.can_finish(),
                wanted == all.map_values(
                    |a: AgentView|
                        ResultView {
                            agent_id: a.agent_id,
                            events: a.events,
                            baseline: a.builder.finished(),
                        },
                ),
                views(out@) == wanted.take(it.index()),
        {
            let ghost k = it.index();
            let ghost before = out@;
            proof {
                assert(all[k] == agent@);
            }
            let result = AgentResult {
                agent_id: agent.agent_id,
                events: agent.events,
                baseline: agent.builder.finish(),
            };
            proof {
                assert(result@ == wanted[k]);
                assert(views(before.push(result)) =~= views(before).push(result@));
                assert(wanted.take(k + 1) =~= wanted.take(k).push(wanted[k]));
            }
            out.push(result);
        }
        proof {
            assert(wanted.take(wanted.len() as int) =~= wanted);
        }
        out
    }
}

// ---------------------------------------------------------------------------
// Laws
// ---------------------------------------------------------------------------

/// An event touches no agent but its own, and no event changes which agents there are.
pub proof fn law_agents_do_not_mix(run: RunView, event: EventView, i: int)
    requires
        0 <= i < run.agents.len(),
    ensures
        run.after(event).agents.len() == run.agents.len(),
        run.after(event).agents[i].agent_id == run.agents[i].agent_id,
        run.agents[i].agent_id != event.agent_id ==> run.after(event).agents[i] == run.agents[i],
{
}

/// An event that was taken in is held by the run, and to offer it again changes nothing.
pub proof fn law_replay_changes_nothing(run: RunView, event: EventView)
    requires
        run.step(event) == Step::Process,
    ensures
        run.after(event).holds(event),
        run.after(event).after(event) == run.after(event),
{
    let next = run.after(event);
    let i = choose|i: int|
        0 <= i < run.agents.len() && (#[trigger] run.agents[i]).agent_id == event.agent_id;
    assert forall|j: int|
        0 <= j < next.agents.len() && (#[trigger] next.agents[j]).agent_id
            == event.agent_id implies is_duplicate(next.agents[j].builder.baseline, event) by {
        assert(run.agents[j].agent_id == event.agent_id);
    }
    assert(next.agents[i].agent_id == event.agent_id);
    assert(next.after(event) =~= next);
}

/// How many events are kept for all agents together.
pub open spec fn kept(agents: Seq<AgentView>) -> nat
    decreases agents.len(),
{
    if agents.len() == 0 {
        0
    } else {
        kept(agents.drop_last()) + agents.last().events.len()
    }
}

proof fn lemma_kept_after(agents: Seq<AgentView>, event: EventView, i: int)
    requires
        distinct(agents),
        0 <= i < agents.len(),
        agents[i].agent_id == event.agent_id,
    ensures
        kept(taken_in(agents, event)) == kept(agents) + (if is_duplicate(
            agents[i].builder.baseline,
            event,
        ) {
            0nat
        } else {
            1nat
        }),
    decreases agents.len(),
{
    let short = agents.drop_last();
    let next = taken_in(agents, event);
    assert(next.drop_last() =~= taken_in(short, event));
    if i == agents.len() - 1 {
        assert forall|j: int| 0 <= j < short.len() implies taken_in(short, event)[j] == short[j] by {
            assert(agents[j].agent_id != agents[i].agent_id);
        }
        assert(taken_in(short, event) =~= short);
    } else {
        assert(short[i] == agents[i]);
        assert forall|j: int, k: int| 0 <= j < k < short.len() implies (
        #[trigger] short[j]).agent_id != (#[trigger] short[k]).agent_id by {
            assert(agents[j].agent_id != agents[k].agent_id);
        }
        lemma_kept_after(short, event, i);
        assert(agents[i].agent_id != agents[agents.len() - 1].agent_id);
    }
}

/// The agents after an event.
spec fn taken_in(agents: Seq<AgentView>, event: EventView) -> Seq<AgentView> {
    Seq::new(
        agents.len(),
        |i: int|
            if agents[i].agent_id == event.agent_id {
                agents[i].taking(event)
            } else {
                agents[i]
            },
    )
}

/// The run counts the events that it keeps, and goes on to.
pub proof fn law_run_counts_what_it_keeps(run: RunView, event: EventView)
    requires
        distinct(run.agents),
        run.line_count == kept(run.agents),
        run.step(event) == Step::Process,
        run.has_room(event),
    ensures
        run.after(event).line_count == kept(run.after(event).agents),
{
    let i = choose|i: int|
        0 <= i < run.agents.len() && (#[trigger] run.agents[i]).agent_id == event.agent_id;
    lemma_kept_after(run.agents, event, i);
    assert(run.after(event).agents =~= taken_in(run.agents, event));
    assert(run.holds(event) == is_duplicate(run.agents[i].builder.baseline, event)) by {
        if run.holds(event) {
            let j = choose|j: int|
                0 <= j < run.agents.len() && (#[trigger] run.agents[j]).agent_id == event.agent_id
                    && is_duplicate(run.agents[j].builder.baseline, event);
            if j < i {
                assert(run.agents[j].agent_id != run.agents[i].agent_id);
            }
            if i < j {
                assert(run.agents[i].agent_id != run.agents[j].agent_id);
            }
        }
    }
}

/// The run after a row of events.
pub open spec fn after_each(run: RunView, events: Seq<EventView>) -> RunView
    decreases events.len(),
{
    if events.len() == 0 {
        run
    } else {
        after_each(run, events.drop_last()).after(events.last())
    }
}

/// The events of one agent, in their order.
pub open spec fn of_agent(events: Seq<EventView>, agent_id: Seq<char>) -> Seq<EventView>
    decreases events.len(),
{
    if events.len() == 0 {
        Seq::empty()
    } else if events.last().agent_id == agent_id {
        of_agent(events.drop_last(), agent_id).push(events.last())
    } else {
        of_agent(events.drop_last(), agent_id)
    }
}

/// However the events of several agents are mixed, each agent's profile is the one that
/// its own events make.
pub proof fn law_profiles_come_from_own_events(run: RunView, events: Seq<EventView>, i: int)
    requires
        0 <= i < run.agents.len(),
    ensures
        after_each(run, events).agents.len() == run.agents.len(),
        after_each(run, events).agents[i].agent_id == run.agents[i].agent_id,
        after_each(run, events).agents[i].builder == run.agents[i].builder.after_all(
            of_agent(events, run.agents[i].agent_id),
        ),
    decreases events.len(),
{
    if events.len() > 0 {
        let short = events.drop_last();
        law_profiles_come_from_own_events(run, short, i);
        let own = of_agent(short, run.agents[i].agent_id);
        assert(own.push(events.last()).drop_last() =~= own);
    }
}

/// The run before anything has come.
pub open spec fn start(filter: Option<Seq<char>>) -> RunView {
    RunView { filter, agents: Seq::empty(), line_count: 0, skipped: 0 }
}

/// The run after an event was offered. The profile of an agent that is new to the run
/// is the one that `profiles` has for it.
pub open spec fn offered(
    run: RunView,
    event: EventView,
    profiles: spec_fn(Seq<char>) -> BaselineView,
) -> RunView {
    match run.step(event) {
        Step::Ignore => run,
        Step::FetchBaseline => run.with_agent(event.agent_id, profiles(event.agent_id)).after(event),
        Step::Process => run.after(event),
    }
}

/// The run after a stream of events was offered to it.
pub open spec fn offered_all(
    run: RunView,
    events: Seq<EventView>,
    profiles: spec_fn(Seq<char>) -> BaselineView,
) -> RunView
    decreases events.len(),
{
    if events.len() == 0 {
        run
    } else {
        offered(offered_all(run, events.drop_last(), profiles), events.last(), profiles)
    }
}

/// The event is held by the profile of its agent, wherever that agent stands.
spec fn held_throughout(run: RunView, event: EventView) -> bool {
    &&& run.knows(event.agent_id)
    &&& forall|i: int|
        0 <= i < run.agents.len() && (#[trigger] run.agents[i]).agent_id == event.agent_id
            ==> is_duplicate(run.agents[i].builder.baseline, event)
}

proof fn lemma_stays_held(
    run: RunView,
    next: EventView,
    profiles: spec_fn(Seq<char>) -> BaselineView,
    event: EventView,
)
    requires
        held_throughout(run, event),
    ensures
        held_throughout(offered(run, next, profiles), event),
{
    let after = offered(run, next, profiles);
    let k = choose|k: int|
        0 <= k < run.agents.len() && (#[trigger] run.agents[k]).agent_id == event.agent_id;
    assert(after.agents[k].agent_id == event.agent_id);
    assert forall|i: int|
        0 <= i < after.agents.len() && (#[trigger] after.agents[i]).agent_id
            == event.agent_id implies is_duplicate(after.agents[i].builder.baseline, event) by {
        if i < run.agents.len() {
            assert(run.agents[i].agent_id == event.agent_id);
        }
    }
}

proof fn lemma_offered_is_held(
    run: RunView,
    event: EventView,
    profiles: spec_fn(Seq<char>) -> BaselineView,
)
    requires
        run.step(event) != Step::Ignore,
    ensures
        held_throughout(offered(run, event, profiles), event),
{
    let met = if run.knows(event.agent_id) {
        run
    } else {
        run.with_agent(event.agent_id, profiles(event.agent_id))
    };
    let k = if run.knows(event.agent_id) {
        choose|k: int|
            0 <= k < run.agents.len() && (#[trigger] run.agents[k]).agent_id == event.agent_id
    } else {
        run.agents.len() as int
    };
    let after = offered(run, event, profiles);
    assert(after == met.after(event));
    assert(after.agents[k].agent_id == event.agent_id);
    assert forall|i: int|
        0 <= i < after.agents.len() && (#[trigger] after.agents[i]).agent_id
            == event.agent_id implies is_duplicate(after.agents[i].builder.baseline, event) by {
        assert(met.agents[i].agent_id == event.agent_id);
    }
}

proof fn lemma_filter_stays(
    run: RunView,
    events: Seq<EventView>,
    profiles: spec_fn(Seq<char>) -> BaselineView,
)
    ensures
        offered_all(run, events, profiles).filter == run.filter,
    decreases events.len(),
{
    if events.len() > 0 {
        lemma_filter_stays(run, events.drop_last(), profiles);
    }
}

proof fn lemma_all_offered_are_held(
    run: RunView,
    events: Seq<EventView>,
    profiles: spec_fn(Seq<char>) -> BaselineView,
)
    ensures
        forall|k: int|
            0 <= k < events.len() && run.step(#[trigger] events[k]) != Step::Ignore
                ==> held_throughout(offered_all(run, events, profiles), events[k]),
    decreases events.len(),
{
    if events.len() > 0 {
        let short = events.drop_last();
        let before = offered_all(run, short, profiles);
        lemma_all_offered_are_held(run, short, profiles);
        lemma_filter_stays(run, short, profiles);
        assert forall|k: int|
            0 <= k < events.len() && run.step(#[trigger] events[k]) != Step::Ignore implies held_throughout(
            offered_all(run, events, profiles),
            events[k],
        ) by {
            if k < short.len() {
                assert(short[k] == events[k]);
                lemma_stays_held(before, events.last(), profiles, events[k]);
            } else {
                lemma_offered_is_held(before, events.last(), profiles);
            }
        }
    }
}

/// Where the agents of `two` are those of `one`, each with the profile that `profiles`
/// has for it and without events.
spec fn idle_beside(
    two: RunView,
    one: RunView,
    profiles: spec_fn(Seq<char>) -> BaselineView,
) -> bool {
    &&& two.filter == one.filter
    &&& two.line_count == 0
    &&& two.agents.len() == one.agents.len()
    &&& forall|i: int|
        0 <= i < two.agents.len() ==> #[trigger] two.agents[i] == (AgentView {
            agent_id: one.agents[i].agent_id,
            builder: BuilderView::resumed(profiles(one.agents[i].agent_id)),
            events: Seq::empty(),
        })
}

proof fn lemma_idle_step(
    two: RunView,
    one: RunView,
    event: EventView,
    first: spec_fn(Seq<char>) -> BaselineView,
    second: spec_fn(Seq<char>) -> BaselineView,
)
    requires
        idle_beside(two, one, second),
        one.step(event) != Step::Ignore ==> is_duplicate(second(event.agent_id), event),
    ensures
        idle_beside(offered(two, event, second), offered(one, event, first), second),
{
    assert(two.knows(event.agent_id) == one.knows(event.agent_id)) by {
        if two.knows(event.agent_id) {
            let k = choose|k: int|
                0 <= k < two.agents.len() && (#[trigger] two.agents[k]).agent_id == event.agent_id;
            assert(one.agents[k].agent_id == event.agent_id);
        }
        if one.knows(event.agent_id) {
            let k = choose|k: int|
                0 <= k < one.agents.len() && (#[trigger] one.agents[k]).agent_id == event.agent_id;
            assert(two.agents[k].agent_id == event.agent_id);
        }
    }
    if one.step(event) != Step::Ignore {
        let met = if two.knows(event.agent_id) {
            two
        } else {
            two.with_agent(event.agent_id, second(event.agent_id))
        };
        let k = if two.knows(event.agent_id) {
            choose|k: int|
                0 <= k < two.agents.len() && (#[trigger] two.agents[k]).agent_id == event.agent_id
        } else {
            two.agents.len() as int
        };
        assert(met.agents[k].agent_id == event.agent_id);
        assert(met.agents[k].builder.baseline == second(event.agent_id));
        assert(met.holds(event));
        let after = offered(two, event, second);
        let beside = offered(one, event, first);
        assert(after == met.after(event));
        assert forall|i: int| 0 <= i < after.agents.len() implies #[trigger] after.agents[i] == (
        AgentView {
            agent_id: beside.agents[i].agent_id,
            builder: BuilderView::resumed(second(beside.agents[i].agent_id)),
            events: Seq::empty(),
        }) by {
            assert(met.agents[i].builder == BuilderView::resumed(second(met.agents[i].agent_id)));
            assert(after.agents[i] == met.agents[i]);
            if i < two.agents.len() {
                assert(two.agents[i].agent_id == one.agents[i].agent_id);
            }
        }
    }
}

proof fn lemma_idle(
    filter: Option<Seq<char>>,
    events: Seq<EventView>,
    n: int,
    first: spec_fn(Seq<char>) -> BaselineView,
    second: spec_fn(Seq<char>) -> BaselineView,
)
    requires
        0 <= n <= events.len(),
        forall|k: int|
            0 <= k < events.len() && start(filter).step(#[trigger] events[k]) != Step::Ignore
                ==> is_duplicate(second(events[k].agent_id), events[k]),
    ensures
        idle_beside(
            offered_all(start(filter), events.take(n), second),
            offered_all(start(filter), events.take(n), first),
            second,
        ),
    decreases n,
{
    if n > 0 {
        let part = events.take(n);
        assert(part.drop_last() =~= events.take(n - 1));
        lemma_idle(filter, events, n - 1, first, second);
        lemma_filter_stays(start(filter), events.take(n - 1), first);
        assert(part.last() == events[n - 1]);
        lemma_idle_step(
            offered_all(start(filter), events.take(n - 1), second),
            offered_all(start(filter), events.take(n - 1), first),
            events[n - 1],
            first,
            second,
        );
    }
}

/// A stream that is offered a second time, to a run that takes each agent up with the
/// profile that the first run left, is not taken in: nothing is counted, no event is
/// kept, and every profile stays as it was.
pub proof fn law_second_run_keeps_nothing(
    filter: Option<Seq<char>>,
    events: Seq<EventView>,
    first: spec_fn(Seq<char>) -> BaselineView,
    second: spec_fn(Seq<char>) -> BaselineView,
)
    requires
        ({
            let one = offered_all(start(filter), events, first);
            forall|i: int|
                0 <= i < one.agents.len() ==> second((#[trigger] one.agents[i]).agent_id)
                    == one.agents[i].builder.finished()
        }),
    ensures
        ({
            let one = offered_all(start(filter), events, first);
            let two = offered_all(start(filter), events, second);
            &&& two.line_count == 0
            &&& two.results() == one.results().map_values(
                |r: ResultView| ResultView { events: Seq::empty(), ..r },
            )
        }),
{
    let one = offered_all(start(filter), events, first);
    let two = offered_all(start(filter), events, second);
    lemma_all_offered_are_held(start(filter), events, first);
    assert forall|k: int|
        0 <= k < events.len() && start(filter).step(#[trigger] events[k])
            != Step::Ignore implies is_duplicate(second(events[k].agent_id), events[k]) by {
        assert(held_throughout(one, events[k]));
        let i = choose|i: int|
            0 <= i < one.agents.len() && (#[trigger] one.agents[i]).agent_id == events[k].agent_id;
        assert(is_duplicate(one.agents[i].builder.baseline, events[k]));
    }
    assert(events.take(events.len() as int) =~= events);
    lemma_idle(filter, events, events.len() as int, first, second);
    let emptied = one.results().map_values(
        |r: ResultView| ResultView { events: Seq::empty(), ..r },
    );
    assert forall|i: int| 0 <= i < two.agents.len() implies #[trigger] two.results()[i]
        == emptied[i] by {
        assert(two.agents[i].agent_id == one.agents[i].agent_id);
    }
    assert(two.results() =~= emptied);
}

} // verus!
