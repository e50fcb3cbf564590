//! Learns a profile from events, one at a time.

use vstd::prelude::*;
use vstd::string::*;

use crate::baseline::{Baseline, BaselineView, Bigram, Sample, StatsView, StreamingStats, ToolStats, ToolStatsView};
use crate::dict::{ParamKeys, Pool};
use crate::event::{BehavioralEvent, EventType, EventView};
use crate::order::{opt_view, rank_order, sort, sorted_by, views};
use crate::text::copy_texts;
use crate::time::{hour_of_day, millis_from, Timestamp};

verus! {

/// Ingests `BehavioralEvent`s and builds a per-agent `Baseline`.
///
/// Tracks ephemeral session-local state (last tool call, session boundaries)
/// that doesn't belong in the persisted baseline.
pub struct BaselineBuilder {
    baseline: Baseline,
    current_session_id: Option<String>,
    last_tool_call: Option<String>,
    last_tool_call_time: Option<Timestamp>,
}

/// The model of a `BaselineBuilder`.
#[verifier::ext_equal]
pub struct BuilderView {
    pub baseline: BaselineView,
    pub session: Option<Seq<char>>,
    pub last_tool: Option<Seq<char>>,
    pub last_time: Option<Timestamp>,
}

impl View for BaselineBuilder {
    type V = BuilderView;

    closed spec fn view(&self) -> BuilderView {
        BuilderView {
            baseline: self.baseline@,
            session: opt_view(self.current_session_id),
            last_tool: opt_view(self.last_tool_call),
            last_time: self.last_tool_call_time,
        }
    }
}

/// The event stands at or below the high-water mark of its session.
pub open spec fn is_duplicate(b: BaselineView, e: EventView) -> bool {
    &&& b.processed_through.contains_key(e.session_id)
    &&& e.sequence_position <= b.processed_through[e.session_id]
}

/// The name under which a tool call is booked.
pub open spec fn tool_of(e: EventView) -> Seq<char> {
    match e.tool_name {
        Some(name) => name,
        None => "unknown"@,
    }
}

/// The parameter names of an event in dictionary order.
pub open spec fn sorted_keys(e: EventView) -> Seq<Seq<char>> {
    sorted_by(e.param_keys, rank_order::<String>())
}

/// The milliseconds since the last tool call of the session, where there was one
/// and time has passed.
pub open spec fn interval(last: Option<Timestamp>, now: Timestamp) -> Option<u64> {
    match last {
        Some(before) => if millis_from(before, now) > 0 {
            Some(millis_from(before, now) as u64)
        } else {
            None
        },
        None => None,
    }
}

impl BuilderView {
    /// A builder that has seen no session yet.
    pub open spec fn resumed(baseline: BaselineView) -> BuilderView {
        BuilderView { baseline, session: None, last_tool: None, last_time: None }
    }

    /// In the session of `e`: a session that ends is counted, and a new one knows
    /// of no earlier call.
    pub open spec fn in_session(self, e: EventView) -> BuilderView {
        if self.session == Some(e.session_id) {
            self
        } else {
            BuilderView {
                baseline: BaselineView {
                    session_count: if self.session is Some {
                        (self.baseline.session_count + 1) as u64
                    } else {
                        self.baseline.session_count
                    },
                    ..self.baseline
                },
                session: Some(e.session_id),
                last_tool: None,
                last_time: None,
            }
        }
    }

    /// With a tool call booked: the tool, the pair it makes with the call before
    /// it, its volume, and the time between the two calls.
    pub open spec fn with_call(self, e: EventView) -> BuilderView {
        BuilderView {
            baseline: BaselineView {
                tool_stats: self.baseline.tool_stats.insert(
                    tool_of(e),
                    self.baseline.tool_after(e),
                ),
                bigrams: match self.last_tool {
                    Some(prev) => self.baseline.bigrams.insert(
                        (prev, tool_of(e)),
                        self.baseline.bigram_after((prev, tool_of(e))),
                    ),
                    None => self.baseline.bigrams,
                },
                volume_stats: self.baseline.volume_stats.insert(
                    tool_of(e),
                    self.baseline.volume_before(tool_of(e)).updated(Sample::Bytes(e.volume() as u64)),
                ),
                rate_stats: match interval(self.last_time, e.timestamp) {
                    Some(ms) => self.baseline.rate_stats.updated(Sample::IntervalMs(ms)),
                    None => self.baseline.rate_stats,
                },
                ..self.baseline
            },
            session: self.session,
            last_tool: Some(tool_of(e)),
            last_time: Some(e.timestamp),
        }
    }

    /// With the high-water mark of the event's session moved up to the event.
    pub open spec fn marked(self, e: EventView) -> BuilderView {
        BuilderView {
            baseline: BaselineView {
                processed_through: self.baseline.processed_through.insert(
                    e.session_id,
                    e.sequence_position,
                ),
                ..self.baseline
            },
            ..self
        }
    }

    /// After an event. A duplicate changes nothing.
    pub open spec fn after(self, e: EventView) -> BuilderView {
        if is_duplicate(self.baseline, e) {
            self
        } else {
            let inside = self.in_session(e);
            let counted = BuilderView { baseline: inside.baseline.counting(e), ..inside };
            let booked = if e.event_type == EventType::ToolCall {
                counted.with_call(e)
            } else {
                counted
            };
            booked.marked(e)
        }
    }

    /// After a row of events.
    pub open spec fn after_all(self, events: Seq<EventView>) -> BuilderView
        decreases events.len(),
    {
        if events.len() == 0 {
            self
        } else {
            self.after_all(events.drop_last()).after(events.last())
        }
    }

    /// No counter that the event moves stands at its limit.
    pub open spec fn has_room(self, e: EventView) -> bool {
        is_duplicate(self.baseline, e) || {
            let b = self.in_session(e).baseline;
            &&& self.session is Some && self.session != Some(e.session_id)
                ==> self.baseline.session_count < u64::MAX
            &&& b.event_count < u64::MAX
            &&& b.hourly_distribution[hour_of_day(e.timestamp.unix_seconds())] < u64::MAX
            &&& e.event_type == EventType::ToolCall ==> {
                &&& e.volume() <= u64::MAX
                &&& b.tool_stats.contains_key(tool_of(e)) ==> b.tool_stats[tool_of(e)].call_count
                    < u64::MAX
                &&& b.volume_before(tool_of(e)).count < u64::MAX
                &&& interval(self.in_session(e).last_time, e.timestamp) is Some ==> b.rate_stats.count
                    < u64::MAX
                &&& match self.in_session(e).last_tool {
                    Some(prev) => b.bigrams.contains_key((prev, tool_of(e))) ==> b.bigrams[(
                        prev,
                        tool_of(e),
                    )] < u64::MAX,
                    None => true,
                }
            }
        }
    }

    /// The session that is open can be counted.
    pub open spec fn can_finish(self) -> bool {
        self.session is Some ==> self.baseline.session_count < u64::MAX
    }

    /// The profile when no more events come: the session that is open is counted.
    pub open spec fn finished(self) -> BaselineView {
        if self.session is Some {
            BaselineView {
                session_count: (self.baseline.session_count + 1) as u64,
                ..self.baseline
            }
        } else {
            self.baseline
        }
    }
}

impl BaselineView {
    /// With an event of any kind counted: when, at which hour, on what.
    pub open spec fn counting(self, e: EventView) -> BaselineView {
        let hour = hour_of_day(e.timestamp.unix_seconds());
        BaselineView {
            event_count: (self.event_count + 1) as u64,
            first_seen: if self.event_count == 0 {
                e.timestamp
            } else {
                self.first_seen
            },
            last_updated: e.timestamp,
            hourly_distribution: self.hourly_distribution.update(
                hour,
                (self.hourly_distribution[hour] + 1) as u64,
            ),
            known_resources: self.known_resources.union(e.resource_ids.to_set()),
            ..self
        }
    }

    /// What is known of the called tool after the call.
    pub open spec fn tool_after(self, e: EventView) -> ToolStatsView {
        let known = self.tool_stats.contains_key(tool_of(e));
        let before = self.tool_stats[tool_of(e)];
        ToolStatsView {
            call_count: if known {
                (before.call_count + 1) as u64
            } else {
                1
            },
            first_seen: if known {
                before.first_seen
            } else {
                e.timestamp
            },
            last_seen: e.timestamp,
            param_key_sets: (if known {
                before.param_key_sets
            } else {
                Set::empty()
            }).insert(sorted_keys(e)),
        }
    }

    /// How often a pair of calls has been seen after one more time.
    pub open spec fn bigram_after(self, bigram: (Seq<char>, Seq<char>)) -> u64 {
        if self.bigrams.contains_key(bigram) {
            (self.bigrams[bigram] + 1) as u64
        } else {
            1
        }
    }

    /// The volumes of a tool so far.
    pub open spec fn volume_before(self, tool: Seq<char>) -> StatsView {
        if self.volume_stats.contains_key(tool) {
            self.volume_stats[tool]
        } else {
            StatsView::fresh()
        }
    }
}

impl BaselineBuilder {
    /// Start building a fresh baseline for the given agent.
    pub fn new(agent_id: &str) -> (r: Self)
        ensures
            r@ == BuilderView::resumed(
                BaselineView::fresh(agent_id@, r@.baseline.first_seen),
            ),
    {
        BaselineBuilder::from_baseline(Baseline::new(agent_id))
    }

    /// Resume building from an existing baseline.
    pub fn from_baseline(baseline: Baseline) -> (r: Self)
        ensures
            r@ == BuilderView::resumed(baseline@),
    {
        BaselineBuilder {
            baseline,
            current_session_id: None,
            last_tool_call: None,
            last_tool_call_time: None,
        }
    }

    /// Whether the event stands at or below the high-water mark of its session.
    pub fn seen(&self, event: &BehavioralEvent) -> (r: bool)
        ensures
            r == is_duplicate(self@.baseline, event@),
    {
        match self.baseline.processed_through.get(&event.session_id) {
            Some(mark) => event.sequence_position <= *mark,
            None => false,
        }
    }

    fn enter_session(&mut self, event: &BehavioralEvent)
        requires
            old(self)@.session is Some && old(self)@.session != Some(event@.session_id)
                ==> old(self)@.baseline.session_count < u64::MAX,
        ensures
            final(self)@ == old(self)@.in_session(event@),
    {
        let changed = match &self.current_session_id {
            Some(current) => *current != event.session_id,
            None => true,
        };
        if changed {
            if self.current_session_id.is_some() {
                self.baseline.session_count = self.baseline.session_count + 1;
            }
            self.current_session_id = Some(event.session_id.clone());
            self.last_tool_call = None;
            self.last_tool_call_time = None;
        }
    }

    fn count_event(&mut self, event: &BehavioralEvent)
        requires
            old(self)@.baseline.event_count < u64::MAX,
            old(self)@.baseline.hourly_distribution[hour_of_day(event@.timestamp.unix_seconds())]
                < u64::MAX,
        ensures
            final(self)@ == (BuilderView {
                baseline: old(self)@.baseline.counting(event@),
                ..old(self)@
            }),
    {
        self.baseline.event_count = self.baseline.event_count + 1;
        if self.baseline.event_count == 1 {
            self.baseline.first_seen = event.timestamp;
        }
        self.baseline.last_updated = event.timestamp;
        let hour: usize = event.timestamp.hour();
        let busy: u64 = self.baseline.hourly_distribution[hour];
        self.baseline.hourly_distribution[hour] = busy + 1;
        let ghost known = self.baseline.known_resources@;
        let ghost before = self@;
        let mut i: usize = 0;
        while i < event.resource_ids.len()
            invariant
                i <= event.resource_ids.len(),
                self.baseline.known_resources@ == known.union(
                    views(event.resource_ids@).take(i as int).to_set(),
                ),
                self@ == (BuilderView {
                    baseline: BaselineView {
                        known_resources: self.baseline.known_resources@,
                        ..before.baseline
                    },
                    ..before
                }),
            decreases event.resource_ids.len() - i,
        {
            self.baseline.known_resources.insert(event.resource_ids[i].clone());
            proof {
                let ids = views(event.resource_ids@);
                lemma_take_to_set(ids, i as int);
            }
            i = i + 1;
        }
        proof {
            assert(views(event.resource_ids@).take(i as int) =~= views(event.resource_ids@));
        }
    }

    fn book_call(&mut self, event: &BehavioralEvent)
        requires
            event@.volume() <= u64::MAX,
            old(self)@.baseline.tool_stats.contains_key(tool_of(event@))
                ==> old(self)@.baseline.tool_stats[tool_of(event@)].call_count < u64::MAX,
            old(self)@.baseline.volume_before(tool_of(event@)).count < u64::MAX,
            interval(old(self)@.last_time, event@.timestamp) is Some
                ==> old(self)@.baseline.rate_stats.count < u64::MAX,
            match old(self)@.last_tool {
                Some(prev) => old(self)@.baseline.bigrams.contains_key((prev, tool_of(event@)))
                    ==> old(self)@.baseline.bigrams[(prev, tool_of(event@))] < u64::MAX,
                None => true,
            },
        ensures
            final(self)@ == old(self)@.with_call(event@),
    {
        let tool_name = booked_name(event);
        self.book_tool(event, &tool_name);
        self.book_bigram(&tool_name);
        let mut volumes = match self.baseline.volume_stats.get(&tool_name) {
            Some(stats) => stats.clone(),
            None => StreamingStats::new(),
        };
        volumes.update(Sample::Bytes(event.data_in_bytes + event.data_out_bytes));
        self.baseline.volume_stats.set(tool_name.clone(), volumes);
        match call_interval(&self.last_tool_call_time, &event.timestamp) {
            Some(ms) => {
                self.baseline.rate_stats.update(Sample::IntervalMs(ms));
            },
            None => {},
        }
        self.last_tool_call = Some(tool_name);
        self.last_tool_call_time = Some(event.timestamp);
    }

    fn book_tool(&mut self, event: &BehavioralEvent, tool_name: &String)
        requires
            tool_name@ == tool_of(event@),
            old(self)@.baseline.tool_stats.contains_key(tool_name@)
                ==> old(self)@.baseline.tool_stats[tool_name@].call_count < u64::MAX,
        ensures
            final(self)@ == (BuilderView {
                baseline: BaselineView {
                    tool_stats: old(self)@.baseline.tool_stats.insert(
                        tool_name@,
                        old(self)@.baseline.tool_after(event@),
                    ),
                    ..old(self)@.baseline
                },
                ..old(self)@
            }),
    {
        let mut stats = match self.baseline.tool_stats.get(tool_name) {
            Some(known) => known.clone(),
            None => ToolStats {
                call_count: 0,
                first_seen: event.timestamp,
                last_seen: event.timestamp,
                param_key_sets: Pool::new(),
            },
        };
        stats.call_count = stats.call_count + 1;
        stats.last_seen = event.timestamp;
        let keys = sort(copy_texts(&event.param_keys));
        stats.param_key_sets.insert(ParamKeys { keys });
        self.baseline.tool_stats.set(tool_name.clone(), stats);
    }

    fn book_bigram(&mut self, tool_name: &String)
        requires
            match old(self)@.last_tool {
                Some(prev) => old(self)@.baseline.bigrams.contains_key((prev, tool_name@))
                    ==> old(self)@.baseline.bigrams[(prev, tool_name@)] < u64::MAX,
                None => true,
            },
        ensures
            final(self)@ == (BuilderView {
                baseline: BaselineView {
                    bigrams: match old(self)@.last_tool {
                        Some(prev) => old(self)@.baseline.bigrams.insert(
                            (prev, tool_name@),
                            old(self)@.baseline.bigram_after((prev, tool_name@)),
                        ),
                        None => old(self)@.baseline.bigrams,
                    },
                    ..old(self)@.baseline
                },
                ..old(self)@
            }),
    {
        match &self.last_tool_call {
            Some(prev) => {
                let bigram = Bigram::new(prev.as_str(), tool_name.as_str());
                let seen: u64 = match self.baseline.bigrams.get(&bigram) {
                    Some(n) => *n,
                    None => 0,
                };
                self.baseline.bigrams.set(bigram, seen + 1);
            },
            None => {},
        }
    }

    /// Whether no counter that the event moves stands at its limit.
    pub fn accepts(&self, event: &BehavioralEvent) -> (r: bool)
        ensures
            r == self@.has_room(event@),
    {
        if self.seen(event) {
            return true;
        }
        let same_session = match &self.current_session_id {
            Some(current) => *current == event.session_id,
            None => false,
        };
        let ends_session = self.current_session_id.is_some() && !same_session;
        let hour: usize = event.timestamp.hour();
        if (ends_session && self.baseline.session_count == u64::MAX) || self.baseline.event_count
            == u64::MAX || self.baseline.hourly_distribution[hour] == u64::MAX {
            return false;
        }
        if event.event_type != EventType::ToolCall {
            return true;
        }
        let tool_name = booked_name(event);
        if event.data_out_bytes > u64::MAX - event.data_in_bytes {
            return false;
        }
        match self.baseline.tool_stats.get(&tool_name) {
            Some(known) => {
                if known.call_count == u64::MAX {
                    return false;
                }
            },
            None => {},
        }
        match self.baseline.volume_stats.get(&tool_name) {
            Some(stats) => {
                if stats.count == u64::MAX {
                    return false;
                }
            },
            None => {},
        }
        if same_session {
            if self.baseline.rate_stats.count == u64::MAX && call_interval(
                &self.last_tool_call_time,
                &event.timestamp,
            ).is_some() {
                return false;
            }
            match &self.last_tool_call {
                Some(prev) => {
                    match self.baseline.bigrams.get(&Bigram::new(prev.as_str(), tool_name.as_str())) {
                        Some(n) => {
                            return *n != u64::MAX;
                        },
                        None => {},
                    }
                },
                None => {},
            }
        }
        true
    }

    /// Ingest a single event into the baseline.
    /// Returns `false` if the event was skipped as a duplicate.
    pub fn process(&mut self, event: &BehavioralEvent) -> (r: bool)
        requires
            old(self)@.has_room(event@),
        ensures
            r == !is_duplicate(old(self)@.baseline, event@),
            final(self)@ == old(self)@.after(event@),
    {
        if self.seen(event) {
            return false;
        }
        self.enter_session(event);
        self.count_event(event);
        if event.event_type == EventType::ToolCall {
            self.book_call(event);
        }
        self.baseline.processed_through.set(event.session_id.clone(), event.sequence_position);
        true
    }

    /// Borrow the baseline for inspection.
    pub fn baseline(&self) -> (r: &Baseline)
        ensures
            r@ == self@.baseline,
    {
        &self.baseline
    }

    /// Whether the session that is open can be counted.
    pub fn can_finish(&self) -> (r: bool)
        ensures
            r == self@.can_finish(),
    {
        self.current_session_id.is_none() || self.baseline.session_count < u64::MAX
    }

    /// Consume the builder and return the finished baseline.
    /// Counts the final session if any events were processed.
    pub fn finish(self) -> (r: Baseline)
        requires
            self@.can_finish(),
        ensures
            r@ == self@.finished(),
    {
        let mut baseline = self.baseline;
        if self.current_session_id.is_some() {
            baseline.session_count = baseline.session_count + 1;
        }
        baseline
    }
}

proof fn lemma_take_to_set(ids: Seq<Seq<char>>, i: int)
    requires
        0 <= i < ids.len(),
    ensures
        ids.take(i + 1).to_set() == ids.take(i).to_set().insert(ids[i]),
{
    let longer = ids.take(i + 1);
    let shorter = ids.take(i);
    assert forall|x: Seq<char>| #[trigger] longer.to_set().contains(x) <==> shorter.to_set().insert(
        ids[i],
    ).contains(x) by {
        if longer.contains(x) {
            let k = longer.index_of(x);
            if k < i {
                assert(shorter[k] == x);
            }
        }
        if shorter.contains(x) {
            assert(longer[shorter.index_of(x)] == x);
        }
        assert(longer[i] == ids[i]);
    }
    assert(longer.to_set() =~= shorter.to_set().insert(ids[i]));
}

/// The name under which a tool call is booked.
fn booked_name(event: &BehavioralEvent) -> (r: String)
    ensures
        r@ == tool_of(event@),
{
    match &event.tool_name {
        Some(name) => name.clone(),
        None => "unknown".to_owned(),
    }
}

/// The milliseconds since the last tool call, where there was one and time has
/// passed.
pub fn call_interval(last: &Option<Timestamp>, now: &Timestamp) -> (r: Option<u64>)
    ensures
        r == interval(*last, *now),
{
    match last {
        Some(before) => {
            let ms: i64 = now.millis_since(before);
            if ms > 0 {
                Some(ms as u64)
            } else {
                None
            }
        },
        None => None,
    }
}

} // verus!
