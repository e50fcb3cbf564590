//! What one event adds to a profile, and what a row of events adds up to.

use vstd::prelude::*;

use crate::baseline::builder::BuilderView;
use crate::baseline::run::{RunView, Step};
use crate::baseline::{bigram_text, total, BaselineView, Sample, StatsView};
use crate::event::{EventType, EventView};
use crate::order::rank_order;
use crate::text::{law_dictionary_order, lex_le};
use crate::time::{millis_from, Timestamp};

verus! {

/// The event stands above the mark of its session, or its session has no mark.
pub open spec fn is_new(b: BaselineView, e: EventView) -> bool {
    !b.processed_through.contains_key(e.session_id) || b.processed_through[e.session_id]
        < e.sequence_position
}

/// No counter of the builder stands at its limit, and the bytes of the event can be added.
pub open spec fn below_limits(s: BuilderView, e: EventView) -> bool {
    &&& s.baseline.session_count < u64::MAX
    &&& s.baseline.event_count < u64::MAX
    &&& s.baseline.rate_stats.count < u64::MAX
    &&& s.baseline.hourly_distribution.len() == 24
    &&& forall|h: int| 0 <= h < 24 ==> #[trigger] s.baseline.hourly_distribution[h] < u64::MAX
    &&& forall|tool: Seq<char>| #[trigger]
        s.baseline.tool_stats.contains_key(tool) ==> s.baseline.tool_stats[tool].call_count
            < u64::MAX
    &&& forall|tool: Seq<char>| #[trigger]
        s.baseline.volume_stats.contains_key(tool) ==> s.baseline.volume_stats[tool].count
            < u64::MAX
    &&& forall|pair: (Seq<char>, Seq<char>)| #[trigger]
        s.baseline.bigrams.contains_key(pair) ==> s.baseline.bigrams[pair] < u64::MAX
    &&& e.data_in_bytes + e.data_out_bytes <= u64::MAX
}

/// The event is a call that is booked under the name `tool`: its own name, or the word for
/// calls without one.
pub open spec fn calls(e: EventView, tool: Seq<char>) -> bool {
    &&& e.event_type == EventType::ToolCall
    &&& match e.tool_name {
        Some(name) => name == tool,
        None => "unknown"@ == tool,
    }
}

/// The nanoseconds from one instant to another, neither of them in a leap second.
pub open spec fn gap_nanos(from: Timestamp, to: Timestamp) -> int {
    (to.unix_seconds() - from.unix_seconds()) * 1_000_000_000 + to.subsec_nanos()
        - from.subsec_nanos()
}

/// The instant is no leap second.
pub open spec fn ordinary(t: Timestamp) -> bool {
    0 <= t.subsec_nanos() < 1_000_000_000
}

/// An event below the limits is accepted.
pub proof fn law_room_below_limits(s: BuilderView, e: EventView)
    requires
        below_limits(s, e),
    ensures
        s.has_room(e),
        s.can_finish(),
{
}

/// A profile can be finished exactly where its open session, if there is one, can be counted.
pub proof fn law_room_to_finish(s: BuilderView, run: RunView, i: int)
    ensures
        s.session is None ==> s.can_finish(),
        s.session is Some ==> s.can_finish() == (s.baseline.session_count < u64::MAX),
        run.can_finish() && 0 <= i < run.agents.len() ==> run.agents[i].builder.can_finish(),
        (forall|j: int| 0 <= j < run.agents.len() ==> (#[trigger] run.agents[j]).builder.can_finish())
            ==> run.can_finish(),
{
}

/// A run accepts an event that its agent's builder accepts, as long as it can count it.
pub proof fn law_run_has_room(run: RunView, event: EventView, i: int)
    ensures
        run.line_count < u64::MAX && (forall|j: int|
            0 <= j < run.agents.len() && (#[trigger] run.agents[j]).agent_id == event.agent_id
                ==> run.agents[j].builder.has_room(event)) ==> run.has_room(event),
        run.has_room(event) && 0 <= i < run.agents.len() && run.agents[i].agent_id
            == event.agent_id ==> run.agents[i].builder.has_room(event),
{
}

/// An event is skipped exactly where it does not stand above the mark of its session. One
/// that is not skipped becomes the mark of its session, and no other mark moves.
pub proof fn law_marks_decide(s: BuilderView, e: EventView)
    ensures
        !is_new(s.baseline, e) ==> s.after(e) == s,
        is_new(s.baseline, e) ==> {
            let marks = s.after(e).baseline.processed_through;
            &&& marks.contains_key(e.session_id)
            &&& marks[e.session_id] == e.sequence_position
            &&& forall|other: Seq<char>|
                other != e.session_id ==> (#[trigger] marks.contains_key(other)
                    == s.baseline.processed_through.contains_key(other)) && (marks.contains_key(other)
                    ==> marks[other] == s.baseline.processed_through[other])
        },
{
}

/// Whatever its kind, an event that is taken in is counted once, in all and in its hour and
/// in no other hour; it dates the profile; its resources become known, and nothing else does.
pub proof fn law_event_is_counted(s: BuilderView, e: EventView)
    requires
        is_new(s.baseline, e),
        s.has_room(e),
        s.baseline.hourly_distribution.len() == 24,
    ensures
        ({
            let b = s.baseline;
            let a = s.after(e).baseline;
            let hour = (e.timestamp.unix_seconds() % 86_400) / 3_600;
            &&& a.agent_id == b.agent_id
            &&& a.event_count == b.event_count + 1
            &&& a.last_updated == e.timestamp
            &&& a.first_seen == (if b.event_count == 0 {
                e.timestamp
            } else {
                b.first_seen
            })
            &&& a.hourly_distribution.len() == 24
            &&& forall|h: int|
                0 <= h < 24 ==> #[trigger] a.hourly_distribution[h] == b.hourly_distribution[h] + (
                if h == hour {
                    1int
                } else {
                    0int
                })
            &&& forall|r: Seq<char>| #[trigger]
                a.known_resources.contains(r) <==> b.known_resources.contains(r)
                    || e.resource_ids.contains(r)
        }),
{
}

/// The session of an event that is taken in is the open one. The session that was open is
/// counted where it is another; counting the open one too, the profile holds one session
/// more than before exactly where the event opened one.
pub proof fn law_sessions_open_and_close(s: BuilderView, e: EventView)
    requires
        is_new(s.baseline, e),
        s.has_room(e),
    ensures
        s.after(e).session == Some(e.session_id),
        s.after(e).baseline.session_count == s.baseline.session_count + (if s.session is Some
            && s.session != Some(e.session_id) {
            1int
        } else {
            0int
        }),
        s.can_finish() ==> s.finished().session_count == s.baseline.session_count + (if s.session is Some {
            1int
        } else {
            0int
        }),
{
}

/// Finishing a profile counts the open session and touches nothing else; taking a profile
/// up again keeps all of it and remembers no call and no session.
pub proof fn law_finish_and_resume(s: BuilderView, b: BaselineView)
    ensures
        s.finished() == (BaselineView { session_count: s.finished().session_count, ..s.baseline }),
        BuilderView::resumed(b).baseline == b,
        BuilderView::resumed(b).session is None,
        BuilderView::resumed(b).last_tool is None,
        BuilderView::resumed(b).last_time is None,
{
}

/// A profile of nothing holds nothing, has a counter for each hour of the day, and is dated
/// by the moment at which it was made.
pub proof fn law_fresh_profile(agent_id: Seq<char>, now: Timestamp)
    ensures
        ({
            let b = BaselineView::fresh(agent_id, now);
            &&& b.agent_id == agent_id
            &&& b.session_count == 0
            &&& b.event_count == 0
            &&& b.tool_stats.dom().is_empty()
            &&& b.bigrams.dom().is_empty()
            &&& b.volume_stats.dom().is_empty()
            &&& b.processed_through.dom().is_empty()
            &&& b.known_resources.is_empty()
            &&& b.hourly_distribution.len() == 24
            &&& forall|h: int| 0 <= h < 24 ==> #[trigger] b.hourly_distribution[h] == 0
            &&& b.rate_stats.count == 0
            &&& b.rate_stats.mean == "0"@
            &&& b.rate_stats.m2 == "0"@
            &&& b.rate_stats.pending.len() == 0
            &&& b.first_seen == now
            &&& b.last_updated == now
        }),
{
}

/// A call that is taken in is one more call of its tool, the latest one, and the first one
/// where the tool was unknown. The names of its parameters, in dictionary order, are the one
/// combination that may be new. No other tool is touched.
pub proof fn law_call_is_booked_on_its_tool(s: BuilderView, e: EventView, tool: Seq<char>)
    requires
        is_new(s.baseline, e),
        s.has_room(e),
        calls(e, tool),
    ensures
        ({
            let b = s.baseline.tool_stats;
            let a = s.after(e).baseline.tool_stats;
            &&& a.dom() == b.dom().insert(tool)
            &&& a[tool].call_count == (if b.contains_key(tool) {
                b[tool].call_count + 1
            } else {
                1
            })
            &&& a[tool].last_seen == e.timestamp
            &&& a[tool].first_seen == (if b.contains_key(tool) {
                b[tool].first_seen
            } else {
                e.timestamp
            })
            &&& forall|other: Seq<char>|
                other != tool && #[trigger] b.contains_key(other) ==> a[other] == b[other]
            &&& exists|keys: Seq<Seq<char>>|
                {
                    &&& forall|i: int, j: int|
                        0 <= i < j < keys.len() ==> lex_le(#[trigger] keys[i], #[trigger] keys[j])
                    &&& keys.to_multiset() == e.param_keys.to_multiset()
                    &&& #[trigger] a[tool].param_key_sets.contains(keys)
                    &&& forall|set: Seq<Seq<char>>| #[trigger]
                        a[tool].param_key_sets.contains(set) <==> set == keys || (b.contains_key(
                            tool,
                        ) && b[tool].param_key_sets.contains(set))
                }
        }),
{
    law_dictionary_order(e.param_keys);
    let keys = crate::order::sorted_by(e.param_keys, rank_order::<String>());
    assert(s.after(e).baseline.tool_stats[tool].param_key_sets.contains(keys));
    assert(s.after(e).baseline.tool_stats.dom() =~= s.baseline.tool_stats.dom().insert(tool));
}

/// A call that is taken in adds the bytes that went in and out, together and once, to the
/// volumes of its tool, behind those that wait there. No other tool is touched.
pub proof fn law_call_adds_its_volume(s: BuilderView, e: EventView, tool: Seq<char>)
    requires
        is_new(s.baseline, e),
        s.has_room(e),
        calls(e, tool),
    ensures
        ({
            let b = s.baseline.volume_stats;
            let a = s.after(e).baseline.volume_stats;
            let bytes = (e.data_in_bytes + e.data_out_bytes) as u64;
            &&& a.dom() == b.dom().insert(tool)
            &&& b.contains_key(tool) ==> {
                &&& a[tool].count == b[tool].count + 1
                &&& a[tool].pending == b[tool].pending.push(Sample::Bytes(bytes))
                &&& a[tool].mean == b[tool].mean
                &&& a[tool].m2 == b[tool].m2
            }
            &&& !b.contains_key(tool) ==> {
                &&& a[tool].count == 1
                &&& a[tool].pending == seq![Sample::Bytes(bytes)]
                &&& a[tool].mean == "0"@
                &&& a[tool].m2 == "0"@
            }
            &&& forall|other: Seq<char>|
                other != tool && #[trigger] b.contains_key(other) ==> a[other] == b[other]
        }),
{
    assert(s.after(e).baseline.volume_stats.dom() =~= s.baseline.volume_stats.dom().insert(tool));
}

/// A call that is taken in makes a pair with the last call of its session, counted once more
/// than before, and no other pair is touched; without such a call there is no new pair.
pub proof fn law_call_makes_its_pair(s: BuilderView, e: EventView, tool: Seq<char>)
    requires
        is_new(s.baseline, e),
        s.has_room(e),
        calls(e, tool),
    ensures
        ({
            let b = s.baseline.bigrams;
            let a = s.after(e).baseline.bigrams;
            &&& s.session == Some(e.session_id) && s.last_tool is Some ==> {
                let pair = (s.last_tool->0, tool);
                &&& a.dom() == b.dom().insert(pair)
                &&& a[pair] == (if b.contains_key(pair) {
                    b[pair] + 1
                } else {
                    1
                })
                &&& forall|other: (Seq<char>, Seq<char>)|
                    other != pair && #[trigger] b.contains_key(other) ==> a[other] == b[other]
            }
            &&& s.session != Some(e.session_id) || s.last_tool is None ==> a == b
            &&& s.after(e).last_tool == Some(tool)
        }),
{
    if s.session == Some(e.session_id) && s.last_tool is Some {
        let pair = (s.last_tool->0, tool);
        assert(s.after(e).baseline.bigrams.dom() =~= s.baseline.bigrams.dom().insert(pair));
    }
}

/// A call that is taken in adds the whole milliseconds since the last call of its session to
/// the rates, where there was such a call and a millisecond has passed; else nothing. Either
/// way the next call is measured from this one.
pub proof fn law_call_adds_its_interval(s: BuilderView, e: EventView, tool: Seq<char>)
    requires
        is_new(s.baseline, e),
        s.has_room(e),
        calls(e, tool),
        ordinary(e.timestamp),
        s.last_time is Some ==> ordinary(s.last_time->0),
        s.last_time is Some ==> gap_nanos(s.last_time->0, e.timestamp) / 1_000_000
            <= u64::MAX,
    ensures
        ({
            let b = s.baseline.rate_stats;
            let a = s.after(e).baseline.rate_stats;
            let gap = gap_nanos(s.last_time->0, e.timestamp);
            let measured = s.session == Some(e.session_id) && s.last_time is Some && gap >= 1_000_000;
            &&& measured ==> {
                &&& a.count == b.count + 1
                &&& a.pending == b.pending.push(Sample::IntervalMs((gap / 1_000_000) as u64))
                &&& a.mean == b.mean
                &&& a.m2 == b.m2
            }
            &&& !measured ==> a == b
            &&& s.after(e).last_time == Some(e.timestamp)
        }),
{
}

/// The same with leap seconds, as the clock reckons them: the milliseconds that it gives from
/// the last call of the session are added where they are more than none.
pub proof fn law_interval_by_the_clock(s: BuilderView, e: EventView, tool: Seq<char>)
    requires
        is_new(s.baseline, e),
        s.has_room(e),
        calls(e, tool),
    ensures
        ({
            let b = s.baseline.rate_stats;
            let a = s.after(e).baseline.rate_stats;
            let ms = millis_from(s.last_time->0, e.timestamp);
            let measured = s.session == Some(e.session_id) && s.last_time is Some && ms > 0;
            &&& measured ==> a.count == b.count + 1 && a.pending == b.pending.push(
                Sample::IntervalMs(ms as u64),
            ) && a.mean == b.mean && a.m2 == b.m2
            &&& !measured ==> a == b
        }),
{
}

/// An event that is no call leaves the tools, the pairs, the volumes and the rates alone. It
/// keeps the last call of its own session in mind, and forgets the call of another.
pub proof fn law_other_event_keeps_the_books(s: BuilderView, e: EventView)
    requires
        is_new(s.baseline, e),
        e.event_type != EventType::ToolCall,
    ensures
        s.after(e).baseline.tool_stats == s.baseline.tool_stats,
        s.after(e).baseline.volume_stats == s.baseline.volume_stats,
        s.after(e).baseline.bigrams == s.baseline.bigrams,
        s.after(e).baseline.rate_stats == s.baseline.rate_stats,
        s.session == Some(e.session_id) ==> s.after(e).last_tool == s.last_tool && s.after(
            e,
        ).last_time == s.last_time,
        s.session != Some(e.session_id) ==> s.after(e).last_tool is None && s.after(
            e,
        ).last_time is None,
{
}

/// The samples that wait for a tool.
pub open spec fn waiting(s: BuilderView, tool: Seq<char>) -> Seq<Sample> {
    if s.baseline.volume_stats.contains_key(tool) {
        s.baseline.volume_stats[tool].pending
    } else {
        Seq::empty()
    }
}

/// Every event of the row is new when it comes, and then no counter is at its limit.
pub open spec fn all_new(s: BuilderView, events: Seq<EventView>) -> bool {
    forall|i: int|
        0 <= i < events.len() ==> {
            let before = s.after_all(#[trigger] events.take(i));
            is_new(before.baseline, events[i]) && before.has_room(events[i])
        }
}

/// After a row of calls of one tool its waiting samples are the earlier ones and behind them
/// the bytes that each call moved, in and out together, in the order of the calls.
pub proof fn law_volumes_of_a_row(s: BuilderView, events: Seq<EventView>, tool: Seq<char>)
    requires
        all_new(s, events),
        forall|i: int| 0 <= i < events.len() ==> calls(#[trigger] events[i], tool),
    ensures
        waiting(s.after_all(events), tool) == waiting(s, tool) + events.map_values(
            |e: EventView| Sample::Bytes((e.data_in_bytes + e.data_out_bytes) as u64),
        ),
    decreases events.len(),
{
    let sample = |e: EventView| Sample::Bytes((e.data_in_bytes + e.data_out_bytes) as u64);
    if events.len() == 0 {
        assert(waiting(s, tool) + events.map_values(sample) =~= waiting(s, tool));
    } else {
        let short = events.drop_last();
        assert forall|i: int| 0 <= i < short.len() implies {
            let before = s.after_all(#[trigger] short.take(i));
            is_new(before.baseline, short[i]) && before.has_room(short[i])
        } by {
            assert(short.take(i) =~= events.take(i));
            assert(short[i] == events[i]);
        }
        assert forall|i: int| 0 <= i < short.len() implies calls(#[trigger] short[i], tool) by {
            assert(short[i] == events[i]);
        }
        law_volumes_of_a_row(s, short, tool);
        assert(events.take(events.len() - 1) =~= short);
        let before = s.after_all(short);
        assert(calls(events[events.len() - 1], tool));
        law_call_adds_its_volume(before, events.last(), tool);
        assert(waiting(s.after_all(events), tool) =~= waiting(before, tool).push(
            sample(events.last()),
        ));
        assert(waiting(s.after_all(events), tool) =~= waiting(s, tool) + events.map_values(sample));
    }
}

/// A statistic takes a sample in behind the others and counts it; settling it keeps the
/// count, takes the given numbers and lets the waiting samples go.
pub proof fn law_statistics(s: StatsView, sample: Sample, mean: Seq<char>, m2: Seq<char>)
    requires
        s.count < u64::MAX,
    ensures
        s.updated(sample).count == s.count + 1,
        s.updated(sample).pending == s.pending.push(sample),
        s.updated(sample).mean == s.mean,
        s.updated(sample).m2 == s.m2,
        s.settled(mean, m2).count == s.count,
        s.settled(mean, m2).mean == mean,
        s.settled(mean, m2).m2 == m2,
        s.settled(mean, m2).pending.len() == 0,
{
}

/// A row of counters holds what its parts hold, and a single counter what it shows.
pub proof fn law_totals_add_up(a: Seq<u64>, b: Seq<u64>, x: u64)
    ensures
        total(a + b) == total(a) + total(b),
        total(seq![x]) == x,
    decreases b.len(),
{
    assert(seq![x].drop_last() =~= Seq::<u64>::empty());
    assert(total(seq![x].drop_last()) == 0);
    if b.len() == 0 {
        assert(a + b =~= a);
    } else {
        law_totals_add_up(a, b.drop_last(), x);
        assert((a + b).drop_last() =~= a + b.drop_last());
    }
}

/// A pair is written with an arrow between its tools.
pub proof fn law_pair_text(first: Seq<char>, second: Seq<char>)
    ensures
        bigram_text((first, second)).len() == first.len() + 2 + second.len(),
        bigram_text((first, second)).take(first.len() as int) == first,
        bigram_text((first, second))[first.len() as int] == '-',
        bigram_text((first, second))[first.len() as int + 1] == '>',
        bigram_text((first, second)).skip(first.len() as int + 2) == second,
{
    reveal_strlit("->");
    let text = bigram_text((first, second));
    assert(text.take(first.len() as int) =~= first);
    assert(text.skip(first.len() as int + 2) =~= second);
}

// ---------------------------------------------------------------------------
// Runs
// ---------------------------------------------------------------------------

/// An event is asked about by its agent alone: it is ignored where another agent is wanted,
/// its profile is fetched where the agent has not come yet, and else it is taken in.
pub proof fn law_steps(run: RunView, event: EventView)
    ensures
        run.step(event) == Step::Ignore <==> run.filter is Some && run.filter->0 != event.agent_id,
        run.step(event) == Step::Process ==> exists|i: int|
            0 <= i < run.agents.len() && (#[trigger] run.agents[i]).agent_id == event.agent_id,
        run.step(event) == Step::FetchBaseline ==> forall|i: int|
            0 <= i < run.agents.len() ==> (#[trigger] run.agents[i]).agent_id != event.agent_id,
{
}

/// An event that its agent's profile does not hold is kept behind the others of that agent,
/// is learnt by that agent's builder, and is counted. One that the profile holds is neither
/// kept nor counted. Nothing else in the run changes.
pub proof fn law_run_takes_an_event_in(run: RunView, event: EventView, i: int)
    requires
        0 <= i < run.agents.len(),
        run.agents[i].agent_id == event.agent_id,
        forall|j: int|
            0 <= j < run.agents.len() && j != i ==> (#[trigger] run.agents[j]).agent_id
                != event.agent_id,
        is_new(run.agents[i].builder.baseline, event) ==> run.line_count < u64::MAX,
    ensures
        ({
            let next = run.after(event);
            let agent = run.agents[i];
            &&& next.filter == run.filter
            &&& next.skipped == run.skipped
            &&& next.agents.len() == run.agents.len()
            &&& forall|j: int|
                0 <= j < run.agents.len() && j != i ==> #[trigger] next.agents[j] == run.agents[j]
            &&& is_new(agent.builder.baseline, event) ==> {
                &&& next.line_count == run.line_count + 1
                &&& next.agents[i].agent_id == agent.agent_id
                &&& next.agents[i].events == agent.events.push(event)
                &&& next.agents[i].builder == agent.builder.after(event)
            }
            &&& !is_new(agent.builder.baseline, event) ==> {
                &&& next.line_count == run.line_count
                &&& next.agents[i] == agent
            }
        }),
{
    let next = run.after(event);
    assert forall|j: int|
        0 <= j < run.agents.len() && j != i implies #[trigger] next.agents[j] == run.agents[j] by {
        assert(run.agents[j].agent_id != event.agent_id);
    }
    if !is_new(run.agents[i].builder.baseline, event) {
        assert(run.holds(event));
        assert(next.agents[i] =~= run.agents[i]);
    } else {
        assert(!run.holds(event)) by {
            if run.holds(event) {
                let j = choose|j: int|
                    0 <= j < run.agents.len() && (#[trigger] run.agents[j]).agent_id
                        == event.agent_id && crate::baseline::builder::is_duplicate(
                        run.agents[j].builder.baseline,
                        event,
                    );
                assert(j == i);
            }
        }
    }
}

/// An agent joins behind the others, with the profile that it is given, no events and no
/// session.
pub proof fn law_agent_joins(run: RunView, agent_id: Seq<char>, baseline: BaselineView)
    ensures
        ({
            let next = run.with_agent(agent_id, baseline);
            let last = next.agents.last();
            &&& next.agents.drop_last() == run.agents
            &&& next.agents.len() == run.agents.len() + 1
            &&& last.agent_id == agent_id
            &&& last.events.len() == 0
            &&& last.builder.baseline == baseline
            &&& last.builder.session is None
            &&& next.filter == run.filter
            &&& next.line_count == run.line_count
            &&& next.skipped == run.skipped
        }),
{
    assert(run.with_agent(agent_id, baseline).agents.drop_last() =~= run.agents);
}

/// A run leaves behind, for each agent in its place, the events that were kept and the
/// finished profile.
pub proof fn law_results(run: RunView, i: int)
    requires
        0 <= i < run.agents.len(),
    ensures
        run.results().len() == run.agents.len(),
        run.results()[i].agent_id == run.agents[i].agent_id,
        run.results()[i].events == run.agents[i].events,
        run.results()[i].baseline == run.agents[i].builder.finished(),
{
}

} // verus!
