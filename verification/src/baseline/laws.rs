//! What holds of a profile whatever events it is learnt from.

use vstd::prelude::*;

use crate::baseline::builder::{is_duplicate, tool_of, BuilderView};
use crate::baseline::{total, BaselineView, ToolStatsView};
use crate::event::{EventType, EventView};
use crate::time::{hour_of_day, Timestamp};

verus! {

/// An event that has been ingested is a duplicate from then on: ingesting it once
/// more changes nothing.
pub proof fn law_replayed_event_is_skipped(s: BuilderView, e: EventView)
    ensures
        is_duplicate(s.after(e).baseline, e),
        s.after(e).after(e) == s.after(e),
{
}

/// A high-water mark never goes down, so a duplicate stays one.
pub proof fn law_duplicates_stay_duplicates(s: BuilderView, e: EventView, f: EventView)
    requires
        is_duplicate(s.baseline, f),
    ensures
        is_duplicate(s.after(e).baseline, f),
{
}

/// Marks are kept per session: an event of one session neither makes nor unmakes
/// a duplicate in another.
pub proof fn law_marks_are_per_session(s: BuilderView, e: EventView, f: EventView)
    requires
        e.session_id != f.session_id,
    ensures
        is_duplicate(s.after(e).baseline, f) == is_duplicate(s.baseline, f),
{
}

/// After a row of events every one of them is a duplicate.
pub proof fn law_all_ingested_are_duplicates(s: BuilderView, events: Seq<EventView>)
    ensures
        forall|i: int|
            0 <= i < events.len() ==> is_duplicate(
                s.after_all(events).baseline,
                #[trigger] events[i],
            ),
    decreases events.len(),
{
    if events.len() > 0 {
        let short = events.drop_last();
        law_all_ingested_are_duplicates(s, short);
        assert forall|i: int| 0 <= i < events.len() implies is_duplicate(
            s.after_all(events).baseline,
            #[trigger] events[i],
        ) by {
            if i < short.len() {
                assert(short[i] == events[i]);
                law_duplicates_stay_duplicates(s.after_all(short), events.last(), events[i]);
            } else {
                law_replayed_event_is_skipped(s.after_all(short), events.last());
            }
        }
    }
}

/// Replaying any of the events that have been ingested, in any order and any
/// number, changes nothing.
pub proof fn law_replay_changes_nothing(
    s: BuilderView,
    events: Seq<EventView>,
    replayed: Seq<EventView>,
)
    requires
        forall|i: int| 0 <= i < replayed.len() ==> events.contains(#[trigger] replayed[i]),
    ensures
        s.after_all(events).after_all(replayed) == s.after_all(events),
    decreases replayed.len(),
{
    law_all_ingested_are_duplicates(s, events);
    if replayed.len() > 0 {
        let short = replayed.drop_last();
        assert forall|i: int| 0 <= i < short.len() implies events.contains(#[trigger] short[i]) by {
            assert(replayed[i] == short[i]);
        }
        law_replay_changes_nothing(s, events, short);
        assert(events.contains(replayed[replayed.len() - 1]));
        let k = events.index_of(replayed.last());
        assert(events[k] == replayed.last());
    }
}

/// A profile that was finished and taken up again knows the same duplicates.
pub proof fn law_resuming_keeps_duplicates(s: BuilderView, e: EventView)
    ensures
        is_duplicate(BuilderView::resumed(s.finished()).baseline, e) == is_duplicate(s.baseline, e),
{
}

/// How many of a row of events are no duplicates when they come.
pub open spec fn ingested_count(s: BuilderView, events: Seq<EventView>) -> nat
    decreases events.len(),
{
    if events.len() == 0 {
        0
    } else {
        let before = ingested_count(s, events.drop_last());
        if is_duplicate(s.after_all(events.drop_last()).baseline, events.last()) {
            before
        } else {
            before + 1
        }
    }
}

/// Every event that is not skipped is counted, once.
pub proof fn law_event_count(s: BuilderView, events: Seq<EventView>)
    requires
        s.baseline.event_count + events.len() <= u64::MAX,
    ensures
        s.after_all(events).baseline.event_count == s.baseline.event_count + ingested_count(
            s,
            events,
        ),
        ingested_count(s, events) <= events.len(),
    decreases events.len(),
{
    if events.len() > 0 {
        law_event_count(s, events.drop_last());
    }
}

proof fn lemma_total_update(counts: Seq<u64>, i: int, value: u64)
    requires
        0 <= i < counts.len(),
    ensures
        total(counts.update(i, value)) == total(counts) - counts[i] + value,
    decreases counts.len(),
{
    let changed = counts.update(i, value);
    if i == counts.len() - 1 {
        assert(changed.drop_last() =~= counts.drop_last());
    } else {
        lemma_total_update(counts.drop_last(), i, value);
        assert(changed.drop_last() =~= counts.drop_last().update(i, value));
    }
}

/// There is a counter for each hour, and together they hold every event.
pub open spec fn hours_hold_events(b: BaselineView) -> bool {
    b.hourly_distribution.len() == 24 && total(b.hourly_distribution) == b.event_count
}

proof fn lemma_total_zeros(n: nat)
    ensures
        total(Seq::new(n, |i: int| 0u64)) == 0,
    decreases n,
{
    if n > 0 {
        let zeros = Seq::new(n, |i: int| 0u64);
        let fewer = Seq::new((n - 1) as nat, |i: int| 0u64);
        assert(zeros.drop_last() =~= fewer);
        lemma_total_zeros((n - 1) as nat);
    }
}

/// In a fresh profile the hours hold every event.
pub proof fn law_fresh_hours(agent_id: Seq<char>, now: Timestamp)
    ensures
        hours_hold_events(BaselineView::fresh(agent_id, now)),
{
    lemma_total_zeros(24);
}

/// Ingesting an event keeps the hours in step with the count of events.
pub proof fn law_hours_hold_events(s: BuilderView, e: EventView)
    requires
        s.has_room(e),
        hours_hold_events(s.baseline),
    ensures
        hours_hold_events(s.after(e).baseline),
{
    let hour = hour_of_day(e.timestamp.unix_seconds());
    lemma_total_update(
        s.baseline.hourly_distribution,
        hour,
        (s.baseline.hourly_distribution[hour] + 1) as u64,
    );
}

/// Counting the open session as finished, an event adds a session exactly where it
/// is ingested and does not belong to the session that is open.
pub proof fn law_session_count(s: BuilderView, e: EventView)
    requires
        s.finished().session_count < u64::MAX,
        s.session is Some ==> s.baseline.session_count < u64::MAX,
    ensures
        s.after(e).finished().session_count == s.finished().session_count + (if is_duplicate(
            s.baseline,
            e,
        ) || s.session == Some(e.session_id) {
            0int
        } else {
            1int
        }),
{
}

/// The first call of a session makes no pair and no rate with calls of another.
pub proof fn law_sessions_do_not_mix(s: BuilderView, e: EventView)
    requires
        s.session != Some(e.session_id),
    ensures
        s.after(e).baseline.bigrams == s.baseline.bigrams,
        s.after(e).baseline.rate_stats == s.baseline.rate_stats,
{
}

/// An event that is no tool call books no tool, pair, volume or rate, and within a
/// session it leaves the last call as it was: it does not break the chain.
pub proof fn law_other_events_book_nothing(s: BuilderView, e: EventView)
    requires
        e.event_type != EventType::ToolCall,
    ensures
        s.after(e).baseline.tool_stats == s.baseline.tool_stats,
        s.after(e).baseline.bigrams == s.baseline.bigrams,
        s.after(e).baseline.volume_stats == s.baseline.volume_stats,
        s.after(e).baseline.rate_stats == s.baseline.rate_stats,
        s.session == Some(e.session_id) ==> s.after(e).last_tool == s.last_tool && s.after(
            e,
        ).last_time == s.last_time,
{
}

/// Two tool calls in a row in one session are booked as a pair.
pub proof fn law_consecutive_calls_make_a_pair(s: BuilderView, e: EventView, f: EventView)
    requires
        e.event_type == EventType::ToolCall,
        f.event_type == EventType::ToolCall,
        e.session_id == f.session_id,
        !is_duplicate(s.baseline, e),
        !is_duplicate(s.after(e).baseline, f),
    ensures
        s.after(e).after(f).baseline.bigrams.contains_key((tool_of(e), tool_of(f))),
{
}

/// What a profile knows it keeps: no tool, pair or resource is forgotten, and the
/// agent stays the same.
pub proof fn law_nothing_is_forgotten(s: BuilderView, e: EventView)
    ensures
        s.after(e).baseline.agent_id == s.baseline.agent_id,
        s.baseline.tool_stats.dom().subset_of(s.after(e).baseline.tool_stats.dom()),
        s.baseline.bigrams.dom().subset_of(s.after(e).baseline.bigrams.dom()),
        s.baseline.known_resources.subset_of(s.after(e).baseline.known_resources),
        s.baseline.processed_through.dom().subset_of(s.after(e).baseline.processed_through.dom()),
{
}

/// An ingested event's resources, and the tool of an ingested call, are known.
pub proof fn law_ingested_is_known(s: BuilderView, e: EventView)
    requires
        !is_duplicate(s.baseline, e),
    ensures
        forall|i: int|
            0 <= i < e.resource_ids.len() ==> s.after(e).baseline.known_resources.contains(
                #[trigger] e.resource_ids[i],
            ),
        e.event_type == EventType::ToolCall ==> {
            &&& s.after(e).baseline.tool_stats.contains_key(tool_of(e))
            &&& s.after(e).baseline.volume_stats.contains_key(tool_of(e))
        },
{
    assert forall|i: int| 0 <= i < e.resource_ids.len() implies s.after(
        e,
    ).baseline.known_resources.contains(#[trigger] e.resource_ids[i]) by {
        assert(e.resource_ids.to_set().contains(e.resource_ids[i]));
    }
}

/// The books on calls and on volumes hold the same tools, each as often.
pub open spec fn books_agree(b: BaselineView) -> bool {
    &&& b.tool_stats.dom() == b.volume_stats.dom()
    &&& forall|tool: Seq<char>| #[trigger]
        b.tool_stats.contains_key(tool) ==> b.tool_stats[tool].call_count
            == b.volume_stats[tool].count
}

/// In a fresh profile the books agree.
pub proof fn law_fresh_books(agent_id: Seq<char>, now: Timestamp)
    ensures
        books_agree(BaselineView::fresh(agent_id, now)),
{
    let b = BaselineView::fresh(agent_id, now);
    assert(b.tool_stats.dom() =~= b.volume_stats.dom());
}

/// Ingesting an event keeps the books on calls and on volumes in step.
pub proof fn law_books_agree(s: BuilderView, e: EventView)
    requires
        books_agree(s.baseline),
    ensures
        books_agree(s.after(e).baseline),
{
    let b = s.baseline;
    let a = s.after(e).baseline;
    assert(b.tool_stats.dom().contains(tool_of(e)) == b.volume_stats.dom().contains(tool_of(e)));
    assert(a.tool_stats.dom() =~= a.volume_stats.dom());
    assert forall|tool: Seq<char>| #[trigger] a.tool_stats.contains_key(tool) implies a.tool_stats[tool].call_count
        == a.volume_stats[tool].count by {
        if b.tool_stats.contains_key(tool) {
        }
    }
}

/// The samples that wait in the statistics have been counted there.
pub open spec fn samples_counted(b: BaselineView) -> bool {
    &&& b.rate_stats.wf()
    &&& forall|tool: Seq<char>| #[trigger]
        b.volume_stats.contains_key(tool) ==> b.volume_stats[tool].wf()
}

/// Ingesting an event keeps waiting samples counted.
pub proof fn law_samples_counted(s: BuilderView, e: EventView)
    requires
        s.has_room(e),
        samples_counted(s.baseline),
    ensures
        samples_counted(s.after(e).baseline),
{
}

/// `s` can be left at a session boundary before `events`: the first of them that is no
/// duplicate is of another session than the one that is open.
pub open spec fn at_boundary(s: BuilderView, events: Seq<EventView>) -> bool {
    forall|i: int|
        0 <= i < events.len() && !is_duplicate(s.baseline, #[trigger] events[i]) && (forall|j: int|
            0 <= j < i ==> is_duplicate(s.baseline, #[trigger] events[j])) ==> s.session != Some(
            events[i].session_id,
        )
}

proof fn lemma_resumed_in_step(s: BuilderView, events: Seq<EventView>)
    requires
        at_boundary(s, events),
    ensures
        ({
            let one = s.after_all(events);
            let two = BuilderView::resumed(s.finished()).after_all(events);
            ||| one == two
            ||| {
                &&& one == s
                &&& two == BuilderView::resumed(s.finished())
                &&& forall|i: int|
                    0 <= i < events.len() ==> is_duplicate(s.baseline, #[trigger] events[i])
            }
        }),
    decreases events.len(),
{
    if events.len() > 0 {
        let short = events.drop_last();
        let last = events.last();
        let fresh = BuilderView::resumed(s.finished());
        assert forall|i: int|
            0 <= i < short.len() && !is_duplicate(s.baseline, #[trigger] short[i]) && (forall|
                j: int,
            |
                0 <= j < i ==> is_duplicate(s.baseline, #[trigger] short[j])) implies s.session
            != Some(short[i].session_id) by {
            assert(events[i] == short[i]);
            assert forall|j: int| 0 <= j < i implies is_duplicate(
                s.baseline,
                #[trigger] events[j],
            ) by {
                assert(short[j] == events[j]);
            }
        }
        lemma_resumed_in_step(s, short);
        if s.after_all(short) != fresh.after_all(short) {
            assert forall|j: int| 0 <= j < events.len() - 1 implies is_duplicate(
                s.baseline,
                #[trigger] events[j],
            ) by {
                assert(short[j] == events[j]);
            }
            assert(events[events.len() - 1] == last);
            if !is_duplicate(s.baseline, last) {
                assert(s.session != Some(last.session_id));
                assert(s.after(last) =~= fresh.after(last));
            }
        }
    }
}

/// A run that is ended at a session boundary and resumed from its profile leads to the
/// same profile as one run.
pub proof fn law_resuming_equals_one_run(s: BuilderView, events: Seq<EventView>)
    requires
        at_boundary(s, events),
    ensures
        BuilderView::resumed(s.finished()).after_all(events).finished() == s.after_all(
            events,
        ).finished(),
{
    lemma_resumed_in_step(s, events);
}

/// What a profile knows after some events of a row, it knows after all of them.
pub proof fn law_row_forgets_nothing(s: BuilderView, events: Seq<EventView>, i: int)
    requires
        0 <= i <= events.len(),
    ensures
        s.after_all(events.take(i)).baseline.tool_stats.dom().subset_of(
            s.after_all(events).baseline.tool_stats.dom(),
        ),
        s.after_all(events.take(i)).baseline.bigrams.dom().subset_of(
            s.after_all(events).baseline.bigrams.dom(),
        ),
        s.after_all(events.take(i)).baseline.volume_stats.dom().subset_of(
            s.after_all(events).baseline.volume_stats.dom(),
        ),
        s.after_all(events.take(i)).baseline.known_resources.subset_of(
            s.after_all(events).baseline.known_resources,
        ),
    decreases events.len(),
{
    if i == events.len() {
        assert(events.take(i) =~= events);
    } else {
        let short = events.drop_last();
        assert(short.take(i) =~= events.take(i));
        law_row_forgets_nothing(s, short, i);
        law_nothing_is_forgotten(s.after_all(short), events.last());
    }
}

/// The sum of the counts in a table.
pub open spec fn sum_of<K>(counts: Map<K, u64>) -> nat
    decreases counts.dom().len(),
    when counts.dom().finite()
{
    if counts.dom().len() == 0 {
        0
    } else {
        let key = counts.dom().choose();
        counts[key] as nat + sum_of(counts.remove(key))
    }
}

proof fn lemma_sum_remove<K>(counts: Map<K, u64>, key: K)
    requires
        counts.dom().finite(),
        counts.contains_key(key),
    ensures
        sum_of(counts) == counts[key] + sum_of(counts.remove(key)),
    decreases counts.dom().len(),
{
    let first = counts.dom().choose();
    if first != key {
        lemma_sum_remove(counts.remove(first), key);
        lemma_sum_remove(counts.remove(key), first);
        assert(counts.remove(first).remove(key) =~= counts.remove(key).remove(first));
    }
}

proof fn lemma_sum_insert<K>(counts: Map<K, u64>, key: K, count: u64)
    requires
        counts.dom().finite(),
    ensures
        sum_of(counts.insert(key, count)) == sum_of(counts) + count - (if counts.contains_key(key) {
            counts[key] as int
        } else {
            0int
        }),
{
    let more = counts.insert(key, count);
    lemma_sum_remove(more, key);
    if counts.contains_key(key) {
        lemma_sum_remove(counts, key);
        assert(more.remove(key) =~= counts.remove(key));
    } else {
        assert(more.remove(key) =~= counts);
    }
}

/// How often each tool was called.
pub open spec fn call_counts(b: BaselineView) -> Map<Seq<char>, u64> {
    b.tool_stats.map_values(|stats: ToolStatsView| stats.call_count)
}

/// The counts nest: there are no more rates than pairs of calls, no more pairs than
/// calls, and no more calls than events.
pub open spec fn counts_nest(b: BaselineView) -> bool {
    &&& b.tool_stats.dom().finite()
    &&& b.bigrams.dom().finite()
    &&& b.rate_stats.count <= sum_of(b.bigrams)
    &&& sum_of(b.bigrams) <= sum_of(call_counts(b))
    &&& sum_of(call_counts(b)) <= b.event_count
}

/// The time of a last call is known only where the call is.
pub open spec fn chain_holds(s: BuilderView) -> bool {
    s.last_time is Some ==> s.last_tool is Some
}

/// In a fresh profile the counts nest.
pub proof fn law_fresh_counts(agent_id: Seq<char>, now: Timestamp)
    ensures
        counts_nest(BaselineView::fresh(agent_id, now)),
        chain_holds(BuilderView::resumed(BaselineView::fresh(agent_id, now))),
{
    let b = BaselineView::fresh(agent_id, now);
    assert(call_counts(b).dom() =~= b.tool_stats.dom());
}

/// Ingesting an event keeps the counts nested.
pub proof fn law_counts_nest(s: BuilderView, e: EventView)
    requires
        s.has_room(e),
        chain_holds(s),
        counts_nest(s.baseline),
    ensures
        chain_holds(s.after(e)),
        counts_nest(s.after(e).baseline),
        counts_nest(s.after(e).finished()),
{
    let b = s.baseline;
    let a = s.after(e).baseline;
    if !is_duplicate(b, e) && e.event_type == EventType::ToolCall {
        let inside = s.in_session(e);
        assert(call_counts(a) =~= call_counts(b).insert(tool_of(e), b.tool_after(e).call_count));
        assert(call_counts(b).dom() =~= b.tool_stats.dom());
        lemma_sum_insert(call_counts(b), tool_of(e), b.tool_after(e).call_count);
        match inside.last_tool {
            Some(prev) => {
                let pair = (prev, tool_of(e));
                lemma_sum_insert(b.bigrams, pair, b.bigram_after(pair));
            },
            None => {},
        }
    }
}

} // verus!
