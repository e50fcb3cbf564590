//! What holds between learning a profile and being measured against it.

use vstd::prelude::*;

use crate::baseline::builder::{is_duplicate, tool_of, BuilderView};
use crate::baseline::laws::law_row_forgets_nothing;
use crate::baseline::{total, BaselineView};
use crate::detect::detectors::{
    called_tool, combined_signals, measured_volume, signature, trailing, unknown_tool, volume_spike,
    CombinedView, ErrorRetryView, LoopView, RateView, RetryView, SequenceView, Signal, SpikeView,
};
use crate::detect::ensemble::{ensemble_score, weighed, EnsembleReadingView};
use crate::detect::{AnomalyType, AnomalyView};
use crate::event::{EventType, EventView};
use crate::time::Timestamp;

verus! {

/// A call of a tool that a profile has learnt is not flagged as unknown. `known` are
/// the tools of the profile.
pub proof fn law_learnt_tool_is_not_flagged(
    s: BuilderView,
    e: EventView,
    f: EventView,
    event_count: u64,
    known: Seq<Seq<char>>,
)
    requires
        !is_duplicate(s.baseline, e),
        called_tool(e) is Some,
        called_tool(f) == called_tool(e),
        known.to_set() == s.after(e).baseline.tool_stats.dom(),
    ensures
        unknown_tool(f, event_count, known) == Seq::<AnomalyView>::empty(),
{
    assert(s.after(e).baseline.tool_stats.dom().contains(tool_of(e)));
    assert(known.to_set().contains(tool_of(e)));
}

/// Two calls that a profile has learnt one behind the other are not flagged as an
/// unknown sequence when they come again.
pub proof fn law_learnt_sequence_is_not_flagged(
    s: BuilderView,
    e: EventView,
    f: EventView,
    watch: SequenceView,
    event_count: u64,
)
    requires
        called_tool(e) is Some,
        called_tool(f) is Some,
        e.session_id == f.session_id,
        !is_duplicate(s.baseline, e),
        !is_duplicate(s.after(e).baseline, f),
    ensures
        watch.after(e).finds(
            f,
            event_count,
            s.after(e).after(f).baseline.bigrams.dom(),
        ) == Seq::<AnomalyView>::empty(),
{
    assert(s.after(e).after(f).baseline.bigrams.dom().contains((tool_of(e), tool_of(f))));
}

/// The first call of a session makes no sequence and no rate, whatever came before
/// in another.
pub proof fn law_first_call_of_session(
    sequence: SequenceView,
    rate: RateView,
    event: EventView,
    event_count: u64,
    known: Set<(Seq<char>, Seq<char>)>,
    reading: Option<SpikeView>,
)
    requires
        sequence.session != Some(event.session_id),
        rate.session != Some(event.session_id),
    ensures
        sequence.finds(event, event_count, known) == Seq::<AnomalyView>::empty(),
        rate.finds(event, event_count, reading) == Seq::<AnomalyView>::empty(),
{
}

/// The detectors of tool calls find nothing in other events and remember nothing of
/// them.
pub proof fn law_other_events_are_ignored(
    sequence: SequenceView,
    rate: RateView,
    calls: LoopView,
    event: EventView,
    event_count: u64,
    tools: Seq<Seq<char>>,
    pairs: Set<(Seq<char>, Seq<char>)>,
    volumes: Set<Seq<char>>,
    reading: Option<SpikeView>,
)
    requires
        event.event_type != EventType::ToolCall,
    ensures
        unknown_tool(event, event_count, tools) == Seq::<AnomalyView>::empty(),
        sequence.finds(event, event_count, pairs) == Seq::<AnomalyView>::empty(),
        sequence.after(event) == sequence,
        rate.finds(event, event_count, reading) == Seq::<AnomalyView>::empty(),
        rate.after(event) == rate,
        volume_spike(event, event_count, volumes, reading) == Seq::<AnomalyView>::empty(),
        calls.finds(event, event_count) == Seq::<AnomalyView>::empty(),
        calls.after(event) == calls,
{
}

/// A tool whose volumes the profile does not hold has no volume spike.
pub proof fn law_no_history_no_volume_spike(
    event: EventView,
    event_count: u64,
    volumes: Set<Seq<char>>,
    reading: Option<SpikeView>,
)
    requires
        match called_tool(event) {
            Some(tool) => !volumes.contains(tool),
            None => true,
        },
    ensures
        volume_spike(event, event_count, volumes, reading) == Seq::<AnomalyView>::empty(),
{
}

// ---------------------------------------------------------------------------
// Reasoning loops
// ---------------------------------------------------------------------------

/// Every window of a detector holds at most as many calls as the window size.
pub open spec fn windows_bounded(d: LoopView) -> bool {
    forall|session: Seq<char>| #[trigger]
        d.sessions.contains_key(session) ==> d.sessions[session].len() <= d.window_size
}

/// The windows stay within the window size, and sessions do not touch one another.
pub proof fn law_windows_stay_bounded(d: LoopView, event: EventView)
    requires
        windows_bounded(d),
    ensures
        windows_bounded(d.after(event)),
        forall|session: Seq<char>|
            session != event.session_id ==> #[trigger] d.after(event).history(session) == d.history(
                session,
            ),
{
}

/// The detector after the same call `n` times.
pub open spec fn repeated(d: LoopView, event: EventView, n: nat) -> LoopView
    decreases n,
{
    if n == 0 {
        d
    } else {
        repeated(d, event, (n - 1) as nat).after(event)
    }
}

proof fn lemma_trailing_skip<A>(calls: Seq<A>, call: A)
    requires
        calls.len() > 0,
    ensures
        trailing(calls.skip(1), call) == (if trailing(calls, call) == calls.len() {
            (trailing(calls, call) - 1) as nat
        } else {
            trailing(calls, call)
        }),
        trailing(calls, call) <= calls.len(),
    decreases calls.len(),
{
    if calls.len() == 1 {
        assert(calls.skip(1) =~= Seq::<A>::empty());
        assert(calls.drop_last() =~= Seq::<A>::empty());
    } else {
        lemma_trailing_skip(calls.drop_last(), call);
        assert(calls.skip(1).drop_last() =~= calls.drop_last().skip(1));
        assert(calls.skip(1).last() == calls.last());
    }
}

/// One more call of the same signature makes the run of identical calls longer by
/// one, until it fills the window.
pub proof fn law_identical_call_lengthens_run(
    d: LoopView,
    session: Seq<char>,
    call: (Seq<char>, Seq<Seq<char>>),
)
    requires
        d.history(session).len() <= d.window_size,
    ensures
        trailing(d.window(session, call), call) == (if trailing(d.history(session), call)
            < d.window_size {
            trailing(d.history(session), call) + 1
        } else {
            d.window_size as nat
        }),
{
    let history = d.history(session);
    let longer = history.push(call);
    assert(longer.drop_last() =~= history);
    lemma_trailing_skip(longer, call);
    assert(trailing(longer, call) == trailing(history, call) + 1);
    if history.len() > 0 {
        lemma_trailing_skip(history, call);
    }
}

/// A detector fires on the `n`th identical call in a row of a session it has not
/// seen, from the threshold on, as long as the window is large enough to hold them.
pub proof fn law_loop_fires_from_threshold(d: LoopView, event: EventView, n: nat, event_count: u64)
    requires
        called_tool(event) is Some,
        !d.sessions.contains_key(event.session_id),
        1 <= n <= d.window_size,
    ensures
        (repeated(d, event, (n - 1) as nat).finds(event, event_count).len() > 0) == (n
            >= d.loop_threshold),
{
    lemma_repeated(d, event, (n - 1) as nat);
    let before = repeated(d, event, (n - 1) as nat);
    let call = (called_tool(event)->0, event.param_keys);
    law_identical_call_lengthens_run(before, event.session_id, call);
}

proof fn lemma_repeated(d: LoopView, event: EventView, n: nat)
    requires
        called_tool(event) is Some,
        !d.sessions.contains_key(event.session_id),
        n <= d.window_size,
    ensures
        repeated(d, event, n).history(event.session_id).len() == n,
        trailing(
            repeated(d, event, n).history(event.session_id),
            (called_tool(event)->0, event.param_keys),
        ) == n,
        repeated(d, event, n).loop_threshold == d.loop_threshold,
        repeated(d, event, n).window_size == d.window_size,
    decreases n,
{
    if n > 0 {
        lemma_repeated(d, event, (n - 1) as nat);
        let before = repeated(d, event, (n - 1) as nat);
        let call = (called_tool(event)->0, event.param_keys);
        law_identical_call_lengthens_run(before, event.session_id, call);
    }
}

// ---------------------------------------------------------------------------
// Error-retry loops
// ---------------------------------------------------------------------------

/// A call of something else, or an event that is neither a call nor an error, brings
/// the count of failures to zero.
pub proof fn law_failures_reset(state: RetryView, event: EventView)
    requires
        event.event_type != EventType::Error,
        event.event_type == EventType::ToolCall ==> state.last_call != Some(signature(event)),
    ensures
        state.after(event).retries == 0,
{
}

/// A call that is made again after its error leaves the count of failures, and the
/// next error adds to it.
pub proof fn law_failures_add_up(state: RetryView, call: EventView, error: EventView)
    requires
        call.event_type == EventType::ToolCall,
        error.event_type == EventType::Error,
        state.last_call == Some(signature(call)),
        state.retries < u32::MAX,
    ensures
        state.after(call).after(error).retries == state.retries + 1,
        state.after(call).after(error).last_call == state.last_call,
{
}

/// An error behind an error of its session, with no other event of the session in
/// between, completes no cycle: it is not counted and not reported.
pub proof fn law_error_without_retry(
    d: ErrorRetryView,
    first: EventView,
    second: EventView,
    event_count: u64,
)
    requires
        first.event_type == EventType::Error,
        second.event_type == EventType::Error,
        first.session_id == second.session_id,
    ensures
        d.after(first).finds(second, event_count) == Seq::<AnomalyView>::empty(),
        d.after(first).state(second.session_id).after(second) == d.after(first).state(
            second.session_id,
        ),
        d.after(first).after(second) == d.after(first),
{
    let once = d.after(first);
    assert(once.after(second).sessions =~= once.sessions);
}

/// The detector after `n` cycles of the same call and an error.
pub open spec fn cycled(d: ErrorRetryView, call: EventView, error: EventView, n: nat) -> ErrorRetryView
    decreases n,
{
    if n == 0 {
        d
    } else {
        cycled(d, call, error, (n - 1) as nat).after(call).after(error)
    }
}

proof fn lemma_cycles(d: ErrorRetryView, call: EventView, error: EventView, n: nat)
    requires
        call.event_type == EventType::ToolCall,
        error.event_type == EventType::Error,
        call.session_id == error.session_id,
        !d.sessions.contains_key(call.session_id),
        n <= u32::MAX,
    ensures
        cycled(d, call, error, n).cycle_threshold == d.cycle_threshold,
        cycled(d, call, error, n).state(call.session_id).retries == n,
        n > 0 ==> cycled(d, call, error, n).state(call.session_id).last_call == Some(
            signature(call),
        ),
        n == 0 ==> cycled(d, call, error, n).state(call.session_id) == RetryView::fresh(),
    decreases n,
{
    if n > 0 {
        lemma_cycles(d, call, error, (n - 1) as nat);
    }
}

/// In a session that the detector has not seen, the error of the `n`th cycle of one call
/// is reported from the threshold on.
pub proof fn law_retry_fires_from_threshold(
    d: ErrorRetryView,
    call: EventView,
    error: EventView,
    n: nat,
    event_count: u64,
)
    requires
        call.event_type == EventType::ToolCall,
        error.event_type == EventType::Error,
        call.session_id == error.session_id,
        !d.sessions.contains_key(call.session_id),
        1 <= n <= u32::MAX,
    ensures
        (cycled(d, call, error, (n - 1) as nat).after(call).finds(error, event_count).len() > 0)
            == (n >= d.cycle_threshold),
{
    lemma_cycles(d, call, error, (n - 1) as nat);
}

/// Only an error is reported as an error-retry loop.
pub proof fn law_only_errors_are_reported(d: ErrorRetryView, event: EventView, event_count: u64)
    requires
        event.event_type != EventType::Error,
    ensures
        d.finds(event, event_count) == Seq::<AnomalyView>::empty(),
{
}

/// Sessions do not touch one another.
pub proof fn law_retries_are_per_session(
    d: ErrorRetryView,
    event: EventView,
    session: Seq<char>,
)
    requires
        session != event.session_id,
    ensures
        d.after(event).state(session) == d.state(session),
{
}

// ---------------------------------------------------------------------------
// Ensembles
// ---------------------------------------------------------------------------

/// An ensemble score takes at least two anomalies, and earlier ensemble scores are
/// not counted among them.
pub proof fn law_ensemble_needs_two(
    anomalies: Seq<AnomalyView>,
    event: EventView,
    reading: EnsembleReadingView,
)
    requires
        anomalies.len() < 2 || forall|i: int|
            0 <= i < anomalies.len() ==> (#[trigger] anomalies[i]).anomaly_type
                == AnomalyType::EnsembleScore,
    ensures
        ensemble_score(anomalies, event, reading) is None,
{
    lemma_weighed_len(anomalies);
}

proof fn lemma_weighed_len(anomalies: Seq<AnomalyView>)
    ensures
        weighed(anomalies).len() <= anomalies.len(),
        (forall|i: int|
            0 <= i < anomalies.len() ==> (#[trigger] anomalies[i]).anomaly_type
                == AnomalyType::EnsembleScore) ==> weighed(anomalies).len() == 0,
    decreases anomalies.len(),
{
    if anomalies.len() > 0 {
        let short = anomalies.drop_last();
        lemma_weighed_len(short);
        if forall|i: int|
            0 <= i < anomalies.len() ==> (#[trigger] anomalies[i]).anomaly_type
                == AnomalyType::EnsembleScore {
            assert forall|i: int| 0 <= i < short.len() implies (#[trigger] short[i]).anomaly_type
                == AnomalyType::EnsembleScore by {
                assert(anomalies[i] == short[i]);
            }
            assert(anomalies[anomalies.len() - 1].anomaly_type == AnomalyType::EnsembleScore);
        }
    }
}

// ---------------------------------------------------------------------------
// Combined scores
// ---------------------------------------------------------------------------

/// What a combined score remembers of one session is not touched by another.
pub proof fn law_combined_is_per_session(d: CombinedView, event: EventView, other: EventView)
    requires
        event.session_id != other.session_id,
    ensures
        d.after(event).previous(other) == d.previous(other),
{
}

proof fn lemma_no_hours(hours: Seq<u64>)
    requires
        forall|i: int| 0 <= i < hours.len() ==> #[trigger] hours[i] == 0,
    ensures
        total(hours) == 0,
    decreases hours.len(),
{
    if hours.len() > 0 {
        let short = hours.drop_last();
        assert forall|i: int| 0 <= i < short.len() implies #[trigger] short[i] == 0 by {
            assert(short[i] == hours[i]);
        }
        lemma_no_hours(short);
        assert(hours[hours.len() - 1] == 0);
    }
}

/// Against a profile that holds nothing no event has a signal.
pub proof fn law_empty_profile_has_no_signals(
    event: EventView,
    prev: Option<Seq<char>>,
    agent_id: Seq<char>,
    now: Timestamp,
)
    ensures
        combined_signals(
            event,
            prev,
            Seq::empty(),
            BaselineView::fresh(agent_id, now),
        ) == Seq::<Signal>::empty(),
{
    lemma_no_hours(BaselineView::fresh(agent_id, now).hourly_distribution);
}

/// The volume of a call of a learnt tool is measured.
pub proof fn law_learnt_tool_is_measured(s: BuilderView, e: EventView, f: EventView)
    requires
        !is_duplicate(s.baseline, e),
        called_tool(e) is Some,
        called_tool(f) == called_tool(e),
    ensures
        measured_volume(f, s.after(e).baseline.volume_stats.dom()) == Some(f.volume() as u64),
{
    assert(s.after(e).baseline.volume_stats.dom().contains(tool_of(e)));
}

// ---------------------------------------------------------------------------
// Streams that were learnt
// ---------------------------------------------------------------------------

/// Every event of the row is taken in by the builder.
pub open spec fn all_taken_in(s: BuilderView, events: Seq<EventView>) -> bool {
    forall|i: int|
        0 <= i < events.len() ==> !is_duplicate(
            s.after_all(#[trigger] events.take(i)).baseline,
            events[i],
        )
}

/// A call of a tool that was called anywhere in a stream that a profile has learnt is not
/// flagged as unknown. `known` are the tools of the profile.
pub proof fn law_learnt_stream_has_no_unknown_tool(
    s: BuilderView,
    events: Seq<EventView>,
    i: int,
    f: EventView,
    event_count: u64,
    known: Seq<Seq<char>>,
)
    requires
        0 <= i < events.len(),
        !is_duplicate(s.after_all(events.take(i)).baseline, events[i]),
        called_tool(events[i]) is Some,
        called_tool(f) == called_tool(events[i]),
        known.to_set() == s.after_all(events).baseline.tool_stats.dom(),
    ensures
        unknown_tool(f, event_count, known) == Seq::<AnomalyView>::empty(),
{
    let through = events.take(i + 1);
    assert(through.drop_last() =~= events.take(i));
    assert(through.last() == events[i]);
    assert(s.after_all(through) == s.after_all(events.take(i)).after(events[i]));
    assert(s.after_all(through).baseline.tool_stats.dom().contains(tool_of(events[i])));
    law_row_forgets_nothing(s, events, i + 1);
    assert(known.to_set().contains(tool_of(events[i])));
}

/// What `UnknownSequenceDetector` remembers after a row of events.
pub open spec fn watched(watch: SequenceView, events: Seq<EventView>) -> SequenceView
    decreases events.len(),
{
    if events.len() == 0 {
        watch
    } else {
        watched(watch, events.drop_last()).after(events.last())
    }
}

/// The event at position `i` is the last call before position `k`.
pub open spec fn last_call_before(events: Seq<EventView>, i: int, k: int) -> bool {
    &&& 0 <= i < k
    &&& called_tool(events[i]) is Some
    &&& forall|m: int| i < m < k ==> called_tool(#[trigger] events[m]) is None
}

/// Where two calls of one session follow each other, no event of another session comes
/// between them, and every call names its tool.
pub open spec fn calls_undisturbed(events: Seq<EventView>) -> bool {
    &&& forall|i: int|
        0 <= i < events.len() && (#[trigger] events[i]).event_type == EventType::ToolCall
            ==> events[i].tool_name is Some
    &&& forall|i: int, j: int, k: int|
        #![trigger events[i], events[j], events[k]]
        i < j < k < events.len() && last_call_before(events, i, k) && called_tool(events[k]) is Some
            && events[i].session_id == events[k].session_id ==> events[j].session_id
            == events[k].session_id
}

/// A detector that started without memory remembers the last call.
proof fn lemma_watched(events: Seq<EventView>, k: int)
    requires
        0 <= k <= events.len(),
    ensures
        ({
            let w = watched(SequenceView { last_tool: None, session: None }, events.take(k));
            ||| w == (SequenceView { last_tool: None, session: None })
            ||| exists|i: int| #[trigger]
                last_call_before(events, i, k) && w.last_tool == called_tool(events[i])
                    && w.session == Some(events[i].session_id)
        }),
    decreases k,
{
    let start = SequenceView { last_tool: None, session: None };
    if k == 0 {
        assert(events.take(0) =~= Seq::<EventView>::empty());
    } else {
        lemma_watched(events, k - 1);
        let through = events.take(k);
        assert(through.drop_last() =~= events.take(k - 1));
        assert(through.last() == events[k - 1]);
        if called_tool(events[k - 1]) is Some {
            assert(last_call_before(events, k - 1, k));
        } else {
            let w = watched(start, events.take(k - 1));
            if w != start {
                let i = choose|i: int| #[trigger]
                    last_call_before(events, i, k - 1) && w.last_tool == called_tool(events[i])
                        && w.session == Some(events[i].session_id);
                assert(last_call_before(events, i, k));
            }
        }
    }
}

/// A builder that stays in the session of a call remembers the call until the next one.
proof fn lemma_builder_remembers(s: BuilderView, events: Seq<EventView>, i: int, k: int)
    requires
        last_call_before(events, i, k),
        k <= events.len(),
        all_taken_in(s, events),
        forall|m: int|
            i < m < k ==> (#[trigger] events[m]).session_id == events[i].session_id
                && events[m].event_type != EventType::ToolCall,
    ensures
        s.after_all(events.take(k)).session == Some(events[i].session_id),
        s.after_all(events.take(k)).last_tool == called_tool(events[i]),
    decreases k - i,
{
    let through = events.take(k);
    assert(through.drop_last() =~= events.take(k - 1));
    assert(through.last() == events[k - 1]);
    assert(!is_duplicate(s.after_all(events.take(k - 1)).baseline, events[k - 1]));
    assert(s.after_all(through) == s.after_all(events.take(k - 1)).after(events[k - 1]));
    if i < k - 1 {
        lemma_builder_remembers(s, events, i, k - 1);
        assert(events[k - 1].session_id == events[i].session_id);
    }
}

/// A stream that a profile has learnt shows no unknown sequence when it comes again.
pub proof fn law_learnt_stream_has_no_unknown_sequence(
    s: BuilderView,
    events: Seq<EventView>,
    k: int,
    event_count: u64,
)
    requires
        0 <= k < events.len(),
        all_taken_in(s, events),
        calls_undisturbed(events),
    ensures
        watched(SequenceView { last_tool: None, session: None }, events.take(k)).finds(
            events[k],
            event_count,
            s.after_all(events).baseline.bigrams.dom(),
        ) == Seq::<AnomalyView>::empty(),
{
    let start = SequenceView { last_tool: None, session: None };
    let w = watched(start, events.take(k));
    lemma_watched(events, k);
    if called_tool(events[k]) is Some && w.session == Some(events[k].session_id) {
        let i = choose|i: int| #[trigger]
            last_call_before(events, i, k) && w.last_tool == called_tool(events[i]) && w.session
                == Some(events[i].session_id);
        assert forall|m: int| i < m < k implies (#[trigger] events[m]).session_id
            == events[i].session_id && events[m].event_type != EventType::ToolCall by {
            assert(events[i].session_id == events[k].session_id);
            assert(called_tool(events[m]) is None);
        }
        lemma_builder_remembers(s, events, i, k);
        let through = events.take(k + 1);
        assert(through.drop_last() =~= events.take(k));
        assert(through.last() == events[k]);
        assert(!is_duplicate(s.after_all(events.take(k)).baseline, events[k]));
        assert(s.after_all(through) == s.after_all(events.take(k)).after(events[k]));
        let pair = (tool_of(events[i]), tool_of(events[k]));
        assert(s.after_all(through).baseline.bigrams.dom().contains(pair));
        law_row_forgets_nothing(s, events, k + 1);
        assert(s.after_all(events).baseline.bigrams.dom().contains(pair));
    }
}

} // verus!
