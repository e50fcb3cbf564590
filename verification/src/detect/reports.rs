//! What the detectors report, and when.

use vstd::prelude::*;

use crate::baseline::learning::{gap_nanos, ordinary};
use crate::baseline::{bigram_text, total, BaselineView};
use crate::detect::detectors::{
    combined_anomaly, combined_signals, level_severity, measured_volume, pair_total, sums_fit,
    trailing, unknown_tool, volume_spike, CombinedReadingView, CombinedView, ErrorRetryView, Level,
    LoopView, RateView, RetryView, SequenceView, Signal, SpikeView,
};
use crate::detect::ensemble::{
    ensemble_score, kind_weight, severity_score, weighed, EnsembleReadingView, Strength,
};
use crate::detect::panel::PanelView;
use crate::detect::{AnomalyType, AnomalyView, Severity};
use crate::event::{EventType, EventView};
use crate::number::hundredths;
use crate::order::picked;
use crate::text::{decimal, joined};
use crate::time::millis_from;

verus! {

/// The event is a call of `tool`.
pub open spec fn is_call_of(event: EventView, tool: Seq<char>) -> bool {
    event.event_type == EventType::ToolCall && event.tool_name == Some(tool)
}

/// The event is no call, or a call that names no tool.
pub open spec fn names_no_call(event: EventView) -> bool {
    event.event_type != EventType::ToolCall || event.tool_name is None
}

/// An anomaly carries its event and the time of it, its kind, how grave it is, and how far
/// the profile is to be trusted.
pub open spec fn reports(
    anomaly: AnomalyView,
    event: EventView,
    event_count: u64,
    kind: AnomalyType,
    severity: Severity,
) -> bool {
    &&& anomaly.timestamp == event.timestamp
    &&& anomaly.evidence.event == event
    &&& anomaly.anomaly_type == kind
    &&& anomaly.severity == severity
    &&& anomaly.evidence.confidence == hundredths(event_count as nat)
}

/// A call of a tool that the profile does not know is reported, once and as grave; a call
/// of a known tool is not, nor is anything else.
pub proof fn law_unknown_tool_is_reported(
    event: EventView,
    event_count: u64,
    known: Seq<Seq<char>>,
    tool: Seq<char>,
)
    ensures
        ({
            let found = unknown_tool(event, event_count, known);
            &&& is_call_of(event, tool) && !known.contains(tool) ==> {
                &&& found.len() == 1
                &&& reports(found[0], event, event_count, AnomalyType::UnknownTool, Severity::High)
                &&& found[0].evidence.observed_value == tool
                &&& found[0].description == "unknown tool: "@ + tool
                &&& found[0].evidence.baseline_value == "known tools: ["@ + joined(known, ", "@)
                    + "]"@
                &&& found[0].evidence.z_score is None
            }
            &&& is_call_of(event, tool) && known.contains(tool) ==> found.len() == 0
            &&& names_no_call(event) ==> found.len() == 0
        }),
{
}

/// A call is reported as an unseen sequence exactly where it follows a call of its own
/// session and the two make no pair that the profile knows. Only calls are remembered, and
/// only the last one.
pub proof fn law_unknown_sequence_is_reported(
    d: SequenceView,
    event: EventView,
    event_count: u64,
    known: Set<(Seq<char>, Seq<char>)>,
    tool: Seq<char>,
)
    ensures
        ({
            let found = d.finds(event, event_count, known);
            let follows = d.session == Some(event.session_id) && d.last_tool is Some;
            let pair = (d.last_tool->0, tool);
            &&& is_call_of(event, tool) && follows && !known.contains(pair) ==> {
                &&& found.len() == 1
                &&& reports(
                    found[0],
                    event,
                    event_count,
                    AnomalyType::UnknownSequence,
                    Severity::Medium,
                )
                &&& found[0].evidence.observed_value == bigram_text(pair)
                &&& found[0].description == "unseen sequence: "@ + bigram_text(pair)
                &&& found[0].evidence.baseline_value == decimal(known.len()) + " known bigrams"@
                &&& found[0].evidence.z_score is None
            }
            &&& is_call_of(event, tool) && (!follows || known.contains(pair)) ==> found.len() == 0
            &&& names_no_call(event) ==> found.len() == 0 && d.after(event) == d
            &&& is_call_of(event, tool) ==> d.after(event).last_tool == Some(tool) && d.after(
                event,
            ).session == Some(event.session_id)
        }),
{
}

/// The graver level is the one beyond the margin.
pub proof fn law_levels(level: Level)
    ensures
        level_severity(Level::FarAbove) == Severity::High,
        level_severity(Level::Above) == Severity::Medium,
{
}

/// The time that makes a rate is the whole milliseconds since the last call of the session,
/// where there was one and a millisecond has passed. Every call is the one that the next is
/// measured from.
pub proof fn law_rate_is_measured(d: RateView, event: EventView)
    requires
        ordinary(event.timestamp),
        d.last_time is Some ==> ordinary(d.last_time->0),
        d.last_time is Some ==> gap_nanos(d.last_time->0, event.timestamp) / 1_000_000 <= u64::MAX,
    ensures
        ({
            let gap = gap_nanos(d.last_time->0, event.timestamp);
            let measured = event.event_type == EventType::ToolCall && d.session == Some(
                event.session_id,
            ) && d.last_time is Some && gap >= 1_000_000;
            &&& measured ==> d.interval_to(event) == Some((gap / 1_000_000) as u64)
            &&& !measured ==> d.interval_to(event) is None
        }),
        d.after(event).threshold == d.threshold,
        event.event_type == EventType::ToolCall ==> d.after(event).last_time == Some(
            event.timestamp,
        ) && d.after(event).session == Some(event.session_id),
        event.event_type != EventType::ToolCall ==> d.after(event) == d,
{
}

/// The same with leap seconds, as the clock reckons them.
pub proof fn law_rate_by_the_clock(d: RateView, event: EventView)
    ensures
        ({
            let ms = millis_from(d.last_time->0, event.timestamp);
            let measured = event.event_type == EventType::ToolCall && d.session == Some(
                event.session_id,
            ) && d.last_time is Some && ms > 0;
            &&& measured ==> d.interval_to(event) == Some(ms as u64)
            &&& !measured ==> d.interval_to(event) is None
        }),
{
}

/// A measured rate is reported exactly where its reading stands above the threshold, and
/// the report shows that reading.
pub proof fn law_rate_spike_is_reported(
    d: RateView,
    event: EventView,
    event_count: u64,
    reading: Option<SpikeView>,
)
    ensures
        ({
            let found = d.finds(event, event_count, reading);
            let spike = reading->0;
            let above = reading is Some && spike.level != Level::Within;
            &&& d.interval_to(event) is Some && above ==> {
                &&& found.len() == 1
                &&& reports(
                    found[0],
                    event,
                    event_count,
                    AnomalyType::RateSpike,
                    if spike.level == Level::FarAbove {
                        Severity::High
                    } else {
                        Severity::Medium
                    },
                )
                &&& found[0].description == "rate spike: "@ + spike.value + " calls/min (z="@
                    + spike.z + ")"@
                &&& found[0].evidence.baseline_value == spike.mean + " calls/min (mean)"@
                &&& found[0].evidence.observed_value == spike.value + " calls/min"@
                &&& found[0].evidence.z_score == Some(spike.z_score)
            }
            &&& d.interval_to(event) is None || !above ==> found.len() == 0
        }),
{
}

/// What is measured of a call is all the bytes that it moved, in and out, where the profile
/// holds volumes of its tool.
pub proof fn law_volume_is_measured(event: EventView, known: Set<Seq<char>>, tool: Seq<char>)
    requires
        event.data_in_bytes + event.data_out_bytes <= u64::MAX,
    ensures
        is_call_of(event, tool) && known.contains(tool) ==> measured_volume(event, known) == Some(
            (event.data_in_bytes + event.data_out_bytes) as u64,
        ),
        is_call_of(event, tool) && !known.contains(tool) ==> measured_volume(event, known) is None,
        names_no_call(event) ==> measured_volume(event, known) is None,
{
}

/// The volume of a call of a tool with a history is reported exactly where its reading
/// stands above the threshold, and the report shows that reading.
pub proof fn law_volume_spike_is_reported(
    event: EventView,
    event_count: u64,
    known: Set<Seq<char>>,
    reading: Option<SpikeView>,
    tool: Seq<char>,
)
    ensures
        ({
            let found = volume_spike(event, event_count, known, reading);
            let spike = reading->0;
            let above = reading is Some && spike.level != Level::Within;
            &&& is_call_of(event, tool) && known.contains(tool) && above ==> {
                &&& found.len() == 1
                &&& reports(
                    found[0],
                    event,
                    event_count,
                    AnomalyType::VolumeSpike,
                    if spike.level == Level::FarAbove {
                        Severity::High
                    } else {
                        Severity::Medium
                    },
                )
                &&& found[0].description == "volume spike on "@ + tool + ": "@ + spike.value
                    + " bytes (z="@ + spike.z + ")"@
                &&& found[0].evidence.baseline_value == spike.mean + " bytes (mean)"@
                &&& found[0].evidence.observed_value == spike.value + " bytes"@
                &&& found[0].evidence.z_score == Some(spike.z_score)
            }
            &&& is_call_of(event, tool) && (!known.contains(tool) || !above) ==> found.len() == 0
            &&& names_no_call(event) ==> found.len() == 0
        }),
{
}

// ---------------------------------------------------------------------------
// Reasoning loops
// ---------------------------------------------------------------------------

/// The run of identical calls at the end of a row is as long as it can be: every call in it
/// is the one that is asked for, and the call before it is another.
pub proof fn law_trailing_run<A>(row: Seq<A>, call: A)
    ensures
        trailing(row, call) <= row.len(),
        forall|i: int|
            row.len() - trailing(row, call) <= i < row.len() ==> #[trigger] row[i] == call,
        trailing(row, call) < row.len() ==> row[row.len() - trailing(row, call) - 1] != call,
    decreases row.len(),
{
    if row.len() > 0 && row.last() == call {
        let short = row.drop_last();
        law_trailing_run(short, call);
        assert forall|i: int|
            row.len() - trailing(row, call) <= i < row.len() implies #[trigger] row[i] == call by {
            if i < row.len() - 1 {
                assert(short[i] == row[i]);
            }
        }
        if trailing(row, call) < row.len() {
            assert(short[short.len() - trailing(short, call) - 1] == row[row.len() - trailing(
                row,
                call,
            ) - 1]);
        }
    }
}

/// A call joins the window of its session at the end; the window holds the last calls, as
/// many as its size allows, in their order. No other session is touched, and nothing but a
/// call that names its tool is remembered.
pub proof fn law_window_slides(d: LoopView, event: EventView, tool: Seq<char>)
    requires
        d.history(event.session_id).len() <= d.window_size,
    ensures
        ({
            let before = d.history(event.session_id);
            let after = d.after(event).history(event.session_id);
            &&& is_call_of(event, tool) && before.len() < d.window_size ==> after == before.push(
                (tool, event.param_keys),
            )
            &&& is_call_of(event, tool) && before.len() == d.window_size ==> after == before.push(
                (tool, event.param_keys),
            ).skip(1)
            &&& forall|other: Seq<char>|
                other != event.session_id ==> #[trigger] d.after(event).history(other) == d.history(
                    other,
                )
            &&& names_no_call(event) ==> d.after(event) == d
            &&& d.after(event).loop_threshold == d.loop_threshold
            &&& d.after(event).window_size == d.window_size
        }),
        d.history(event.session_id).len() == 0 <== !d.sessions.contains_key(event.session_id),
{
}

/// A call is reported as a loop exactly where the run of identical calls that it ends is as
/// long as the threshold; from five on the report is grave. It tells the length of the run.
pub proof fn law_loop_is_reported(
    d: LoopView,
    event: EventView,
    event_count: u64,
    tool: Seq<char>,
)
    ensures
        ({
            let found = d.finds(event, event_count);
            let run = trailing(
                d.after(event).history(event.session_id),
                (tool, event.param_keys),
            );
            &&& is_call_of(event, tool) && run >= d.loop_threshold ==> {
                &&& found.len() == 1
                &&& reports(
                    found[0],
                    event,
                    event_count,
                    AnomalyType::ReasoningLoop,
                    if run >= 5 {
                        Severity::High
                    } else {
                        Severity::Medium
                    },
                )
                &&& found[0].description == "reasoning loop: "@ + tool + " called "@ + decimal(run)
                    + " times consecutively"@
                &&& found[0].evidence.baseline_value == "no repeated calls expected"@
                &&& found[0].evidence.observed_value == decimal(run)
                    + " consecutive identical calls"@
                &&& found[0].evidence.z_score is None
            }
            &&& is_call_of(event, tool) && run < d.loop_threshold ==> found.len() == 0
            &&& names_no_call(event) ==> found.len() == 0
        }),
{
}

// ---------------------------------------------------------------------------
// Error-retry loops
// ---------------------------------------------------------------------------

/// The tool and the parameter names of a call; without a name the tool is the empty text.
pub open spec fn is_signature(event: EventView, call: (Seq<char>, Seq<Seq<char>>)) -> bool {
    &&& call.1 == event.param_keys
    &&& match event.tool_name {
        Some(name) => call.0 == name,
        None => call.0.len() == 0,
    }
}

/// What a session remembers of its failures, by the kind of the event: a call is remembered,
/// keeps the count where it is the same call as before and else starts anew; an error adds
/// one where it ends a cycle, and only then; anything else starts anew and keeps the call.
pub proof fn law_failures_are_counted(
    state: RetryView,
    event: EventView,
    call: (Seq<char>, Seq<Seq<char>>),
)
    requires
        is_signature(event, call),
    ensures
        ({
            let next = state.after(event);
            &&& event.event_type == EventType::ToolCall ==> {
                &&& next.last_call == Some(call)
                &&& !next.awaiting
                &&& next.retries == (if state.last_call == Some(call) {
                    state.retries
                } else {
                    0
                })
            }
            &&& event.event_type == EventType::Error ==> {
                &&& next.last_call == state.last_call
                &&& state.last_call is Some && !state.awaiting ==> next.awaiting
                &&& state.last_call is Some && !state.awaiting && state.retries < u32::MAX
                    ==> next.retries == state.retries + 1
                &&& state.last_call is None || state.awaiting ==> next == state
            }
            &&& event.event_type != EventType::ToolCall && event.event_type != EventType::Error ==> {
                &&& next.last_call == state.last_call
                &&& next.retries == 0
                &&& !next.awaiting
            }
        }),
{
    if event.tool_name is None {
        assert(call.0 =~= Seq::<char>::empty());
    }
}

/// An error is reported exactly where it ends a cycle and the cycles are as many as the
/// threshold. The report names the tool of the last call and tells how often it failed.
pub proof fn law_retry_is_reported(d: ErrorRetryView, event: EventView, event_count: u64)
    ensures
        ({
            let found = d.finds(event, event_count);
            let before = d.state(event.session_id);
            let now = d.after(event).state(event.session_id);
            let ends = event.event_type == EventType::Error && before.last_call is Some
                && !before.awaiting;
            &&& ends && now.retries >= d.cycle_threshold ==> {
                &&& found.len() == 1
                &&& reports(
                    found[0],
                    event,
                    event_count,
                    AnomalyType::ErrorRetryLoop,
                    Severity::Medium,
                )
                &&& found[0].description == "error-retry loop: "@ + (before.last_call->0).0
                    + " failed "@ + decimal(now.retries as nat) + " times consecutively"@
                &&& found[0].evidence.baseline_value == "successful tool execution expected"@
                &&& found[0].evidence.observed_value == decimal(now.retries as nat)
                    + " consecutive failures"@
                &&& found[0].evidence.z_score is None
            }
            &&& !ends || now.retries < d.cycle_threshold ==> found.len() == 0
            &&& now == before.after(event)
            &&& d.after(event).cycle_threshold == d.cycle_threshold
            &&& !d.sessions.contains_key(event.session_id) ==> before.last_call is None
                && before.retries == 0 && !before.awaiting
            &&& d.sessions.contains_key(event.session_id) ==> before
                == d.sessions[event.session_id]
        }),
        d.state(event.session_id).retries < u32::MAX ==> d.has_room(event),
{
}

// ---------------------------------------------------------------------------
// Combined scores
// ---------------------------------------------------------------------------

/// A count is at least as large as each of its parts.
proof fn lemma_part_of_total(counts: Seq<u64>, i: int)
    requires
        0 <= i < counts.len(),
    ensures
        counts[i] <= total(counts),
    decreases counts.len(),
{
    if i < counts.len() - 1 {
        lemma_part_of_total(counts.drop_last(), i);
    }
}

/// The hour of an event.
pub open spec fn hour_at(event: EventView) -> int {
    (event.timestamp.unix_seconds() % 86_400) / 3_600
}

/// Where the profile has counted any event at all, the hour of a call is its last signal:
/// an hour that was seen by its counter out of the sum of all counters, an hour that was
/// never seen by one out of that sum and a day's hours more.
pub proof fn law_hour_is_a_share_of_all(
    event: EventView,
    tool: Seq<char>,
    prev: Option<Seq<char>>,
    keys: Seq<(Seq<char>, Seq<char>)>,
    baseline: BaselineView,
)
    requires
        is_call_of(event, tool),
        baseline.hourly_distribution.len() == 24,
        total(baseline.hourly_distribution) <= u64::MAX,
    ensures
        ({
            let signals = combined_signals(event, prev, keys, baseline);
            let hours = baseline.hourly_distribution;
            let all = total(hours);
            &&& hours[hour_at(event)] > 0 ==> {
                &&& signals.len() > 0
                &&& signals.last() == (Signal::Surprise {
                    seen: hours[hour_at(event)],
                    of: all as u64,
                })
            }
            &&& hours[hour_at(event)] == 0 && 0 < all <= u64::MAX - 24 ==> {
                &&& signals.len() > 0
                &&& signals.last() == (Signal::Surprise { seen: 1, of: (all + 24) as u64 })
            }
        }),
{
    let hours = baseline.hourly_distribution;
    lemma_part_of_total(hours, hour_at(event));
}

/// Of two calls in hours that were seen, the one in the hour with fewer events has the
/// strictly smaller share, against one and the same whole.
pub proof fn law_rarer_hour_is_more_surprising(
    rare: EventView,
    common: EventView,
    tool: Seq<char>,
    prev: Option<Seq<char>>,
    keys: Seq<(Seq<char>, Seq<char>)>,
    baseline: BaselineView,
)
    requires
        is_call_of(rare, tool),
        is_call_of(common, tool),
        baseline.hourly_distribution.len() == 24,
        total(baseline.hourly_distribution) <= u64::MAX,
        0 < baseline.hourly_distribution[hour_at(rare)]
            < baseline.hourly_distribution[hour_at(common)],
    ensures
        ({
            let a = combined_signals(rare, prev, keys, baseline).last();
            let b = combined_signals(common, prev, keys, baseline).last();
            &&& a is Surprise
            &&& b is Surprise
            &&& a->of == b->of
            &&& a->seen < b->seen
            &&& b->seen <= b->of
            &&& a->seen < a->of
        }),
{
    law_hour_is_a_share_of_all(rare, tool, prev, keys, baseline);
    law_hour_is_a_share_of_all(common, tool, prev, keys, baseline);
    lemma_part_of_total(baseline.hourly_distribution, hour_at(common));
    lemma_part_of_total(baseline.hourly_distribution, hour_at(rare));
}

/// The sum over a row of pairs is the sum of their counts.
pub proof fn law_pair_total_is_a_total(
    keys: Seq<(Seq<char>, Seq<char>)>,
    counts: Map<(Seq<char>, Seq<char>), u64>,
)
    ensures
        pair_total(keys, counts) == total(
            keys.map_values(|pair: (Seq<char>, Seq<char>)| counts[pair]),
        ),
    decreases keys.len(),
{
    let count = |pair: (Seq<char>, Seq<char>)| counts[pair];
    if keys.len() > 0 {
        law_pair_total_is_a_total(keys.drop_last(), counts);
        assert(keys.map_values(count).drop_last() =~= keys.drop_last().map_values(count));
        assert(keys.map_values(count).last() == counts[keys.last()]);
    }
}

/// Behind a call of its session, and where the profile has counted any pair at all, the
/// pair that a call makes is its first signal: a pair that was seen by its count out of the
/// sum of all counts, one that was never seen by one out of that sum, the number of pairs
/// and one. Without a call before it there is no such signal.
pub proof fn law_pair_is_a_share_of_all(
    event: EventView,
    tool: Seq<char>,
    first: Seq<char>,
    keys: Seq<(Seq<char>, Seq<char>)>,
    baseline: BaselineView,
)
    requires
        is_call_of(event, tool),
        pair_total(keys, baseline.bigrams) <= u64::MAX,
    ensures
        ({
            let signals = combined_signals(event, Some(first), keys, baseline);
            let without = combined_signals(event, None, keys, baseline);
            let counts = baseline.bigrams;
            let all = pair_total(keys, counts);
            let pair = (first, tool);
            &&& all > 0 && counts.contains_key(pair) && counts[pair] > 0 ==> {
                &&& signals.len() == without.len() + 1
                &&& signals.skip(1) == without
                &&& signals[0] == (Signal::Surprise { seen: counts[pair], of: all as u64 })
            }
            &&& all > 0 && all + keys.len() + 1 <= u64::MAX && (!counts.contains_key(pair)
                || counts[pair] == 0) ==> {
                &&& signals.len() == without.len() + 1
                &&& signals.skip(1) == without
                &&& signals[0] == (Signal::Surprise { seen: 1, of: (all + keys.len() + 1) as u64 })
            }
            &&& all == 0 ==> signals == without
        }),
{
    let signals = combined_signals(event, Some(first), keys, baseline);
    let without = combined_signals(event, None, keys, baseline);
    if pair_total(keys, baseline.bigrams) > 0 {
        assert(signals.skip(1) =~= without);
    } else {
        assert(signals =~= without);
    }
}

/// Where the profile holds volumes of the tool, all the bytes that a call moved are one of
/// its signals; where it does not, no signal is a volume. There is no signal of any other
/// kind, and none twice: at most a pair, a volume and an hour.
pub proof fn law_volume_is_a_signal(
    event: EventView,
    tool: Seq<char>,
    prev: Option<Seq<char>>,
    keys: Seq<(Seq<char>, Seq<char>)>,
    baseline: BaselineView,
)
    requires
        is_call_of(event, tool),
        event.data_in_bytes + event.data_out_bytes <= u64::MAX,
    ensures
        ({
            let signals = combined_signals(event, prev, keys, baseline);
            let all_pairs = pair_total(keys, baseline.bigrams);
            let pair = if prev is Some && all_pairs > 0 {
                1int
            } else {
                0int
            };
            let hour = if total(baseline.hourly_distribution) > 0 {
                1int
            } else {
                0int
            };
            let bytes = (event.data_in_bytes + event.data_out_bytes) as u64;
            &&& baseline.volume_stats.contains_key(tool) ==> {
                &&& signals.len() == pair + 1 + hour
                &&& signals[pair] == (Signal::Volume { bytes })
            }
            &&& !baseline.volume_stats.contains_key(tool) ==> {
                &&& signals.len() == pair + hour
                &&& forall|i: int| 0 <= i < signals.len() ==> #[trigger] signals[i] is Surprise
            }
        }),
{
}

/// An event that calls no tool by name has no signals and is not remembered; a call is
/// remembered as the last of its session, and no other session is touched.
pub proof fn law_combined_remembers_calls(
    d: CombinedView,
    event: EventView,
    tool: Seq<char>,
    prev: Option<Seq<char>>,
    keys: Seq<(Seq<char>, Seq<char>)>,
    baseline: BaselineView,
)
    ensures
        names_no_call(event) ==> combined_signals(event, prev, keys, baseline).len() == 0
            && d.after(event) == d,
        is_call_of(event, tool) ==> d.after(event).sessions == d.sessions.insert(
            event.session_id,
            tool,
        ),
        d.after(event).threshold == d.threshold,
        d.previous(event) == (if d.sessions.contains_key(event.session_id) {
            Some(d.sessions[event.session_id])
        } else {
            None
        }),
{
}

/// The sums that a score needs can be held where the counts stay well below the limit.
pub proof fn law_sums_fit_below_limits(
    event: EventView,
    prev: Option<Seq<char>>,
    keys: Seq<(Seq<char>, Seq<char>)>,
    baseline: BaselineView,
)
    requires
        event.data_in_bytes + event.data_out_bytes <= u64::MAX,
        pair_total(keys, baseline.bigrams) + keys.len() + 1 <= u64::MAX,
        total(baseline.hourly_distribution) + 24 <= u64::MAX,
    ensures
        sums_fit(event, prev, keys, baseline),
{
}

/// A combined score is reported exactly where the event has signals and its reading stands
/// above the threshold, and the report shows that reading.
pub proof fn law_combined_score_is_reported(
    event: EventView,
    event_count: u64,
    signals: Seq<Signal>,
    reading: Option<CombinedReadingView>,
    tool: Seq<char>,
)
    ensures
        ({
            let found = combined_anomaly(event, event_count, signals, reading);
            let r = reading->0;
            let above = reading is Some && r.level != Level::Within && signals.len() > 0;
            &&& is_call_of(event, tool) && above ==> {
                &&& found.len() == 1
                &&& reports(
                    found[0],
                    event,
                    event_count,
                    AnomalyType::CombinedAnomaly,
                    if r.level == Level::FarAbove {
                        Severity::High
                    } else {
                        Severity::Medium
                    },
                )
                &&& found[0].description == "combined anomaly score "@ + r.score + " (threshold "@
                    + r.threshold + ")"@
                &&& found[0].evidence.baseline_value == "threshold: "@ + r.threshold
                &&& found[0].evidence.observed_value == "combined="@ + r.score + " from "@
                    + decimal(r.used as nat) + " signals"@
                &&& found[0].evidence.z_score == Some(r.z_score)
            }
            &&& names_no_call(event) || !above ==> found.len() == 0
        }),
{
}

// ---------------------------------------------------------------------------
// Ensembles
// ---------------------------------------------------------------------------

/// The anomaly is no earlier ensemble score.
pub open spec fn independent() -> spec_fn(AnomalyView) -> bool {
    |anomaly: AnomalyView| anomaly.anomaly_type != AnomalyType::EnsembleScore
}

/// Every anomaly but an earlier ensemble score is weighed, and nothing else is: there are as
/// many scores as there are such anomalies, and the score at each place is the gravity and
/// the weight of the anomaly at that place among them.
pub proof fn law_every_anomaly_is_weighed(anomalies: Seq<AnomalyView>)
    ensures
        weighed(anomalies).len() == picked(anomalies, independent()).len(),
        forall|k: int|
            0 <= k < weighed(anomalies).len() ==> (#[trigger] weighed(anomalies)[k]).hundredths
                == severity_score(picked(anomalies, independent())[k].severity) && weighed(
                anomalies,
            )[k].tenths == kind_weight(picked(anomalies, independent())[k].anomaly_type),
    decreases anomalies.len(),
{
    if anomalies.len() > 0 {
        law_every_anomaly_is_weighed(anomalies.drop_last());
    }
}

/// Two batches one behind the other weigh what each of them weighs.
pub proof fn law_batches_weigh_together(a: Seq<AnomalyView>, b: Seq<AnomalyView>)
    ensures
        weighed(a + b) == weighed(a) + weighed(b),
    decreases b.len(),
{
    if b.len() == 0 {
        assert(a + b =~= a);
        assert(weighed(a) + weighed(b) =~= weighed(a));
    } else {
        law_batches_weigh_together(a, b.drop_last());
        assert((a + b).drop_last() =~= a + b.drop_last());
        assert(weighed(a + b) =~= weighed(a) + weighed(b));
    }
}

/// The graver an anomaly, the higher its score. All scores lie strictly between nothing and
/// certainty.
pub proof fn law_graver_scores_higher(kind: AnomalyType)
    ensures
        severity_score(Severity::Low) == 30,
        severity_score(Severity::Medium) == 60,
        severity_score(Severity::High) == 80,
        severity_score(Severity::Critical) == 95,
        10 <= kind_weight(kind) <= 30,
        kind == AnomalyType::UnknownTool ==> kind_weight(kind) == 30,
        kind == AnomalyType::ReasoningLoop ==> kind_weight(kind) == 25,
        kind == AnomalyType::TemporalAnomaly || kind == AnomalyType::EnsembleScore ==> kind_weight(
            kind,
        ) == 10,
        kind == AnomalyType::UnknownSequence || kind == AnomalyType::VolumeSpike || kind
            == AnomalyType::ErrorRetryLoop || kind == AnomalyType::CombinedAnomaly ==> kind_weight(
            kind,
        ) == 20,
        kind == AnomalyType::UnknownResource || kind == AnomalyType::RateSpike || kind
            == AnomalyType::UnknownParamPattern ==> kind_weight(kind) == 15,
{
}

/// A score of several anomalies is reported exactly where at least two of them are no
/// earlier ensemble scores and their reading is not weak. The report tells how many they
/// are, and shows the reading.
pub proof fn law_ensemble_is_reported(
    anomalies: Seq<AnomalyView>,
    event: EventView,
    reading: EnsembleReadingView,
)
    ensures
        ({
            let found = ensemble_score(anomalies, event, reading);
            let count = picked(anomalies, independent()).len();
            let a = found->0;
            &&& found is Some <==> count >= 2 && reading.strength != Strength::Weak
            &&& found is Some ==> {
                &&& a.timestamp == event.timestamp
                &&& a.evidence.event == event
                &&& a.anomaly_type == AnomalyType::EnsembleScore
                &&& reading.strength == Strength::Notable ==> a.severity == Severity::Medium
                &&& reading.strength == Strength::Strong ==> a.severity == Severity::High
                &&& reading.strength == Strength::Overwhelming ==> a.severity == Severity::Critical
                &&& a.description == "ensemble score: "@ + reading.combined + " from "@ + decimal(
                    count,
                ) + " signals (fisher="@ + reading.fisher + ", stouffer="@ + reading.stouffer + ")"@
                &&& a.evidence.baseline_value == "threshold: 0.8"@
                &&& a.evidence.observed_value == "combined p-value: "@ + reading.combined
                &&& a.evidence.z_score == Some(reading.z_score)
                &&& a.evidence.confidence == "1"@
            }
        }),
{
    law_every_anomaly_is_weighed(anomalies);
}

// ---------------------------------------------------------------------------
// The panel
// ---------------------------------------------------------------------------

/// Run side by side, the detectors remember of an event what each of them remembers alone,
/// and the thresholds stay as they were.
pub proof fn law_panel_remembers(panel: PanelView, event: EventView)
    ensures
        panel.after(event).sequence == panel.sequence.after(event),
        panel.after(event).rate == panel.rate.after(event),
        panel.after(event).rate.threshold == panel.rate.threshold,
        panel.after(event).volume_threshold == panel.volume_threshold,
{
}

} // verus!
