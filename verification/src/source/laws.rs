//! What holds of the events that the sources make.

use vstd::prelude::*;
use vstd::utf8::encode_utf8;

use crate::event::{BehavioralEvent, EventType, EventView};
use crate::json::MemberView;
use crate::order::{
    law_all_or_none_picked, law_picked_of_two, law_sort_is_stable, law_sort_keeps_ordered_part,
    ordered, picked, rank_order, sorted_by, total_preorder,
};
use crate::source::openclaw::{
    blocks_of, event_count, has_text, lemma_words_differ, tool_calls, LineView, ParserView,
};
use crate::source::otel::{
    attribute, by_name, by_trace, countable, distinct, events_of, has_trace, instant_of,
    law_trace_event_per_span, law_traces_part_spans, nanos_of, showing, shown, span_event,
    span_shows, spans_of, trace_events, traces_events, value_text, AttributeView, OtlpSpan,
    SpanStatus, SpanView, TraceView,
};
use crate::source::{keys_of, resource_like, resources_of};
use crate::time::Timestamp;

verus! {

// ---------------------------------------------------------------------------
// Transcripts
// ---------------------------------------------------------------------------

/// A line makes as many events as are counted for it, whatever its time.
pub proof fn law_events_are_counted(parser: ParserView, line: LineView, time: Timestamp)
    ensures
        parser.events(line, time).len() == event_count(line),
{
    lemma_words_differ();
}

/// Every event of a line carries the session and the agent of the parser and the time
/// of the line, and the positions go on by one from where the parser stood.
pub proof fn law_events_carry_on(parser: ParserView, line: LineView, time: Timestamp, k: int)
    requires
        parser.has_room(line),
        0 <= k < event_count(line),
    ensures
        parser.events(line, time)[k].session_id == parser.session_id,
        parser.events(line, time)[k].agent_id == parser.agent_id,
        parser.events(line, time)[k].timestamp == time,
        parser.events(line, time)[k].sequence_position == parser.sequence_position + k + 1,
        parser.after(line).sequence_position == parser.sequence_position + event_count(line),
{
    lemma_words_differ();
}

/// A session line makes no event, starts the positions anew, and changes the session
/// where it names one. The agent stays the same whatever the line.
pub proof fn law_session_line(parser: ParserView, line: LineView, time: Timestamp)
    ensures
        parser.after(line).agent_id == parser.agent_id,
        line.line_type == "session"@ ==> {
            &&& parser.events(line, time).len() == 0
            &&& parser.after(line).sequence_position == 0
            &&& parser.after(line).session_id == (match line.id {
                Some(id) => id,
                None => parser.session_id,
            })
        },
{
    lemma_words_differ();
}

/// A line that is neither a session nor a message leaves everything as it was.
pub proof fn law_other_lines_are_skipped(parser: ParserView, line: LineView, time: Timestamp)
    requires
        line.line_type != "session"@,
        line.line_type != "message"@,
    ensures
        parser.events(line, time).len() == 0,
        parser.after(line) == parser,
{
}

/// An assistant's message makes one event for each tool call and no other, or one event
/// for its text, or none.
pub proof fn law_assistant_calls_or_speaks(parser: ParserView, line: LineView, time: Timestamp)
    requires
        line.line_type == "message"@,
        line.message is Some,
        line.message->0.role == "assistant"@,
    ensures
        tool_calls(blocks_of(line.message->0)).len() > 0 ==> {
            &&& parser.events(line, time).len() == tool_calls(blocks_of(line.message->0)).len()
            &&& forall|k: int|
                0 <= k < parser.events(line, time).len() ==> (#[trigger] parser.events(
                    line,
                    time,
                )[k]).event_type == EventType::ToolCall && parser.events(line, time)[k].tool_name
                    == tool_calls(blocks_of(line.message->0))[k].name
        },
        tool_calls(blocks_of(line.message->0)).len() == 0 ==> {
            &&& has_text(blocks_of(line.message->0)) ==> parser.events(line, time).len() == 1
                && parser.events(line, time)[0].event_type == EventType::AgentMessage
            &&& !has_text(blocks_of(line.message->0)) ==> parser.events(line, time).len() == 0
        },
{
    lemma_words_differ();
}

/// The parser behind several lines.
pub open spec fn after_lines(parser: ParserView, lines: Seq<(LineView, Timestamp)>) -> ParserView
    decreases lines.len(),
{
    if lines.len() == 0 {
        parser
    } else {
        after_lines(parser, lines.drop_last()).after(lines.last().0)
    }
}

/// The events of several lines.
pub open spec fn events_of_lines(
    parser: ParserView,
    lines: Seq<(LineView, Timestamp)>,
) -> Seq<EventView>
    decreases lines.len(),
{
    if lines.len() == 0 {
        Seq::empty()
    } else {
        events_of_lines(parser, lines.drop_last()) + after_lines(parser, lines.drop_last()).events(
            lines.last().0,
            lines.last().1,
        )
    }
}

/// The positions of several lines' events can be counted.
pub open spec fn lines_have_room(parser: ParserView, lines: Seq<(LineView, Timestamp)>) -> bool
    decreases lines.len(),
{
    lines.len() == 0 || (lines_have_room(parser, lines.drop_last()) && after_lines(
        parser,
        lines.drop_last(),
    ).has_room(lines.last().0))
}

/// Up to the next session line the events of a transcript stay in one session, and
/// their positions go on by one.
pub proof fn law_session_is_counted(parser: ParserView, lines: Seq<(LineView, Timestamp)>)
    requires
        lines_have_room(parser, lines),
        forall|i: int| 0 <= i < lines.len() ==> (#[trigger] lines[i]).0.line_type != "session"@,
    ensures
        forall|k: int|
            0 <= k < events_of_lines(parser, lines).len() ==> {
                &&& (#[trigger] events_of_lines(parser, lines)[k]).sequence_position
                    == parser.sequence_position + k + 1
                &&& events_of_lines(parser, lines)[k].session_id == parser.session_id
                &&& events_of_lines(parser, lines)[k].agent_id == parser.agent_id
            },
        after_lines(parser, lines).sequence_position == parser.sequence_position + events_of_lines(
            parser,
            lines,
        ).len(),
        after_lines(parser, lines).session_id == parser.session_id,
        after_lines(parser, lines).agent_id == parser.agent_id,
    decreases lines.len(),
{
    if lines.len() > 0 {
        let short = lines.drop_last();
        let last = lines.last();
        assert forall|i: int| 0 <= i < short.len() implies (#[trigger] short[i]).0.line_type
            != "session"@ by {
            assert(short[i] == lines[i]);
        }
        law_session_is_counted(parser, short);
        let before = events_of_lines(parser, short);
        let stand = after_lines(parser, short);
        let more = stand.events(last.0, last.1);
        assert(lines[lines.len() - 1] == last);
        law_events_are_counted(stand, last.0, last.1);
        assert forall|k: int| 0 <= k < (before + more).len() implies {
            &&& (#[trigger] (before + more)[k]).sequence_position == parser.sequence_position + k + 1
            &&& (before + more)[k].session_id == parser.session_id
            &&& (before + more)[k].agent_id == parser.agent_id
        } by {
            if k >= before.len() {
                law_events_carry_on(stand, last.0, last.1, k - before.len());
                assert((before + more)[k] == more[k - before.len()]);
            } else {
                assert((before + more)[k] == before[k]);
            }
        }
    }
}

// ---------------------------------------------------------------------------
// Traces
// ---------------------------------------------------------------------------

/// The events of a trace bear its id, and their positions count from one.
pub proof fn law_trace_is_counted(
    default_agent: Seq<char>,
    spans: Seq<SpanView>,
    trace_id: Seq<char>,
)
    requires
        trace_events(default_agent, spans, trace_id).len() <= u32::MAX,
    ensures
        forall|k: int|
            0 <= k < trace_events(default_agent, spans, trace_id).len() ==> {
                &&& (#[trigger] trace_events(default_agent, spans, trace_id)[k]).sequence_position
                    == k + 1
                &&& trace_events(default_agent, spans, trace_id)[k].trace_id == Some(trace_id)
            },
    decreases spans.len(),
{
    if spans.len() > 0 {
        law_trace_is_counted(default_agent, spans.drop_last(), trace_id);
    }
}

/// The order of events by time places any two of them, and chains.
proof fn lemma_time_order()
    ensures
        total_preorder(rank_order::<BehavioralEvent>()),
{
}

/// The events of a request come in the order of time. They are the events of its
/// traces, each as often as it is there.
pub proof fn law_events_in_time_order(default_agent: Seq<char>, spans: Seq<SpanView>)
    ensures
        ordered(events_of(default_agent, spans), rank_order::<BehavioralEvent>()),
        events_of(default_agent, spans).to_multiset() == traces_events(
            default_agent,
            by_trace(spans),
        ).to_multiset(),
        events_of(default_agent, spans).len() == traces_events(
            default_agent,
            by_trace(spans),
        ).len(),
{
    lemma_time_order();
    law_sort_is_stable(
        traces_events(default_agent, by_trace(spans)),
        rank_order::<BehavioralEvent>(),
    );
}

/// The event belongs to the trace.
pub open spec fn of_trace(trace_id: Seq<char>) -> spec_fn(EventView) -> bool {
    |event: EventView| event.trace_id == Some(trace_id)
}

proof fn lemma_events_bear_trace(default_agent: Seq<char>, spans: Seq<SpanView>, trace_id: Seq<char>)
    ensures
        forall|k: int|
            0 <= k < trace_events(default_agent, spans, trace_id).len() ==> (
            #[trigger] trace_events(default_agent, spans, trace_id)[k]).trace_id == Some(trace_id),
    decreases spans.len(),
{
    if spans.len() > 0 {
        lemma_events_bear_trace(default_agent, spans.drop_last(), trace_id);
    }
}

/// The instant of so many nanoseconds has the parts that they make.
proof fn lemma_instant_parts(nanos: u64)
    ensures
        instant_of(nanos).unix_seconds() == nanos / 1_000_000_000,
        instant_of(nanos).subsec_nanos() == nanos % 1_000_000_000,
{
    Timestamp::law_has_its_parts(
        (nanos / 1_000_000_000) as int,
        (nanos % 1_000_000_000) as int,
    );
}

proof fn lemma_events_start_with_spans(
    default_agent: Seq<char>,
    spans: Seq<SpanView>,
    trace_id: Seq<char>,
)
    requires
        ordered(spans, rank_order::<OtlpSpan>()),
    ensures
        ordered(trace_events(default_agent, spans, trace_id), rank_order::<BehavioralEvent>()),
        forall|k: int|
            0 <= k < trace_events(default_agent, spans, trace_id).len() ==> exists|j: int|
                0 <= j < spans.len() && (#[trigger] trace_events(
                    default_agent,
                    spans,
                    trace_id,
                )[k]).timestamp == instant_of(nanos_of((#[trigger] spans[j]).start_time_unix_nano)),
    decreases spans.len(),
{
    if spans.len() > 0 {
        let short = spans.drop_last();
        let last = spans.last();
        assert forall|i: int, j: int| 0 <= i < j < short.len() implies rank_order::<OtlpSpan>()(
            #[trigger] short[i],
            #[trigger] short[j],
        ) by {
            assert(rank_order::<OtlpSpan>()(spans[i], spans[j]));
        }
        lemma_events_start_with_spans(default_agent, short, trace_id);
        let before = trace_events(default_agent, short, trace_id);
        let all = trace_events(default_agent, spans, trace_id);
        let end = nanos_of(last.start_time_unix_nano);
        assert forall|k: int| 0 <= k < all.len() implies exists|j: int|
            0 <= j < spans.len() && (#[trigger] all[k]).timestamp == instant_of(
                nanos_of((#[trigger] spans[j]).start_time_unix_nano),
            ) && (k < before.len() ==> j < short.len()) by {
            if k < before.len() {
                assert(all[k] == before[k]);
                let j = choose|j: int|
                    0 <= j < short.len() && before[k].timestamp == instant_of(
                        nanos_of((#[trigger] short[j]).start_time_unix_nano),
                    );
                assert(spans[j] == short[j]);
            } else {
                assert(spans[spans.len() - 1] == last);
            }
        }
        assert forall|i: int, k: int| 0 <= i < k < all.len() implies rank_order::<BehavioralEvent>()(
            #[trigger] all[i],
            #[trigger] all[k],
        ) by {
            if k < before.len() {
                assert(rank_order::<BehavioralEvent>()(before[i], before[k]));
            } else {
                let j = choose|j: int|
                    0 <= j < spans.len() && all[i].timestamp == instant_of(
                        nanos_of((#[trigger] spans[j]).start_time_unix_nano),
                    ) && (i < before.len() ==> j < short.len());
                let begin = nanos_of(spans[j].start_time_unix_nano);
                assert(rank_order::<OtlpSpan>()(spans[j], spans[spans.len() - 1]));
                lemma_instant_parts(begin);
                lemma_instant_parts(end);
                assert(begin <= end);
            }
        }
    }
}

proof fn lemma_picked_of_traces(
    default_agent: Seq<char>,
    traces: Seq<TraceView>,
    trace_id: Seq<char>,
)
    requires
        distinct(traces),
    ensures
        forall|k: int|
            0 <= k < traces.len() && (#[trigger] traces[k]).trace_id == trace_id ==> picked(
                traces_events(default_agent, traces),
                of_trace(trace_id),
            ) == trace_events(
                default_agent,
                sorted_by(traces[k].spans, rank_order::<OtlpSpan>()),
                trace_id,
            ),
        !has_trace(traces, trace_id) ==> picked(
            traces_events(default_agent, traces),
            of_trace(trace_id),
        ) == Seq::<EventView>::empty(),
    decreases traces.len(),
{
    if traces.len() > 0 {
        let short = traces.drop_last();
        let last = traces.last();
        let wanted = of_trace(trace_id);
        let before = traces_events(default_agent, short);
        let own = trace_events(
            default_agent,
            sorted_by(last.spans, rank_order::<OtlpSpan>()),
            last.trace_id,
        );
        assert forall|j: int, k: int| 0 <= j < k < short.len() implies (
        #[trigger] short[j]).trace_id != (#[trigger] short[k]).trace_id by {
            assert(traces[j].trace_id != traces[k].trace_id);
        }
        lemma_picked_of_traces(default_agent, short, trace_id);
        lemma_events_bear_trace(
            default_agent,
            sorted_by(last.spans, rank_order::<OtlpSpan>()),
            last.trace_id,
        );
        law_picked_of_two(before, own, wanted);
        law_all_or_none_picked(own, wanted);
        assert(traces[traces.len() - 1] == last);
        if last.trace_id == trace_id {
            assert(!has_trace(short, trace_id)) by {
                if has_trace(short, trace_id) {
                    let k = choose|k: int|
                        0 <= k < short.len() && (#[trigger] short[k]).trace_id == trace_id;
                    assert(traces[k].trace_id != traces[traces.len() - 1].trace_id);
                }
            }
            assert(picked(before, wanted) + own =~= own);
            assert forall|k: int|
                0 <= k < traces.len() && (#[trigger] traces[k]).trace_id == trace_id implies k
                == traces.len() - 1 by {
                if k < traces.len() - 1 {
                    assert(traces[k].trace_id != traces[traces.len() - 1].trace_id);
                }
            }
        } else {
            assert(picked(before, wanted) + Seq::<EventView>::empty() =~= picked(before, wanted));
            assert forall|k: int|
                0 <= k < traces.len() && (#[trigger] traces[k]).trace_id == trace_id implies picked(
                traces_events(default_agent, traces),
                wanted,
            ) == trace_events(
                default_agent,
                sorted_by(traces[k].spans, rank_order::<OtlpSpan>()),
                trace_id,
            ) by {
                assert(short[k] == traces[k]);
            }
            if !has_trace(traces, trace_id) {
                assert(!has_trace(short, trace_id)) by {
                    if has_trace(short, trace_id) {
                        let k = choose|k: int|
                            0 <= k < short.len() && (#[trigger] short[k]).trace_id == trace_id;
                        assert(traces[k].trace_id == trace_id);
                    }
                }
            }
        }
    }
}

/// Of all the events of a request, those of one trace come as the trace alone makes them:
/// in the order in which its spans start, and numbered from one upward.
pub proof fn law_traces_stay_numbered(
    default_agent: Seq<char>,
    spans: Seq<SpanView>,
    trace_id: Seq<char>,
)
    requires
        countable(spans),
    ensures
        picked(events_of(default_agent, spans), of_trace(trace_id)) == trace_events(
            default_agent,
            sorted_by(spans_of(spans, trace_id), rank_order::<OtlpSpan>()),
            trace_id,
        ),
        forall|k: int|
            0 <= k < picked(events_of(default_agent, spans), of_trace(trace_id)).len() ==> (
            #[trigger] picked(
                events_of(default_agent, spans),
                of_trace(trace_id),
            )[k]).sequence_position == k + 1,
{
    let traces = by_trace(spans);
    let part = spans_of(spans, trace_id);
    let le = rank_order::<OtlpSpan>();
    let in_order = sorted_by(part, le);
    let own = trace_events(default_agent, in_order, trace_id);
    law_traces_part_spans(spans);
    lemma_picked_of_traces(default_agent, traces, trace_id);
    assert(picked(traces_events(default_agent, traces), of_trace(trace_id)) == own) by {
        if has_trace(traces, trace_id) {
            let k = choose|k: int|
                0 <= k < traces.len() && (#[trigger] traces[k]).trace_id == trace_id;
            assert(traces[k].spans == part);
        } else {
            assert(part.len() == 0);
        }
    }
    law_sort_is_stable(part, le);
    lemma_events_start_with_spans(default_agent, in_order, trace_id);
    law_sort_keeps_ordered_part(
        traces_events(default_agent, traces),
        rank_order::<BehavioralEvent>(),
        of_trace(trace_id),
    );
    law_trace_event_per_span(default_agent, spans, trace_id);
    assert(showing(spans, trace_id) <= u32::MAX);
    law_trace_is_counted(default_agent, in_order, trace_id);
}

proof fn lemma_by_name_update(attributes: Seq<AttributeView>, i: int, other: AttributeView)
    requires
        0 <= i < attributes.len(),
        other.key == attributes[i].key,
        value_text(other.value) is Some,
        value_text(attributes[i].value) is Some,
    ensures
        ({
            let before = by_name(attributes);
            let after = by_name(attributes.update(i, other));
            ||| after == before
            ||| {
                &&& before.contains_key(other.key)
                &&& before[other.key] == value_text(attributes[i].value)->0
                &&& after == before.insert(other.key, value_text(other.value)->0)
            }
        }),
    decreases attributes.len(),
{
    let changed = attributes.update(i, other);
    let short = attributes.drop_last();
    let before = by_name(attributes);
    let text = value_text(other.value)->0;
    if i == attributes.len() - 1 {
        assert(changed.drop_last() =~= short);
        assert(by_name(changed) =~= before.insert(other.key, text));
    } else {
        lemma_by_name_update(short, i, other);
        assert(short[i] == attributes[i]);
        assert(changed.drop_last() =~= short.update(i, other));
        assert(changed.last() == attributes.last());
        let last = attributes.last();
        if by_name(short.update(i, other)) != by_name(short) && value_text(last.value) is Some {
            if last.key == other.key {
                assert(by_name(changed) =~= before);
            } else {
                assert(by_name(changed) =~= before.insert(other.key, text));
            }
        }
    }
}

/// No other attribute that is looked up has the name of a tool call's result.
proof fn lemma_names_differ()
    ensures
        "gen_ai.operation.name"@ != "gen_ai.tool.call.result"@,
        "gen_ai.message.role"@ != "gen_ai.tool.call.result"@,
        "openinference.span.kind"@ != "gen_ai.tool.call.result"@,
        "gen_ai.tool.call.arguments"@ != "gen_ai.tool.call.result"@,
        "gen_ai.conversation.id"@ != "gen_ai.tool.call.result"@,
        "session.id"@ != "gen_ai.tool.call.result"@,
        "gen_ai.agent.name"@ != "gen_ai.tool.call.result"@,
        "gen_ai.agent.id"@ != "gen_ai.tool.call.result"@,
        "agent.name"@ != "gen_ai.tool.call.result"@,
        "gen_ai.tool.name"@ != "gen_ai.tool.call.result"@,
        "tool.name"@ != "gen_ai.tool.call.result"@,
        "gen_ai.usage.input_tokens"@ != "gen_ai.tool.call.result"@,
        "gen_ai.usage.output_tokens"@ != "gen_ai.tool.call.result"@,
        "llm.token_count.total"@ != "gen_ai.tool.call.result"@,
        "gen_ai.provider.name"@ != "gen_ai.tool.call.result"@,
        "gen_ai.request.model"@ != "gen_ai.tool.call.result"@,
{
    reveal_strlit("gen_ai.tool.call.result");
    assert("gen_ai.tool.call.result"@.len() == 23 && "gen_ai.tool.call.result"@[0] == 'g');
    reveal_strlit("gen_ai.operation.name");
    assert("gen_ai.operation.name"@.len() == 21);
    reveal_strlit("gen_ai.message.role");
    assert("gen_ai.message.role"@.len() == 19);
    reveal_strlit("openinference.span.kind");
    assert("openinference.span.kind"@[0] == 'o');
    reveal_strlit("gen_ai.tool.call.arguments");
    assert("gen_ai.tool.call.arguments"@.len() == 26);
    reveal_strlit("gen_ai.conversation.id");
    assert("gen_ai.conversation.id"@.len() == 22);
    reveal_strlit("session.id");
    assert("session.id"@.len() == 10);
    reveal_strlit("gen_ai.agent.name");
    assert("gen_ai.agent.name"@.len() == 17);
    reveal_strlit("gen_ai.agent.id");
    assert("gen_ai.agent.id"@.len() == 15);
    reveal_strlit("agent.name");
    assert("agent.name"@.len() == 10);
    reveal_strlit("gen_ai.tool.name");
    assert("gen_ai.tool.name"@.len() == 16);
    reveal_strlit("tool.name");
    assert("tool.name"@.len() == 9);
    reveal_strlit("gen_ai.usage.input_tokens");
    assert("gen_ai.usage.input_tokens"@.len() == 25);
    reveal_strlit("gen_ai.usage.output_tokens");
    assert("gen_ai.usage.output_tokens"@.len() == 26);
    reveal_strlit("llm.token_count.total");
    assert("llm.token_count.total"@.len() == 21);
    reveal_strlit("gen_ai.provider.name");
    assert("gen_ai.provider.name"@.len() == 20);
    reveal_strlit("gen_ai.request.model");
    assert("gen_ai.request.model"@.len() == 20);
}

/// Of the result of a tool call only the length in bytes reaches the event of a span:
/// another result of the same length changes neither whether there is an event nor the
/// event.
pub proof fn law_result_text_stays_out(
    default_agent: Seq<char>,
    span: SpanView,
    i: int,
    other: AttributeView,
    trace_id: Seq<char>,
    event_type: EventType,
    position: int,
)
    requires
        0 <= i < span.attributes.len(),
        span.attributes[i].key == "gen_ai.tool.call.result"@,
        other.key == "gen_ai.tool.call.result"@,
        value_text(span.attributes[i].value) is Some,
        value_text(other.value) is Some,
        encode_utf8(value_text(other.value)->0).len() == encode_utf8(
            value_text(span.attributes[i].value)->0,
        ).len(),
    ensures
        ({
            let changed = SpanView { attributes: span.attributes.update(i, other), ..span };
            &&& span_shows(changed) == span_shows(span)
            &&& span_event(default_agent, changed, trace_id, event_type, position) == span_event(
                default_agent,
                span,
                trace_id,
                event_type,
                position,
            )
        }),
{
    lemma_by_name_update(span.attributes, i, other);
    let before = by_name(span.attributes);
    let after = by_name(span.attributes.update(i, other));
    let result = "gen_ai.tool.call.result"@;
    assert(forall|name: Seq<char>|
        name != result ==> attribute(after, name) == #[trigger] attribute(before, name));
    lemma_names_differ();
}

/// A span that names a `gen_ai` operation shows the same whatever its OpenInference kind
/// and its name.
pub proof fn law_gen_ai_is_preferred(
    attrs: Map<Seq<char>, Seq<char>>,
    kind: Seq<char>,
    name: Seq<char>,
    other_name: Seq<char>,
    status: Option<SpanStatus>,
)
    requires
        attrs.contains_key("gen_ai.operation.name"@),
    ensures
        shown(attrs.insert("openinference.span.kind"@, kind), other_name, status) == shown(
            attrs,
            name,
            status,
        ),
{
    reveal_strlit("gen_ai.operation.name");
    reveal_strlit("openinference.span.kind");
    reveal_strlit("gen_ai.message.role");
    assert("gen_ai.operation.name"@.len() != "openinference.span.kind"@.len());
    assert("gen_ai.message.role"@.len() != "openinference.span.kind"@.len());
}

/// Spans that show nothing make no events.
pub proof fn law_nothing_shown_no_events(
    default_agent: Seq<char>,
    spans: Seq<SpanView>,
    trace_id: Seq<char>,
)
    requires
        forall|i: int| 0 <= i < spans.len() ==> span_shows(#[trigger] spans[i]) is None,
    ensures
        trace_events(default_agent, spans, trace_id).len() == 0,
    decreases spans.len(),
{
    if spans.len() > 0 {
        let short = spans.drop_last();
        assert forall|i: int| 0 <= i < short.len() implies span_shows(#[trigger] short[i]) is None by {
            assert(short[i] == spans[i]);
        }
        law_nothing_shown_no_events(default_agent, short, trace_id);
        assert(span_shows(spans[spans.len() - 1]) is None);
    }
}

// ---------------------------------------------------------------------------
// Arguments
// ---------------------------------------------------------------------------

/// The value of an argument is a string that looks like a resource.
pub open spec fn names_resource(value: Option<Seq<char>>) -> bool {
    match value {
        Some(s) => resource_like(s),
        None => false,
    }
}

/// The value of an argument reaches an event only where it looks like a resource: another
/// value that does not either changes nothing.
pub proof fn law_argument_values_stay_out(
    members: Seq<MemberView>,
    i: int,
    value: Option<Seq<char>>,
)
    requires
        0 <= i < members.len(),
        !names_resource(members[i].string),
        !names_resource(value),
    ensures
        keys_of(members.update(i, MemberView { key: members[i].key, string: value })) == keys_of(
            members,
        ),
        resources_of(members.update(i, MemberView { key: members[i].key, string: value }))
            == resources_of(members),
    decreases members.len(),
{
    let other = MemberView { key: members[i].key, string: value };
    let changed = members.update(i, other);
    assert(keys_of(changed) =~= keys_of(members));
    if i == members.len() - 1 {
        assert(changed.drop_last() =~= members.drop_last());
    } else {
        assert(members.drop_last()[i] == members[i]);
        law_argument_values_stay_out(members.drop_last(), i, value);
        assert(changed.drop_last() =~= members.drop_last().update(i, other));
        assert(changed.last() == members.last());
    }
}

/// Every resource of an event looks like one and is the value of an argument.
pub proof fn law_resources_are_argument_values(members: Seq<MemberView>)
    ensures
        forall|k: int|
            0 <= k < resources_of(members).len() ==> resource_like(
                #[trigger] resources_of(members)[k],
            ) && exists|i: int|
                0 <= i < members.len() && (#[trigger] members[i]).string == Some(
                    resources_of(members)[k],
                ),
    decreases members.len(),
{
    if members.len() > 0 {
        let short = members.drop_last();
        law_resources_are_argument_values(short);
        let found = resources_of(members);
        assert forall|k: int| 0 <= k < found.len() implies resource_like(#[trigger] found[k])
            && exists|i: int|
            0 <= i < members.len() && (#[trigger] members[i]).string == Some(found[k]) by {
            if k < resources_of(short).len() {
                assert(found[k] == resources_of(short)[k]);
                let i = choose|i: int|
                    0 <= i < short.len() && (#[trigger] short[i]).string == Some(found[k]);
                assert(members[i] == short[i]);
            } else {
                assert(members[members.len() - 1].string == Some(found[k]));
            }
        }
    }
}

} // verus!
