//! What a span becomes as an event, field by field.

use vstd::prelude::*;
use vstd::utf8::encode_utf8;

use crate::event::{BehavioralEvent, EventType};
use crate::json::{json_at, MemberView, NodeView, ShapeView};
use crate::order::{law_sort_is_stable, picked, rank_order, sorted_by};
use crate::source::laws::{law_events_in_time_order, names_resource};
use crate::source::otel::{
    attribute, by_name, countable, events_of, nanos_of, number_attribute, showing, span_event,
    span_shows, token_sum, trace_events, AttributeView, NumberView, OtlpSpan, SpanStatus, SpanView,
};
use crate::source::{keys_of, resource_like, resources_of};
use crate::text::{decimal, law_decimal_is_parsed, occurs_at, parsed_u64};
use crate::time::Timestamp;

verus! {

// ---------------------------------------------------------------------------
// Attributes
// ---------------------------------------------------------------------------

/// The attribute has a text or a number.
pub open spec fn says_something(a: AttributeView) -> bool {
    match a.value {
        Some(any) => any.string_value is Some || any.int_value is Some,
        None => false,
    }
}

/// The attribute has the text, or it has no text but a number that the text writes.
pub open spec fn says(a: AttributeView, text: Seq<char>) -> bool {
    match a.value {
        Some(any) => match any.string_value {
            Some(s) => s == text,
            None => match any.int_value {
                Some(n) => decimal(n.value() as nat) == text,
                None => false,
            },
        },
        None => false,
    }
}

/// The attribute at place `i` is the last of its name that says something, and it says the
/// text.
pub open spec fn bears_at(
    attributes: Seq<AttributeView>,
    name: Seq<char>,
    text: Seq<char>,
    i: int,
) -> bool {
    &&& 0 <= i < attributes.len()
    &&& attributes[i].key == name
    &&& says(attributes[i], text)
    &&& forall|j: int|
        i < j < attributes.len() && (#[trigger] attributes[j]).key == name ==> !says_something(
            attributes[j],
        )
}

/// The last attribute of the name that says something says the text.
pub open spec fn bears(attributes: Seq<AttributeView>, name: Seq<char>, text: Seq<char>) -> bool {
    exists|i: int| bears_at(attributes, name, text, i)
}

/// No attribute of the name says anything.
pub open spec fn lacks(attributes: Seq<AttributeView>, name: Seq<char>) -> bool {
    forall|i: int|
        0 <= i < attributes.len() && (#[trigger] attributes[i]).key == name ==> !says_something(
            attributes[i],
        )
}

proof fn lemma_lacks(attributes: Seq<AttributeView>, name: Seq<char>)
    requires
        lacks(attributes, name),
    ensures
        !by_name(attributes).contains_key(name),
    decreases attributes.len(),
{
    if attributes.len() > 0 {
        let short = attributes.drop_last();
        assert forall|i: int|
            0 <= i < short.len() && (#[trigger] short[i]).key == name implies !says_something(
            short[i],
        ) by {
            assert(attributes[i] == short[i]);
        }
        lemma_lacks(short, name);
        if attributes.last().key == name {
            assert(!says_something(attributes[attributes.len() - 1]));
        }
    }
}

proof fn lemma_bears(attributes: Seq<AttributeView>, name: Seq<char>, text: Seq<char>, i: int)
    requires
        bears_at(attributes, name, text, i),
    ensures
        by_name(attributes).contains_key(name),
        by_name(attributes)[name] == text,
    decreases attributes.len(),
{
    if i < attributes.len() - 1 {
        let short = attributes.drop_last();
        assert(short[i] == attributes[i]);
        assert forall|j: int|
            i < j < short.len() && (#[trigger] short[j]).key == name implies !says_something(
            short[j],
        ) by {
            assert(attributes[j] == short[j]);
        }
        lemma_bears(short, name, text, i);
        if attributes.last().key == name {
            assert(!says_something(attributes[attributes.len() - 1]));
        }
    }
}

/// Looked up by name, the last attribute that says something counts, and one that says
/// nothing is as good as none.
pub proof fn law_last_attribute_counts(
    attributes: Seq<AttributeView>,
    name: Seq<char>,
    text: Seq<char>,
)
    ensures
        bears(attributes, name, text) ==> attribute(by_name(attributes), name) == Some(text),
        lacks(attributes, name) ==> attribute(by_name(attributes), name) is None,
{
    if bears(attributes, name, text) {
        let i = choose|i: int| bears_at(attributes, name, text, i);
        lemma_bears(attributes, name, text, i);
    }
    if lacks(attributes, name) {
        lemma_lacks(attributes, name);
    }
}

/// A number stands for itself, a text for the number that it writes, and a text that writes
/// none for zero. A time that is left out is zero.
pub proof fn law_numbers(n: u64, text: Seq<char>)
    ensures
        NumberView::Number(n).value() == n,
        NumberView::String(decimal(n as nat)).value() == n,
        parsed_u64(text) is None ==> NumberView::String(text).value() == 0,
        parsed_u64(text) is Some ==> NumberView::String(text).value() == parsed_u64(text)->0,
        nanos_of(Some(NumberView::Number(n))) == n,
        nanos_of(Some(NumberView::String(decimal(n as nat)))) == n,
        nanos_of(None) == 0,
{
    law_decimal_is_parsed(n);
}

// ---------------------------------------------------------------------------
// Arguments and results
// ---------------------------------------------------------------------------

/// A text looks like a resource by how it starts: a path from the root or from home, or an
/// address of the web.
pub proof fn law_resources_start_so(s: Seq<char>)
    ensures
        resource_like(s) <==> {
            ||| s.len() >= 1 && s[0] == '/'
            ||| s.len() >= 2 && s[0] == '~' && s[1] == '/'
            ||| s.len() >= 7 && s.take(7) == seq!['h', 't', 't', 'p', ':', '/', '/']
            ||| s.len() >= 8 && s.take(8) == seq!['h', 't', 't', 'p', 's', ':', '/', '/']
        },
{
    reveal_strlit("/");
    reveal_strlit("~/");
    reveal_strlit("http://");
    reveal_strlit("https://");
    assert("/"@.is_prefix_of(s) == (s.len() >= 1 && s[0] == '/')) by {
        if s.len() >= 1 && s[0] == '/' {
            assert("/"@ =~= s.subrange(0, 1));
        }
        if "/"@.is_prefix_of(s) {
            assert(s.subrange(0, 1)[0] == '/');
        }
    }
    assert("~/"@.is_prefix_of(s) == (s.len() >= 2 && s[0] == '~' && s[1] == '/')) by {
        if s.len() >= 2 && s[0] == '~' && s[1] == '/' {
            assert("~/"@ =~= s.subrange(0, 2));
        }
        if "~/"@.is_prefix_of(s) {
            assert(s.subrange(0, 2)[0] == '~' && s.subrange(0, 2)[1] == '/');
        }
    }
    assert("http://"@ =~= seq!['h', 't', 't', 'p', ':', '/', '/']);
    assert("https://"@ =~= seq!['h', 't', 't', 'p', 's', ':', '/', '/']);
    if s.len() >= 7 {
        assert(s.take(7) =~= s.subrange(0, 7));
    }
    if s.len() >= 8 {
        assert(s.take(8) =~= s.subrange(0, 8));
    }
}

/// Of an object every name is taken, in its place; of the values those strings that look
/// like resources, in their order, and no other.
pub proof fn law_names_and_resources(members: Seq<MemberView>)
    ensures
        keys_of(members).len() == members.len(),
        forall|k: int| 0 <= k < members.len() ==> #[trigger] keys_of(members)[k] == members[k].key,
        resources_of(members) == picked(
            members,
            |m: MemberView| names_resource(m.string),
        ).map_values(|m: MemberView| m.string->0),
    decreases members.len(),
{
    let wanted = |m: MemberView| names_resource(m.string);
    let value = |m: MemberView| m.string->0;
    if members.len() == 0 {
        assert(picked(members, wanted).map_values(value) =~= Seq::<Seq<char>>::empty());
    } else {
        law_names_and_resources(members.drop_last());
        let before = picked(members.drop_last(), wanted);
        assert(before.push(members.last()).map_values(value) =~= before.map_values(value).push(
            members.last().string->0,
        ));
    }
}

/// The bytes that a tool call takes in are those of its arguments as they stand, whatever
/// the arguments hold. Where they write an object, the event has its names and resources;
/// where they write something else or nothing that can be read, it has none.
pub proof fn law_arguments_are_measured(
    default_agent: Seq<char>,
    span: SpanView,
    trace_id: Seq<char>,
    event_type: EventType,
    position: int,
    arguments: Seq<char>,
)
    requires
        bears(span.attributes, "gen_ai.tool.call.arguments"@, arguments),
        encode_utf8(arguments).len() <= u64::MAX,
    ensures
        ({
            let event = span_event(default_agent, span, trace_id, event_type, position);
            &&& event.data_in_bytes == encode_utf8(arguments).len()
            &&& match json_at(arguments, ""@) {
                Some(NodeView { text: _, shape: ShapeView::Object(members) }) => {
                    &&& event.param_keys.len() == members.len()
                    &&& forall|k: int|
                        0 <= k < members.len() ==> #[trigger] event.param_keys[k] == members[k].key
                    &&& event.resource_ids == picked(
                        members,
                        |m: MemberView| names_resource(m.string),
                    ).map_values(|m: MemberView| m.string->0)
                },
                _ => event.param_keys.len() == 0 && event.resource_ids.len() == 0,
            }
        }),
{
    law_last_attribute_counts(span.attributes, "gen_ai.tool.call.arguments"@, arguments);
    match json_at(arguments, ""@) {
        Some(NodeView { text: _, shape: ShapeView::Object(members) }) => {
            law_names_and_resources(members);
        },
        _ => {},
    }
}

/// Two spans with arguments make events whose bytes taken in differ by as much as the
/// lengths of the arguments.
pub proof fn law_longer_arguments_take_more_in(
    default_agent: Seq<char>,
    a: SpanView,
    b: SpanView,
    trace_id: Seq<char>,
    event_type: EventType,
    position: int,
    first: Seq<char>,
    second: Seq<char>,
)
    requires
        bears(a.attributes, "gen_ai.tool.call.arguments"@, first),
        bears(b.attributes, "gen_ai.tool.call.arguments"@, second),
        encode_utf8(first).len() <= u64::MAX,
        encode_utf8(second).len() <= u64::MAX,
    ensures
        span_event(default_agent, a, trace_id, event_type, position).data_in_bytes - span_event(
            default_agent,
            b,
            trace_id,
            event_type,
            position,
        ).data_in_bytes == encode_utf8(first).len() - encode_utf8(second).len(),
{
    law_arguments_are_measured(default_agent, a, trace_id, event_type, position, first);
    law_arguments_are_measured(default_agent, b, trace_id, event_type, position, second);
}

/// Without arguments nothing goes in, and there are no names and no resources.
pub proof fn law_no_arguments_nothing_in(
    default_agent: Seq<char>,
    span: SpanView,
    trace_id: Seq<char>,
    event_type: EventType,
    position: int,
)
    requires
        lacks(span.attributes, "gen_ai.tool.call.arguments"@),
    ensures
        span_event(default_agent, span, trace_id, event_type, position).data_in_bytes == 0,
        span_event(default_agent, span, trace_id, event_type, position).param_keys.len() == 0,
        span_event(default_agent, span, trace_id, event_type, position).resource_ids.len() == 0,
{
    law_last_attribute_counts(span.attributes, "gen_ai.tool.call.arguments"@, Seq::empty());
}

/// The bytes that a tool call gives out are those of its result as it stands; without a
/// result there are none.
pub proof fn law_results_are_measured(
    default_agent: Seq<char>,
    span: SpanView,
    trace_id: Seq<char>,
    event_type: EventType,
    position: int,
    result: Seq<char>,
)
    requires
        encode_utf8(result).len() <= u64::MAX,
    ensures
        bears(span.attributes, "gen_ai.tool.call.result"@, result) ==> span_event(
            default_agent,
            span,
            trace_id,
            event_type,
            position,
        ).data_out_bytes == encode_utf8(result).len(),
        lacks(span.attributes, "gen_ai.tool.call.result"@) ==> span_event(
            default_agent,
            span,
            trace_id,
            event_type,
            position,
        ).data_out_bytes == 0,
{
    law_last_attribute_counts(span.attributes, "gen_ai.tool.call.result"@, result);
}

// ---------------------------------------------------------------------------
// Who, where and when
// ---------------------------------------------------------------------------

/// An event comes at the start of its span, to the nanosecond; it lasts the whole
/// milliseconds up to the end of the span, none where the end is not later; and it keeps the
/// ids, the kind and the place that it is given.
pub proof fn law_event_is_placed(
    default_agent: Seq<char>,
    span: SpanView,
    trace_id: Seq<char>,
    event_type: EventType,
    position: int,
)
    requires
        0 <= position <= u32::MAX,
    ensures
        ({
            let event = span_event(default_agent, span, trace_id, event_type, position);
            let start = nanos_of(span.start_time_unix_nano);
            let end = nanos_of(span.end_time_unix_nano);
            &&& event.timestamp.unix_seconds() * 1_000_000_000 + event.timestamp.subsec_nanos()
                == start
            &&& 0 <= event.timestamp.subsec_nanos() < 1_000_000_000
            &&& end <= start ==> event.duration_ms == 0
            &&& end > start ==> event.duration_ms * 1_000_000 <= end - start < (event.duration_ms
                + 1) * 1_000_000
            &&& event.event_type == event_type
            &&& event.trace_id == Some(trace_id)
            &&& event.span_id == Some(span.span_id)
            &&& event.sequence_position == position
        }),
{
    let start = nanos_of(span.start_time_unix_nano);
    Timestamp::law_has_its_parts(
        (start / 1_000_000_000) as int,
        (start % 1_000_000_000) as int,
    );
}

/// The session of an event is its conversation, or else its session, or else its trace.
pub proof fn law_session_is_found(
    default_agent: Seq<char>,
    span: SpanView,
    trace_id: Seq<char>,
    event_type: EventType,
    position: int,
    id: Seq<char>,
)
    ensures
        ({
            let event = span_event(default_agent, span, trace_id, event_type, position);
            &&& bears(span.attributes, "gen_ai.conversation.id"@, id) ==> event.session_id == id
            &&& lacks(span.attributes, "gen_ai.conversation.id"@) && bears(
                span.attributes,
                "session.id"@,
                id,
            ) ==> event.session_id == id
            &&& lacks(span.attributes, "gen_ai.conversation.id"@) && lacks(
                span.attributes,
                "session.id"@,
            ) ==> event.session_id == trace_id
        }),
{
    law_last_attribute_counts(span.attributes, "gen_ai.conversation.id"@, id);
    law_last_attribute_counts(span.attributes, "session.id"@, id);
}

/// The agent of an event is the one that it names, or else the one that it gives an id of,
/// or else the one that it names in the other way, or else the one that is taken for granted.
pub proof fn law_agent_is_found(
    default_agent: Seq<char>,
    span: SpanView,
    trace_id: Seq<char>,
    event_type: EventType,
    position: int,
    id: Seq<char>,
)
    ensures
        ({
            let event = span_event(default_agent, span, trace_id, event_type, position);
            let unnamed = lacks(span.attributes, "gen_ai.agent.name"@);
            let without_id = lacks(span.attributes, "gen_ai.agent.id"@);
            &&& bears(span.attributes, "gen_ai.agent.name"@, id) ==> event.agent_id == id
            &&& unnamed && bears(span.attributes, "gen_ai.agent.id"@, id) ==> event.agent_id == id
            &&& unnamed && without_id && bears(span.attributes, "agent.name"@, id)
                ==> event.agent_id == id
            &&& unnamed && without_id && lacks(span.attributes, "agent.name"@) ==> event.agent_id
                == default_agent
        }),
{
    law_last_attribute_counts(span.attributes, "gen_ai.agent.name"@, id);
    law_last_attribute_counts(span.attributes, "gen_ai.agent.id"@, id);
    law_last_attribute_counts(span.attributes, "agent.name"@, id);
}

/// The tool, the provider and the model of an event are those that its span names, and none
/// where it names none. The preferred name of a tool wins.
pub proof fn law_tool_and_model_are_found(
    default_agent: Seq<char>,
    span: SpanView,
    trace_id: Seq<char>,
    event_type: EventType,
    position: int,
    name: Seq<char>,
)
    ensures
        ({
            let event = span_event(default_agent, span, trace_id, event_type, position);
            let plain = lacks(span.attributes, "gen_ai.tool.name"@);
            &&& bears(span.attributes, "gen_ai.tool.name"@, name) ==> event.tool_name == Some(name)
            &&& plain && bears(span.attributes, "tool.name"@, name) ==> event.tool_name == Some(
                name,
            )
            &&& plain && lacks(span.attributes, "tool.name"@) ==> event.tool_name is None
            &&& bears(span.attributes, "gen_ai.provider.name"@, name) ==> event.provider == Some(
                name,
            )
            &&& lacks(span.attributes, "gen_ai.provider.name"@) ==> event.provider is None
            &&& bears(span.attributes, "gen_ai.request.model"@, name) ==> event.model == Some(name)
            &&& lacks(span.attributes, "gen_ai.request.model"@) ==> event.model is None
        }),
{
    law_last_attribute_counts(span.attributes, "gen_ai.tool.name"@, name);
    law_last_attribute_counts(span.attributes, "tool.name"@, name);
    law_last_attribute_counts(span.attributes, "gen_ai.provider.name"@, name);
    law_last_attribute_counts(span.attributes, "gen_ai.request.model"@, name);
}

/// The attribute writes the number.
pub open spec fn counts(attributes: Seq<AttributeView>, name: Seq<char>, n: u64) -> bool {
    exists|text: Seq<char>| #[trigger] bears(attributes, name, text) && parsed_u64(text) == Some(n)
}

/// The attribute writes no number.
pub open spec fn counts_nothing(attributes: Seq<AttributeView>, name: Seq<char>) -> bool {
    lacks(attributes, name) || exists|text: Seq<char>| #[trigger]
        bears(attributes, name, text) && parsed_u64(text) is None
}

/// The tokens of an event are those that went in and those that came out, together. Where
/// that is nothing, they are the total that the span names, if it names one.
pub proof fn law_tokens_are_added(
    default_agent: Seq<char>,
    span: SpanView,
    trace_id: Seq<char>,
    event_type: EventType,
    position: int,
    input: u64,
    output: u64,
)
    requires
        counts(span.attributes, "gen_ai.usage.input_tokens"@, input) || (input == 0
            && counts_nothing(span.attributes, "gen_ai.usage.input_tokens"@)),
        counts(span.attributes, "gen_ai.usage.output_tokens"@, output) || (output == 0
            && counts_nothing(span.attributes, "gen_ai.usage.output_tokens"@)),
        input + output <= u64::MAX,
    ensures
        ({
            let event = span_event(default_agent, span, trace_id, event_type, position);
            let name = "llm.token_count.total"@;
            &&& input + output > 0 ==> event.token_count == Some((input + output) as u64)
            &&& forall|all: u64|
                input + output == 0 && #[trigger] counts(span.attributes, name, all)
                    ==> event.token_count == Some(all)
            &&& input + output == 0 && counts_nothing(span.attributes, name)
                ==> event.token_count is None
        }),
{
    lemma_counts(span.attributes, "gen_ai.usage.input_tokens"@, input);
    lemma_counts(span.attributes, "gen_ai.usage.output_tokens"@, output);
    let name = "llm.token_count.total"@;
    assert forall|all: u64| input + output == 0 && #[trigger] counts(
        span.attributes,
        name,
        all,
    ) implies span_event(default_agent, span, trace_id, event_type, position).token_count == Some(
        all,
    ) by {
        lemma_counts(span.attributes, name, all);
    }
    lemma_counts(span.attributes, name, 0);
}

proof fn lemma_counts(attributes: Seq<AttributeView>, name: Seq<char>, n: u64)
    ensures
        counts(attributes, name, n) ==> number_attribute(
            by_name(attributes),
            name,
        ) == Some(n),
        counts_nothing(attributes, name) ==> number_attribute(
            by_name(attributes),
            name,
        ) is None,
{
    if counts(attributes, name, n) {
        let text = choose|text: Seq<char>| #[trigger]
            bears(attributes, name, text) && parsed_u64(text) == Some(n);
        law_last_attribute_counts(attributes, name, text);
    }
    if counts_nothing(attributes, name) {
        if lacks(attributes, name) {
            law_last_attribute_counts(attributes, name, Seq::empty());
        } else {
            let text = choose|text: Seq<char>| #[trigger]
                bears(attributes, name, text) && parsed_u64(text) is None;
            law_last_attribute_counts(attributes, name, text);
        }
    }
}

// ---------------------------------------------------------------------------
// What a span shows
// ---------------------------------------------------------------------------

/// The status tells of an error.
pub open spec fn failed(status: Option<SpanStatus>) -> bool {
    status is Some && status->0.code == 2
}

proof fn lemma_operations_differ()
    ensures
        "execute_tool"@ != "chat"@,
        "execute_tool"@ != "invoke_agent"@,
        "execute_tool"@ != "create_agent"@,
        "chat"@ != "invoke_agent"@,
        "chat"@ != "create_agent"@,
        "TOOL"@ != "LLM"@,
        "TOOL"@ != "AGENT"@,
{
    reveal_strlit("execute_tool");
    reveal_strlit("chat");
    reveal_strlit("invoke_agent");
    reveal_strlit("create_agent");
    reveal_strlit("TOOL");
    reveal_strlit("LLM");
    reveal_strlit("AGENT");
    assert("execute_tool"@.len() == 12 && "execute_tool"@[0] == 'e');
    assert("chat"@.len() == 4);
    assert("invoke_agent"@.len() == 12 && "invoke_agent"@[0] == 'i');
    assert("create_agent"@.len() == 12 && "create_agent"@[0] == 'c');
    assert("TOOL"@.len() == 4);
    assert("LLM"@.len() == 3);
    assert("AGENT"@.len() == 5);
}

/// A span that names an operation is a tool at work, a message, or nothing, by that
/// operation alone; a tool at work is an error exactly where the status tells of one.
pub proof fn law_operation_decides(span: SpanView, operation: Seq<char>)
    requires
        bears(span.attributes, "gen_ai.operation.name"@, operation),
    ensures
        operation == "execute_tool"@ && failed(span.status) ==> span_shows(span) == Some(
            EventType::Error,
        ),
        operation == "execute_tool"@ && !failed(span.status) ==> span_shows(span) == Some(
            EventType::ToolCall,
        ),
        operation == "chat"@ && bears(span.attributes, "gen_ai.message.role"@, "user"@)
            ==> span_shows(span) == Some(EventType::UserMessage),
        forall|role: Seq<char>|
            operation == "chat"@ && role != "user"@ && #[trigger] bears(
                span.attributes,
                "gen_ai.message.role"@,
                role,
            ) ==> span_shows(span) == Some(EventType::AgentMessage),
        operation == "chat"@ && lacks(span.attributes, "gen_ai.message.role"@) ==> span_shows(span)
            == Some(EventType::AgentMessage),
        operation == "invoke_agent"@ || operation == "create_agent"@ ==> span_shows(span) is None,
        operation != "execute_tool"@ && operation != "chat"@ && operation != "invoke_agent"@
            && operation != "create_agent"@ ==> span_shows(span) == Some(EventType::AgentMessage),
{
    lemma_operations_differ();
    law_last_attribute_counts(span.attributes, "gen_ai.operation.name"@, operation);
    law_last_attribute_counts(span.attributes, "gen_ai.message.role"@, "user"@);
    assert forall|role: Seq<char>|
        operation == "chat"@ && role != "user"@ && #[trigger] bears(
            span.attributes,
            "gen_ai.message.role"@,
            role,
        ) implies span_shows(span) == Some(EventType::AgentMessage) by {
        law_last_attribute_counts(span.attributes, "gen_ai.message.role"@, role);
    }
}

/// A span that names no operation but a kind is a tool at work, a message, or nothing, by
/// that kind alone.
pub proof fn law_kind_decides(span: SpanView, kind: Seq<char>)
    requires
        lacks(span.attributes, "gen_ai.operation.name"@),
        bears(span.attributes, "openinference.span.kind"@, kind),
    ensures
        kind == "TOOL"@ && failed(span.status) ==> span_shows(span) == Some(EventType::Error),
        kind == "TOOL"@ && !failed(span.status) ==> span_shows(span) == Some(EventType::ToolCall),
        kind == "LLM"@ || kind == "AGENT"@ ==> span_shows(span) == Some(EventType::AgentMessage),
        kind != "TOOL"@ && kind != "LLM"@ && kind != "AGENT"@ ==> span_shows(span) is None,
{
    lemma_operations_differ();
    law_last_attribute_counts(span.attributes, "gen_ai.operation.name"@, kind);
    law_last_attribute_counts(span.attributes, "openinference.span.kind"@, kind);
}

/// A span that names neither is a tool at work exactly where the word stands in its name.
pub proof fn law_name_decides(span: SpanView, before: Seq<char>, behind: Seq<char>)
    requires
        lacks(span.attributes, "gen_ai.operation.name"@),
        lacks(span.attributes, "openinference.span.kind"@),
    ensures
        span.name == before + "tool"@ + behind && failed(span.status) ==> span_shows(span) == Some(
            EventType::Error,
        ),
        span.name == before + "tool"@ + behind && !failed(span.status) ==> span_shows(span) == Some(
            EventType::ToolCall,
        ),
        span_shows(span) is Some ==> exists|i: int|
            0 <= i <= span.name.len() - 4 && #[trigger] span.name.subrange(i, i + 4) == "tool"@,
{
    reveal_strlit("tool");
    law_last_attribute_counts(span.attributes, "gen_ai.operation.name"@, before);
    law_last_attribute_counts(span.attributes, "openinference.span.kind"@, before);
    let at = before.len() as int;
    if span.name == before + "tool"@ + behind {
        assert(span.name.subrange(at, at + 4) =~= "tool"@);
        assert(occurs_at(span.name, "tool"@, at));
    }
    if span_shows(span) is Some {
        let i = choose|i: int| occurs_at(span.name, "tool"@, i);
        assert(span.name.subrange(i, i + 4) == "tool"@);
    }
}

// ---------------------------------------------------------------------------
// Traces
// ---------------------------------------------------------------------------

/// The span shows something.
pub open spec fn showy() -> spec_fn(SpanView) -> bool {
    |span: SpanView| span_shows(span) is Some
}

/// The events of a trace are those of its spans that show something, one for each, in the
/// order of the spans and numbered from one.
pub proof fn law_trace_event_by_place(
    default_agent: Seq<char>,
    spans: Seq<SpanView>,
    trace_id: Seq<char>,
)
    ensures
        trace_events(default_agent, spans, trace_id).len() == picked(spans, showy()).len(),
        forall|k: int|
            0 <= k < picked(spans, showy()).len() ==> #[trigger] trace_events(
                default_agent,
                spans,
                trace_id,
            )[k] == span_event(
                default_agent,
                picked(spans, showy())[k],
                trace_id,
                span_shows(picked(spans, showy())[k])->0,
                k + 1,
            ),
    decreases spans.len(),
{
    if spans.len() > 0 {
        law_trace_event_by_place(default_agent, spans.drop_last(), trace_id);
    }
}

/// The events of a request never go back in time: of any two the earlier one in the list is
/// not later, to the nanosecond.
pub proof fn law_events_never_go_back(
    default_agent: Seq<char>,
    spans: Seq<SpanView>,
    i: int,
    j: int,
)
    requires
        0 <= i < j < events_of(default_agent, spans).len(),
    ensures
        ({
            let a = events_of(default_agent, spans)[i].timestamp;
            let b = events_of(default_agent, spans)[j].timestamp;
            ||| a.unix_seconds() < b.unix_seconds()
            ||| a.unix_seconds() == b.unix_seconds() && a.subsec_nanos() <= b.subsec_nanos()
        }),
{
    law_events_in_time_order(default_agent, spans);
    let events = events_of(default_agent, spans);
    assert(rank_order::<BehavioralEvent>()(events[i], events[j]));
}

/// In a trace the spans come by the time at which they start.
pub proof fn law_spans_come_as_they_start(spans: Seq<SpanView>)
    ensures
        ({
            let sorted = sorted_by(spans, rank_order::<OtlpSpan>());
            &&& sorted.to_multiset() == spans.to_multiset()
            &&& forall|i: int, j: int|
                0 <= i < j < sorted.len() ==> nanos_of(
                    (#[trigger] sorted[i]).start_time_unix_nano,
                ) <= nanos_of((#[trigger] sorted[j]).start_time_unix_nano)
        }),
{
    let le = rank_order::<OtlpSpan>();
    law_sort_is_stable(spans, le);
    let sorted = sorted_by(spans, le);
    assert forall|i: int, j: int| 0 <= i < j < sorted.len() implies nanos_of(
        (#[trigger] sorted[i]).start_time_unix_nano,
    ) <= nanos_of((#[trigger] sorted[j]).start_time_unix_nano) by {
        assert(le(sorted[i], sorted[j]));
    }
}

proof fn lemma_showing_at_most(spans: Seq<SpanView>, trace_id: Seq<char>)
    ensures
        showing(spans, trace_id) <= spans.len(),
    decreases spans.len(),
{
    if spans.len() > 0 {
        lemma_showing_at_most(spans.drop_last(), trace_id);
    }
}

/// Spans can be counted where 32 bits can count them and 64 bits can hold the tokens of each.
pub proof fn law_countable_spans(spans: Seq<SpanView>)
    requires
        spans.len() <= u32::MAX,
        forall|i: int|
            0 <= i < spans.len() ==> token_sum(by_name((#[trigger] spans[i]).attributes))
                <= u64::MAX,
    ensures
        countable(spans),
{
    assert forall|trace_id: Seq<char>| #[trigger] showing(spans, trace_id) <= u32::MAX by {
        lemma_showing_at_most(spans, trace_id);
    }
}

/// The tokens of a span are those that went in and those that came out; what is not named,
/// or is no number, counts as none.
pub proof fn law_token_sum(attributes: Seq<AttributeView>, input: u64, output: u64)
    requires
        counts(attributes, "gen_ai.usage.input_tokens"@, input) || (input == 0 && counts_nothing(
            attributes,
            "gen_ai.usage.input_tokens"@,
        )),
        counts(attributes, "gen_ai.usage.output_tokens"@, output) || (output == 0
            && counts_nothing(attributes, "gen_ai.usage.output_tokens"@)),
    ensures
        token_sum(by_name(attributes)) == input + output,
{
    lemma_counts(attributes, "gen_ai.usage.input_tokens"@, input);
    lemma_counts(attributes, "gen_ai.usage.output_tokens"@, output);
}

} // verus!
