//! What a transcript line becomes, from its text to its events.

use vstd::prelude::*;
use vstd::utf8::encode_utf8;

use crate::event::{EventType, EventView};
use crate::json::{
    json_at, optional_bool_in, optional_number_in, optional_string_in, string_at, string_in,
    MemberView, NodeView, ShapeView,
};
use crate::json_laws::{
    is_null, is_record, law_other_texts_are_no_records, law_records_are_read, writes_record,
};
use crate::order::picked;
use crate::source::laws::names_resource;
use crate::source::openclaw::{
    blocks_of, content_in, has_text, lemma_words_differ, line_in, message_in, time_of, tokens_in,
    tool_calls, BlockView, ContentView, LineView, MessageView, ParserView,
};
use crate::source::span_laws::law_names_and_resources;
use crate::text::decimal;
use crate::time::{instant_in, parsed_utc, representable, Timestamp};

verus! {

// ---------------------------------------------------------------------------
// Events
// ---------------------------------------------------------------------------

/// The line carries a message of the role.
pub open spec fn speaks(line: LineView, message: MessageView, role: Seq<char>) -> bool {
    line.line_type == "message"@ && line.message == Some(message) && message.role == role
}

/// The event stands in the session and for the agent of the parser, at the time and the
/// place that it is given. It takes no time and belongs to no trace.
pub open spec fn stands_at(
    event: EventView,
    parser: ParserView,
    time: Timestamp,
    position: int,
) -> bool {
    &&& event.timestamp == time
    &&& event.session_id == parser.session_id
    &&& event.agent_id == parser.agent_id
    &&& event.sequence_position == position
    &&& event.duration_ms == 0
    &&& event.trace_id is None
    &&& event.span_id is None
}

/// The event touches no parameters and no resources.
pub open spec fn touches_nothing(event: EventView) -> bool {
    event.param_keys.len() == 0 && event.resource_ids.len() == 0
}

/// The event tells of no model.
pub open spec fn tells_no_model(event: EventView) -> bool {
    event.token_count is None && event.provider is None && event.model is None
}

/// A user's message is one event, and what it takes in is the bytes of its content; without
/// content it takes nothing in.
pub proof fn law_user_line(
    parser: ParserView,
    line: LineView,
    message: MessageView,
    time: Timestamp,
)
    requires
        speaks(line, message, "user"@),
        parser.sequence_position < u32::MAX,
    ensures
        ({
            let events = parser.events(line, time);
            &&& events.len() == 1
            &&& events[0].event_type == EventType::UserMessage
            &&& stands_at(events[0], parser, time, parser.sequence_position + 1)
            &&& touches_nothing(events[0])
            &&& tells_no_model(events[0])
            &&& events[0].tool_name is None
            &&& events[0].data_out_bytes == 0
            &&& message.content is Some ==> events[0].data_in_bytes == message.content->0.bytes
            &&& message.content is None ==> events[0].data_in_bytes == 0
        }),
{
    lemma_words_differ();
}

/// The result of a tool is one event of that tool, an error exactly where it says so, and
/// what it gives out is the bytes of its content; without content it gives nothing out.
pub proof fn law_tool_result_line(
    parser: ParserView,
    line: LineView,
    message: MessageView,
    time: Timestamp,
)
    requires
        speaks(line, message, "toolResult"@),
        parser.sequence_position < u32::MAX,
    ensures
        ({
            let events = parser.events(line, time);
            &&& events.len() == 1
            &&& message.is_error == Some(true) ==> events[0].event_type == EventType::Error
            &&& message.is_error != Some(true) ==> events[0].event_type == EventType::ToolResult
            &&& stands_at(events[0], parser, time, parser.sequence_position + 1)
            &&& touches_nothing(events[0])
            &&& tells_no_model(events[0])
            &&& events[0].tool_name == message.tool_name
            &&& events[0].data_in_bytes == 0
            &&& message.content is Some ==> events[0].data_out_bytes == message.content->0.bytes
            &&& message.content is None ==> events[0].data_out_bytes == 0
        }),
{
    lemma_words_differ();
}

/// The block is a tool call.
pub open spec fn is_tool_call() -> spec_fn(BlockView) -> bool {
    |block: BlockView| block.block_type == Some("toolCall"@)
}

proof fn lemma_tool_calls(blocks: Seq<BlockView>)
    ensures
        tool_calls(blocks) == picked(blocks, is_tool_call()),
    decreases blocks.len(),
{
    if blocks.len() > 0 {
        lemma_tool_calls(blocks.drop_last());
    }
}

/// The event is that of a tool call: its tool, the names of its arguments in their places,
/// those of their values that look like resources, and the bytes of the arguments, which are
/// what goes in. Nothing comes out yet. The message tells of tokens, provider and model.
pub open spec fn is_event_of(event: EventView, call: BlockView, message: MessageView) -> bool {
    &&& event.event_type == EventType::ToolCall
    &&& event.tool_name == call.name
    &&& event.data_out_bytes == 0
    &&& event.token_count == message.total_tokens
    &&& event.provider == message.provider
    &&& event.model == message.model
    &&& match call.arguments {
        Some(arguments) => {
            &&& event.data_in_bytes == arguments.bytes
            &&& event.param_keys.len() == arguments.members.len()
            &&& forall|k: int|
                0 <= k < arguments.members.len() ==> #[trigger] event.param_keys[k]
                    == arguments.members[k].key
            &&& event.resource_ids == picked(
                arguments.members,
                |m: MemberView| names_resource(m.string),
            ).map_values(|m: MemberView| m.string->0)
        },
        None => event.data_in_bytes == 0 && touches_nothing(event),
    }
}

/// An assistant's message with tool calls is one event for each of them, however many there
/// are, in their order, and no other.
pub proof fn law_assistant_calls_line(
    parser: ParserView,
    line: LineView,
    message: MessageView,
    blocks: Seq<BlockView>,
    time: Timestamp,
)
    requires
        speaks(line, message, "assistant"@),
        message.content is Some,
        message.content->0.blocks == Some(blocks),
        picked(blocks, is_tool_call()).len() > 0,
        parser.sequence_position + picked(blocks, is_tool_call()).len() <= u32::MAX,
    ensures
        ({
            let events = parser.events(line, time);
            let made = picked(blocks, is_tool_call());
            &&& events.len() == made.len()
            &&& forall|k: int|
                0 <= k < made.len() ==> is_event_of(#[trigger] events[k], made[k], message)
                    && stands_at(events[k], parser, time, parser.sequence_position + k + 1)
        }),
{
    lemma_words_differ();
    lemma_tool_calls(blocks);
    let events = parser.events(line, time);
    let made = picked(blocks, is_tool_call());
    assert forall|k: int| 0 <= k < made.len() implies is_event_of(
        #[trigger] events[k],
        made[k],
        message,
    ) && stands_at(events[k], parser, time, parser.sequence_position + k + 1) by {
        match made[k].arguments {
            Some(arguments) => {
                law_names_and_resources(arguments.members);
            },
            None => {},
        }
    }
}

/// An assistant's message without tool calls is one event where a block of it is text, and
/// what it gives out is the bytes of its content; without text it is none.
pub proof fn law_assistant_speaks_line(
    parser: ParserView,
    line: LineView,
    message: MessageView,
    content: ContentView,
    blocks: Seq<BlockView>,
    time: Timestamp,
)
    requires
        speaks(line, message, "assistant"@),
        message.content == Some(content),
        content.blocks == Some(blocks),
        forall|i: int|
            0 <= i < blocks.len() ==> (#[trigger] blocks[i]).block_type != Some("toolCall"@),
        parser.sequence_position < u32::MAX,
    ensures
        ({
            let events = parser.events(line, time);
            &&& (exists|i: int|
                0 <= i < blocks.len() && (#[trigger] blocks[i]).block_type == Some("text"@)) ==> {
                &&& events.len() == 1
                &&& events[0].event_type == EventType::AgentMessage
                &&& stands_at(events[0], parser, time, parser.sequence_position + 1)
                &&& touches_nothing(events[0])
                &&& events[0].tool_name is None
                &&& events[0].data_in_bytes == 0
                &&& events[0].data_out_bytes == content.bytes
                &&& events[0].token_count == message.total_tokens
                &&& events[0].provider == message.provider
                &&& events[0].model == message.model
            }
            &&& (forall|i: int|
                0 <= i < blocks.len() ==> (#[trigger] blocks[i]).block_type != Some("text"@))
                ==> events.len() == 0
        }),
{
    lemma_words_differ();
    lemma_no_calls(blocks);
    assert(blocks_of(message) == blocks);
    if exists|i: int|
        0 <= i < blocks.len() && (#[trigger] blocks[i]).block_type == Some("text"@) {
        assert(has_text(blocks));
    }
}

proof fn lemma_no_calls(blocks: Seq<BlockView>)
    requires
        forall|i: int|
            0 <= i < blocks.len() ==> (#[trigger] blocks[i]).block_type != Some("toolCall"@),
    ensures
        tool_calls(blocks).len() == 0,
    decreases blocks.len(),
{
    if blocks.len() > 0 {
        let short = blocks.drop_last();
        assert forall|i: int| 0 <= i < short.len() implies (#[trigger] short[i]).block_type != Some(
            "toolCall"@,
        ) by {
            assert(short[i] == blocks[i]);
        }
        lemma_no_calls(short);
        assert(blocks[blocks.len() - 1].block_type != Some("toolCall"@));
    }
}

/// Nothing comes of a line without a message, of a line that is no message line, of an
/// assistant whose content is no list of blocks, and of any other role.
pub proof fn law_silent_lines(parser: ParserView, line: LineView, time: Timestamp)
    ensures
        line.message is None ==> parser.events(line, time).len() == 0,
        line.line_type != "message"@ ==> parser.events(line, time).len() == 0,
        line.message is Some && line.message->0.role == "assistant"@ && (
        line.message->0.content is None || line.message->0.content->0.blocks is None)
            ==> parser.events(line, time).len() == 0,
        line.message is Some && line.message->0.role != "user"@ && line.message->0.role
            != "assistant"@ && line.message->0.role != "toolResult"@ ==> parser.events(
            line,
            time,
        ).len() == 0,
{
    lemma_words_differ();
}

/// Behind a line the parser stands as many places further as the line made events; a line
/// that opens a session sets it back to the start, in the session that the line names.
pub proof fn law_parser_moves_on(parser: ParserView, line: LineView, time: Timestamp)
    requires
        parser.sequence_position + parser.events(line, time).len() <= u32::MAX,
    ensures
        parser.has_room(line),
        line.line_type != "session"@ ==> {
            &&& parser.after(line).sequence_position == parser.sequence_position + parser.events(
                line,
                time,
            ).len()
            &&& parser.after(line).session_id == parser.session_id
        },
        line.line_type == "session"@ ==> {
            &&& parser.after(line).sequence_position == 0
            &&& line.id is Some ==> parser.after(line).session_id == line.id->0
            &&& line.id is None ==> parser.after(line).session_id == parser.session_id
        },
        parser.after(line).agent_id == parser.agent_id,
{
    lemma_words_differ();
    crate::source::laws::law_events_are_counted(parser, line, time);
}

/// A line comes at the time that it writes, to the nanosecond, and where it writes none that
/// can be read, now.
pub proof fn law_lines_are_dated(line: LineView, now: Timestamp, text: Seq<char>, s: i64, n: u32)
    ensures
        line.timestamp is None ==> time_of(line, now) == now,
        line.timestamp == Some(text) && parsed_utc(text) is None ==> time_of(line, now) == now,
        line.timestamp == Some(text) && parsed_utc(text) == Some((s, n)) && representable(
            s as int,
            n as int,
        ) ==> time_of(line, now).unix_seconds() == s && time_of(line, now).subsec_nanos() == n,
        parsed_utc(text) is None <==> instant_in(text) is None,
{
    if representable(s as int, n as int) {
        Timestamp::law_has_its_parts(s as int, n as int);
    }
}

// ---------------------------------------------------------------------------
// Texts
// ---------------------------------------------------------------------------

/// The content of a message is as large as its compact form. Where it is a list, it has as
/// many blocks as the list has items, and each block has the kind, the name and the
/// arguments that stand there; null is no content.
pub proof fn law_content_is_read(text: Seq<char>)
    ensures
        content_in(None) == Some(None::<ContentView>),
        match json_at("[["@ + text + "]]"@, "/0/0"@) {
            None => content_in(Some(text)) is None,
            Some(NodeView { text: _, shape: ShapeView::Null }) => content_in(Some(text)) == Some(
                None::<ContentView>,
            ),
            Some(node) => {
                let read = content_in(Some(text));
                let content = (read->0)->0;
                &&& read is Some
                &&& read->0 is Some
                &&& encode_utf8(node.text).len() <= u64::MAX ==> content.bytes == encode_utf8(
                    node.text,
                ).len()
                &&& match node.shape {
                    ShapeView::Array(n) => {
                        &&& content.blocks is Some
                        &&& content.blocks->0.len() == n
                        &&& forall|i: int|
                            0 <= i < n ==> is_block_at(
                                #[trigger] content.blocks->0[i],
                                "[["@ + text + "]]"@,
                                "/0/0/"@ + decimal(i as nat),
                            )
                    },
                    _ => content.blocks is None,
                }
            },
        },
{
}

/// The block is the one to which the pointer leads.
pub open spec fn is_block_at(block: BlockView, text: Seq<char>, pointer: Seq<char>) -> bool {
    &&& block.block_type == string_at(text, pointer + "/type"@)
    &&& block.name == string_at(text, pointer + "/name"@)
    &&& match json_at(text, pointer + "/arguments"@) {
        Some(NodeView { text: compact, shape: ShapeView::Object(members) }) => {
            &&& block.arguments is Some
            &&& block.arguments->0.members == members
            &&& encode_utf8(compact).len() <= u64::MAX ==> block.arguments->0.bytes == encode_utf8(
                compact,
            ).len()
        },
        _ => block.arguments is None,
    }
}

/// The tokens of a message are the total that its usage names.
pub proof fn law_usage_is_read(text: Seq<char>, total: Option<Seq<char>>)
    requires
        !is_null(text),
        writes_record(text, seq!["totalTokens"@], 1, seq![total]),
    ensures
        tokens_in(Some(text)) == optional_number_in(total),
{
    law_records_are_read(text, seq!["totalTokens"@], 1, seq![total]);
}

/// A usage that is left out or null tells of no tokens, and one that is no record of them is
/// an error.
pub proof fn law_usage_may_be_left_out(text: Seq<char>)
    ensures
        tokens_in(None) == Some(None::<u64>),
        is_null(text) ==> tokens_in(Some(text)) == Some(None::<u64>),
        !is_null(text) && !is_record(text, seq!["totalTokens"@], 1) ==> tokens_in(
            Some(text),
        ) is None,
{
    law_other_texts_are_no_records(text, seq!["totalTokens"@], 1);
}

/// A line is read exactly where its text writes a record of its four fields and each of them
/// can be read, and then it has what they hold.
pub proof fn law_line_is_read(
    text: Seq<char>,
    kind: Option<Seq<char>>,
    id: Option<Seq<char>>,
    timestamp: Option<Seq<char>>,
    message: Option<Seq<char>>,
)
    requires
        writes_record(
            text,
            seq!["type"@, "id"@, "timestamp"@, "message"@],
            4,
            seq![kind, id, timestamp, message],
        ),
    ensures
        line_in(text) is Some <==> string_in(kind) is Some && optional_string_in(id) is Some
            && optional_string_in(timestamp) is Some && message_in(message) is Some,
        line_in(text) is Some ==> {
            let line = line_in(text)->0;
            &&& Some(line.line_type) == string_in(kind)
            &&& Some(line.id) == optional_string_in(id)
            &&& Some(line.timestamp) == optional_string_in(timestamp)
            &&& Some(line.message) == message_in(message)
        },
{
    law_records_are_read(
        text,
        seq!["type"@, "id"@, "timestamp"@, "message"@],
        4,
        seq![kind, id, timestamp, message],
    );
}

/// What writes no record of the four fields is no line, and what writes no record of the
/// seven fields is no message.
pub proof fn law_other_texts_are_no_lines(text: Seq<char>)
    ensures
        !is_record(text, seq!["type"@, "id"@, "timestamp"@, "message"@], 4) ==> line_in(
            text,
        ) is None,
        !is_null(text) && !is_record(
            text,
            seq!["role"@, "content"@, "toolName"@, "usage"@, "isError"@, "provider"@, "model"@],
            7,
        ) ==> message_in(Some(text)) is None,
        is_null(text) ==> message_in(Some(text)) == Some(None::<MessageView>),
{
    law_other_texts_are_no_records(text, seq!["type"@, "id"@, "timestamp"@, "message"@], 4);
    law_other_texts_are_no_records(
        text,
        seq!["role"@, "content"@, "toolName"@, "usage"@, "isError"@, "provider"@, "model"@],
        7,
    );
}

/// A message is read exactly where its text writes a record of its seven fields and each of
/// them can be read, and then it has what they hold.
pub proof fn law_message_is_read(
    text: Seq<char>,
    role: Option<Seq<char>>,
    content: Option<Seq<char>>,
    tool_name: Option<Seq<char>>,
    usage: Option<Seq<char>>,
    is_error: Option<Seq<char>>,
    provider: Option<Seq<char>>,
    model: Option<Seq<char>>,
)
    requires
        !is_null(text),
        writes_record(
            text,
            seq!["role"@, "content"@, "toolName"@, "usage"@, "isError"@, "provider"@, "model"@],
            7,
            seq![role, content, tool_name, usage, is_error, provider, model],
        ),
    ensures
        message_in(Some(text)) is Some <==> string_in(role) is Some && content_in(content) is Some
            && optional_string_in(tool_name) is Some && tokens_in(usage) is Some
            && optional_bool_in(is_error) is Some && optional_string_in(provider) is Some
            && optional_string_in(model) is Some,
        message_in(Some(text)) is Some ==> {
            let message = (message_in(Some(text))->0)->0;
            &&& message_in(Some(text))->0 is Some
            &&& Some(message.role) == string_in(role)
            &&& Some(message.content) == content_in(content)
            &&& Some(message.tool_name) == optional_string_in(tool_name)
            &&& Some(message.total_tokens) == tokens_in(usage)
            &&& Some(message.is_error) == optional_bool_in(is_error)
            &&& Some(message.provider) == optional_string_in(provider)
            &&& Some(message.model) == optional_string_in(model)
        },
        message_in(None) == Some(None::<MessageView>),
{
    law_records_are_read(
        text,
        seq!["role"@, "content"@, "toolName"@, "usage"@, "isError"@, "provider"@, "model"@],
        7,
        seq![role, content, tool_name, usage, is_error, provider, model],
    );
}

/// From the text of a line to its event: what the result of a tool gives out is the bytes of
/// the compact form of its content, and nothing where the content is left out.
pub proof fn law_result_text_is_measured(
    parser: ParserView,
    time: Timestamp,
    text: Seq<char>,
    head: Seq<Option<Seq<char>>>,
    said: Seq<char>,
    parts: Seq<Option<Seq<char>>>,
    line: LineView,
)
    requires
        line_in(text) == Some(line),
        writes_record(text, seq!["type"@, "id"@, "timestamp"@, "message"@], 4, head),
        head[3] == Some(said),
        !is_null(said),
        writes_record(
            said,
            seq!["role"@, "content"@, "toolName"@, "usage"@, "isError"@, "provider"@, "model"@],
            7,
            parts,
        ),
        line.line_type == "message"@,
        string_in(parts[0]) == Some("toolResult"@),
        parser.sequence_position < u32::MAX,
    ensures
        parser.events(line, time).len() == 1,
        parts[1] is None ==> parser.events(line, time)[0].data_out_bytes == 0,
        parts[1] is Some ==> match json_at("[["@ + parts[1]->0 + "]]"@, "/0/0"@) {
            Some(NodeView { text: _, shape: ShapeView::Null }) => parser.events(
                line,
                time,
            )[0].data_out_bytes == 0,
            Some(node) => encode_utf8(node.text).len() <= u64::MAX ==> parser.events(
                line,
                time,
            )[0].data_out_bytes == encode_utf8(node.text).len(),
            None => false,
        },
{
    assert(head =~= seq![head[0], head[1], head[2], head[3]]);
    law_line_is_read(text, head[0], head[1], head[2], head[3]);
    assert(parts =~= seq![parts[0], parts[1], parts[2], parts[3], parts[4], parts[5], parts[6]]);
    law_message_is_read(
        said,
        parts[0],
        parts[1],
        parts[2],
        parts[3],
        parts[4],
        parts[5],
        parts[6],
    );
    law_tool_result_line(parser, line, line.message->0, time);
    if parts[1] is Some {
        law_content_is_read(parts[1]->0);
    } else {
        law_content_is_read(Seq::empty());
    }
}

} // verus!
