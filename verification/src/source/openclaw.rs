//! OpenClaw session transcripts.

use vstd::prelude::*;
use vstd::string::*;
use vstd::utf8::encode_utf8;

use crate::event::{BehavioralEvent, EventType, EventView};
use crate::json::{
    explain, field_absent, field_optional_bool, field_optional_number, field_optional_string,
    field_string, fields_in, is_absent, json_at, opt_text, optional_bool_in,
    optional_number_in, optional_string_in, read_error, read_fields, read_json, read_string,
    string_at, string_in, Member, MemberView, ReadError, Shape, ShapeView,
};
use crate::order::{opt_view, views};
use crate::source::{keys_and_resources, keys_of, resources_of};
use crate::text::{byte_len, decimal, decimal_text, same_text};
use crate::time::{instant_in, Timestamp};

verus! {

// ---------------------------------------------------------------------------
// Lines
// ---------------------------------------------------------------------------

/// A transcript line.
#[derive(Debug)]
pub struct RawLine {
    pub line_type: String,
    /// The session that a session line opens.
    pub id: Option<String>,
    pub timestamp: Option<String>,
    pub message: Option<RawMessage>,
}

/// The message of a message line.
#[derive(Debug)]
pub struct RawMessage {
    pub role: String,
    pub content: Option<Content>,
    pub tool_name: Option<String>,
    pub total_tokens: Option<u64>,
    pub is_error: Option<bool>,
    pub provider: Option<String>,
    pub model: Option<String>,
}

/// What a message says, by its size and shape.
#[derive(Debug)]
pub struct Content {
    /// The bytes of its compact form.
    pub bytes: u64,
    /// The blocks, where it is a list of them.
    pub blocks: Option<Vec<Block>>,
}

/// A block of an assistant's message.
#[derive(Debug)]
pub struct Block {
    pub block_type: Option<String>,
    pub name: Option<String>,
    pub arguments: Option<Arguments>,
}

/// The arguments of a tool call.
#[derive(Debug)]
pub struct Arguments {
    /// The bytes of their compact form.
    pub bytes: u64,
    pub members: Vec<Member>,
}

/// The model of a `RawLine`.
#[verifier::ext_equal]
pub struct LineView {
    pub line_type: Seq<char>,
    pub id: Option<Seq<char>>,
    pub timestamp: Option<Seq<char>>,
    pub message: Option<MessageView>,
}

/// The model of a `RawMessage`.
#[verifier::ext_equal]
pub struct MessageView {
    pub role: Seq<char>,
    pub content: Option<ContentView>,
    pub tool_name: Option<Seq<char>>,
    pub total_tokens: Option<u64>,
    pub is_error: Option<bool>,
    pub provider: Option<Seq<char>>,
    pub model: Option<Seq<char>>,
}

/// The model of a `Content`.
#[verifier::ext_equal]
pub struct ContentView {
    pub bytes: u64,
    pub blocks: Option<Seq<BlockView>>,
}

/// The model of a `Block`.
#[verifier::ext_equal]
pub struct BlockView {
    pub block_type: Option<Seq<char>>,
    pub name: Option<Seq<char>>,
    pub arguments: Option<ArgumentsView>,
}

/// The model of `Arguments`.
#[verifier::ext_equal]
pub struct ArgumentsView {
    pub bytes: u64,
    pub members: Seq<MemberView>,
}

impl View for Arguments {
    type V = ArgumentsView;

    open spec fn view(&self) -> ArgumentsView {
        ArgumentsView { bytes: self.bytes, members: views(self.members@) }
    }
}

impl View for Block {
    type V = BlockView;

    open spec fn view(&self) -> BlockView {
        BlockView {
            block_type: opt_view(self.block_type),
            name: opt_view(self.name),
            arguments: opt_view(self.arguments),
        }
    }
}

impl View for Content {
    type V = ContentView;

    open spec fn view(&self) -> ContentView {
        ContentView {
            bytes: self.bytes,
            blocks: match self.blocks {
                Some(blocks) => Some(views(blocks@)),
                None => None,
            },
        }
    }
}

impl View for RawMessage {
    type V = MessageView;

    open spec fn view(&self) -> MessageView {
        MessageView {
            role: self.role@,
            content: opt_view(self.content),
            tool_name: opt_view(self.tool_name),
            total_tokens: self.total_tokens,
            is_error: self.is_error,
            provider: opt_view(self.provider),
            model: opt_view(self.model),
        }
    }
}

impl View for RawLine {
    type V = LineView;

    open spec fn view(&self) -> LineView {
        LineView {
            line_type: self.line_type@,
            id: opt_view(self.id),
            timestamp: opt_view(self.timestamp),
            message: opt_view(self.message),
        }
    }
}

/// The fields of a line.
pub open spec fn line_names() -> Seq<Seq<char>> {
    seq!["type"@, "id"@, "timestamp"@, "message"@]
}

/// The fields of a message.
pub open spec fn message_names() -> Seq<Seq<char>> {
    seq!["role"@, "content"@, "toolName"@, "usage"@, "isError"@, "provider"@, "model"@]
}

/// The text of a message's content as it is read: two levels down, as it stands in its
/// line.
pub open spec fn nested(content: Seq<char>) -> Seq<char> {
    "[["@ + content + "]]"@
}

/// The pointer to the block at position `i` of a nested content.
pub open spec fn block_pointer(i: nat) -> Seq<char> {
    "/0/0/"@ + decimal(i)
}

/// The block at position `i` of a nested content.
pub open spec fn block_in(content: Seq<char>, i: nat) -> BlockView {
    BlockView {
        block_type: string_at(content, block_pointer(i) + "/type"@),
        name: string_at(content, block_pointer(i) + "/name"@),
        arguments: match json_at(content, block_pointer(i) + "/arguments"@) {
            Some(node) => match node.shape {
                ShapeView::Object(members) => Some(
                    ArgumentsView { bytes: encode_utf8(node.text).len() as u64, members },
                ),
                _ => None,
            },
            None => None,
        },
    }
}

/// The content of a message; none where it cannot be read.
pub open spec fn content_in(field: Option<Seq<char>>) -> Option<Option<ContentView>> {
    match field {
        Some(text) => match json_at(nested(text), "/0/0"@) {
            Some(node) => match node.shape {
                ShapeView::Null => Some(None),
                ShapeView::Array(n) => Some(
                    Some(
                        ContentView {
                            bytes: encode_utf8(node.text).len() as u64,
                            blocks: Some(
                                Seq::new(n, |i: int| block_in(nested(text), i as nat)),
                            ),
                        },
                    ),
                ),
                _ => Some(
                    Some(
                        ContentView { bytes: encode_utf8(node.text).len() as u64, blocks: None },
                    ),
                ),
            },
            None => None,
        },
        None => Some(None),
    }
}

/// The token count of a message; none where it cannot be read.
pub open spec fn tokens_in(field: Option<Seq<char>>) -> Option<Option<u64>> {
    match field {
        Some(text) => if is_absent(field) {
            Some(None)
        } else {
            match fields_in(text, seq!["totalTokens"@], 1) {
                Some(usage) => optional_number_in(usage[0]),
                None => None,
            }
        },
        None => Some(None),
    }
}

/// The message of a line; none where it cannot be read.
pub open spec fn message_in(field: Option<Seq<char>>) -> Option<Option<MessageView>> {
    match field {
        Some(text) => if is_absent(field) {
            Some(None)
        } else {
            match fields_in(text, message_names(), 7) {
                Some(fields) => match (
                    string_in(fields[0]),
                    content_in(fields[1]),
                    optional_string_in(fields[2]),
                    tokens_in(fields[3]),
                    optional_bool_in(fields[4]),
                    optional_string_in(fields[5]),
                    optional_string_in(fields[6]),
                ) {
                    (
                        Some(role),
                        Some(content),
                        Some(tool_name),
                        Some(total_tokens),
                        Some(is_error),
                        Some(provider),
                        Some(model),
                    ) => Some(
                        Some(
                            MessageView {
                                role,
                                content,
                                tool_name,
                                total_tokens,
                                is_error,
                                provider,
                                model,
                            },
                        ),
                    ),
                    _ => None,
                },
                None => None,
            }
        },
        None => Some(None),
    }
}

/// The transcript line that a JSON text writes; none where it writes no such line.
pub open spec fn line_in(line: Seq<char>) -> Option<LineView> {
    match fields_in(line, line_names(), 4) {
        Some(fields) => match (
            string_in(fields[0]),
            optional_string_in(fields[1]),
            optional_string_in(fields[2]),
            message_in(fields[3]),
        ) {
            (Some(line_type), Some(id), Some(timestamp), Some(message)) => Some(
                LineView { line_type, id, timestamp, message },
            ),
            _ => None,
        },
        None => None,
    }
}

fn read_block(content: &str, i: usize) -> (r: Block)
    ensures
        r@ == block_in(content@, i as nat),
{
    let pointer = "/0/0/".to_owned().concat(decimal_text(i as u64).as_str());
    let arguments = match read_json(content, pointer.clone().concat("/arguments").as_str()) {
        Some(node) => match node.shape {
            Shape::Object(members) => Some(
                Arguments { bytes: byte_len(node.text.as_str()) as u64, members },
            ),
            _ => None,
        },
        None => None,
    };
    Block {
        block_type: read_string(content, pointer.clone().concat("/type").as_str()),
        name: read_string(content, pointer.concat("/name").as_str()),
        arguments,
    }
}

fn read_content(field: Option<&str>) -> (r: Option<Option<Content>>)
    ensures
        match r {
            Some(content) => content_in(opt_text(field)) == Some(opt_view(content)),
            None => content_in(opt_text(field)) is None,
        },
{
    let text = match field {
        Some(text) => text,
        None => {
            return Some(None);
        },
    };
    let content = "[[".to_owned().concat(text).concat("]]");
    let node = match read_json(content.as_str(), "/0/0") {
        Some(node) => node,
        None => {
            return None;
        },
    };
    let bytes: u64 = byte_len(node.text.as_str()) as u64;
    match node.shape {
        Shape::Null => Some(None),
        Shape::Array(n) => {
            let mut blocks: Vec<Block> = Vec::new();
            let mut i: usize = 0;
            while i < n
                invariant
                    i <= n,
                    views(blocks@) == Seq::new(i as nat, |k: int| block_in(content@, k as nat)),
                decreases n - i,
            {
                let ghost before = blocks@;
                let block = read_block(content.as_str(), i);
                proof {
                    assert(views(before.push(block)) =~= views(before).push(block@));
                    assert(Seq::new((i + 1) as nat, |k: int| block_in(content@, k as nat))
                        =~= Seq::new(i as nat, |k: int| block_in(content@, k as nat)).push(
                        block_in(content@, i as nat),
                    ));
                }
                blocks.push(block);
                i = i + 1;
            }
            Some(Some(Content { bytes, blocks: Some(blocks) }))
        },
        _ => Some(Some(Content { bytes, blocks: None })),
    }
}

fn read_tokens(field: Option<&str>) -> (r: Option<Option<u64>>)
    ensures
        r == tokens_in(opt_text(field)),
{
    let text = match field {
        Some(text) => text,
        None => {
            return Some(None);
        },
    };
    if field_absent(field) {
        return Some(None);
    }
    let names = vec!["totalTokens"];
    proof {
        assert(views(names@) =~= seq!["totalTokens"@]);
    }
    match read_fields(text, &names, 1) {
        Some(usage) => field_optional_number(usage[0]),
        None => None,
    }
}

fn read_message(field: Option<&str>) -> (r: Option<Option<RawMessage>>)
    ensures
        match r {
            Some(message) => message_in(opt_text(field)) == Some(opt_view(message)),
            None => message_in(opt_text(field)) is None,
        },
{
    let text = match field {
        Some(text) => text,
        None => {
            return Some(None);
        },
    };
    if field_absent(field) {
        return Some(None);
    }
    let names = vec!["role", "content", "toolName", "usage", "isError", "provider", "model"];
    proof {
        assert(views(names@) =~= message_names());
    }
    let fields = match read_fields(text, &names, 7) {
        Some(fields) => fields,
        None => {
            return None;
        },
    };
    match (
        field_string(fields[0]),
        read_content(fields[1]),
        field_optional_string(fields[2]),
        read_tokens(fields[3]),
        field_optional_bool(fields[4]),
        field_optional_string(fields[5]),
        field_optional_string(fields[6]),
    ) {
        (
            Some(role),
            Some(content),
            Some(tool_name),
            Some(total_tokens),
            Some(is_error),
            Some(provider),
            Some(model),
        ) => Some(
            Some(
                RawMessage {
                    role,
                    content,
                    tool_name,
                    total_tokens,
                    is_error,
                    provider,
                    model,
                },
            ),
        ),
        _ => None,
    }
}

/// Reads a transcript line.
pub fn read_line(line: &str) -> (r: Result<RawLine, ReadError>)
    ensures
        match r {
            Ok(raw) => line_in(line@) == Some(raw@),
            Err(e) => line_in(line@) is None && e == read_error(line@),
        },
{
    let names = vec!["type", "id", "timestamp", "message"];
    proof {
        assert(views(names@) =~= line_names());
    }
    let fields = match read_fields(line, &names, 4) {
        Some(fields) => fields,
        None => {
            return Err(explain(line));
        },
    };
    match (
        field_string(fields[0]),
        field_optional_string(fields[1]),
        field_optional_string(fields[2]),
        read_message(fields[3]),
    ) {
        (Some(line_type), Some(id), Some(timestamp), Some(message)) => Ok(
            RawLine { line_type, id, timestamp, message },
        ),
        _ => Err(explain(line)),
    }
}

// ---------------------------------------------------------------------------
// Events
// ---------------------------------------------------------------------------

/// Parses OpenClaw JSONL transcript lines into `BehavioralEvent`s.
///
/// Maintains session state (session ID, sequence position) across lines.
/// One JSONL line may produce zero or more events (e.g. an assistant message
/// with multiple tool calls produces one event per tool call).
#[derive(Debug)]
pub struct OpenClawParser {
    pub session_id: String,
    pub agent_id: String,
    pub sequence_position: u32,
}

/// The model of an `OpenClawParser`.
#[verifier::ext_equal]
pub struct ParserView {
    pub session_id: Seq<char>,
    pub agent_id: Seq<char>,
    pub sequence_position: u32,
}

impl View for OpenClawParser {
    type V = ParserView;

    open spec fn view(&self) -> ParserView {
        ParserView {
            session_id: self.session_id@,
            agent_id: self.agent_id@,
            sequence_position: self.sequence_position,
        }
    }
}

/// The tool calls among some blocks.
pub open spec fn tool_calls(blocks: Seq<BlockView>) -> Seq<BlockView>
    decreases blocks.len(),
{
    if blocks.len() == 0 {
        Seq::empty()
    } else {
        let before = tool_calls(blocks.drop_last());
        if blocks.last().block_type == Some("toolCall"@) {
            before.push(blocks.last())
        } else {
            before
        }
    }
}

/// Some block is text.
pub open spec fn has_text(blocks: Seq<BlockView>) -> bool {
    exists|i: int| 0 <= i < blocks.len() && (#[trigger] blocks[i]).block_type == Some("text"@)
}

/// The bytes of a message's content.
pub open spec fn content_bytes(message: MessageView) -> u64 {
    match message.content {
        Some(content) => content.bytes,
        None => 0,
    }
}

/// The blocks of a message.
pub open spec fn blocks_of(message: MessageView) -> Seq<BlockView> {
    match message.content {
        Some(content) => match content.blocks {
            Some(blocks) => blocks,
            None => Seq::empty(),
        },
        None => Seq::empty(),
    }
}

/// How many events a line makes.
pub open spec fn event_count(line: LineView) -> nat {
    match line.message {
        Some(message) => if line.line_type != "message"@ {
            0
        } else if message.role == "assistant"@ {
            let calls = tool_calls(blocks_of(message)).len();
            if calls == 0 && has_text(blocks_of(message)) {
                1
            } else {
                calls
            }
        } else if message.role == "user"@ || message.role == "toolResult"@ {
            1
        } else {
            0
        },
        None => 0,
    }
}

/// The time of a line: the one that it names, where it can be read, or else `now`.
pub open spec fn time_of(line: LineView, now: Timestamp) -> Timestamp {
    match line.timestamp {
        Some(text) => match instant_in(text) {
            Some(t) => t,
            None => now,
        },
        None => now,
    }
}

impl ParserView {
    /// An event of the current session of which no more is known than its kind.
    pub open spec fn bare_event(
        self,
        timestamp: Timestamp,
        event_type: EventType,
        position: int,
    ) -> EventView {
        EventView {
            timestamp,
            session_id: self.session_id,
            agent_id: self.agent_id,
            event_type,
            tool_name: None,
            param_keys: Seq::empty(),
            resource_ids: Seq::empty(),
            data_in_bytes: 0,
            data_out_bytes: 0,
            duration_ms: 0,
            token_count: None,
            sequence_position: position as u32,
            trace_id: None,
            span_id: None,
            provider: None,
            model: None,
        }
    }

    /// The event of a tool call.
    pub open spec fn call_event(
        self,
        message: MessageView,
        timestamp: Timestamp,
        call: BlockView,
        position: int,
    ) -> EventView {
        EventView {
            tool_name: call.name,
            param_keys: match call.arguments {
                Some(arguments) => keys_of(arguments.members),
                None => Seq::empty(),
            },
            resource_ids: match call.arguments {
                Some(arguments) => resources_of(arguments.members),
                None => Seq::empty(),
            },
            data_in_bytes: match call.arguments {
                Some(arguments) => arguments.bytes,
                None => 0,
            },
            token_count: message.total_tokens,
            provider: message.provider,
            model: message.model,
            ..self.bare_event(timestamp, EventType::ToolCall, position)
        }
    }

    /// The events of an assistant's message: one for each tool call; without any,
    /// one for the text, where there is some.
    pub open spec fn assistant_events(
        self,
        message: MessageView,
        timestamp: Timestamp,
    ) -> Seq<EventView> {
        let blocks = blocks_of(message);
        let calls = tool_calls(blocks);
        if calls.len() == 0 && has_text(blocks) {
            seq![
                EventView {
                    data_out_bytes: content_bytes(message),
                    token_count: message.total_tokens,
                    provider: message.provider,
                    model: message.model,
                    ..self.bare_event(
                        timestamp,
                        EventType::AgentMessage,
                        self.sequence_position + 1,
                    )
                },
            ]
        } else {
            Seq::new(
                calls.len(),
                |k: int|
                    self.call_event(
                        message,
                        timestamp,
                        calls[k],
                        self.sequence_position + k + 1,
                    ),
            )
        }
    }

    /// The events of a message.
    pub open spec fn message_events(
        self,
        message: MessageView,
        timestamp: Timestamp,
    ) -> Seq<EventView> {
        if message.role == "user"@ {
            seq![
                EventView {
                    data_in_bytes: content_bytes(message),
                    ..self.bare_event(
                        timestamp,
                        EventType::UserMessage,
                        self.sequence_position + 1,
                    )
                },
            ]
        } else if message.role == "assistant"@ {
            self.assistant_events(message, timestamp)
        } else if message.role == "toolResult"@ {
            seq![
                EventView {
                    tool_name: message.tool_name,
                    data_out_bytes: content_bytes(message),
                    ..self.bare_event(
                        timestamp,
                        if message.is_error == Some(true) {
                            EventType::Error
                        } else {
                            EventType::ToolResult
                        },
                        self.sequence_position + 1,
                    )
                },
            ]
        } else {
            Seq::empty()
        }
    }

    /// The events of a line.
    pub open spec fn events(self, line: LineView, timestamp: Timestamp) -> Seq<EventView> {
        match line.message {
            Some(message) => if line.line_type == "message"@ {
                self.message_events(message, timestamp)
            } else {
                Seq::empty()
            },
            None => Seq::empty(),
        }
    }

    /// The positions of the line's events can be counted.
    pub open spec fn has_room(self, line: LineView) -> bool {
        self.sequence_position + event_count(line) <= u32::MAX
    }

    /// What is remembered behind a line.
    pub open spec fn after(self, line: LineView) -> ParserView {
        if line.line_type == "session"@ {
            ParserView {
                session_id: match line.id {
                    Some(id) => id,
                    None => self.session_id,
                },
                agent_id: self.agent_id,
                sequence_position: 0,
            }
        } else {
            ParserView {
                session_id: self.session_id,
                agent_id: self.agent_id,
                sequence_position: (self.sequence_position + event_count(line)) as u32,
            }
        }
    }
}

/// The words that name kinds of blocks, roles and lines differ.
pub proof fn lemma_words_differ()
    ensures
        "toolCall"@ != "text"@,
        "user"@ != "assistant"@,
        "user"@ != "toolResult"@,
        "assistant"@ != "toolResult"@,
        "session"@ != "message"@,
{
    reveal_strlit("toolCall");
    reveal_strlit("text");
    reveal_strlit("user");
    reveal_strlit("assistant");
    reveal_strlit("toolResult");
    reveal_strlit("session");
    reveal_strlit("message");
    assert("user"@.len() != "assistant"@.len());
    assert("user"@.len() != "toolResult"@.len());
    assert("assistant"@.len() != "toolResult"@.len());
    assert("toolCall"@.len() != "text"@.len());
    assert("session"@[0] != "message"@[0]);
}

/// As many calls have come by position `i` as come in all, or fewer.
proof fn lemma_calls_grow(blocks: Seq<BlockView>, i: int)
    requires
        0 <= i <= blocks.len(),
    ensures
        tool_calls(blocks.take(i)).len() <= tool_calls(blocks).len(),
    decreases blocks.len(),
{
    if i == blocks.len() {
        assert(blocks.take(i) =~= blocks);
    } else {
        assert(blocks.drop_last().take(i) =~= blocks.take(i));
        lemma_calls_grow(blocks.drop_last(), i);
    }
}

/// What one block more adds to the calls and to the text.
proof fn lemma_next_block(blocks: Seq<BlockView>, i: int)
    requires
        0 <= i < blocks.len(),
    ensures
        tool_calls(blocks.take(i + 1)) == (if blocks[i].block_type == Some("toolCall"@) {
            tool_calls(blocks.take(i)).push(blocks[i])
        } else {
            tool_calls(blocks.take(i))
        }),
        has_text(blocks.take(i + 1)) == (has_text(blocks.take(i)) || blocks[i].block_type == Some(
            "text"@,
        )),
{
    let shorter = blocks.take(i);
    let longer = blocks.take(i + 1);
    assert(longer.drop_last() =~= shorter);
    assert(longer.last() == blocks[i]);
    if has_text(shorter) {
        let j = choose|j: int|
            0 <= j < shorter.len() && (#[trigger] shorter[j]).block_type == Some("text"@);
        assert(longer[j] == shorter[j]);
    }
    if blocks[i].block_type == Some("text"@) {
        assert(longer[i] == blocks[i]);
    }
    if has_text(longer) {
        let j = choose|j: int|
            0 <= j < longer.len() && (#[trigger] longer[j]).block_type == Some("text"@);
        if j < i {
            assert(longer[j] == shorter[j]);
        }
    }
}

/// Extract param keys, resource IDs, and data size from a tool call's arguments.
///
/// - `param_keys`: the keys of the arguments object (never values).
/// - `resource_ids`: values that look like file paths or URLs.
/// - `data_in_bytes`: serialized size of the arguments.
pub fn extract_argument_metadata(arguments: &Option<Arguments>) -> (r: (
    Vec<String>,
    Vec<String>,
    u64,
))
    ensures
        match *arguments {
            Some(a) => {
                &&& views(r.0@) == keys_of(a@.members)
                &&& views(r.1@) == resources_of(a@.members)
                &&& r.2 == a.bytes
            },
            None => r.0@.len() == 0 && r.1@.len() == 0 && r.2 == 0,
        },
{
    match arguments {
        Some(a) => {
            let (keys, resources) = keys_and_resources(&a.members);
            (keys, resources, a.bytes)
        },
        None => (Vec::new(), Vec::new(), 0),
    }
}

impl OpenClawParser {
    /// A parser that tags its events with `agent_id`.
    pub fn new(agent_id: &str) -> (r: Self)
        ensures
            r@ == (ParserView {
                session_id: Seq::empty(),
                agent_id: agent_id@,
                sequence_position: 0,
            }),
    {
        OpenClawParser {
            session_id: String::new(),
            agent_id: agent_id.to_owned(),
            sequence_position: 0,
        }
    }

    fn bare_event(&self, timestamp: Timestamp, event_type: EventType, position: u32) -> (r:
        BehavioralEvent)
        ensures
            r@ == self@.bare_event(timestamp, event_type, position as int),
    {
        let r = BehavioralEvent {
            timestamp,
            session_id: self.session_id.clone(),
            agent_id: self.agent_id.clone(),
            event_type,
            tool_name: None,
            param_keys: Vec::new(),
            resource_ids: Vec::new(),
            data_in_bytes: 0,
            data_out_bytes: 0,
            duration_ms: 0,
            token_count: None,
            sequence_position: position,
            trace_id: None,
            span_id: None,
            provider: None,
            model: None,
        };
        proof {
            assert(r@ =~= self@.bare_event(timestamp, event_type, position as int));
        }
        r
    }

    fn call_event(&self, message: &RawMessage, timestamp: Timestamp, call: &Block, position: u32)
        -> (r: BehavioralEvent)
        ensures
            r@ == self@.call_event(message@, timestamp, call@, position as int),
    {
        let (param_keys, resource_ids, data_in_bytes) = extract_argument_metadata(&call.arguments);
        let mut r = self.bare_event(timestamp, EventType::ToolCall, position);
        r.tool_name = call.name.clone();
        r.param_keys = param_keys;
        r.resource_ids = resource_ids;
        r.data_in_bytes = data_in_bytes;
        r.token_count = message.total_tokens;
        r.provider = message.provider.clone();
        r.model = message.model.clone();
        proof {
            assert(r@ =~= self@.call_event(message@, timestamp, call@, position as int));
        }
        r
    }

    /// The events of an assistant's message at the given time.
    pub fn parse_assistant_message(&mut self, message: &RawMessage, timestamp: Timestamp) -> (r:
        Vec<BehavioralEvent>)
        requires
            old(self).sequence_position + old(self)@.assistant_events(message@, timestamp).len()
                <= u32::MAX,
        ensures
            views(r@) == old(self)@.assistant_events(message@, timestamp),
            final(self)@ == (ParserView {
                sequence_position: (old(self).sequence_position + r@.len()) as u32,
                ..old(self)@
            }),
    {
        let ghost start = self@;
        let mut events: Vec<BehavioralEvent> = Vec::new();
        let content = match &message.content {
            Some(content) => content,
            None => {
                proof {
                    assert(views(events@) =~= start.assistant_events(message@, timestamp));
                }
                return events;
            },
        };
        let blocks = match &content.blocks {
            Some(blocks) => blocks,
            None => {
                proof {
                    assert(views(events@) =~= start.assistant_events(message@, timestamp));
                }
                return events;
            },
        };
        let ghost all = views(blocks@);
        let ghost calls = tool_calls(all);
        let mut text = false;
        let mut i: usize = 0;
        while i < blocks.len()
            invariant
                i <= blocks.len(),
                all == views(blocks@),
                calls == tool_calls(all),
                start.sequence_position + calls.len() <= u32::MAX,
                self@ == (ParserView {
                    sequence_position: (start.sequence_position + events@.len()) as u32,
                    ..start
                }),
                events@.len() == tool_calls(all.take(i as int)).len(),
                events@.len() <= calls.len(),
                views(events@) == Seq::new(
                    events@.len(),
                    |k: int|
                        start.call_event(
                            message@,
                            timestamp,
                            tool_calls(all.take(i as int))[k],
                            start.sequence_position + k + 1,
                        ),
                ),
                text == has_text(all.take(i as int)),
            decreases blocks.len() - i,
        {
            let block = &blocks[i];
            proof {
                lemma_next_block(all, i as int);
                lemma_calls_grow(all, i + 1);
                lemma_words_differ();
            }
            match &block.block_type {
                Some(block_type) => {
                    if same_text(block_type.as_str(), "toolCall") {
                        let ghost before = events@;
                        self.sequence_position = self.sequence_position + 1;
                        let event = self.call_event(
                            message,
                            timestamp,
                            block,
                            self.sequence_position,
                        );
                        proof {
                            assert(event@ == start.call_event(
                                message@,
                                timestamp,
                                block@,
                                start.sequence_position + before.len() + 1,
                            ));
                            assert(views(before.push(event)) =~= views(before).push(event@));
                        }
                        events.push(event);
                    } else if same_text(block_type.as_str(), "text") {
                        text = true;
                    }
                },
                None => {},
            }
            i = i + 1;
        }
        proof {
            assert(all.take(all.len() as int) =~= all);
        }
        if text && events.len() == 0 {
            self.sequence_position = self.sequence_position + 1;
            let mut event = self.bare_event(
                timestamp,
                EventType::AgentMessage,
                self.sequence_position,
            );
            event.data_out_bytes = content.bytes;
            event.token_count = message.total_tokens;
            event.provider = message.provider.clone();
            event.model = message.model.clone();
            events.push(event);
        }
        proof {
            assert(views(events@) =~= start.assistant_events(message@, timestamp));
        }
        events
    }

    /// The events of a message at the given time.
    pub fn parse_message(&mut self, message: &RawMessage, timestamp: Timestamp) -> (r: Vec<
        BehavioralEvent,
    >)
        requires
            old(self).sequence_position + old(self)@.message_events(message@, timestamp).len()
                <= u32::MAX,
        ensures
            views(r@) == old(self)@.message_events(message@, timestamp),
            final(self)@ == (ParserView {
                sequence_position: (old(self).sequence_position + r@.len()) as u32,
                ..old(self)@
            }),
    {
        let ghost start = self@;
        let mut events: Vec<BehavioralEvent> = Vec::new();
        let bytes: u64 = match &message.content {
            Some(content) => content.bytes,
            None => 0,
        };
        proof {
            lemma_words_differ();
        }
        if same_text(message.role.as_str(), "user") {
            self.sequence_position = self.sequence_position + 1;
            let mut event = self.bare_event(
                timestamp,
                EventType::UserMessage,
                self.sequence_position,
            );
            event.data_in_bytes = bytes;
            events.push(event);
        } else if same_text(message.role.as_str(), "assistant") {
            events = self.parse_assistant_message(message, timestamp);
        } else if same_text(message.role.as_str(), "toolResult") {
            let event_type = match message.is_error {
                Some(true) => EventType::Error,
                _ => EventType::ToolResult,
            };
            self.sequence_position = self.sequence_position + 1;
            let mut event = self.bare_event(timestamp, event_type, self.sequence_position);
            event.tool_name = message.tool_name.clone();
            event.data_out_bytes = bytes;
            events.push(event);
        }
        proof {
            assert(views(events@) =~= start.message_events(message@, timestamp));
        }
        events
    }

    /// The events of a line at the given time.
    pub fn parse_raw(&mut self, line: &RawLine, timestamp: Timestamp) -> (r: Vec<BehavioralEvent>)
        requires
            old(self)@.has_room(line@),
        ensures
            views(r@) == old(self)@.events(line@, timestamp),
            final(self)@ == old(self)@.after(line@),
    {
        let ghost start = self@;
        let mut events: Vec<BehavioralEvent> = Vec::new();
        proof {
            lemma_words_differ();
        }
        if same_text(line.line_type.as_str(), "session") {
            match &line.id {
                Some(id) => {
                    self.session_id = id.clone();
                },
                None => {},
            }
            self.sequence_position = 0;
        } else if same_text(line.line_type.as_str(), "message") {
            match &line.message {
                Some(message) => {
                    events = self.parse_message(message, timestamp);
                },
                None => {},
            }
        }
        proof {
            assert(views(events@) =~= start.events(line@, timestamp));
        }
        events
    }

    /// The time of a line: the one that it names, or else the current one.
    fn line_time(line: &RawLine) -> (r: Timestamp)
        ensures
            exists|now: Timestamp| r == #[trigger] time_of(line@, now),
    {
        let now = Timestamp::now();
        let r = match &line.timestamp {
            Some(text) => match Timestamp::parse(text.as_str()) {
                Some(t) => t,
                None => now,
            },
            None => now,
        };
        proof {
            assert(r == time_of(line@, now));
        }
        r
    }

    /// Parse a single JSONL line. Returns zero or more events.
    /// Skips lines that don't map to behavioral events (model changes, cache TTL, etc.).
    ///
    /// A line without a time that can be read is taken to come now.
    pub fn parse_line(&mut self, line: &str) -> (r: Result<Vec<BehavioralEvent>, ReadError>)
        requires
            match line_in(line@) {
                Some(raw) => old(self)@.has_room(raw),
                None => true,
            },
        ensures
            match line_in(line@) {
                Some(raw) => {
                    &&& final(self)@ == old(self)@.after(raw)
                    &&& match r {
                        Ok(events) => exists|now: Timestamp|
                            views(events@) == old(self)@.events(raw, #[trigger] time_of(raw, now)),
                        Err(_) => false,
                    }
                },
                None => r == Err::<Vec<BehavioralEvent>, ReadError>(read_error(line@)) && final(self)@
                    == old(self)@,
            },
    {
        match read_line(line) {
            Ok(raw) => {
                let timestamp = Self::line_time(&raw);
                Ok(self.parse_raw(&raw, timestamp))
            },
            Err(e) => Err(e),
        }
    }

    /// How many events a message line makes.
    fn count_events(line: &RawLine) -> (r: usize)
        ensures
            r == event_count(line@),
    {
        let message = match &line.message {
            Some(message) => message,
            None => {
                return 0;
            },
        };
        proof {
            lemma_words_differ();
        }
        if !same_text(line.line_type.as_str(), "message") {
            return 0;
        }
        if same_text(message.role.as_str(), "user") || same_text(message.role.as_str(), "toolResult") {
            return 1;
        }
        if !same_text(message.role.as_str(), "assistant") {
            return 0;
        }
        let content = match &message.content {
            Some(content) => content,
            None => {
                return 0;
            },
        };
        let blocks = match &content.blocks {
            Some(blocks) => blocks,
            None => {
                return 0;
            },
        };
        let ghost all = views(blocks@);
        let mut calls: usize = 0;
        let mut text = false;
        let mut i: usize = 0;
        while i < blocks.len()
            invariant
                i <= blocks.len(),
                all == views(blocks@),
                calls <= i,
                calls == tool_calls(all.take(i as int)).len(),
                text == has_text(all.take(i as int)),
            decreases blocks.len() - i,
        {
            let block = &blocks[i];
            proof {
                lemma_words_differ();
                lemma_next_block(all, i as int);
            }
            match &block.block_type {
                Some(block_type) => {
                    if same_text(block_type.as_str(), "toolCall") {
                        calls = calls + 1;
                    } else if same_text(block_type.as_str(), "text") {
                        text = true;
                    }
                },
                None => {},
            }
            i = i + 1;
        }
        proof {
            assert(all.take(all.len() as int) =~= all);
        }
        if calls == 0 && text {
            1
        } else {
            calls
        }
    }

    /// Parses a line where its events can still be counted; none where they cannot,
    /// and then nothing is changed.
    pub fn try_parse_line(&mut self, line: &str) -> (r: Option<
        Result<Vec<BehavioralEvent>, ReadError>,
    >)
        ensures
            match r {
                Some(result) => match line_in(line@) {
                    Some(raw) => {
                        &&& old(self)@.has_room(raw)
                        &&& final(self)@ == old(self)@.after(raw)
                        &&& match result {
                            Ok(events) => exists|now: Timestamp|
                                views(events@) == old(self)@.events(
                                    raw,
                                    #[trigger] time_of(raw, now),
                                ),
                            Err(_) => false,
                        }
                    },
                    None => result == Err::<Vec<BehavioralEvent>, ReadError>(read_error(line@))
                        && final(self)@ == old(self)@,
                },
                None => {
                    &&& final(self)@ == old(self)@
                    &&& match line_in(line@) {
                        Some(raw) => !old(self)@.has_room(raw),
                        None => false,
                    }
                },
            },
    {
        match read_line(line) {
            Ok(raw) => {
                let room: u32 = u32::MAX - self.sequence_position;
                if Self::count_events(&raw) > room as usize {
                    None
                } else {
                    Some(self.parse_line(line))
                }
            },
            Err(_) => Some(self.parse_line(line)),
        }
    }
}

} // verus!
