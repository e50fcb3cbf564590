use std::collections::HashMap;

use serde_json::{Map as JsonMap, Value};
use vigil::baseline::Bigram;
use vigil::event::EventType;
use vigil::json::{Member, ReadError};
use vigil::source::looks_like_resource;
use vigil::source::openclaw::{
    extract_argument_metadata, read_line, Arguments, Block, Content, OpenClawParser, RawLine,
    RawMessage,
};
use vigil::time::Timestamp;

fn session_line() -> String {
    r#"{"type":"session","version":3,"id":"test-session-123","timestamp":"2026-02-20T21:55:55.066Z","cwd":"/tmp"}"#.to_string()
}

fn user_message_line() -> String {
    r#"{"type":"message","id":"msg1","parentId":"prev","timestamp":"2026-02-20T21:56:49.041Z","message":{"role":"user","content":[{"type":"text","text":"hello"}],"timestamp":1771624609040}}"#.to_string()
}

fn assistant_text_line() -> String {
    r#"{"type":"message","id":"msg2","parentId":"msg1","timestamp":"2026-02-20T21:56:02.723Z","message":{"role":"assistant","content":[{"type":"text","text":"Hello! How can I help?"}],"api":"anthropic-messages","provider":"anthropic","model":"sonnet-4-6","usage":{"input":10,"output":256,"cacheRead":0,"cacheWrite":14247,"totalTokens":14513,"cost":{"input":0.00003,"output":0.00384,"total":0.05729625}},"stopReason":"stop","timestamp":1771624555076}}"#.to_string()
}

fn assistant_tool_call_line() -> String {
    r##"{"type":"message","id":"msg3","parentId":"msg2","timestamp":"2026-02-20T21:56:58.914Z","message":{"role":"assistant","content":[{"type":"text","text":"Let me write that file."},{"type":"toolCall","id":"toolu_123","name":"write","arguments":{"file_path":"/Users/oliver/test.md","content":"# Hello"}}],"api":"anthropic-messages","provider":"anthropic","model":"sonnet-4-6","usage":{"input":10,"output":470,"totalTokens":15105},"stopReason":"toolUse","timestamp":1771624609041}}"##.to_string()
}

fn tool_result_line() -> String {
    r#"{"type":"message","id":"msg4","parentId":"msg3","timestamp":"2026-02-20T21:56:58.928Z","message":{"role":"toolResult","toolCallId":"toolu_123","toolName":"write","content":[{"type":"text","text":"Successfully wrote 7 bytes to /Users/oliver/test.md"}],"isError":false,"timestamp":1771624618925}}"#.to_string()
}

fn tool_result_error_line() -> String {
    r#"{"type":"message","id":"msg5","parentId":"msg3","timestamp":"2026-02-20T21:57:00.000Z","message":{"role":"toolResult","toolCallId":"toolu_456","toolName":"exec","content":[{"type":"text","text":"Permission denied"}],"isError":true,"timestamp":1771624620000}}"#.to_string()
}

fn model_change_line() -> String {
    r#"{"type":"model_change","id":"mc1","parentId":null,"timestamp":"2026-02-20T21:55:55.069Z","provider":"anthropic","modelId":"sonnet-4-6"}"#.to_string()
}

#[test]
fn session_line_sets_session_id() {
    let mut parser = OpenClawParser::new("test-agent");
    let events = parser.parse_line(&session_line()).unwrap();
    assert!(events.is_empty());
    assert_eq!(parser.session_id, "test-session-123");
    assert_eq!(parser.sequence_position, 0);
}

#[test]
fn user_message_produces_event() {
    let mut parser = OpenClawParser::new("test-agent");
    parser.parse_line(&session_line()).unwrap();

    let events = parser.parse_line(&user_message_line()).unwrap();
    assert_eq!(events.len(), 1);
    assert_eq!(events[0].event_type, EventType::UserMessage);
    assert_eq!(events[0].session_id, "test-session-123");
    assert_eq!(events[0].agent_id, "test-agent");
    assert_eq!(events[0].sequence_position, 1);
    assert!(events[0].data_in_bytes > 0);
}

#[test]
fn assistant_text_only_produces_agent_message() {
    let mut parser = OpenClawParser::new("test-agent");
    parser.parse_line(&session_line()).unwrap();

    let events = parser.parse_line(&assistant_text_line()).unwrap();
    assert_eq!(events.len(), 1);
    assert_eq!(events[0].event_type, EventType::AgentMessage);
    assert_eq!(events[0].token_count, Some(14513));
}

#[test]
fn assistant_tool_call_produces_tool_call_event() {
    let mut parser = OpenClawParser::new("test-agent");
    parser.parse_line(&session_line()).unwrap();

    let events = parser.parse_line(&assistant_tool_call_line()).unwrap();
    assert_eq!(events.len(), 1);
    assert_eq!(events[0].event_type, EventType::ToolCall);
    assert_eq!(events[0].tool_name.as_deref(), Some("write"));
    assert!(events[0].param_keys.contains(&"file_path".to_string()));
    assert!(events[0].param_keys.contains(&"content".to_string()));
    assert!(
        events[0]
            .resource_ids
            .contains(&"/Users/oliver/test.md".to_string())
    );
    assert!(events[0].data_in_bytes > 0);
    assert_eq!(events[0].token_count, Some(15105));
}

#[test]
fn tool_result_produces_event() {
    let mut parser = OpenClawParser::new("test-agent");
    parser.parse_line(&session_line()).unwrap();

    let events = parser.parse_line(&tool_result_line()).unwrap();
    assert_eq!(events.len(), 1);
    assert_eq!(events[0].event_type, EventType::ToolResult);
    assert_eq!(events[0].tool_name.as_deref(), Some("write"));
    assert!(events[0].data_out_bytes > 0);
}

#[test]
fn tool_result_error_produces_error_event() {
    let mut parser = OpenClawParser::new("test-agent");
    parser.parse_line(&session_line()).unwrap();

    let events = parser.parse_line(&tool_result_error_line()).unwrap();
    assert_eq!(events.len(), 1);
    assert_eq!(events[0].event_type, EventType::Error);
    assert_eq!(events[0].tool_name.as_deref(), Some("exec"));
}

#[test]
fn skips_irrelevant_line_types() {
    let mut parser = OpenClawParser::new("test-agent");
    let events = parser.parse_line(&model_change_line()).unwrap();
    assert!(events.is_empty());
}

#[test]
fn sequence_position_increments() {
    let mut parser = OpenClawParser::new("test-agent");
    parser.parse_line(&session_line()).unwrap();

    parser.parse_line(&user_message_line()).unwrap();
    let events = parser.parse_line(&assistant_tool_call_line()).unwrap();
    assert_eq!(events[0].sequence_position, 2);

    let events = parser.parse_line(&tool_result_line()).unwrap();
    assert_eq!(events[0].sequence_position, 3);
}

#[test]
fn resource_extraction_heuristics() {
    assert!(looks_like_resource("/usr/bin/env"));
    assert!(looks_like_resource("~/Documents/file.txt"));
    assert!(looks_like_resource("https://example.com"));
    assert!(looks_like_resource("http://localhost:8080"));
    assert!(!looks_like_resource("just some text"));
    assert!(!looks_like_resource("file.txt"));
}

#[test]
fn assistant_null_content() {
    let mut parser = OpenClawParser::new("test-agent");
    parser.parse_line(&session_line()).unwrap();

    let line = r#"{"type":"message","id":"m1","parentId":null,"timestamp":"2026-02-20T10:00:00.000Z","message":{"role":"assistant","content":null,"usage":{"totalTokens":10},"timestamp":1771624609040}}"#;
    let events = parser.parse_line(line).unwrap();
    assert!(events.is_empty(), "null content should produce no events");
}

#[test]
fn session_line_without_id() {
    let mut parser = OpenClawParser::new("test-agent");

    // First set a known session_id.
    parser.parse_line(&session_line()).unwrap();
    assert_eq!(parser.session_id, "test-session-123");

    // Session line without "id" field: session_id should stay unchanged.
    let no_id_line =
        r#"{"type":"session","version":3,"timestamp":"2026-02-20T12:00:00.000Z","cwd":"/tmp"}"#;
    let events = parser.parse_line(no_id_line).unwrap();
    assert!(events.is_empty());
    assert_eq!(
        parser.session_id, "test-session-123",
        "session_id should remain unchanged when no id in session line"
    );
    assert_eq!(
        parser.sequence_position, 0,
        "sequence_position should reset"
    );
}

#[test]
fn bigram_serialization_roundtrips() {
    let mut bigrams: HashMap<Bigram, u64> = HashMap::new();
    bigrams.insert(Bigram::new("read", "write"), 5);
    bigrams.insert(Bigram::new("exec", "read"), 3);

    let mut object = JsonMap::new();
    for (bigram, count) in &bigrams {
        object.insert(bigram.to_string(), Value::from(*count));
    }
    let json = serde_json::to_string(&object).unwrap();
    let read: JsonMap<String, Value> = serde_json::from_str(&json).unwrap();
    let roundtripped: HashMap<Bigram, u64> = read
        .iter()
        .map(|(k, v)| (Bigram::parse(k).unwrap(), v.as_u64().unwrap()))
        .collect();
    assert_eq!(bigrams, roundtripped);
}

// ---------------------------------------------------------------------------

fn message(role: &str) -> RawMessage {
    RawMessage {
        role: role.to_string(),
        content: None,
        tool_name: None,
        total_tokens: None,
        is_error: None,
        provider: None,
        model: None,
    }
}

fn line(line_type: &str, message: Option<RawMessage>) -> RawLine {
    RawLine {
        line_type: line_type.to_string(),
        id: None,
        timestamp: None,
        message,
    }
}

fn block(block_type: &str, name: &str) -> Block {
    Block {
        block_type: Some(block_type.to_string()),
        name: Some(name.to_string()),
        arguments: None,
    }
}

fn noon() -> Timestamp {
    Timestamp::from_unix(43_200, 7).unwrap()
}

#[test]
fn lines_that_cannot_be_read() {
    let mut parser = OpenClawParser::new("a");
    parser.parse_line(&session_line()).unwrap();
    for (text, error) in [
        ("this is not valid json at all", ReadError::NotJson),
        ("", ReadError::NotJson),
        ("{", ReadError::NotJson),
        ("null", ReadError::Unexpected),
        ("{}", ReadError::Unexpected),
        (r#"{"type":3}"#, ReadError::Unexpected),
        (r#"{"type":"session","id":3}"#, ReadError::Unexpected),
        (r#"{"type":"x","timestamp":3}"#, ReadError::Unexpected),
        (r#"{"type":"x","message":"hi"}"#, ReadError::Unexpected),
        (r#"{"type":"x","message":{}}"#, ReadError::Unexpected),
        (r#"{"type":"x","message":{"role":null}}"#, ReadError::Unexpected),
        (r#"{"type":"x","message":{"role":"user","toolName":1}}"#, ReadError::Unexpected),
        (r#"{"type":"x","message":{"role":"user","usage":1}}"#, ReadError::Unexpected),
        (r#"{"type":"x","message":{"role":"user","usage":{"totalTokens":-1}}}"#, ReadError::Unexpected),
        (r#"{"type":"x","message":{"role":"user","usage":{"totalTokens":1.5}}}"#, ReadError::Unexpected),
        (r#"{"type":"x","message":{"role":"user","isError":"no"}}"#, ReadError::Unexpected),
        (r#"{"type":"x","message":{"role":"user","provider":[]}}"#, ReadError::Unexpected),
        (r#"{"type":"x","message":{"role":"user","model":{}}}"#, ReadError::Unexpected),
    ] {
        assert_eq!(parser.parse_line(text).unwrap_err(), error, "{text}");
        assert_eq!(parser.try_parse_line(text).unwrap().unwrap_err(), error, "{text}");
        assert_eq!(parser.session_id, "test-session-123");
        assert_eq!(parser.sequence_position, 0);
    }
    assert_eq!(ReadError::NotJson.message(), "the text is no JSON");
    assert_eq!(ReadError::Unexpected.message(), "a value is missing or of the wrong kind");
}

#[test]
fn lines_with_nothing_in_them() {
    let mut parser = OpenClawParser::new("a");
    for text in [
        r#"{"type":"message"}"#,
        r#"{"type":"message","message":null}"#,
        r#"{"type":"message","message":{"role":"system"}}"#,
        r#"{"type":"message","message":{"role":"assistant"}}"#,
        r#"{"type":"message","message":{"role":"assistant","content":"text"}}"#,
        r#"{"type":"message","message":{"role":"assistant","content":[]}}"#,
        r#"{"type":"message","message":{"role":"assistant","content":[{"type":"thinking"},3,null]}}"#,
        r#"{"type":"other","message":{"role":"user"}}"#,
    ] {
        assert!(parser.parse_line(text).unwrap().is_empty(), "{text}");
    }
    assert_eq!(parser.sequence_position, 0);
}

#[test]
fn events_are_exact() {
    let mut parser = OpenClawParser::new("test-agent");
    parser.parse_line(&session_line()).unwrap();
    let user = parser.parse_line(&user_message_line()).unwrap();
    // The compact form of the content.
    assert_eq!(user[0].data_in_bytes, r#"[{"text":"hello","type":"text"}]"#.len() as u64);
    assert_eq!(user[0].data_out_bytes, 0);
    assert_eq!(user[0].timestamp.to_unix(), (1_771_624_609, 41_000_000));
    assert!(user[0].token_count.is_none());

    let call = parser.parse_line(&assistant_tool_call_line()).unwrap();
    assert_eq!(call[0].param_keys, vec!["content", "file_path"]);
    assert_eq!(call[0].resource_ids, vec!["/Users/oliver/test.md"]);
    assert_eq!(
        call[0].data_in_bytes,
        r##"{"content":"# Hello","file_path":"/Users/oliver/test.md"}"##.len() as u64
    );
    assert_eq!(call[0].provider.as_deref(), Some("anthropic"));
    assert_eq!(call[0].model.as_deref(), Some("sonnet-4-6"));
    assert_eq!(call[0].sequence_position, 2);
    assert!(call[0].trace_id.is_none());

    let text = parser.parse_line(&assistant_text_line()).unwrap();
    assert_eq!(
        text[0].data_out_bytes,
        r#"[{"text":"Hello! How can I help?","type":"text"}]"#.len() as u64
    );
    let result = parser.parse_line(&tool_result_line()).unwrap();
    assert!(result[0].provider.is_none());
    assert_eq!(result[0].data_in_bytes, 0);
}

#[test]
fn several_calls_in_one_message() {
    let mut parser = OpenClawParser::new("a");
    let mut m = message("assistant");
    m.total_tokens = Some(9);
    m.content = Some(Content {
        bytes: 99,
        blocks: Some(vec![block("toolCall", "x"), block("text", ""), block("toolCall", "y")]),
    });
    let events = parser.parse_raw(&line("message", Some(m)), noon());
    let names: Vec<&str> = events.iter().map(|e| e.tool_name.as_deref().unwrap()).collect();
    assert_eq!(names, vec!["x", "y"]);
    assert_eq!(events[0].sequence_position, 1);
    assert_eq!(events[1].sequence_position, 2);
    assert_eq!(events[1].token_count, Some(9));
    assert_eq!(events[1].timestamp, noon());
    assert_eq!(events[1].data_out_bytes, 0);
    assert_eq!(parser.sequence_position, 2);
}

#[test]
fn a_line_without_a_time_comes_now() {
    let mut parser = OpenClawParser::new("a");
    for text in [
        r#"{"type":"message","message":{"role":"user"}}"#,
        r#"{"type":"message","timestamp":"yesterday","message":{"role":"user"}}"#,
    ] {
        let before = Timestamp::now();
        let events = parser.parse_line(text).unwrap();
        let after = Timestamp::now();
        assert!(before.at_most(&events[0].timestamp));
        assert!(events[0].timestamp.at_most(&after));
        assert_eq!(events[0].data_in_bytes, 0);
    }
}

#[test]
fn positions_that_cannot_be_counted() {
    let mut parser = OpenClawParser::new("a");
    parser.sequence_position = u32::MAX - 1;
    let user = r#"{"type":"message","message":{"role":"user"}}"#;
    assert_eq!(parser.try_parse_line(user).unwrap().unwrap()[0].sequence_position, u32::MAX);
    assert!(parser.try_parse_line(user).is_none());
    assert_eq!(parser.sequence_position, u32::MAX);
    assert!(parser.try_parse_line(&model_change_line()).unwrap().unwrap().is_empty());
    assert!(parser.try_parse_line(&assistant_tool_call_line()).is_none());
    assert!(parser.try_parse_line(&session_line()).unwrap().unwrap().is_empty());
    assert_eq!(parser.sequence_position, 0);
}

#[test]
fn lines_are_read_as_they_stand() {
    let raw = read_line(&assistant_tool_call_line()).unwrap();
    assert_eq!(raw.line_type, "message");
    assert_eq!(raw.id.as_deref(), Some("msg3"));
    let m = raw.message.unwrap();
    assert_eq!(m.role, "assistant");
    assert_eq!(m.total_tokens, Some(15105));
    let blocks = m.content.unwrap().blocks.unwrap();
    assert_eq!(blocks.len(), 2);
    assert_eq!(blocks[0].block_type.as_deref(), Some("text"));
    assert!(blocks[0].arguments.is_none());
    assert_eq!(blocks[1].name.as_deref(), Some("write"));
    assert_eq!(blocks[1].arguments.as_ref().unwrap().members.len(), 2);
}

#[test]
fn arguments_without_an_object() {
    let (keys, resources, bytes) = extract_argument_metadata(&None);
    assert!(keys.is_empty() && resources.is_empty() && bytes == 0);
    let arguments = Arguments {
        bytes: 12,
        members: vec![
            Member { key: "u".to_string(), string: Some("https://x".to_string()) },
            Member { key: "n".to_string(), string: None },
            Member { key: "t".to_string(), string: Some("text".to_string()) },
        ],
    };
    let (keys, resources, bytes) = extract_argument_metadata(&Some(arguments));
    assert_eq!(keys, vec!["u", "n", "t"]);
    assert_eq!(resources, vec!["https://x"]);
    assert_eq!(bytes, 12);
}

#[test]
fn argument_values_stay_out_of_events() {
    let mut parser = OpenClawParser::new("a");
    let call = |value: &str| {
        format!(
            r#"{{"type":"message","message":{{"role":"assistant","content":[{{"type":"toolCall","name":"t","arguments":{{"k":"{value}"}}}}]}}}}"#
        )
    };
    let one = parser.parse_line(&call("secret")).unwrap();
    let two = parser.parse_line(&call("public")).unwrap();
    assert_eq!(one[0].param_keys, two[0].param_keys);
    assert_eq!(one[0].resource_ids, two[0].resource_ids);
    assert!(!format!("{:?}", one[0]).contains("secret"));
    let path = parser.parse_line(&call("/a/path")).unwrap();
    assert_eq!(path[0].resource_ids, vec!["/a/path"]);
}

#[test]
fn lines_may_be_arrays() {
    let mut parser = OpenClawParser::new("a");
    let text = r#"["message",null,"2026-02-20T21:56:49.041Z",["user","hi",null,[7],true,"p","m"]]"#;
    let raw = read_line(text).unwrap();
    let m = raw.message.unwrap();
    assert_eq!(m.total_tokens, Some(7));
    assert_eq!(m.is_error, Some(true));
    assert_eq!(m.model.as_deref(), Some("m"));
    let events = parser.parse_line(text).unwrap();
    assert_eq!(events.len(), 1);
    assert_eq!(events[0].event_type, EventType::UserMessage);
    assert_eq!(events[0].data_in_bytes, 4);
    parser.parse_line(r#"["session","sid",null,null]"#).unwrap();
    assert_eq!(parser.session_id, "sid");
    for text in [
        "[]",
        r#"["session","sid",null]"#,
        r#"["session","sid",null,null,null]"#,
        r#"["message",null,null,["user","hi"]]"#,
        r#"["message",null,null,["user","hi",null,[],null,null,null]]"#,
    ] {
        assert_eq!(parser.parse_line(text).unwrap_err(), ReadError::Unexpected, "{text}");
    }
}

#[test]
fn fields_may_come_only_once() {
    for text in [
        r#"{"type":"session","type":"session"}"#,
        r#"{"type":"session","id":null,"id":"x"}"#,
        r#"{"type":"message","message":{"role":"user","role":"user"}}"#,
        r#"{"type":"message","message":{"role":"user","usage":{"totalTokens":1,"totalTokens":1}}}"#,
    ] {
        assert_eq!(read_line(text).unwrap_err(), ReadError::Unexpected, "{text}");
    }
    for text in [
        r#"{"type":"session","cwd":1,"cwd":2}"#,
        r#"{"type":"message","message":{"role":"user","x":1,"x":2,"usage":{"cost":1,"cost":2}}}"#,
    ] {
        assert!(read_line(text).is_ok(), "{text}");
    }
}

#[test]
fn other_fields_are_not_decoded() {
    let deep = format!("{}{}", "[".repeat(5_000), "]".repeat(5_000));
    for value in ["1e999", r#""\ud800""#, deep.as_str()] {
        let line = format!(r#"{{"type":"session","id":"s","x":{value}}}"#);
        assert_eq!(read_line(&line).unwrap().id.as_deref(), Some("s"));
        let line = format!(r#"{{"type":"message","message":{{"role":"user","content":{value}}}}}"#);
        assert_eq!(read_line(&line).unwrap_err(), ReadError::Unexpected);
    }
}

#[test]
fn content_is_read_as_deep_as_its_line() {
    for depth in 110..140 {
        let content = format!("{}{}", "[".repeat(depth), "]".repeat(depth));
        let line =
            format!(r#"{{"type":"message","message":{{"role":"user","content":{content}}}}}"#);
        let whole = serde_json::from_str::<Value>(&line);
        assert_eq!(read_line(&line).is_ok(), whole.is_ok(), "{depth}");
    }
}
