use vigil::event::EventType;
use vigil::json::ReadError;
use vigil::source::otel::{
    attributes_map, extract_from_args_json, nanos_to_datetime, read_request, AnyValue, KeyValue,
    OtelParser, OtlpSpan, SpanStatus, StringOrU64,
};

fn make_otlp_json(spans_json: &str) -> String {
    format!(r#"{{"resourceSpans":[{{"scopeSpans":[{{"spans":{spans_json}}}]}}]}}"#)
}

fn tool_span(
    trace_id: &str,
    span_id: &str,
    name: &str,
    start_ns: u64,
    end_ns: u64,
    attrs: &[(&str, &str)],
) -> String {
    let attrs_json: Vec<String> = attrs
        .iter()
        .map(|(k, v)| format!(r#"{{"key":"{k}","value":{{"stringValue":"{v}"}}}}"#))
        .collect();
    format!(
        r#"{{"traceId":"{trace_id}","spanId":"{span_id}","name":"{name}","startTimeUnixNano":"{start_ns}","endTimeUnixNano":"{end_ns}","attributes":[{attrs}]}}"#,
        attrs = attrs_json.join(",")
    )
}

fn tool_span_with_status(
    trace_id: &str,
    span_id: &str,
    name: &str,
    start_ns: u64,
    end_ns: u64,
    attrs: &[(&str, &str)],
    status_code: u32,
) -> String {
    let attrs_json: Vec<String> = attrs
        .iter()
        .map(|(k, v)| format!(r#"{{"key":"{k}","value":{{"stringValue":"{v}"}}}}"#))
        .collect();
    format!(
        r#"{{"traceId":"{trace_id}","spanId":"{span_id}","name":"{name}","startTimeUnixNano":"{start_ns}","endTimeUnixNano":"{end_ns}","attributes":[{attrs}],"status":{{"code":{status_code}}}}}"#,
        attrs = attrs_json.join(",")
    )
}

#[test]
fn gen_ai_tool_call() {
    let span = tool_span(
        "t1",
        "s1",
        "execute_tool",
        1_000_000_000,
        2_000_000_000,
        &[
            ("gen_ai.operation.name", "execute_tool"),
            ("gen_ai.tool.name", "read_file"),
            (
                "gen_ai.tool.call.arguments",
                r#"{\"file_path\":\"/tmp/foo.txt\"}"#,
            ),
            ("gen_ai.tool.call.result", "file contents here"),
        ],
    );
    let input = make_otlp_json(&format!("[{span}]"));
    let parser = OtelParser::new("default-agent");
    let events = parser.parse(&input).unwrap();

    assert_eq!(events.len(), 1);
    assert_eq!(events[0].event_type, EventType::ToolCall);
    assert_eq!(events[0].tool_name.as_deref(), Some("read_file"));
    assert!(events[0].param_keys.contains(&"file_path".to_string()));
    assert!(events[0].resource_ids.contains(&"/tmp/foo.txt".to_string()));
    assert!(events[0].data_in_bytes > 0);
    assert!(events[0].data_out_bytes > 0);
    assert_eq!(events[0].duration_ms, 1000);
}

#[test]
fn gen_ai_chat_agent_message() {
    let span = tool_span(
        "t1",
        "s1",
        "chat",
        1_000_000_000,
        2_000_000_000,
        &[
            ("gen_ai.operation.name", "chat"),
            ("gen_ai.message.role", "assistant"),
            ("gen_ai.usage.input_tokens", "100"),
            ("gen_ai.usage.output_tokens", "200"),
        ],
    );
    let input = make_otlp_json(&format!("[{span}]"));
    let parser = OtelParser::new("default-agent");
    let events = parser.parse(&input).unwrap();

    assert_eq!(events.len(), 1);
    assert_eq!(events[0].event_type, EventType::AgentMessage);
    assert_eq!(events[0].token_count, Some(300));
}

#[test]
fn gen_ai_chat_user_message() {
    let span = tool_span(
        "t1",
        "s1",
        "chat",
        1_000_000_000,
        2_000_000_000,
        &[
            ("gen_ai.operation.name", "chat"),
            ("gen_ai.message.role", "user"),
        ],
    );
    let input = make_otlp_json(&format!("[{span}]"));
    let parser = OtelParser::new("default-agent");
    let events = parser.parse(&input).unwrap();

    assert_eq!(events.len(), 1);
    assert_eq!(events[0].event_type, EventType::UserMessage);
}

#[test]
fn openinference_tool() {
    let span = tool_span(
        "t1",
        "s1",
        "run_tool",
        1_000_000_000,
        2_000_000_000,
        &[("openinference.span.kind", "TOOL"), ("tool.name", "search")],
    );
    let input = make_otlp_json(&format!("[{span}]"));
    let parser = OtelParser::new("default-agent");
    let events = parser.parse(&input).unwrap();

    assert_eq!(events.len(), 1);
    assert_eq!(events[0].event_type, EventType::ToolCall);
    assert_eq!(events[0].tool_name.as_deref(), Some("search"));
}

#[test]
fn openinference_llm() {
    let span = tool_span(
        "t1",
        "s1",
        "llm_call",
        1_000_000_000,
        2_000_000_000,
        &[
            ("openinference.span.kind", "LLM"),
            ("llm.token_count.total", "500"),
        ],
    );
    let input = make_otlp_json(&format!("[{span}]"));
    let parser = OtelParser::new("default-agent");
    let events = parser.parse(&input).unwrap();

    assert_eq!(events.len(), 1);
    assert_eq!(events[0].event_type, EventType::AgentMessage);
    assert_eq!(events[0].token_count, Some(500));
}

#[test]
fn sequence_positions_within_trace() {
    let s1 = tool_span(
        "t1",
        "s1",
        "tool1",
        1_000_000_000,
        2_000_000_000,
        &[
            ("gen_ai.operation.name", "execute_tool"),
            ("gen_ai.tool.name", "a"),
        ],
    );
    let s2 = tool_span(
        "t1",
        "s2",
        "tool2",
        3_000_000_000,
        4_000_000_000,
        &[
            ("gen_ai.operation.name", "execute_tool"),
            ("gen_ai.tool.name", "b"),
        ],
    );
    let input = make_otlp_json(&format!("[{s1},{s2}]"));
    let parser = OtelParser::new("default-agent");
    let events = parser.parse(&input).unwrap();

    assert_eq!(events.len(), 2);
    assert_eq!(events[0].sequence_position, 1);
    assert_eq!(events[1].sequence_position, 2);
}

#[test]
fn multiple_traces() {
    let s1 = tool_span(
        "trace-a",
        "s1",
        "tool",
        1_000_000_000,
        2_000_000_000,
        &[
            ("gen_ai.operation.name", "execute_tool"),
            ("gen_ai.tool.name", "a"),
        ],
    );
    let s2 = tool_span(
        "trace-b",
        "s2",
        "tool",
        3_000_000_000,
        4_000_000_000,
        &[
            ("gen_ai.operation.name", "execute_tool"),
            ("gen_ai.tool.name", "b"),
        ],
    );
    let input = make_otlp_json(&format!("[{s1},{s2}]"));
    let parser = OtelParser::new("default-agent");
    let events = parser.parse(&input).unwrap();

    assert_eq!(events.len(), 2);
    // Each trace gets its own sequence counter starting at 1.
    assert!(events.iter().all(|e| e.sequence_position == 1));
}

#[test]
fn session_id_fallback_to_trace_id() {
    let span = tool_span(
        "my-trace-id",
        "s1",
        "tool",
        1_000_000_000,
        2_000_000_000,
        &[
            ("gen_ai.operation.name", "execute_tool"),
            ("gen_ai.tool.name", "a"),
        ],
    );
    let input = make_otlp_json(&format!("[{span}]"));
    let parser = OtelParser::new("default-agent");
    let events = parser.parse(&input).unwrap();

    assert_eq!(events[0].session_id, "my-trace-id");
}

#[test]
fn error_span() {
    let span = tool_span_with_status(
        "t1",
        "s1",
        "execute_tool",
        1_000_000_000,
        2_000_000_000,
        &[
            ("gen_ai.operation.name", "execute_tool"),
            ("gen_ai.tool.name", "dangerous_tool"),
        ],
        2, // ERROR status
    );
    let input = make_otlp_json(&format!("[{span}]"));
    let parser = OtelParser::new("default-agent");
    let events = parser.parse(&input).unwrap();

    assert_eq!(events.len(), 1);
    assert_eq!(events[0].event_type, EventType::Error);
}

#[test]
fn invoke_agent_skipped() {
    let span = tool_span(
        "t1",
        "s1",
        "invoke",
        1_000_000_000,
        2_000_000_000,
        &[("gen_ai.operation.name", "invoke_agent")],
    );
    let input = make_otlp_json(&format!("[{span}]"));
    let parser = OtelParser::new("default-agent");
    let events = parser.parse(&input).unwrap();

    assert!(events.is_empty());
}

#[test]
fn gen_ai_preferred_over_openinference() {
    // Both namespaces present: gen_ai should win.
    let span = tool_span(
        "t1",
        "s1",
        "tool",
        1_000_000_000,
        2_000_000_000,
        &[
            ("gen_ai.operation.name", "execute_tool"),
            ("gen_ai.tool.name", "read"),
            ("openinference.span.kind", "LLM"),
        ],
    );
    let input = make_otlp_json(&format!("[{span}]"));
    let parser = OtelParser::new("default-agent");
    let events = parser.parse(&input).unwrap();

    assert_eq!(events.len(), 1);
    assert_eq!(events[0].event_type, EventType::ToolCall);
}

#[test]
fn duration_ms_calculated() {
    // 1.5 seconds = 1500ms
    let span = tool_span(
        "t1",
        "s1",
        "tool",
        1_000_000_000,
        2_500_000_000,
        &[
            ("gen_ai.operation.name", "execute_tool"),
            ("gen_ai.tool.name", "a"),
        ],
    );
    let input = make_otlp_json(&format!("[{span}]"));
    let parser = OtelParser::new("default-agent");
    let events = parser.parse(&input).unwrap();

    assert_eq!(events[0].duration_ms, 1500);
}

#[test]
fn trace_id_and_span_id_populated() {
    let span = tool_span(
        "my-trace-123",
        "my-span-456",
        "tool",
        1_000_000_000,
        2_000_000_000,
        &[
            ("gen_ai.operation.name", "execute_tool"),
            ("gen_ai.tool.name", "a"),
        ],
    );
    let input = make_otlp_json(&format!("[{span}]"));
    let parser = OtelParser::new("default-agent");
    let events = parser.parse(&input).unwrap();

    assert_eq!(events[0].trace_id.as_deref(), Some("my-trace-123"));
    assert_eq!(events[0].span_id.as_deref(), Some("my-span-456"));
}

#[test]
fn empty_resource_spans() {
    let input = r#"{"resourceSpans":[]}"#;
    let parser = OtelParser::new("default-agent");
    let events = parser.parse(input).unwrap();
    assert!(events.is_empty());
}

#[test]
fn provider_and_model_populated() {
    let span = tool_span(
        "t1",
        "s1",
        "chat",
        1_000_000_000,
        2_000_000_000,
        &[
            ("gen_ai.operation.name", "chat"),
            ("gen_ai.provider.name", "openai"),
            ("gen_ai.request.model", "gpt-4o"),
        ],
    );
    let input = make_otlp_json(&format!("[{span}]"));
    let parser = OtelParser::new("default-agent");
    let events = parser.parse(&input).unwrap();

    assert_eq!(events[0].provider.as_deref(), Some("openai"));
    assert_eq!(events[0].model.as_deref(), Some("gpt-4o"));
}

#[test]
fn agent_id_from_attributes() {
    let span = tool_span(
        "t1",
        "s1",
        "tool",
        1_000_000_000,
        2_000_000_000,
        &[
            ("gen_ai.operation.name", "execute_tool"),
            ("gen_ai.tool.name", "a"),
            ("gen_ai.agent.name", "my-custom-agent"),
        ],
    );
    let input = make_otlp_json(&format!("[{span}]"));
    let parser = OtelParser::new("default-agent");
    let events = parser.parse(&input).unwrap();

    assert_eq!(events[0].agent_id, "my-custom-agent");
}

#[test]
fn session_id_from_conversation_id() {
    let span = tool_span(
        "t1",
        "s1",
        "tool",
        1_000_000_000,
        2_000_000_000,
        &[
            ("gen_ai.operation.name", "execute_tool"),
            ("gen_ai.tool.name", "a"),
            ("gen_ai.conversation.id", "conv-789"),
        ],
    );
    let input = make_otlp_json(&format!("[{span}]"));
    let parser = OtelParser::new("default-agent");
    let events = parser.parse(&input).unwrap();

    assert_eq!(events[0].session_id, "conv-789");
}

// ---------------------------------------------------------------------------

fn attr(key: &str, value: &str) -> KeyValue {
    KeyValue {
        key: key.to_string(),
        value: Some(AnyValue { string_value: Some(value.to_string()), int_value: None }),
    }
}

fn plain_span(trace: &str, id: &str, start: u64, attributes: Vec<KeyValue>) -> OtlpSpan {
    OtlpSpan {
        trace_id: trace.to_string(),
        span_id: id.to_string(),
        name: "span".to_string(),
        start_time_unix_nano: Some(StringOrU64::Number(start)),
        end_time_unix_nano: None,
        attributes,
        status: None,
    }
}

fn tool(trace: &str, id: &str, start: u64) -> OtlpSpan {
    plain_span(trace, id, start, vec![attr("openinference.span.kind", "TOOL")])
}

#[test]
fn requests_that_cannot_be_read() {
    let parser = OtelParser::new("a");
    for (text, error) in [
        ("", ReadError::NotJson),
        ("[", ReadError::NotJson),
        ("3", ReadError::Unexpected),
        (r#"{"resourceSpans":null}"#, ReadError::Unexpected),
        (r#"{"resourceSpans":[3]}"#, ReadError::Unexpected),
        (r#"{"resourceSpans":[{"scopeSpans":{}}]}"#, ReadError::Unexpected),
        (r#"{"resourceSpans":[{"scopeSpans":[{"spans":[1]}]}]}"#, ReadError::Unexpected),
        (r#"{"resourceSpans":[{"scopeSpans":[{"spans":[{"traceId":1}]}]}]}"#, ReadError::Unexpected),
        (r#"{"resourceSpans":[{"scopeSpans":[{"spans":[{"name":null}]}]}]}"#, ReadError::Unexpected),
        (r#"{"resourceSpans":[{"scopeSpans":[{"spans":[{"startTimeUnixNano":1.5}]}]}]}"#, ReadError::Unexpected),
        (r#"{"resourceSpans":[{"scopeSpans":[{"spans":[{"attributes":[{}]}]}]}]}"#, ReadError::Unexpected),
        (r#"{"resourceSpans":[{"scopeSpans":[{"spans":[{"attributes":[{"key":"k","value":1}]}]}]}]}"#, ReadError::Unexpected),
        (r#"{"resourceSpans":[{"scopeSpans":[{"spans":[{"status":{"code":-1}}]}]}]}"#, ReadError::Unexpected),
        (r#"{"resourceSpans":[{"scopeSpans":[{"spans":[{"status":{"code":4294967296}}]}]}]}"#, ReadError::Unexpected),
    ] {
        assert_eq!(parser.parse(text).unwrap_err(), error, "{text}");
        assert_eq!(parser.try_parse(text).unwrap().unwrap_err(), error, "{text}");
    }
}

#[test]
fn what_is_left_out_has_a_default() {
    let text = r#"{"resourceSpans":[{},{"scopeSpans":[{},{"spans":[{},{"name":"a tool","status":{},"startTimeUnixNano":null}]}]}]}"#;
    let spans = read_request(text).unwrap();
    assert_eq!(spans.len(), 2);
    assert_eq!(spans[0].trace_id, "");
    assert_eq!(spans[0].name, "");
    assert!(spans[0].start_time_unix_nano.is_none());
    assert!(spans[0].status.is_none());
    assert_eq!(spans[1].status, Some(SpanStatus { code: 0 }));
    let events = OtelParser::new("me").parse(text).unwrap();
    assert_eq!(events.len(), 1);
    assert_eq!(events[0].event_type, EventType::ToolCall);
    assert_eq!(events[0].agent_id, "me");
    assert_eq!(events[0].session_id, "");
    assert_eq!(events[0].timestamp.to_unix(), (0, 0));
    assert_eq!(events[0].duration_ms, 0);
    assert!(events[0].token_count.is_none());
    assert!(OtelParser::new("me").parse("{}").unwrap().is_empty());
}

#[test]
fn numbers_may_be_strings() {
    assert_eq!(StringOrU64::String("17".to_string()).as_u64(), 17);
    assert_eq!(StringOrU64::String("+17".to_string()).as_u64(), 17);
    assert_eq!(StringOrU64::String("x".to_string()).as_u64(), 0);
    assert_eq!(StringOrU64::String("18446744073709551616".to_string()).as_u64(), 0);
    assert_eq!(StringOrU64::Number(5).as_u64(), 5);
    assert_eq!(StringOrU64::default().as_u64(), 0);
    let text = r#"{"resourceSpans":[{"scopeSpans":[{"spans":[{"startTimeUnixNano":1500000000,"endTimeUnixNano":"1507999999","attributes":[{"key":"openinference.span.kind","value":{"stringValue":"LLM"}},{"key":"gen_ai.usage.input_tokens","value":{"intValue":7}},{"key":"gen_ai.usage.output_tokens","value":{"intValue":"5"}}]}]}]}]}"#;
    let events = OtelParser::new("me").parse(text).unwrap();
    assert_eq!(events[0].timestamp.to_unix(), (1, 500_000_000));
    assert_eq!(events[0].duration_ms, 7);
    assert_eq!(events[0].token_count, Some(12));
}

#[test]
fn attributes_are_looked_up() {
    let map = attributes_map(&vec![
        attr("k", "first"),
        attr("k", "second"),
        KeyValue { key: "none".to_string(), value: None },
        KeyValue {
            key: "empty".to_string(),
            value: Some(AnyValue { string_value: None, int_value: None }),
        },
        KeyValue {
            key: "n".to_string(),
            value: Some(AnyValue { string_value: None, int_value: Some(StringOrU64::Number(40)) }),
        },
        KeyValue {
            key: "both".to_string(),
            value: Some(AnyValue {
                string_value: Some("s".to_string()),
                int_value: Some(StringOrU64::Number(1)),
            }),
        },
    ]);
    assert_eq!(map.len(), 3);
    assert_eq!(map.get(&"k".to_string()).unwrap(), "second");
    assert_eq!(map.get(&"n".to_string()).unwrap(), "40");
    assert_eq!(map.get(&"both".to_string()).unwrap(), "s");
}

#[test]
fn events_come_in_the_order_of_time() {
    let events = OtelParser::new("me").convert(vec![
        tool("b", "3", 30),
        tool("a", "2", 20),
        plain_span("a", "skipped", 15, vec![]),
        tool("b", "1", 10),
        tool("a", "4", 40),
        tool("b", "2 too", 20),
    ]);
    let ids: Vec<&str> = events.iter().map(|e| e.span_id.as_deref().unwrap()).collect();
    assert_eq!(ids, vec!["1", "2 too", "2", "3", "4"]);
    let positions: Vec<u32> = events.iter().map(|e| e.sequence_position).collect();
    assert_eq!(positions, vec![1, 2, 1, 3, 2]);
}

#[test]
fn event_types_are_resolved() {
    let parser = OtelParser::new("me");
    let op = |op: &str| vec![attr("gen_ai.operation.name", op)];
    let kind = |kind: &str| vec![attr("openinference.span.kind", kind)];
    for (name, attributes, code, expected) in [
        ("x", op("execute_tool"), 0, Some(EventType::ToolCall)),
        ("x", op("execute_tool"), 2, Some(EventType::Error)),
        ("x", op("chat"), 2, Some(EventType::AgentMessage)),
        ("x", op("invoke_agent"), 0, None),
        ("x", op("create_agent"), 0, None),
        ("a tool", op("embed"), 2, Some(EventType::AgentMessage)),
        ("x", kind("TOOL"), 0, Some(EventType::ToolCall)),
        ("x", kind("TOOL"), 2, Some(EventType::Error)),
        ("x", kind("LLM"), 0, Some(EventType::AgentMessage)),
        ("x", kind("AGENT"), 0, Some(EventType::AgentMessage)),
        ("a tool", kind("CHAIN"), 0, None),
        ("my toolbox", vec![], 0, Some(EventType::ToolCall)),
        ("my toolbox", vec![], 2, Some(EventType::Error)),
        ("Tool", vec![], 0, None),
    ] {
        let mut span = plain_span("t", "s", 0, attributes);
        span.name = name.to_string();
        span.status = Some(SpanStatus { code });
        let attrs = attributes_map(&span.attributes);
        assert_eq!(parser.resolve_event_type(&attrs, &span), expected);
        let mut seq = 4;
        let event = parser.convert_span(&span, "t", &mut seq);
        assert_eq!(event.as_ref().map(|e| e.event_type), expected);
        assert_eq!(seq, if expected.is_some() { 5 } else { 4 });
    }
}

#[test]
fn sessions_and_agents_fall_back() {
    let parser = OtelParser::new("me");
    let convert = |more: Vec<KeyValue>| {
        let mut attributes = vec![attr("openinference.span.kind", "TOOL")];
        attributes.extend(more);
        parser.convert(vec![plain_span("t", "s", 0, attributes)]).remove(0)
    };
    assert_eq!(convert(vec![attr("session.id", "x")]).session_id, "x");
    assert_eq!(
        convert(vec![attr("session.id", "x"), attr("gen_ai.conversation.id", "y")]).session_id,
        "y"
    );
    assert_eq!(convert(vec![attr("agent.name", "x")]).agent_id, "x");
    assert_eq!(
        convert(vec![attr("agent.name", "x"), attr("gen_ai.agent.id", "y")]).agent_id,
        "y"
    );
    assert_eq!(convert(vec![]).agent_id, "me");
    let totals = vec![
        attr("llm.token_count.total", "9"),
        attr("gen_ai.usage.input_tokens", "0"),
    ];
    assert_eq!(convert(totals).token_count, Some(9));
}

#[test]
fn tokens_that_cannot_be_added() {
    let parser = OtelParser::new("me");
    let big = u64::MAX.to_string();
    let tokens = || {
        vec![
            attr("gen_ai.usage.input_tokens", &big),
            attr("gen_ai.usage.output_tokens", "1"),
        ]
    };
    assert!(parser.can_count(&vec![plain_span("t", "s", 0, tokens())]));
    let mut shown = tokens();
    shown.push(attr("openinference.span.kind", "LLM"));
    assert!(!parser.can_count(&vec![plain_span("t", "s", 0, shown)]));
    let text = make_otlp_json(&format!(
        "[{}]",
        tool_span(
            "t",
            "s",
            "x",
            0,
            0,
            &[
                ("openinference.span.kind", "LLM"),
                ("gen_ai.usage.input_tokens", &big),
                ("gen_ai.usage.output_tokens", "1"),
            ],
        )
    ));
    assert!(parser.try_parse(&text).is_none());
    assert_eq!(parser.try_parse(r#"{"resourceSpans":[]}"#).unwrap().unwrap().len(), 0);
}

#[test]
fn arguments_are_measured_as_they_stand() {
    let text = r#"{ "path": "/x", "n": 3, "url": "http://y" }"#;
    let (keys, resources, bytes) = extract_from_args_json(text);
    assert_eq!(keys, vec!["n", "path", "url"]);
    assert_eq!(resources, vec!["/x", "http://y"]);
    assert_eq!(bytes, text.len() as u64);
    let (keys, resources, bytes) = extract_from_args_json("not json, \u{e9}");
    assert!(keys.is_empty() && resources.is_empty());
    assert_eq!(bytes, 12);
    let (keys, _, bytes) = extract_from_args_json("[\"/x\"]");
    assert!(keys.is_empty());
    assert_eq!(bytes, 6);
}

#[test]
fn nanos_make_instants() {
    assert_eq!(nanos_to_datetime(0).to_unix(), (0, 0));
    assert_eq!(nanos_to_datetime(1_999_999_999).to_unix(), (1, 999_999_999));
    assert_eq!(nanos_to_datetime(u64::MAX).to_unix(), (18_446_744_073, 709_551_615));
}

#[test]
fn requests_may_be_arrays() {
    let parser = OtelParser::new("me");
    assert!(parser.parse("[]").unwrap().is_empty());
    assert!(parser.parse("[[]]").unwrap().is_empty());
    assert!(parser.parse("[[[]]]").unwrap().is_empty());
    let text = r#"[[[[[[["t","s","a tool",1000000000,"2000000000",[["gen_ai.tool.name",["x",null]]],[2]]]]]]]]"#;
    let events = parser.parse(text).unwrap();
    assert_eq!(events.len(), 1);
    assert_eq!(events[0].event_type, EventType::Error);
    assert_eq!(events[0].trace_id.as_deref(), Some("t"));
    assert_eq!(events[0].tool_name.as_deref(), Some("x"));
    assert_eq!(events[0].duration_ms, 1000);
    let short = parser.parse(r#"[[[[[[["t","s","a tool"]]]]]]]"#).unwrap();
    assert_eq!(short[0].event_type, EventType::ToolCall);
    for text in [
        "[[],[]]",
        "[null]",
        r#"[[[[[[["t","s","a tool",1,2,[],null,null]]]]]]]"#,
        r#"[[[[[[["t","s","a tool",1,2,[["k"]]]]]]]]]"#,
        r#"[[[[[[["t","s","a tool",1,2,[["k",["v"]]]]]]]]]]"#,
    ] {
        assert_eq!(parser.parse(text).unwrap_err(), ReadError::Unexpected, "{text}");
    }
}

#[test]
fn known_fields_may_come_only_once() {
    for text in [
        r#"{"resourceSpans":[],"resourceSpans":[]}"#,
        r#"{"resourceSpans":[{"scopeSpans":[],"scopeSpans":[]}]}"#,
        r#"{"resourceSpans":[{"scopeSpans":[{"spans":[{"name":"x","name":"x"}]}]}]}"#,
        r#"{"resourceSpans":[{"scopeSpans":[{"spans":[{"status":{"code":1,"code":1}}]}]}]}"#,
        r#"{"resourceSpans":[{"scopeSpans":[{"spans":[{"attributes":[{"key":"k","key":"k"}]}]}]}]}"#,
    ] {
        assert_eq!(read_request(text).unwrap_err(), ReadError::Unexpected, "{text}");
    }
    let text = r#"{"x":1e999,"x":"\ud800","resourceSpans":[{"resource":{"a":1,"a":2}}]}"#;
    assert!(read_request(text).unwrap().is_empty());
}

#[test]
fn results_are_only_measured() {
    let parser = OtelParser::new("me");
    let convert = |result: &str| {
        let attributes = vec![
            attr("gen_ai.operation.name", "execute_tool"),
            attr("gen_ai.tool.call.result", result),
        ];
        parser.convert(vec![plain_span("t", "s", 0, attributes)]).remove(0)
    };
    let one = convert("secret");
    assert_eq!(format!("{one:?}"), format!("{:?}", convert("public")));
    assert_eq!(one.data_out_bytes, 6);
    assert!(!format!("{one:?}").contains("secret"));
    assert_eq!(convert("longer text").data_out_bytes, 11);
}

#[test]
fn traces_stay_numbered_among_others() {
    let mut spans = Vec::new();
    for (k, start) in [70, 20, 50, 20, 90, 10, 50, 30].iter().enumerate() {
        spans.push(tool(["a", "b", "c"][k % 3], &format!("{k}"), *start));
    }
    let events = OtelParser::new("me").convert(spans);
    for trace in ["a", "b", "c"] {
        let own: Vec<u32> = events
            .iter()
            .filter(|e| e.trace_id.as_deref() == Some(trace))
            .map(|e| e.sequence_position)
            .collect();
        assert_eq!(own, (1..=own.len() as u32).collect::<Vec<u32>>());
    }
}
