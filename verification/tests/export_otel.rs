use chrono::{TimeZone, Utc};
use vigil::detect::{Anomaly, AnomalyType, Evidence, Severity};
use vigil::event::{BehavioralEvent, EventType};
use vigil::export::otel::{anomalies_to_otlp, anomaly_to_span, anomaly_type_hash, kv};
use vigil::number::Decimal;
use vigil::time::Timestamp;

fn ten() -> Timestamp {
    let t = Utc.with_ymd_and_hms(2026, 2, 20, 10, 0, 0).unwrap();
    Timestamp::from_unix(t.timestamp(), 0).unwrap()
}

fn make_test_anomaly(anomaly_type: AnomalyType, severity: Severity) -> Anomaly {
    Anomaly {
        timestamp: ten(),
        severity,
        anomaly_type,
        description: "test anomaly".to_string(),
        evidence: Evidence {
            event: BehavioralEvent {
                timestamp: ten(),
                session_id: "s1".to_string(),
                agent_id: "test-agent".to_string(),
                event_type: EventType::ToolCall,
                tool_name: Some("evil_tool".to_string()),
                param_keys: vec![],
                resource_ids: vec![],
                data_in_bytes: 0,
                data_out_bytes: 0,
                duration_ms: 0,
                token_count: None,
                sequence_position: 1,
                trace_id: Some("trace-abc".to_string()),
                span_id: Some("span-def".to_string()),
                provider: None,
                model: None,
            },
            baseline_value: "known tools: [read, write]".to_string(),
            observed_value: "evil_tool".to_string(),
            z_score: None,
            confidence: Decimal::new("0.95"),
        },
    }
}

#[test]
fn otlp_output_is_valid_json() {
    let anomalies = vec![make_test_anomaly(AnomalyType::UnknownTool, Severity::High)];
    let output = anomalies_to_otlp(&anomalies);
    let parsed: serde_json::Value = serde_json::from_str(&output).unwrap();
    assert!(parsed.get("resourceSpans").is_some());
}

#[test]
fn otlp_output_contains_anomaly_attributes() {
    let anomalies = vec![make_test_anomaly(AnomalyType::UnknownTool, Severity::High)];
    let output = anomalies_to_otlp(&anomalies);
    assert!(output.contains("vigil.anomaly.type"));
    assert!(output.contains("UnknownTool"));
    assert!(output.contains("vigil.severity"));
    assert!(output.contains("High"));
    assert!(output.contains("vigil.agent_id"));
    assert!(output.contains("test-agent"));
    assert!(output.contains("vigil.tool_name"));
    assert!(output.contains("evil_tool"));
}

#[test]
fn otlp_output_uses_event_trace_id() {
    let anomalies = vec![make_test_anomaly(AnomalyType::UnknownTool, Severity::High)];
    let output = anomalies_to_otlp(&anomalies);
    assert!(output.contains("trace-abc"));
}

#[test]
fn otlp_output_span_name() {
    let anomalies = vec![make_test_anomaly(AnomalyType::RateSpike, Severity::Medium)];
    let output = anomalies_to_otlp(&anomalies);
    assert!(output.contains("vigil.anomaly RateSpike"));
}

#[test]
fn otlp_output_empty_anomalies() {
    let output = anomalies_to_otlp(&[]);
    let parsed: serde_json::Value = serde_json::from_str(&output).unwrap();
    let spans = &parsed["resourceSpans"][0]["scopeSpans"][0]["spans"];
    assert!(spans.as_array().unwrap().is_empty());
}

#[test]
fn otlp_output_z_score_included_when_present() {
    let mut anomaly = make_test_anomaly(AnomalyType::RateSpike, Severity::High);
    anomaly.evidence.z_score = Some(Decimal::new("4.5"));
    let output = anomalies_to_otlp(&[anomaly]);
    assert!(output.contains("vigil.z_score"));
    assert!(output.contains("4.5"));
}

#[test]
fn otlp_output_generates_trace_id_when_missing() {
    let mut anomaly = make_test_anomaly(AnomalyType::UnknownTool, Severity::High);
    anomaly.evidence.event.trace_id = None;
    let output = anomalies_to_otlp(&[anomaly]);
    let parsed: serde_json::Value = serde_json::from_str(&output).unwrap();
    let trace_id = parsed["resourceSpans"][0]["scopeSpans"][0]["spans"][0]["traceId"]
        .as_str()
        .unwrap();
    // Should be a hex string, not empty.
    assert!(!trace_id.is_empty());
    assert!(trace_id.chars().all(|c| c.is_ascii_hexdigit()));
}

// ---------------------------------------------------------------------------

#[test]
fn otlp_output_is_exact() {
    let mut anomaly = make_test_anomaly(AnomalyType::RateSpike, Severity::Medium);
    anomaly.description = "a \"quoted\" \\ line\n".to_string();
    anomaly.evidence.z_score = Some(Decimal::new("4.5"));
    let expected = concat_lines(&[
        r#"{"resourceSpans":[{"scopeSpans":[{"spans":[{"traceId":"trace-abc","#,
        r#""spanId":"1895ebb20e2d8005","name":"vigil.anomaly RateSpike","#,
        r#""startTimeUnixNano":"1771581600000000000","endTimeUnixNano":"1771581600000000000","#,
        r#""attributes":[{"key":"vigil.anomaly.type","value":{"stringValue":"RateSpike"}},"#,
        r#"{"key":"vigil.severity","value":{"stringValue":"Medium"}},"#,
        r#"{"key":"vigil.description","value":{"stringValue":"a \"quoted\" \\ line\n"}},"#,
        r#"{"key":"vigil.confidence","value":{"stringValue":"0.95"}},"#,
        r#"{"key":"vigil.baseline_value","value":{"stringValue":"known tools: [read, write]"}},"#,
        r#"{"key":"vigil.observed_value","value":{"stringValue":"evil_tool"}},"#,
        r#"{"key":"vigil.agent_id","value":{"stringValue":"test-agent"}},"#,
        r#"{"key":"vigil.z_score","value":{"stringValue":"4.5"}},"#,
        r#"{"key":"vigil.tool_name","value":{"stringValue":"evil_tool"}}]}]}]}]}"#,
    ]);
    let nanos = anomaly.timestamp.unix_nanos().unwrap();
    assert_eq!(nanos, 1_771_581_600_000_000_000);
    let span_id = format!("{:016x}", (nanos as u64).wrapping_add(5));
    let output = anomalies_to_otlp(&[anomaly]);
    assert_eq!(output, expected.replace("1895ebb20e2d8005", &span_id));
}

fn concat_lines(lines: &[&str]) -> String {
    lines.concat()
}

#[test]
fn otlp_output_holds_every_anomaly_in_order() {
    let output = anomalies_to_otlp(&[
        make_test_anomaly(AnomalyType::UnknownTool, Severity::High),
        make_test_anomaly(AnomalyType::VolumeSpike, Severity::Low),
    ]);
    let parsed: serde_json::Value = serde_json::from_str(&output).unwrap();
    let spans = parsed["resourceSpans"][0]["scopeSpans"][0]["spans"].as_array().unwrap();
    assert_eq!(spans.len(), 2);
    assert_eq!(spans[0]["name"], "vigil.anomaly UnknownTool");
    assert_eq!(spans[1]["name"], "vigil.anomaly VolumeSpike");
    assert_ne!(spans[0]["spanId"], spans[1]["spanId"]);
}

#[test]
fn generated_ids_follow_the_time() {
    let mut anomaly = make_test_anomaly(AnomalyType::UnknownTool, Severity::High);
    anomaly.evidence.event.trace_id = None;
    for (seconds, nanos) in [(1_771_581_600, 5), (0, 0), (-1, 0), (-5, 999_999_999), (9_300_000_000, 0)] {
        anomaly.timestamp = Timestamp::from_unix(seconds, nanos).unwrap();
        let n = Utc.timestamp_opt(seconds, nanos).unwrap().timestamp_nanos_opt().unwrap_or(0);
        let span = anomaly_to_span(&anomaly);
        assert_eq!(span.trace_id, format!("{:032x}", n as u128));
        assert_eq!(span.span_id, format!("{:016x}", (n as u64).wrapping_add(1)));
        assert_eq!(span.start_time_unix_nano, n.to_string());
        assert_eq!(span.end_time_unix_nano, n.to_string());
    }
}

#[test]
fn attributes_may_be_left_out() {
    let mut anomaly = make_test_anomaly(AnomalyType::UnknownTool, Severity::Critical);
    anomaly.evidence.event.tool_name = None;
    let span = anomaly_to_span(&anomaly);
    assert_eq!(span.attributes.len(), 7);
    assert_eq!(span.attributes[1].string_value, "Critical");
    let pair = kv("k", "v");
    assert_eq!(pair.key, "k");
    assert_eq!(pair.string_value, "v");
}

#[test]
fn kinds_have_numbers() {
    for (kind, number) in [
        (AnomalyType::UnknownTool, 1),
        (AnomalyType::UnknownSequence, 2),
        (AnomalyType::UnknownResource, 3),
        (AnomalyType::VolumeSpike, 4),
        (AnomalyType::RateSpike, 5),
        (AnomalyType::TemporalAnomaly, 6),
        (AnomalyType::UnknownParamPattern, 7),
    ] {
        assert_eq!(anomaly_type_hash(&kind), number);
        assert_eq!(kind.name(), format!("{kind:?}"));
    }
    for severity in [Severity::Low, Severity::Medium, Severity::High, Severity::Critical] {
        assert_eq!(severity.name(), format!("{severity:?}"));
    }
}

#[test]
fn texts_are_quoted() {
    let mut anomaly = make_test_anomaly(AnomalyType::UnknownTool, Severity::High);
    let text: String = (0..0x100).filter_map(char::from_u32).chain(['\u{2028}', '\u{1f600}']).collect();
    anomaly.evidence.event.tool_name = Some(text.clone());
    let output = anomalies_to_otlp(&vec![anomaly]);
    assert!(output.contains(r#"\u0000\u0001\u0002\u0003\u0004\u0005\u0006\u0007\b\t\n\u000b\f\r\u000e"#));
    assert!(output.contains(r##"\u001f !\"#$"##));
    assert!(output.contains("[\\\\]^"));
    assert!(output.contains("~\u{7f}\u{80}"));
    let parsed: serde_json::Value = serde_json::from_str(&output).unwrap();
    let attributes = parsed.pointer("/resourceSpans/0/scopeSpans/0/spans/0/attributes").unwrap();
    let written: Vec<&str> = attributes
        .as_array()
        .unwrap()
        .iter()
        .filter_map(|a| a.pointer("/value/stringValue").and_then(|v| v.as_str()))
        .collect();
    assert!(written.contains(&text.as_str()));
}
