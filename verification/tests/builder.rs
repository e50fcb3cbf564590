use chrono::{DateTime, TimeZone, Utc};
use vigil::baseline::builder::BaselineBuilder;
use vigil::baseline::{Baseline, Bigram, Sample, StreamingStats};
use vigil::dict::ParamKeys;
use vigil::event::{BehavioralEvent, EventType};
use vigil::number::Decimal;
use vigil::time::Timestamp;

fn stamp(t: DateTime<Utc>) -> Timestamp {
    Timestamp::from_unix(t.timestamp(), t.timestamp_subsec_nanos()).unwrap()
}

fn ts(hour: u32, minute: u32, second: u32) -> Timestamp {
    stamp(
        Utc.with_ymd_and_hms(2025, 1, 15, hour, minute, second)
            .unwrap(),
    )
}

fn make_event_at(
    event_type: EventType,
    tool_name: Option<&str>,
    session_id: &str,
    timestamp: Timestamp,
    seq: u32,
) -> BehavioralEvent {
    BehavioralEvent {
        timestamp,
        session_id: session_id.to_string(),
        agent_id: "test-agent".to_string(),
        event_type,
        tool_name: tool_name.map(|s| s.to_string()),
        param_keys: vec![],
        resource_ids: vec![],
        data_in_bytes: 0,
        data_out_bytes: 0,
        duration_ms: 0,
        token_count: None,
        sequence_position: seq,
        trace_id: None,
        span_id: None,
        provider: None,
        model: None,
    }
}

fn make_event(
    event_type: EventType,
    tool_name: Option<&str>,
    session_id: &str,
    timestamp: Timestamp,
) -> BehavioralEvent {
    // Use unique sequence positions from the second of the day
    // so multi-event tests don't self-dedup.
    let seq = (timestamp.to_unix().0 % 86_400) as u32;
    make_event_at(event_type, tool_name, session_id, timestamp, seq)
}

/// The mean that the pending samples lead to.
fn mean(stats: &StreamingStats) -> f64 {
    let mut count = stats.count - stats.pending.len() as u64;
    let mut mean: f64 = stats.mean.text.parse().unwrap();
    for sample in &stats.pending {
        let value = match sample {
            Sample::Bytes(bytes) => *bytes as f64,
            Sample::IntervalMs(ms) => 1.0 / (*ms as f64 / 60_000.0),
        };
        count += 1;
        mean += (value - mean) / count as f64;
    }
    mean
}

fn calls(baseline: &Baseline, tool: &str) -> u64 {
    baseline.tool_stats.get(&tool.to_string()).unwrap().call_count
}

fn pairs(baseline: &Baseline, first: &str, second: &str) -> u64 {
    *baseline.bigrams.get(&Bigram::new(first, second)).unwrap()
}

#[test]
fn new_baseline_has_correct_defaults() {
    let builder = BaselineBuilder::new("agent-1");
    let b = builder.baseline();
    assert_eq!(b.agent_id, "agent-1");
    assert_eq!(b.session_count, 0);
    assert_eq!(b.event_count, 0);
    assert!(b.tool_stats.len() == 0);
    assert_eq!(b.bigrams.len(), 0);
    assert!(b.known_resources.len() == 0);
    assert!(b.volume_stats.len() == 0);
    assert_eq!(b.hourly_distribution, [0; 24]);
    assert_eq!(b.rate_stats.count, 0);
}

#[test]
fn single_tool_call_updates_stats() {
    let mut builder = BaselineBuilder::new("agent-1");
    let mut event = make_event(EventType::ToolCall, Some("read_file"), "s1", ts(10, 0, 0));
    event.param_keys = vec!["path".to_string()];
    event.resource_ids = vec!["/tmp/foo.txt".to_string()];
    event.data_in_bytes = 100;
    event.data_out_bytes = 200;

    builder.process(&event);
    let b = builder.baseline();

    assert_eq!(b.event_count, 1);
    assert_eq!(b.first_seen, ts(10, 0, 0));
    assert_eq!(b.last_updated, ts(10, 0, 0));

    let tool = b.tool_stats.get(&"read_file".to_string()).unwrap();
    assert_eq!(tool.call_count, 1);
    assert!(tool.param_key_sets.contains(&ParamKeys { keys: vec!["path".to_string()] }));

    assert!(b.known_resources.contains(&"/tmp/foo.txt".to_string()));

    let vol = b.volume_stats.get(&"read_file".to_string()).unwrap();
    assert_eq!(vol.count, 1);
    assert_eq!(mean(vol), 300.0);

    assert_eq!(b.hourly_distribution[10], 1);
}

#[test]
fn bigrams_tracked_for_consecutive_tool_calls() {
    let mut builder = BaselineBuilder::new("agent-1");

    builder.process(&make_event(
        EventType::ToolCall,
        Some("read_file"),
        "s1",
        ts(10, 0, 0),
    ));
    builder.process(&make_event(
        EventType::ToolCall,
        Some("write_file"),
        "s1",
        ts(10, 1, 0),
    ));
    builder.process(&make_event(
        EventType::ToolCall,
        Some("read_file"),
        "s1",
        ts(10, 2, 0),
    ));

    let b = builder.baseline();
    assert_eq!(pairs(b, "read_file", "write_file"), 1);
    assert_eq!(pairs(b, "write_file", "read_file"), 1);
}

#[test]
fn bigrams_not_formed_across_sessions() {
    let mut builder = BaselineBuilder::new("agent-1");

    builder.process(&make_event(
        EventType::ToolCall,
        Some("read_file"),
        "s1",
        ts(10, 0, 0),
    ));
    // New session: should NOT form a bigram with previous.
    builder.process(&make_event(
        EventType::ToolCall,
        Some("write_file"),
        "s2",
        ts(11, 0, 0),
    ));

    let b = builder.baseline();
    assert_eq!(b.bigrams.len(), 0);
}

#[test]
fn bigrams_skip_non_tool_call_events() {
    let mut builder = BaselineBuilder::new("agent-1");

    builder.process(&make_event(
        EventType::ToolCall,
        Some("read_file"),
        "s1",
        ts(10, 0, 0),
    ));
    // UserMessage between two ToolCalls shouldn't break the chain.
    builder.process(&make_event(
        EventType::UserMessage,
        None,
        "s1",
        ts(10, 0, 30),
    ));
    builder.process(&make_event(
        EventType::ToolCall,
        Some("write_file"),
        "s1",
        ts(10, 1, 0),
    ));

    let b = builder.baseline();
    assert_eq!(pairs(b, "read_file", "write_file"), 1);
}

#[test]
fn rate_stats_computed_from_intervals() {
    let mut builder = BaselineBuilder::new("agent-1");

    // Two tool calls 1 minute apart -> rate = 1.0 calls/min.
    builder.process(&make_event(
        EventType::ToolCall,
        Some("read_file"),
        "s1",
        ts(10, 0, 0),
    ));
    builder.process(&make_event(
        EventType::ToolCall,
        Some("write_file"),
        "s1",
        ts(10, 1, 0),
    ));

    let b = builder.baseline();
    assert_eq!(b.rate_stats.count, 1);
    assert!((mean(&b.rate_stats) - 1.0).abs() < 1e-9);
}

#[test]
fn rate_stats_reset_across_sessions() {
    let mut builder = BaselineBuilder::new("agent-1");

    builder.process(&make_event(
        EventType::ToolCall,
        Some("read_file"),
        "s1",
        ts(10, 0, 0),
    ));
    // New session: rate should NOT be computed from previous session's last call.
    builder.process(&make_event(
        EventType::ToolCall,
        Some("write_file"),
        "s2",
        ts(11, 0, 0),
    ));

    let b = builder.baseline();
    assert_eq!(b.rate_stats.count, 0);
}

#[test]
fn volume_stats_tracked_per_tool() {
    let mut builder = BaselineBuilder::new("agent-1");

    let mut e1 = make_event(EventType::ToolCall, Some("read_file"), "s1", ts(10, 0, 0));
    e1.data_in_bytes = 100;
    e1.data_out_bytes = 500;

    let mut e2 = make_event(EventType::ToolCall, Some("write_file"), "s1", ts(10, 1, 0));
    e2.data_in_bytes = 1000;
    e2.data_out_bytes = 0;

    builder.process(&e1);
    builder.process(&e2);

    let b = builder.baseline();
    assert_eq!(mean(b.volume_stats.get(&"read_file".to_string()).unwrap()), 600.0);
    assert_eq!(mean(b.volume_stats.get(&"write_file".to_string()).unwrap()), 1000.0);
}

#[test]
fn session_count_increments_on_new_session() {
    let mut builder = BaselineBuilder::new("agent-1");

    builder.process(&make_event(
        EventType::ToolCall,
        Some("read_file"),
        "s1",
        ts(10, 0, 0),
    ));
    builder.process(&make_event(
        EventType::ToolCall,
        Some("read_file"),
        "s2",
        ts(11, 0, 0),
    ));
    builder.process(&make_event(
        EventType::ToolCall,
        Some("read_file"),
        "s3",
        ts(12, 0, 0),
    ));

    // During processing, session_count is incremented on boundary crossings.
    // finish() counts the final session.
    let baseline = builder.finish();
    assert_eq!(baseline.session_count, 3);
}

#[test]
fn from_baseline_resumes_correctly() {
    let mut builder = BaselineBuilder::new("agent-1");
    builder.process(&make_event(
        EventType::ToolCall,
        Some("read_file"),
        "s1",
        ts(10, 0, 0),
    ));
    let baseline = builder.finish();

    assert_eq!(baseline.event_count, 1);
    assert_eq!(baseline.session_count, 1);

    // Resume from saved baseline.
    let mut builder2 = BaselineBuilder::from_baseline(baseline);
    builder2.process(&make_event(
        EventType::ToolCall,
        Some("write_file"),
        "s2",
        ts(12, 0, 0),
    ));
    let baseline2 = builder2.finish();

    assert_eq!(baseline2.event_count, 2);
    assert_eq!(baseline2.session_count, 2);
    assert_eq!(calls(&baseline2, "read_file"), 1);
    assert_eq!(calls(&baseline2, "write_file"), 1);
}

#[test]
fn param_keys_sorted_before_insertion() {
    let mut builder = BaselineBuilder::new("agent-1");

    let mut event = make_event(EventType::ToolCall, Some("api_call"), "s1", ts(10, 0, 0));
    event.param_keys = vec![
        "z_param".to_string(),
        "a_param".to_string(),
        "m_param".to_string(),
    ];

    builder.process(&event);

    let b = builder.baseline();
    let sets = &b.tool_stats.get(&"api_call".to_string()).unwrap().param_key_sets;
    let expected = vec![
        "a_param".to_string(),
        "m_param".to_string(),
        "z_param".to_string(),
    ];
    assert!(sets.contains(&ParamKeys { keys: expected }));
}

#[test]
fn hourly_distribution_correct() {
    let mut builder = BaselineBuilder::new("agent-1");

    // Events at hours 10, 10, 14.
    builder.process(&make_event(
        EventType::ToolCall,
        Some("a"),
        "s1",
        ts(10, 0, 0),
    ));
    builder.process(&make_event(
        EventType::UserMessage,
        None,
        "s1",
        ts(10, 30, 0),
    ));
    builder.process(&make_event(
        EventType::ToolCall,
        Some("b"),
        "s1",
        ts(14, 0, 0),
    ));

    let b = builder.baseline();
    assert_eq!(b.hourly_distribution[10], 2);
    assert_eq!(b.hourly_distribution[14], 1);
    assert_eq!(b.hourly_distribution[0], 0);
}

#[test]
fn duplicates_skipped_on_replay() {
    let mut builder = BaselineBuilder::new("agent-1");

    let e1 = make_event_at(EventType::ToolCall, Some("read"), "s1", ts(10, 0, 0), 1);
    let e2 = make_event_at(EventType::ToolCall, Some("write"), "s1", ts(10, 1, 0), 2);

    assert!(builder.process(&e1));
    assert!(builder.process(&e2));
    assert_eq!(builder.baseline().event_count, 2);

    // Replay the same events: should be skipped.
    assert!(!builder.process(&e1));
    assert!(!builder.process(&e2));
    assert_eq!(builder.baseline().event_count, 2);
}

#[test]
fn duplicates_skipped_after_resume() {
    let mut builder = BaselineBuilder::new("agent-1");

    let e1 = make_event_at(EventType::ToolCall, Some("read"), "s1", ts(10, 0, 0), 1);
    let e2 = make_event_at(EventType::ToolCall, Some("write"), "s1", ts(10, 1, 0), 2);

    builder.process(&e1);
    builder.process(&e2);
    let baseline = builder.finish();
    assert_eq!(baseline.event_count, 2);

    // Resume from persisted baseline, replay same events.
    let mut builder2 = BaselineBuilder::from_baseline(baseline);
    assert!(!builder2.process(&e1));
    assert!(!builder2.process(&e2));

    // New event in same session passes through.
    let e3 = make_event_at(EventType::ToolCall, Some("exec"), "s1", ts(10, 2, 0), 3);
    assert!(builder2.process(&e3));

    let baseline2 = builder2.finish();
    assert_eq!(baseline2.event_count, 3);
}

#[test]
fn finish_with_no_events() {
    let builder = BaselineBuilder::new("agent-1");
    let baseline = builder.finish();
    assert_eq!(baseline.session_count, 0);
    assert_eq!(baseline.event_count, 0);
}

#[test]
fn tool_call_with_no_tool_name() {
    let mut builder = BaselineBuilder::new("agent-1");
    let event = make_event_at(EventType::ToolCall, None, "s1", ts(10, 0, 0), 1);
    builder.process(&event);

    let b = builder.baseline();
    assert!(
        b.tool_stats.contains_key(&"unknown".to_string()),
        "tool_name: None should be keyed as 'unknown'"
    );
    assert_eq!(calls(b, "unknown"), 1);
}

#[test]
fn non_tool_events_skip_bigrams_and_rate() {
    let mut builder = BaselineBuilder::new("agent-1");

    builder.process(&make_event_at(
        EventType::UserMessage,
        None,
        "s1",
        ts(10, 0, 0),
        1,
    ));
    builder.process(&make_event_at(
        EventType::AgentMessage,
        None,
        "s1",
        ts(10, 1, 0),
        2,
    ));

    let b = builder.baseline();
    assert_eq!(b.event_count, 2);
    assert!(b.bigrams.len() == 0, "no bigrams from non-tool events");
    assert_eq!(b.rate_stats.count, 0, "no rate stats from non-tool events");
    assert!(
        b.tool_stats.len() == 0,
        "no tool_stats from non-tool events"
    );
}

#[test]
fn dedup_is_per_session() {
    let mut builder = BaselineBuilder::new("agent-1");

    let e1 = make_event_at(EventType::ToolCall, Some("read"), "s1", ts(10, 0, 0), 1);
    let e2 = make_event_at(EventType::ToolCall, Some("read"), "s2", ts(11, 0, 0), 1);

    // Same sequence_position but different sessions: both should process.
    assert!(builder.process(&e1));
    assert!(builder.process(&e2));
    assert_eq!(builder.baseline().event_count, 2);
}

// ---------------------------------------------------------------------------

#[test]
fn fresh_baseline_is_dated() {
    let b = Baseline::new_at("a", ts(1, 2, 3));
    assert_eq!(b.first_seen, ts(1, 2, 3));
    assert_eq!(b.last_updated, ts(1, 2, 3));
    let now = Baseline::new("a");
    assert_eq!(now.first_seen, now.last_updated);
    assert!(now.first_seen.to_unix().0 > 1_700_000_000);
}

#[test]
fn replayed_events_change_nothing() {
    let mut builder = BaselineBuilder::new("agent-1");
    let events = vec![
        make_event_at(EventType::ToolCall, Some("read"), "s1", ts(10, 0, 0), 1),
        make_event_at(EventType::UserMessage, None, "s1", ts(10, 1, 0), 2),
        make_event_at(EventType::ToolCall, Some("write"), "s1", ts(10, 2, 0), 3),
        make_event_at(EventType::ToolCall, Some("read"), "s2", ts(10, 3, 0), 7),
    ];
    for e in &events {
        assert!(builder.process(e));
    }
    let before = format!("{:?}", builder.baseline());
    for e in &events {
        assert!(!builder.process(e));
    }
    assert_eq!(format!("{:?}", builder.baseline()), before);
    // An earlier position of a known session counts as seen.
    assert!(!builder.process(&make_event_at(EventType::ToolCall, Some("x"), "s2", ts(11, 0, 0), 6)));
    assert!(builder.process(&make_event_at(EventType::ToolCall, Some("x"), "s2", ts(11, 0, 0), 8)));
}

#[test]
fn sessions_are_counted_at_their_end() {
    let mut builder = BaselineBuilder::new("agent-1");
    builder.process(&make_event_at(EventType::ToolCall, Some("a"), "s1", ts(10, 0, 0), 1));
    assert_eq!(builder.baseline().session_count, 0);
    builder.process(&make_event_at(EventType::ToolCall, Some("a"), "s2", ts(10, 1, 0), 1));
    assert_eq!(builder.baseline().session_count, 1);
    // Back in the first session: another one ends.
    builder.process(&make_event_at(EventType::ToolCall, Some("a"), "s1", ts(10, 2, 0), 2));
    assert_eq!(builder.baseline().session_count, 2);
    assert!(builder.can_finish());
    assert_eq!(builder.finish().session_count, 3);
}

#[test]
fn no_rate_without_passing_time() {
    let mut builder = BaselineBuilder::new("agent-1");
    builder.process(&make_event_at(EventType::ToolCall, Some("a"), "s1", ts(10, 0, 5), 1));
    builder.process(&make_event_at(EventType::ToolCall, Some("a"), "s1", ts(10, 0, 5), 2));
    builder.process(&make_event_at(EventType::ToolCall, Some("a"), "s1", ts(10, 0, 1), 3));
    assert_eq!(builder.baseline().rate_stats.count, 0);
    builder.process(&make_event_at(EventType::ToolCall, Some("a"), "s1", ts(10, 0, 3), 4));
    assert_eq!(builder.baseline().rate_stats.pending, vec![Sample::IntervalMs(2000)]);
    assert_eq!(pairs(builder.baseline(), "a", "a"), 3);
}

#[test]
fn hours_hold_every_event() {
    let mut builder = BaselineBuilder::new("agent-1");
    for hour in 0..24 {
        for n in 0..hour {
            builder.process(&make_event_at(
                EventType::AgentMessage,
                None,
                "s",
                ts(hour, n, 0),
                hour * 100 + n,
            ));
        }
    }
    let b = builder.baseline();
    assert_eq!(b.hourly_distribution.iter().sum::<u64>(), b.event_count);
    assert_eq!(b.hourly_distribution[23], 23);
    assert_eq!(b.event_count, 276);
}

#[test]
fn limits_are_seen_before_they_are_passed() {
    let mut b = Baseline::new_at("a", ts(0, 0, 0));
    b.event_count = u64::MAX;
    let builder = BaselineBuilder::from_baseline(b);
    let e = make_event_at(EventType::ToolCall, Some("t"), "s", ts(10, 0, 0), 1);
    assert!(!builder.accepts(&e));

    let builder = BaselineBuilder::new("a");
    let mut e = make_event_at(EventType::ToolCall, Some("t"), "s", ts(10, 0, 0), 1);
    assert!(builder.accepts(&e));
    e.data_in_bytes = u64::MAX;
    assert!(builder.accepts(&e));
    e.data_out_bytes = 1;
    assert!(!builder.accepts(&e));
    e.event_type = EventType::ToolResult;
    assert!(builder.accepts(&e));

    let mut b = Baseline::new_at("a", ts(0, 0, 0));
    b.session_count = u64::MAX;
    let mut builder = BaselineBuilder::from_baseline(b);
    assert!(builder.can_finish());
    builder.process(&make_event_at(EventType::ToolCall, Some("t"), "s", ts(10, 0, 0), 1));
    assert!(!builder.can_finish());
    assert!(!builder.accepts(&make_event_at(EventType::ToolCall, Some("t"), "x", ts(10, 0, 0), 1)));
}

#[test]
fn statistics_settle() {
    let mut stats = StreamingStats::new();
    stats.update(Sample::Bytes(4));
    stats.update(Sample::Bytes(8));
    assert_eq!(stats.count, 2);
    assert_eq!(mean(&stats), 6.0);
    stats.settle(Decimal::new("6"), Decimal::new("8"));
    assert_eq!(stats.count, 2);
    assert!(stats.pending.is_empty());
    assert_eq!(mean(&stats), 6.0);
    assert_eq!(StreamingStats::default().count, 0);
    assert_eq!(stats.clone().m2.text, "8");
}

#[test]
fn bigrams_are_written_and_read() {
    let b = Bigram::new("read", "write");
    assert_eq!(b.to_string(), "read->write");
    let back = Bigram::parse("read->write").unwrap();
    assert_eq!(back.first, "read");
    assert_eq!(back.second, "write");
    let odd = Bigram::parse("a->b->c").unwrap();
    assert_eq!(odd.first, "a");
    assert_eq!(odd.second, "b->c");
    assert!(Bigram::parse("no arrow").is_none());
    let empty = Bigram::parse("->").unwrap();
    assert_eq!(empty.first, "");
    assert_eq!(empty.second, "");
}

#[test]
fn resuming_at_a_session_boundary_equals_one_run() {
    let first = vec![
        make_event_at(EventType::ToolCall, Some("a"), "s1", ts(10, 0, 0), 1),
        make_event_at(EventType::ToolCall, Some("b"), "s1", ts(10, 1, 0), 2),
    ];
    let rest = vec![
        make_event_at(EventType::ToolCall, Some("b"), "s1", ts(10, 1, 0), 2),
        make_event_at(EventType::ToolCall, Some("a"), "s2", ts(11, 0, 0), 1),
        make_event_at(EventType::ToolCall, Some("b"), "s1", ts(11, 1, 0), 3),
    ];
    let start = Baseline::new_at("agent-1", ts(0, 0, 0));
    let mut one = BaselineBuilder::from_baseline(start);
    let mut two = BaselineBuilder::from_baseline(Baseline::new_at("agent-1", ts(0, 0, 0)));
    for e in &first {
        one.process(e);
        two.process(e);
    }
    let mut two = BaselineBuilder::from_baseline(two.finish());
    for e in &rest {
        assert_eq!(one.process(e), two.process(e));
    }
    assert!(two.seen(&rest[2]));
    assert_eq!(format!("{:?}", one.finish()), format!("{:?}", two.finish()));
}

#[test]
fn counts_nest() {
    let mut builder = BaselineBuilder::new("agent-1");
    let stream = [
        (EventType::ToolCall, Some("a"), "s1", ts(10, 0, 0)),
        (EventType::ToolCall, Some("b"), "s1", ts(10, 0, 5)),
        (EventType::AgentMessage, None, "s1", ts(10, 0, 6)),
        (EventType::ToolCall, Some("b"), "s1", ts(10, 0, 5)),
        (EventType::ToolCall, Some("a"), "s2", ts(10, 1, 0)),
        (EventType::Error, Some("a"), "s2", ts(10, 1, 1)),
        (EventType::ToolCall, Some("a"), "s2", ts(10, 1, 2)),
    ];
    let mut seen = Vec::new();
    for (i, (kind, tool, session, time)) in stream.iter().enumerate() {
        builder.process(&make_event_at(*kind, *tool, session, *time, i as u32 + 1));
        let b = builder.baseline();
        let calls: u64 = (0..b.tool_stats.len()).map(|i| b.tool_stats.value_at(i).call_count).sum();
        let pairs: u64 = (0..b.bigrams.len()).map(|i| *b.bigrams.value_at(i)).sum();
        assert!(b.rate_stats.count <= pairs && pairs <= calls && calls <= b.event_count);
        seen.push((b.rate_stats.count, pairs, calls, b.event_count));
    }
    assert_eq!(seen[6], (2, 3, 5, 7));
}

#[test]
fn profiles_are_copied() {
    let mut builder = BaselineBuilder::new("agent-1");
    for (i, tool) in ["a", "b", "a"].iter().enumerate() {
        let mut e = make_event_at(EventType::ToolCall, Some(tool), "s", ts(9, i as u32, 0), i as u32);
        e.param_keys = vec!["k".to_string()];
        e.resource_ids = vec![format!("/r{i}")];
        builder.process(&e);
    }
    let one = builder.finish();
    let mut two = one.clone();
    assert_eq!(format!("{one:?}"), format!("{two:?}"));
    two.bigrams.set(Bigram::new("a", "b"), 9);
    assert_eq!(pairs(&one, "a", "b"), 1);
    assert_eq!(pairs(&two, "a", "b"), 9);
}
