use chrono::{DateTime, TimeZone, Utc};
use vigil::baseline::builder::BaselineBuilder;
use vigil::baseline::{Baseline, Bigram, StreamingStats, ToolStats};
use vigil::detect::default_detectors;
use vigil::detect::detectors::{
    confidence, CombinedAnomalyDetector, CombinedReading, ErrorRetryDetector, Level,
    RateSpikeDetector, ReasoningLoopDetector, Signal, SpikeReading, UnknownSequenceDetector,
    UnknownToolDetector, VolumeSpikeDetector,
};
use vigil::detect::{Anomaly, AnomalyType, Detector, Severity};
use vigil::dict::Pool;
use vigil::event::{BehavioralEvent, EventType};
use vigil::number::Decimal;
use vigil::time::Timestamp;

fn stamp(t: DateTime<Utc>) -> Timestamp {
    Timestamp::from_unix(t.timestamp(), t.timestamp_subsec_nanos()).unwrap()
}

fn ts(hour: u32, minute: u32, second: u32) -> Timestamp {
    stamp(
        Utc.with_ymd_and_hms(2025, 1, 15, hour, minute, second)
            .unwrap(),
    )
}

fn make_event(tool: &str, session_id: &str, timestamp: Timestamp) -> BehavioralEvent {
    BehavioralEvent {
        timestamp,
        session_id: session_id.to_string(),
        agent_id: "test-agent".to_string(),
        event_type: EventType::ToolCall,
        tool_name: Some(tool.to_string()),
        param_keys: vec![],
        resource_ids: vec![],
        data_in_bytes: 0,
        data_out_bytes: 0,
        duration_ms: 0,
        token_count: None,
        sequence_position: 1,
        trace_id: None,
        span_id: None,
        provider: None,
        model: None,
    }
}

fn baseline_with_tools(tools: &[&str]) -> Baseline {
    let mut b = Baseline::new("test-agent");
    b.event_count = 200; // high confidence
    for tool in tools {
        b.tool_stats.set(
            tool.to_string(),
            ToolStats {
                call_count: 10,
                first_seen: ts(10, 0, 0),
                last_seen: ts(10, 0, 0),
                param_key_sets: Pool::new(),
            },
        );
    }
    b
}

/// Welford's algorithm on real numbers.
struct Stats {
    count: u64,
    mean: f64,
    m2: f64,
}

impl Stats {
    fn new() -> Self {
        Stats { count: 0, mean: 0.0, m2: 0.0 }
    }

    fn of(stats: &StreamingStats) -> Self {
        Stats {
            count: stats.count,
            mean: stats.mean.text.parse().unwrap(),
            m2: stats.m2.text.parse().unwrap(),
        }
    }

    fn update(&mut self, value: f64) {
        self.count += 1;
        let delta = value - self.mean;
        self.mean += delta / self.count as f64;
        self.m2 += delta * (value - self.mean);
    }

    fn settled(&self) -> StreamingStats {
        let mut stats = StreamingStats::new();
        stats.count = self.count;
        stats.settle(number(self.mean), number(self.m2));
        stats
    }

    fn z_score(&self, value: f64) -> Option<f64> {
        if self.count < 2 {
            return None;
        }
        let sd = (self.m2 / (self.count - 1) as f64).sqrt();
        if sd == 0.0 {
            None
        } else {
            Some((value - self.mean) / sd)
        }
    }
}

fn number(value: f64) -> Decimal {
    Decimal::new(&format!("{value}"))
}

fn level(value: f64, threshold: &Decimal, margin: f64) -> Level {
    let threshold: f64 = threshold.text.parse().unwrap();
    if value > threshold + margin {
        Level::FarAbove
    } else if value > threshold {
        Level::Above
    } else {
        Level::Within
    }
}

fn rate_reading(interval: Option<u64>, threshold: &Decimal, baseline: &Baseline) -> Option<SpikeReading> {
    let stats = Stats::of(&baseline.rate_stats);
    let rate = 1.0 / (interval? as f64 / 60_000.0);
    let z = stats.z_score(rate)?;
    Some(SpikeReading {
        level: level(z, threshold, 2.0),
        value: format!("{rate:.1}"),
        mean: format!("{:.1}", stats.mean),
        z: format!("{z:.1}"),
        z_score: number(z),
    })
}

fn volume_reading(
    bytes: Option<u64>,
    threshold: &Decimal,
    event: &BehavioralEvent,
    baseline: &Baseline,
) -> Option<SpikeReading> {
    let volume = bytes? as f64;
    let stats = Stats::of(baseline.volume_stats.get(event.tool_name.as_ref()?)?);
    let z = stats.z_score(volume)?;
    Some(SpikeReading {
        level: level(z, threshold, 2.0),
        value: format!("{volume:.0}"),
        mean: format!("{:.0}", stats.mean),
        z: format!("{z:.1}"),
        z_score: number(z),
    })
}

fn detect_rate(
    detector: &mut RateSpikeDetector,
    event: &BehavioralEvent,
    baseline: &Baseline,
) -> Vec<Anomaly> {
    let reading = rate_reading(detector.interval_ms(event), &detector.threshold, baseline);
    detector.detect(event, baseline, reading.as_ref())
}

fn detect_volume(
    detector: &VolumeSpikeDetector,
    event: &BehavioralEvent,
    baseline: &Baseline,
) -> Vec<Anomaly> {
    let bytes = detector.volume_bytes(event, baseline);
    let reading = volume_reading(bytes, &detector.threshold, event, baseline);
    detector.detect(event, baseline, reading.as_ref())
}

fn combined_reading(
    detector: &CombinedAnomalyDetector,
    event: &BehavioralEvent,
    baseline: &Baseline,
) -> Option<CombinedReading> {
    let mut scores: Vec<f64> = Vec::new();
    for signal in detector.signals(event, baseline) {
        match signal {
            Signal::Surprise { seen, of } => scores.push(-(seen as f64 / of as f64).ln()),
            Signal::Volume { bytes } => {
                let stats = baseline.volume_stats.get(event.tool_name.as_ref()?)?;
                if let Some(z) = Stats::of(stats).z_score(bytes as f64) {
                    scores.push(z.abs());
                }
            }
        }
    }
    if scores.is_empty() {
        return None;
    }
    let combined = scores.iter().sum::<f64>() / scores.len() as f64;
    let threshold: f64 = detector.threshold.text.parse().unwrap();
    Some(CombinedReading {
        level: level(combined, &detector.threshold, 3.0),
        score: format!("{combined:.2}"),
        threshold: format!("{threshold:.1}"),
        used: scores.len() as u64,
        z_score: number(combined),
    })
}

fn detect_combined(
    detector: &mut CombinedAnomalyDetector,
    event: &BehavioralEvent,
    baseline: &Baseline,
) -> Vec<Anomaly> {
    let reading = combined_reading(detector, event, baseline);
    detector.detect(event, baseline, reading.as_ref())
}

#[test]
fn unknown_tool_fires_for_novel_tool() {
    let mut detector = UnknownToolDetector;
    let baseline = baseline_with_tools(&["read", "write"]);
    let event = make_event("evil_exfiltrate", "s1", ts(10, 0, 0));

    let anomalies = detector.detect(&event, &baseline);
    assert_eq!(anomalies.len(), 1);
    assert_eq!(anomalies[0].anomaly_type, AnomalyType::UnknownTool);
    assert_eq!(anomalies[0].severity, Severity::High);
}

#[test]
fn unknown_tool_does_not_fire_for_known_tool() {
    let mut detector = UnknownToolDetector;
    let baseline = baseline_with_tools(&["read", "write"]);
    let event = make_event("read", "s1", ts(10, 0, 0));

    let anomalies = detector.detect(&event, &baseline);
    assert!(anomalies.is_empty());
}

#[test]
fn unknown_sequence_fires_for_unseen_bigram() {
    let mut detector = UnknownSequenceDetector::new();
    let mut baseline = baseline_with_tools(&["read", "write", "exec"]);
    baseline.bigrams.set(Bigram::new("read", "write"), 5);

    // read -> exec is not in bigrams.
    let e1 = make_event("read", "s1", ts(10, 0, 0));
    let e2 = make_event("exec", "s1", ts(10, 1, 0));

    detector.detect(&e1, &baseline);
    let anomalies = detector.detect(&e2, &baseline);
    assert_eq!(anomalies.len(), 1);
    assert_eq!(anomalies[0].anomaly_type, AnomalyType::UnknownSequence);
}

#[test]
fn unknown_sequence_does_not_fire_for_known_bigram() {
    let mut detector = UnknownSequenceDetector::new();
    let mut baseline = baseline_with_tools(&["read", "write"]);
    baseline.bigrams.set(Bigram::new("read", "write"), 5);

    let e1 = make_event("read", "s1", ts(10, 0, 0));
    let e2 = make_event("write", "s1", ts(10, 1, 0));

    detector.detect(&e1, &baseline);
    let anomalies = detector.detect(&e2, &baseline);
    assert!(anomalies.is_empty());
}

#[test]
fn unknown_sequence_resets_across_sessions() {
    let mut detector = UnknownSequenceDetector::new();
    let mut baseline = baseline_with_tools(&["read", "write"]);
    baseline.bigrams.set(Bigram::new("read", "write"), 5);

    let e1 = make_event("read", "s1", ts(10, 0, 0));
    // New session: should not form bigram with e1.
    let e2 = make_event("write", "s2", ts(11, 0, 0));

    detector.detect(&e1, &baseline);
    let anomalies = detector.detect(&e2, &baseline);
    assert!(anomalies.is_empty()); // no bigram formed, so no anomaly
}

#[test]
fn rate_spike_fires_for_extreme_rate() {
    let mut detector = RateSpikeDetector::new(Decimal::new("3"));

    // Baseline: mean rate of 1.0 calls/min, std_dev ~0.1
    let mut baseline = baseline_with_tools(&["read", "write"]);
    let mut rates = Stats::new();
    for _ in 0..50 {
        rates.update(1.0);
    }
    // std_dev is 0 with identical values, so add slight variance.
    for _ in 0..50 {
        rates.update(1.1);
    }
    baseline.rate_stats = rates.settled();

    // Two calls 1 second apart = 60 calls/min: massive spike.
    let e1 = make_event("read", "s1", ts(10, 0, 0));
    let e2 = make_event("write", "s1", ts(10, 0, 1));

    detect_rate(&mut detector, &e1, &baseline);
    let anomalies = detect_rate(&mut detector, &e2, &baseline);
    assert_eq!(anomalies.len(), 1);
    assert_eq!(anomalies[0].anomaly_type, AnomalyType::RateSpike);
}

#[test]
fn rate_spike_does_not_fire_for_normal_rate() {
    let mut detector = RateSpikeDetector::new(Decimal::new("3"));

    let mut baseline = baseline_with_tools(&["read", "write"]);
    let mut rates = Stats::new();
    for _ in 0..50 {
        rates.update(1.0);
    }
    for _ in 0..50 {
        rates.update(1.1);
    }
    baseline.rate_stats = rates.settled();

    // Two calls 1 minute apart = ~1.0 calls/min: normal.
    let e1 = make_event("read", "s1", ts(10, 0, 0));
    let e2 = make_event("write", "s1", ts(10, 1, 0));

    detect_rate(&mut detector, &e1, &baseline);
    let anomalies = detect_rate(&mut detector, &e2, &baseline);
    assert!(anomalies.is_empty());
}

#[test]
fn unknown_tool_ignores_non_toolcall() {
    let mut detector = UnknownToolDetector;
    let baseline = baseline_with_tools(&["read", "write"]);

    let mut event = make_event("read", "s1", ts(10, 0, 0));
    event.event_type = EventType::UserMessage;

    let anomalies = detector.detect(&event, &baseline);
    assert!(
        anomalies.is_empty(),
        "UserMessage should not trigger UnknownTool"
    );
}

#[test]
fn volume_spike_no_history() {
    let detector = VolumeSpikeDetector::new(Decimal::new("3"));
    // Baseline has tool_stats for "read" but no volume_stats entry.
    let baseline = baseline_with_tools(&["read"]);

    let mut event = make_event("read", "s1", ts(10, 0, 0));
    event.data_in_bytes = 100_000;

    let anomalies = detect_volume(&detector, &event, &baseline);
    assert!(
        anomalies.is_empty(),
        "no volume_stats should mean no anomaly"
    );
}

#[test]
fn rate_spike_same_timestamp_skipped() {
    let mut detector = RateSpikeDetector::new(Decimal::new("3"));

    let mut baseline = baseline_with_tools(&["read"]);
    let mut rates = Stats::new();
    for _ in 0..50 {
        rates.update(1.0);
    }
    for _ in 0..50 {
        rates.update(1.1);
    }
    baseline.rate_stats = rates.settled();

    // Two calls with identical timestamps -> interval_minutes = 0 -> skipped.
    let e1 = make_event("read", "s1", ts(10, 0, 0));
    let e2 = make_event("read", "s1", ts(10, 0, 0));

    detect_rate(&mut detector, &e1, &baseline);
    let anomalies = detect_rate(&mut detector, &e2, &baseline);
    assert!(
        anomalies.is_empty(),
        "identical timestamps should produce no rate anomaly"
    );
}

#[test]
fn volume_spike_fires_for_extreme_volume() {
    let detector = VolumeSpikeDetector::new(Decimal::new("3"));

    let mut baseline = baseline_with_tools(&["read"]);
    let mut vol = Stats::new();
    for _ in 0..100 {
        vol.update(500.0);
    }
    for _ in 0..100 {
        vol.update(550.0);
    }
    baseline.volume_stats.set("read".to_string(), vol.settled());

    let mut event = make_event("read", "s1", ts(10, 0, 0));
    event.data_in_bytes = 0;
    event.data_out_bytes = 100_000; // way above mean of ~525

    let anomalies = detect_volume(&detector, &event, &baseline);
    assert_eq!(anomalies.len(), 1);
    assert_eq!(anomalies[0].anomaly_type, AnomalyType::VolumeSpike);
}

// --- ReasoningLoopDetector tests ---

#[test]
fn reasoning_loop_fires_after_three_identical_calls() {
    let mut detector = ReasoningLoopDetector::new(3, 10);
    let baseline = baseline_with_tools(&["read"]);

    let e1 = make_event("read", "s1", ts(10, 0, 0));
    let e2 = make_event("read", "s1", ts(10, 0, 1));
    let e3 = make_event("read", "s1", ts(10, 0, 2));

    assert!(detector.detect(&e1, &baseline).is_empty());
    assert!(detector.detect(&e2, &baseline).is_empty());
    let anomalies = detector.detect(&e3, &baseline);
    assert_eq!(anomalies.len(), 1);
    assert_eq!(anomalies[0].anomaly_type, AnomalyType::ReasoningLoop);
    assert_eq!(anomalies[0].severity, Severity::Medium);
}

#[test]
fn reasoning_loop_does_not_fire_for_two_identical() {
    let mut detector = ReasoningLoopDetector::new(3, 10);
    let baseline = baseline_with_tools(&["read"]);

    let e1 = make_event("read", "s1", ts(10, 0, 0));
    let e2 = make_event("read", "s1", ts(10, 0, 1));

    assert!(detector.detect(&e1, &baseline).is_empty());
    assert!(detector.detect(&e2, &baseline).is_empty());
}

#[test]
fn reasoning_loop_does_not_fire_for_different_tools() {
    let mut detector = ReasoningLoopDetector::new(3, 10);
    let baseline = baseline_with_tools(&["read", "write", "exec"]);

    let e1 = make_event("read", "s1", ts(10, 0, 0));
    let e2 = make_event("write", "s1", ts(10, 0, 1));
    let e3 = make_event("exec", "s1", ts(10, 0, 2));

    assert!(detector.detect(&e1, &baseline).is_empty());
    assert!(detector.detect(&e2, &baseline).is_empty());
    assert!(detector.detect(&e3, &baseline).is_empty());
}

#[test]
fn reasoning_loop_resets_on_session_boundary() {
    let mut detector = ReasoningLoopDetector::new(3, 10);
    let baseline = baseline_with_tools(&["read"]);

    // Two calls in session s1.
    let e1 = make_event("read", "s1", ts(10, 0, 0));
    let e2 = make_event("read", "s1", ts(10, 0, 1));
    // One call in session s2: should NOT combine with s1.
    let e3 = make_event("read", "s2", ts(10, 0, 2));

    assert!(detector.detect(&e1, &baseline).is_empty());
    assert!(detector.detect(&e2, &baseline).is_empty());
    assert!(detector.detect(&e3, &baseline).is_empty());
}

#[test]
fn reasoning_loop_considers_param_keys() {
    let mut detector = ReasoningLoopDetector::new(3, 10);
    let baseline = baseline_with_tools(&["read"]);

    let mut e1 = make_event("read", "s1", ts(10, 0, 0));
    e1.param_keys = vec!["path".to_string()];
    let mut e2 = make_event("read", "s1", ts(10, 0, 1));
    e2.param_keys = vec!["path".to_string()];
    // Different params: breaks the chain.
    let mut e3 = make_event("read", "s1", ts(10, 0, 2));
    e3.param_keys = vec!["url".to_string()];

    assert!(detector.detect(&e1, &baseline).is_empty());
    assert!(detector.detect(&e2, &baseline).is_empty());
    assert!(detector.detect(&e3, &baseline).is_empty());
}

#[test]
fn reasoning_loop_high_severity_at_five() {
    let mut detector = ReasoningLoopDetector::new(3, 10);
    let baseline = baseline_with_tools(&["read"]);

    for i in 0..5 {
        let e = make_event("read", "s1", ts(10, 0, i));
        let anomalies = detector.detect(&e, &baseline);
        if i >= 4 {
            assert_eq!(anomalies[0].severity, Severity::High);
        }
    }
}

// --- ErrorRetryDetector tests ---

#[test]
fn error_retry_fires_after_two_cycles() {
    let mut detector = ErrorRetryDetector::new(2);
    let baseline = baseline_with_tools(&["read"]);

    // Cycle 1: ToolCall -> Error
    let e1 = make_event("read", "s1", ts(10, 0, 0));
    let mut e2 = make_event("read", "s1", ts(10, 0, 1));
    e2.event_type = EventType::Error;

    // Cycle 2: same ToolCall -> Error
    let e3 = make_event("read", "s1", ts(10, 0, 2));
    let mut e4 = make_event("read", "s1", ts(10, 0, 3));
    e4.event_type = EventType::Error;

    assert!(detector.detect(&e1, &baseline).is_empty());
    assert!(detector.detect(&e2, &baseline).is_empty()); // first error, count=1
    assert!(detector.detect(&e3, &baseline).is_empty()); // retry
    let anomalies = detector.detect(&e4, &baseline); // second error, count=2
    assert_eq!(anomalies.len(), 1);
    assert_eq!(anomalies[0].anomaly_type, AnomalyType::ErrorRetryLoop);
}

#[test]
fn error_retry_does_not_fire_for_different_tools() {
    let mut detector = ErrorRetryDetector::new(2);
    let baseline = baseline_with_tools(&["read", "write"]);

    // ToolCall(read) -> Error -> ToolCall(write) -> Error
    let e1 = make_event("read", "s1", ts(10, 0, 0));
    let mut e2 = make_event("read", "s1", ts(10, 0, 1));
    e2.event_type = EventType::Error;
    let e3 = make_event("write", "s1", ts(10, 0, 2)); // different tool
    let mut e4 = make_event("write", "s1", ts(10, 0, 3));
    e4.event_type = EventType::Error;

    assert!(detector.detect(&e1, &baseline).is_empty());
    assert!(detector.detect(&e2, &baseline).is_empty());
    assert!(detector.detect(&e3, &baseline).is_empty());
    // First error for "write", count resets to 1.
    assert!(detector.detect(&e4, &baseline).is_empty());
}

#[test]
fn error_retry_resets_on_success() {
    let mut detector = ErrorRetryDetector::new(2);
    let baseline = baseline_with_tools(&["read"]);

    // ToolCall -> Error -> ToolResult (success!) -> ToolCall -> Error
    let e1 = make_event("read", "s1", ts(10, 0, 0));
    let mut e2 = make_event("read", "s1", ts(10, 0, 1));
    e2.event_type = EventType::Error;
    let mut e3 = make_event("read", "s1", ts(10, 0, 2));
    e3.event_type = EventType::ToolResult; // success resets
    let e4 = make_event("read", "s1", ts(10, 0, 3));
    let mut e5 = make_event("read", "s1", ts(10, 0, 4));
    e5.event_type = EventType::Error;

    assert!(detector.detect(&e1, &baseline).is_empty());
    assert!(detector.detect(&e2, &baseline).is_empty());
    assert!(detector.detect(&e3, &baseline).is_empty()); // resets
    assert!(detector.detect(&e4, &baseline).is_empty());
    assert!(detector.detect(&e5, &baseline).is_empty()); // count=1, not 2
}

// --- CombinedAnomalyDetector tests ---

#[test]
fn combined_anomaly_fires_for_high_surprise() {
    let mut detector = CombinedAnomalyDetector::new(Decimal::new("3"));

    let mut baseline = baseline_with_tools(&["read", "write"]);
    baseline.event_count = 200;
    // Set up hourly distribution heavily weighted to hour 14.
    baseline.hourly_distribution[14] = 100;

    // Event at hour 3 (never seen) with no bigram context.
    let event = make_event("read", "s1", ts(3, 0, 0));

    let anomalies = detect_combined(&mut detector, &event, &baseline);
    // Should fire because hour 3 has 0 events -> high temporal surprise.
    assert_eq!(anomalies.len(), 1);
    assert_eq!(anomalies[0].anomaly_type, AnomalyType::CombinedAnomaly);
}

#[test]
fn combined_anomaly_does_not_fire_for_normal_event() {
    let mut detector = CombinedAnomalyDetector::new(Decimal::new("3"));

    let mut baseline = baseline_with_tools(&["read"]);
    baseline.event_count = 200;
    // Concentrate distribution on hour 10 so surprise is low.
    baseline.hourly_distribution[10] = 500;
    for h in 0..24 {
        if h != 10 {
            baseline.hourly_distribution[h] = 20;
        }
    }

    // Event at hour 10: very common hour, low surprise.
    let event = make_event("read", "s1", ts(10, 0, 0));

    let anomalies = detect_combined(&mut detector, &event, &baseline);
    assert!(anomalies.is_empty());
}

#[test]
fn combined_anomaly_handles_empty_baseline() {
    let mut detector = CombinedAnomalyDetector::new(Decimal::new("3"));
    let baseline = Baseline::new("test-agent");

    let event = make_event("read", "s1", ts(10, 0, 0));
    let anomalies = detect_combined(&mut detector, &event, &baseline);
    // No hourly data, no bigrams, no volume: no signals -> no anomaly.
    assert!(anomalies.is_empty());
}

// ---------------------------------------------------------------------------

#[test]
fn unknown_tool_is_described() {
    let baseline = baseline_with_tools(&["read", "write"]);
    let event = make_event("evil", "s1", ts(10, 0, 0));
    let found = UnknownToolDetector.detect(&event, &baseline);
    assert_eq!(found[0].description, "unknown tool: evil");
    assert_eq!(found[0].evidence.baseline_value, "known tools: [read, write]");
    assert_eq!(found[0].evidence.observed_value, "evil");
    assert!(found[0].evidence.z_score.is_none());
    assert_eq!(found[0].evidence.confidence.text, "1");
    assert_eq!(found[0].timestamp, ts(10, 0, 0));
    assert_eq!(found[0].evidence.event.session_id, "s1");
}

#[test]
fn confidence_grows_by_hundredths() {
    let mut b = Baseline::new("a");
    for (count, text) in [
        (0, "0"),
        (1, "0.01"),
        (7, "0.07"),
        (10, "0.1"),
        (29, "0.29"),
        (50, "0.5"),
        (99, "0.99"),
        (100, "1"),
        (12345, "1"),
    ] {
        b.event_count = count;
        assert_eq!(confidence(&b).text, text);
        assert_eq!(format!("{}", (count as f64 / 100.0).min(1.0)), text);
    }
}

#[test]
fn unknown_sequence_is_described() {
    let mut detector = UnknownSequenceDetector::new();
    let mut baseline = baseline_with_tools(&[]);
    baseline.bigrams.set(Bigram::new("a", "b"), 1);
    baseline.bigrams.set(Bigram::new("b", "c"), 1);
    detector.detect(&make_event("a", "s", ts(1, 0, 0)), &baseline);
    let found = detector.detect(&make_event("c", "s", ts(1, 0, 1)), &baseline);
    assert_eq!(found[0].description, "unseen sequence: a->c");
    assert_eq!(found[0].evidence.baseline_value, "2 known bigrams");
    assert_eq!(found[0].evidence.observed_value, "a->c");
    assert_eq!(found[0].severity, Severity::Medium);
    // The next pair starts from the last call.
    assert_eq!(detector.detect(&make_event("b", "s", ts(1, 0, 2)), &baseline).len(), 1);
    assert!(detector.detect(&make_event("c", "s", ts(1, 0, 3)), &baseline).is_empty());
}

#[test]
fn rate_spike_is_described() {
    let mut detector = RateSpikeDetector::new(Decimal::new("3"));
    let baseline = baseline_with_tools(&[]);
    assert!(detector.interval_ms(&make_event("a", "s", ts(1, 0, 0))).is_none());
    detector.detect(&make_event("a", "s", ts(1, 0, 0)), &baseline, None);
    let next = make_event("b", "s", ts(1, 0, 1));
    assert_eq!(detector.interval_ms(&next), Some(1000));
    let mut reading = SpikeReading {
        level: Level::Above,
        value: "60.0".to_string(),
        mean: "1.0".to_string(),
        z: "4.2".to_string(),
        z_score: Decimal::new("4.25"),
    };
    let found = detector.detect(&next, &baseline, Some(&reading));
    assert_eq!(found[0].description, "rate spike: 60.0 calls/min (z=4.2)");
    assert_eq!(found[0].evidence.baseline_value, "1.0 calls/min (mean)");
    assert_eq!(found[0].evidence.observed_value, "60.0 calls/min");
    assert_eq!(found[0].evidence.z_score.as_ref().unwrap().text, "4.25");
    assert_eq!(found[0].severity, Severity::Medium);
    reading.level = Level::FarAbove;
    let found = detector.detect(&make_event("b", "s", ts(1, 0, 2)), &baseline, Some(&reading));
    assert_eq!(found[0].severity, Severity::High);
    reading.level = Level::Within;
    assert!(detector.detect(&make_event("b", "s", ts(1, 0, 3)), &baseline, Some(&reading)).is_empty());
    // Another session has no rate yet.
    reading.level = Level::FarAbove;
    assert!(detector.detect(&make_event("b", "t", ts(1, 0, 4)), &baseline, Some(&reading)).is_empty());
}

#[test]
fn volume_spike_is_described() {
    let detector = VolumeSpikeDetector::new(Decimal::new("3"));
    let mut baseline = baseline_with_tools(&["read"]);
    baseline.volume_stats.set("read".to_string(), StreamingStats::new());
    let mut event = make_event("read", "s", ts(1, 0, 0));
    event.data_in_bytes = 7;
    event.data_out_bytes = 5;
    assert_eq!(detector.volume_bytes(&event, &baseline), Some(12));
    assert!(detector.volume_bytes(&make_event("write", "s", ts(1, 0, 0)), &baseline).is_none());
    let reading = SpikeReading {
        level: Level::FarAbove,
        value: "12".to_string(),
        mean: "3".to_string(),
        z: "9.0".to_string(),
        z_score: Decimal::new("9.01"),
    };
    let found = detector.detect(&event, &baseline, Some(&reading));
    assert_eq!(found[0].description, "volume spike on read: 12 bytes (z=9.0)");
    assert_eq!(found[0].evidence.baseline_value, "3 bytes (mean)");
    assert_eq!(found[0].evidence.observed_value, "12 bytes");
    assert_eq!(found[0].severity, Severity::High);
    assert!(detector.detect(&event, &baseline, None).is_empty());
}

#[test]
fn reasoning_loop_is_described_and_window_bounds_it() {
    let mut detector = ReasoningLoopDetector::new(2, 3);
    let baseline = baseline_with_tools(&[]);
    detector.detect(&make_event("a", "s", ts(1, 0, 0)), &baseline);
    let found = detector.detect(&make_event("a", "s", ts(1, 0, 1)), &baseline);
    assert_eq!(found[0].description, "reasoning loop: a called 2 times consecutively");
    assert_eq!(found[0].evidence.baseline_value, "no repeated calls expected");
    assert_eq!(found[0].evidence.observed_value, "2 consecutive identical calls");
    for n in 2..10 {
        let found = detector.detect(&make_event("a", "s", ts(1, 0, n)), &baseline);
        assert_eq!(found[0].description, "reasoning loop: a called 3 times consecutively");
    }
    // Another session is not in the loop.
    assert!(detector.detect(&make_event("a", "t", ts(1, 0, 20)), &baseline).is_empty());
}

#[test]
fn error_retry_is_described() {
    let mut detector = ErrorRetryDetector::new(1);
    let baseline = baseline_with_tools(&[]);
    let mut error = make_event("a", "s", ts(1, 0, 1));
    error.event_type = EventType::Error;
    // An error without a call before it is not counted.
    assert!(detector.detect(&error, &baseline).is_empty());
    detector.detect(&make_event("a", "s", ts(1, 0, 0)), &baseline);
    assert!(detector.accepts(&error));
    let found = detector.detect(&error, &baseline);
    assert_eq!(found[0].description, "error-retry loop: a failed 1 times consecutively");
    assert_eq!(found[0].evidence.baseline_value, "successful tool execution expected");
    assert_eq!(found[0].evidence.observed_value, "1 consecutive failures");
    // Another error without another call completes no cycle.
    assert!(detector.accepts(&error));
    assert!(detector.detect(&error, &baseline).is_empty());
    detector.detect(&make_event("a", "s", ts(1, 0, 2)), &baseline);
    let found = detector.detect(&error, &baseline);
    assert_eq!(found[0].description, "error-retry loop: a failed 2 times consecutively");
    // Other sessions are not touched.
    let mut other = make_event("a", "t", ts(1, 0, 1));
    other.event_type = EventType::Error;
    assert!(detector.detect(&other, &baseline).is_empty());
}

#[test]
fn error_retry_needs_whole_cycles() {
    let mut detector = ErrorRetryDetector::new(2);
    let baseline = baseline_with_tools(&["read"]);
    let call = make_event("read", "s1", ts(10, 0, 0));
    let mut error = make_event("read", "s1", ts(10, 0, 1));
    error.event_type = EventType::Error;
    assert!(detector.detect(&call, &baseline).is_empty());
    for _ in 0..5 {
        assert!(detector.detect(&error, &baseline).is_empty());
    }
    assert!(detector.detect(&call, &baseline).is_empty());
    assert_eq!(detector.detect(&error, &baseline).len(), 1);
    assert!(detector.detect(&error, &baseline).is_empty());
}

#[test]
fn combined_signals_are_exact() {
    let mut detector = CombinedAnomalyDetector::new(Decimal::new("3"));
    let mut baseline = baseline_with_tools(&[]);
    baseline.bigrams.set(Bigram::new("a", "b"), 6);
    baseline.bigrams.set(Bigram::new("b", "a"), 2);
    baseline.volume_stats.set("b".to_string(), StreamingStats::new());
    baseline.hourly_distribution[1] = 30;
    let mut b = make_event("b", "s", ts(1, 0, 1));
    b.data_in_bytes = 40;
    b.data_out_bytes = 2;
    assert_eq!(
        detector.signals(&b, &baseline),
        vec![Signal::Volume { bytes: 42 }, Signal::Surprise { seen: 30, of: 30 }]
    );
    detector.detect(&make_event("a", "s", ts(1, 0, 0)), &baseline, None);
    assert!(detector.accepts(&b, &baseline));
    assert_eq!(
        detector.signals(&b, &baseline),
        vec![
            Signal::Surprise { seen: 6, of: 8 },
            Signal::Volume { bytes: 42 },
            Signal::Surprise { seen: 30, of: 30 },
        ]
    );
    // A pair and an hour that were never seen.
    let c = make_event("c", "s", ts(2, 0, 0));
    assert_eq!(
        detector.signals(&c, &baseline),
        vec![Signal::Surprise { seen: 1, of: 11 }, Signal::Surprise { seen: 1, of: 54 }]
    );
    let reading = CombinedReading {
        level: Level::FarAbove,
        score: "6.50".to_string(),
        threshold: "3.0".to_string(),
        used: 2,
        z_score: Decimal::new("6.5"),
    };
    let found = detector.detect(&c, &baseline, Some(&reading));
    assert_eq!(found[0].description, "combined anomaly score 6.50 (threshold 3.0)");
    assert_eq!(found[0].evidence.baseline_value, "threshold: 3.0");
    assert_eq!(found[0].evidence.observed_value, "combined=6.50 from 2 signals");
    assert_eq!(found[0].severity, Severity::High);
}

#[test]
fn combined_reports_nothing_without_signals() {
    let mut detector = CombinedAnomalyDetector::new(Decimal::new("3"));
    let baseline = Baseline::new("test");
    let reading = CombinedReading {
        level: Level::FarAbove,
        score: "6.50".to_string(),
        threshold: "3.0".to_string(),
        used: 2,
        z_score: Decimal::new("6.5"),
    };
    let event = make_event("a", "s", ts(1, 0, 0));
    assert!(detector.signals(&event, &baseline).is_empty());
    assert!(detector.detect(&event, &baseline, Some(&reading)).is_empty());
}

#[test]
fn combined_sums_that_do_not_fit_are_seen() {
    let detector = CombinedAnomalyDetector::new(Decimal::new("3"));
    let mut baseline = baseline_with_tools(&[]);
    baseline.hourly_distribution[1] = u64::MAX;
    assert!(detector.accepts(&make_event("a", "s", ts(1, 0, 0)), &baseline));
    assert!(!detector.accepts(&make_event("a", "s", ts(2, 0, 0)), &baseline));
    baseline.hourly_distribution[2] = 1;
    assert!(!detector.accepts(&make_event("a", "s", ts(1, 0, 0)), &baseline));
}

#[test]
fn default_detectors_run_side_by_side() {
    let mut panel = default_detectors(Decimal::new("3"));
    assert_eq!(panel.rate_threshold().text, "3");
    assert_eq!(panel.volume_threshold().text, "3");
    let mut baseline = baseline_with_tools(&["a"]);
    let mut rates = Stats::new();
    for _ in 0..50 {
        rates.update(1.0);
        rates.update(1.1);
    }
    baseline.rate_stats = rates.settled();
    let mut volumes = Stats::new();
    for _ in 0..50 {
        volumes.update(500.0);
        volumes.update(550.0);
    }
    baseline.volume_stats.set("evil".to_string(), volumes.settled());
    let first = make_event("a", "s", ts(1, 0, 0));
    assert!(panel.detect(&first, &baseline, None, None).is_empty());
    let mut second = make_event("evil", "s", ts(1, 0, 1));
    second.data_out_bytes = 100_000;
    let threshold = Decimal::new("3");
    let rate = rate_reading(panel.interval_ms(&second), &threshold, &baseline);
    let bytes = panel.volume_bytes(&second, &baseline);
    assert_eq!(bytes, Some(100_000));
    let volume = volume_reading(bytes, &threshold, &second, &baseline);
    let found = panel.detect(&second, &baseline, rate.as_ref(), volume.as_ref());
    let kinds: Vec<AnomalyType> = found.iter().map(|a| a.anomaly_type).collect();
    assert_eq!(
        kinds,
        vec![
            AnomalyType::UnknownTool,
            AnomalyType::UnknownSequence,
            AnomalyType::RateSpike,
            AnomalyType::VolumeSpike,
        ]
    );
}

#[test]
fn a_learnt_stream_is_not_flagged() {
    let mut events = Vec::new();
    for (n, (tool, session)) in
        [("a", "s"), ("b", "s"), ("c", "t"), ("a", "s"), ("c", "s"), ("c", "s")].iter().enumerate()
    {
        let mut e = make_event(tool, session, ts(1, 0, n as u32));
        e.sequence_position = n as u32;
        events.push(e);
        let mut note = make_event(tool, session, ts(1, 1, n as u32));
        note.event_type = EventType::AgentMessage;
        note.sequence_position = 50 + n as u32;
        if n == 5 {
            events.push(note);
        }
    }
    let mut builder = BaselineBuilder::new("test-agent");
    for e in &events {
        assert!(builder.process(e));
    }
    let baseline = builder.finish();
    let mut tools = UnknownToolDetector;
    let mut sequences = UnknownSequenceDetector::new();
    for e in &events {
        assert!(tools.detect(e, &baseline).is_empty());
        assert!(sequences.detect(e, &baseline).is_empty());
    }
    assert_eq!(sequences.detect(&make_event("b", "s", ts(2, 0, 0)), &baseline).len(), 1);
}
