use chrono::{TimeZone, Utc};
use vigil::baseline::Baseline;
use vigil::detect::ensemble::{
    severity_to_score, EnsembleReading, EnsembleScorer, Strength, WeightedScore,
};
use vigil::detect::{Anomaly, AnomalyType, Evidence, Severity};
use vigil::event::{BehavioralEvent, EventType};
use vigil::number::Decimal;
use vigil::time::Timestamp;

fn make_test_event(tool: &str) -> BehavioralEvent {
    let t = Utc.with_ymd_and_hms(2025, 1, 15, 10, 0, 0).unwrap();
    BehavioralEvent {
        timestamp: Timestamp::from_unix(t.timestamp(), 0).unwrap(),
        session_id: "s1".to_string(),
        agent_id: "test".to_string(),
        event_type: EventType::ToolCall,
        tool_name: Some(tool.to_string()),
        param_keys: vec![],
        resource_ids: vec![],
        data_in_bytes: 0,
        data_out_bytes: 0,
        duration_ms: 0,
        token_count: None,
        sequence_position: 1,
        trace_id: None,
        span_id: None,
        provider: None,
        model: None,
    }
}

fn make_anomaly(event: &BehavioralEvent, kind: AnomalyType, severity: Severity) -> Anomaly {
    Anomaly {
        timestamp: event.timestamp,
        severity,
        anomaly_type: kind,
        description: "test".to_string(),
        evidence: Evidence {
            event: event.clone(),
            baseline_value: "".to_string(),
            observed_value: "".to_string(),
            z_score: None,
            confidence: Decimal::new("1"),
        },
    }
}

fn reading(strength: Strength) -> EnsembleReading {
    EnsembleReading {
        strength,
        combined: "0.999".to_string(),
        fisher: "0.912".to_string(),
        stouffer: "0.999".to_string(),
        z_score: Decimal::new("0.9987"),
    }
}

/// The standard normal distribution, by the trapezoidal rule.
fn normal(x: f64) -> f64 {
    let steps = 20_000;
    let from = -10.0;
    let width = (x - from) / steps as f64;
    let density = |x: f64| (-0.5 * x * x).exp() / (2.0 * std::f64::consts::PI).sqrt();
    let inner: f64 = (1..steps).map(|i| density(from + i as f64 * width)).sum();
    width * (inner + (density(from) + density(x)) / 2.0)
}

/// Where the standard normal distribution passes `p`, by bisection.
fn normal_inverse(p: f64) -> f64 {
    let (mut low, mut high) = (-5.0, 5.0);
    for _ in 0..40 {
        let middle = (low + high) / 2.0;
        if normal(middle) < p {
            low = middle;
        } else {
            high = middle;
        }
    }
    low
}

/// Combines scores by Fisher's method and by Stouffer's. The degrees of freedom must be
/// even: the chi-squared distribution is then a finite sum.
fn combine(scores: &[WeightedScore]) -> EnsembleReading {
    let scores: Vec<(f64, f64)> = scores
        .iter()
        .map(|s| (s.hundredths as f64 / 100.0, s.tenths as f64 / 10.0))
        .collect();
    let chi2: f64 = scores.iter().map(|(s, w)| -2.0 * w * (1.0 - s).ln()).sum();
    let half_df: f64 = scores.iter().map(|(_, w)| w).sum();
    assert_eq!(half_df.fract(), 0.0);
    let mut term = 1.0;
    let mut sum = 0.0;
    for i in 0..half_df as u32 {
        sum += term;
        term *= chi2 / 2.0 / (i + 1) as f64;
    }
    let fisher = 1.0 - (-chi2 / 2.0).exp() * sum;
    let z: f64 = scores.iter().map(|(s, w)| w * normal_inverse(*s)).sum::<f64>()
        / scores.iter().map(|(_, w)| w * w).sum::<f64>().sqrt();
    let stouffer = normal(z);
    let combined = fisher.max(stouffer);
    EnsembleReading {
        strength: if combined > 0.95 {
            Strength::Overwhelming
        } else if combined > 0.9 {
            Strength::Strong
        } else if combined > 0.8 {
            Strength::Notable
        } else {
            Strength::Weak
        },
        combined: format!("{combined:.3}"),
        fisher: format!("{fisher:.3}"),
        stouffer: format!("{stouffer:.3}"),
        z_score: Decimal::new(&format!("{combined}")),
    }
}

#[test]
fn ensemble_needs_two_signals() {
    let scorer = EnsembleScorer::default();
    let event = make_test_event("read");
    let _baseline = Baseline::new("test");

    // Single anomaly.
    let anomalies = vec![make_anomaly(&event, AnomalyType::UnknownTool, Severity::High)];

    assert!(scorer.signals(&anomalies).is_none());
    assert!(scorer.score(&anomalies, &event, &reading(Strength::Overwhelming)).is_none());
}

#[test]
fn ensemble_fires_for_multiple_high_severity() {
    let scorer = EnsembleScorer::default();
    let event = make_test_event("evil");

    let anomalies = vec![
        make_anomaly(&event, AnomalyType::UnknownTool, Severity::High),
        make_anomaly(&event, AnomalyType::UnknownSequence, Severity::High),
    ];

    // Two scores of 0.8 with weights 3 and 2.
    let scores = scorer.signals(&anomalies).unwrap();
    assert_eq!(
        scores,
        vec![
            WeightedScore { hundredths: 80, tenths: 30 },
            WeightedScore { hundredths: 80, tenths: 20 },
        ]
    );
    let found = combine(&scores);
    assert_eq!(found.fisher, "0.903");
    assert_eq!(found.stouffer, "0.878");

    let result = scorer.score(&anomalies, &event, &found);
    assert!(result.is_some());
    let ensemble = result.unwrap();
    assert_eq!(ensemble.anomaly_type, AnomalyType::EnsembleScore);
    assert_eq!(ensemble.severity, Severity::High);
    assert_eq!(
        ensemble.description,
        "ensemble score: 0.903 from 2 signals (fisher=0.903, stouffer=0.878)"
    );
    assert_eq!(format!("{ensemble:?}"), format!("{:?}", ensemble.clone()));
}

#[test]
fn ensemble_empty_returns_none() {
    let scorer = EnsembleScorer::default();
    let event = make_test_event("read");
    assert!(scorer.signals(&vec![]).is_none());
    assert!(scorer.score(&vec![], &event, &reading(Strength::Overwhelming)).is_none());
}

#[test]
fn ensemble_is_described() {
    let scorer = EnsembleScorer;
    let event = make_test_event("evil");
    let anomalies = vec![
        make_anomaly(&event, AnomalyType::UnknownTool, Severity::High),
        make_anomaly(&event, AnomalyType::EnsembleScore, Severity::Critical),
        make_anomaly(&event, AnomalyType::RateSpike, Severity::Low),
        make_anomaly(&event, AnomalyType::VolumeSpike, Severity::Medium),
    ];
    assert_eq!(
        scorer.signals(&anomalies).unwrap(),
        vec![
            WeightedScore { hundredths: 80, tenths: 30 },
            WeightedScore { hundredths: 30, tenths: 15 },
            WeightedScore { hundredths: 60, tenths: 20 },
        ]
    );
    let found = scorer.score(&anomalies, &event, &reading(Strength::Overwhelming)).unwrap();
    assert_eq!(found.severity, Severity::Critical);
    assert_eq!(
        found.description,
        "ensemble score: 0.999 from 3 signals (fisher=0.912, stouffer=0.999)"
    );
    assert_eq!(found.evidence.baseline_value, "threshold: 0.8");
    assert_eq!(found.evidence.observed_value, "combined p-value: 0.999");
    assert_eq!(found.evidence.z_score.unwrap().text, "0.9987");
    assert_eq!(found.evidence.confidence.text, "1");
    let strong = scorer.score(&anomalies, &event, &reading(Strength::Strong)).unwrap();
    assert_eq!(strong.severity, Severity::High);
    let notable = scorer.score(&anomalies, &event, &reading(Strength::Notable)).unwrap();
    assert_eq!(notable.severity, Severity::Medium);
    assert!(scorer.score(&anomalies, &event, &reading(Strength::Weak)).is_none());
}

#[test]
fn earlier_ensemble_scores_are_no_signals() {
    let scorer = EnsembleScorer;
    let event = make_test_event("evil");
    let anomalies = vec![
        make_anomaly(&event, AnomalyType::EnsembleScore, Severity::High),
        make_anomaly(&event, AnomalyType::EnsembleScore, Severity::High),
        make_anomaly(&event, AnomalyType::UnknownTool, Severity::High),
    ];
    assert!(scorer.signals(&anomalies).is_none());
}

#[test]
fn weights_and_scores() {
    let scorer = EnsembleScorer;
    let event = make_test_event("evil");
    for (kind, tenths) in [
        (AnomalyType::UnknownTool, 30),
        (AnomalyType::UnknownSequence, 20),
        (AnomalyType::VolumeSpike, 20),
        (AnomalyType::UnknownResource, 15),
        (AnomalyType::RateSpike, 15),
        (AnomalyType::UnknownParamPattern, 15),
        (AnomalyType::TemporalAnomaly, 10),
        (AnomalyType::ReasoningLoop, 25),
        (AnomalyType::ErrorRetryLoop, 20),
        (AnomalyType::CombinedAnomaly, 20),
    ] {
        let two = vec![
            make_anomaly(&event, kind, Severity::Critical),
            make_anomaly(&event, kind, Severity::Critical),
        ];
        let scores = scorer.signals(&two).unwrap();
        assert_eq!(scores[0], WeightedScore { hundredths: 95, tenths });
    }
    assert_eq!(severity_to_score(Severity::Low), 30);
    assert_eq!(severity_to_score(Severity::Medium), 60);
    assert_eq!(severity_to_score(Severity::High), 80);
    assert_eq!(severity_to_score(Severity::Critical), 95);
}
