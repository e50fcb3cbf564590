//! Deviations of an agent from its profile.

pub mod detectors;
pub mod ensemble;
pub mod laws;
pub mod panel;
pub mod reports;

use vstd::prelude::*;
use vstd::string::*;

use crate::baseline::Baseline;
use crate::event::{BehavioralEvent, EventView};
use crate::number::Decimal;
use crate::order::opt_view;
use crate::time::Timestamp;

pub use crate::detect::panel::default_detectors;

verus! {

/// How grave an anomaly is.
#[derive(Debug, Clone, Copy, PartialEq, Eq, Structural)]
pub enum Severity {
    Low,
    Medium,
    High,
    Critical,
}

/// The name of a severity.
pub open spec fn severity_name(severity: Severity) -> Seq<char> {
    match severity {
        Severity::Low => "Low"@,
        Severity::Medium => "Medium"@,
        Severity::High => "High"@,
        Severity::Critical => "Critical"@,
    }
}

impl Severity {
    /// The name of the severity.
    pub fn name(&self) -> (r: &'static str)
        ensures
            r@ == severity_name(*self),
    {
        match self {
            Severity::Low => "Low",
            Severity::Medium => "Medium",
            Severity::High => "High",
            Severity::Critical => "Critical",
        }
    }
}

/// What is unusual about an event.
#[derive(Debug, Clone, Copy, PartialEq, Eq, Hash, Structural)]
pub enum AnomalyType {
    UnknownTool,
    UnknownSequence,
    UnknownResource,
    VolumeSpike,
    RateSpike,
    TemporalAnomaly,
    UnknownParamPattern,
    ReasoningLoop,
    ErrorRetryLoop,
    CombinedAnomaly,
    EnsembleScore,
}

/// The name of a kind of anomaly.
pub open spec fn anomaly_name(kind: AnomalyType) -> Seq<char> {
    match kind {
        AnomalyType::UnknownTool => "UnknownTool"@,
        AnomalyType::UnknownSequence => "UnknownSequence"@,
        AnomalyType::UnknownResource => "UnknownResource"@,
        AnomalyType::VolumeSpike => "VolumeSpike"@,
        AnomalyType::RateSpike => "RateSpike"@,
        AnomalyType::TemporalAnomaly => "TemporalAnomaly"@,
        AnomalyType::UnknownParamPattern => "UnknownParamPattern"@,
        AnomalyType::ReasoningLoop => "ReasoningLoop"@,
        AnomalyType::ErrorRetryLoop => "ErrorRetryLoop"@,
        AnomalyType::CombinedAnomaly => "CombinedAnomaly"@,
        AnomalyType::EnsembleScore => "EnsembleScore"@,
    }
}

impl AnomalyType {
    /// The name of the kind of anomaly.
    pub fn name(&self) -> (r: &'static str)
        ensures
            r@ == anomaly_name(*self),
    {
        match self {
            AnomalyType::UnknownTool => "UnknownTool",
            AnomalyType::UnknownSequence => "UnknownSequence",
            AnomalyType::UnknownResource => "UnknownResource",
            AnomalyType::VolumeSpike => "VolumeSpike",
            AnomalyType::RateSpike => "RateSpike",
            AnomalyType::TemporalAnomaly => "TemporalAnomaly",
            AnomalyType::UnknownParamPattern => "UnknownParamPattern",
            AnomalyType::ReasoningLoop => "ReasoningLoop",
            AnomalyType::ErrorRetryLoop => "ErrorRetryLoop",
            AnomalyType::CombinedAnomaly => "CombinedAnomaly",
            AnomalyType::EnsembleScore => "EnsembleScore",
        }
    }
}

/// What an anomaly rests on.
#[derive(Debug)]
pub struct Evidence {
    pub event: BehavioralEvent,
    /// Human-readable baseline context.
    pub baseline_value: String,
    /// Human-readable observed value.
    pub observed_value: String,
    pub z_score: Option<Decimal>,
    /// 0 to 1 based on baseline maturity.
    pub confidence: Decimal,
}

/// The model of an `Evidence`.
#[verifier::ext_equal]
pub struct EvidenceView {
    pub event: EventView,
    pub baseline_value: Seq<char>,
    pub observed_value: Seq<char>,
    pub z_score: Option<Seq<char>>,
    pub confidence: Seq<char>,
}

impl View for Evidence {
    type V = EvidenceView;

    open spec fn view(&self) -> EvidenceView {
        EvidenceView {
            event: self.event@,
            baseline_value: self.baseline_value@,
            observed_value: self.observed_value@,
            z_score: opt_view(self.z_score),
            confidence: self.confidence@,
        }
    }
}

impl Clone for Evidence {
    fn clone(&self) -> (r: Self)
        ensures
            r@ == self@,
    {
        Evidence {
            event: self.event.clone(),
            baseline_value: self.baseline_value.clone(),
            observed_value: self.observed_value.clone(),
            z_score: match &self.z_score {
                Some(z) => Some(z.clone()),
                None => None,
            },
            confidence: self.confidence.clone(),
        }
    }
}

/// A detected behavioral anomaly.
#[derive(Debug)]
pub struct Anomaly {
    pub timestamp: Timestamp,
    pub severity: Severity,
    pub anomaly_type: AnomalyType,
    pub description: String,
    pub evidence: Evidence,
}

/// The model of an `Anomaly`.
#[verifier::ext_equal]
pub struct AnomalyView {
    pub timestamp: Timestamp,
    pub severity: Severity,
    pub anomaly_type: AnomalyType,
    pub description: Seq<char>,
    pub evidence: EvidenceView,
}

impl View for Anomaly {
    type V = AnomalyView;

    open spec fn view(&self) -> AnomalyView {
        AnomalyView {
            timestamp: self.timestamp,
            severity: self.severity,
            anomaly_type: self.anomaly_type,
            description: self.description@,
            evidence: self.evidence@,
        }
    }
}

impl Clone for Anomaly {
    fn clone(&self) -> (r: Self)
        ensures
            r@ == self@,
    {
        Anomaly {
            timestamp: self.timestamp,
            severity: self.severity,
            anomaly_type: self.anomaly_type,
            description: self.description.clone(),
            evidence: self.evidence.clone(),
        }
    }
}

/// Individual anomaly detection strategy.
pub trait Detector {
    /// The strategy can take the event in.
    spec fn ready(&self, event: EventView) -> bool;

    /// The anomalies that the event shows against the profile. The strategy
    /// remembers of the event what it needs for later ones.
    fn detect(&mut self, event: &BehavioralEvent, baseline: &Baseline) -> (r: Vec<Anomaly>)
        requires
            old(self).ready(event@),
    ;
}

} // verus!
