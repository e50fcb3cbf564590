//! Several anomalies of one event, weighed together.

use vstd::prelude::*;
use vstd::string::*;

use crate::detect::{Anomaly, AnomalyType, AnomalyView, Evidence, EvidenceView, Severity};
use crate::event::{BehavioralEvent, EventView};
use crate::number::Decimal;
use crate::order::views;
use crate::text::{decimal, decimal_text};

verus! {

/// One anomaly as evidence: how grave it is and how much it counts.
#[derive(Debug, Clone, Copy, PartialEq, Eq, Structural)]
pub struct WeightedScore {
    /// The score, in hundredths.
    pub hundredths: u64,
    /// The weight, in tenths.
    pub tenths: u64,
}

/// The score of a severity, in hundredths.
pub open spec fn severity_score(severity: Severity) -> u64 {
    match severity {
        Severity::Low => 30,
        Severity::Medium => 60,
        Severity::High => 80,
        Severity::Critical => 95,
    }
}

/// The score of a severity, in hundredths.
pub fn severity_to_score(severity: Severity) -> (r: u64)
    ensures
        r == severity_score(severity),
{
    match severity {
        Severity::Low => 30,
        Severity::Medium => 60,
        Severity::High => 80,
        Severity::Critical => 95,
    }
}

/// The weight of a kind of anomaly, in tenths.
pub open spec fn kind_weight(kind: AnomalyType) -> u64 {
    match kind {
        AnomalyType::UnknownTool => 30,
        AnomalyType::UnknownSequence => 20,
        AnomalyType::VolumeSpike => 20,
        AnomalyType::UnknownResource => 15,
        AnomalyType::RateSpike => 15,
        AnomalyType::UnknownParamPattern => 15,
        AnomalyType::TemporalAnomaly => 10,
        AnomalyType::ReasoningLoop => 25,
        AnomalyType::ErrorRetryLoop => 20,
        AnomalyType::CombinedAnomaly => 20,
        AnomalyType::EnsembleScore => 10,
    }
}

fn weight_of(kind: AnomalyType) -> (r: u64)
    ensures
        r == kind_weight(kind),
{
    match kind {
        AnomalyType::UnknownTool => 30,
        AnomalyType::UnknownSequence => 20,
        AnomalyType::VolumeSpike => 20,
        AnomalyType::UnknownResource => 15,
        AnomalyType::RateSpike => 15,
        AnomalyType::UnknownParamPattern => 15,
        AnomalyType::TemporalAnomaly => 10,
        AnomalyType::ReasoningLoop => 25,
        AnomalyType::ErrorRetryLoop => 20,
        AnomalyType::CombinedAnomaly => 20,
        AnomalyType::EnsembleScore => 10,
    }
}

/// The anomalies as evidence, in their order. Earlier ensemble scores are left out.
pub open spec fn weighed(anomalies: Seq<AnomalyView>) -> Seq<WeightedScore>
    decreases anomalies.len(),
{
    if anomalies.len() == 0 {
        Seq::empty()
    } else {
        let before = weighed(anomalies.drop_last());
        let last = anomalies.last();
        if last.anomaly_type == AnomalyType::EnsembleScore {
            before
        } else {
            before.push(
                WeightedScore {
                    hundredths: severity_score(last.severity),
                    tenths: kind_weight(last.anomaly_type),
                },
            )
        }
    }
}

/// How strong the combined evidence is.
#[derive(Debug, Clone, Copy, PartialEq, Eq, Structural)]
pub enum Strength {
    /// At most 0.8.
    Weak,
    /// Above 0.8.
    Notable,
    /// Above 0.9.
    Strong,
    /// Above 0.95.
    Overwhelming,
}

/// The severity of combined evidence, where it is worth a report.
pub open spec fn strength_severity(strength: Strength) -> Option<Severity> {
    match strength {
        Strength::Weak => None,
        Strength::Notable => Some(Severity::Medium),
        Strength::Strong => Some(Severity::High),
        Strength::Overwhelming => Some(Severity::Critical),
    }
}

/// What the evidence combines to by Fisher's method and by Stouffer's, and the
/// greater of the two. The texts have three decimals.
#[derive(Debug)]
pub struct EnsembleReading {
    pub strength: Strength,
    pub combined: String,
    pub fisher: String,
    pub stouffer: String,
    /// The greater of the two, unrounded.
    pub z_score: Decimal,
}

/// The model of an `EnsembleReading`.
pub struct EnsembleReadingView {
    pub strength: Strength,
    pub combined: Seq<char>,
    pub fisher: Seq<char>,
    pub stouffer: Seq<char>,
    pub z_score: Seq<char>,
}

impl View for EnsembleReading {
    type V = EnsembleReadingView;

    open spec fn view(&self) -> EnsembleReadingView {
        EnsembleReadingView {
            strength: self.strength,
            combined: self.combined@,
            fisher: self.fisher@,
            stouffer: self.stouffer@,
            z_score: self.z_score@,
        }
    }
}

/// What `EnsembleScorer` reports of an event with these anomalies, given the
/// reading of the evidence.
pub open spec fn ensemble_score(
    anomalies: Seq<AnomalyView>,
    event: EventView,
    reading: EnsembleReadingView,
) -> Option<AnomalyView> {
    let count = weighed(anomalies).len();
    match strength_severity(reading.strength) {
        Some(severity) => if count < 2 {
            None
        } else {
            Some(
                AnomalyView {
                    timestamp: event.timestamp,
                    severity,
                    anomaly_type: AnomalyType::EnsembleScore,
                    description: "ensemble score: "@ + reading.combined + " from "@ + decimal(count)
                        + " signals (fisher="@ + reading.fisher + ", stouffer="@ + reading.stouffer
                        + ")"@,
                    evidence: EvidenceView {
                        event,
                        baseline_value: "threshold: 0.8"@,
                        observed_value: "combined p-value: "@ + reading.combined,
                        z_score: Some(reading.z_score),
                        confidence: "1"@,
                    },
                },
            )
        },
        None => None,
    }
}

/// Combines independent anomaly signals using Fisher's method and
/// Stouffer's Z. Emits a single EnsembleScore anomaly per event when
/// multiple detectors fire.
///
/// `signals` gives the evidence; `score` takes the reading of it.
#[derive(Debug)]
pub struct EnsembleScorer;

impl Default for EnsembleScorer {
    fn default() -> (r: Self)
        ensures
            r == EnsembleScorer,
    {
        EnsembleScorer
    }
}

impl EnsembleScorer {
    /// The evidence of a batch of anomalies from a single event. None where there
    /// are fewer than two independent signals to combine.
    pub fn signals(&self, anomalies: &[Anomaly]) -> (r: Option<Vec<WeightedScore>>)
        ensures
            match r {
                Some(scores) => scores@ == weighed(views(anomalies@)) && scores@.len() >= 2,
                None => weighed(views(anomalies@)).len() < 2,
            },
    {
        let ghost all = views(anomalies@);
        let mut scores: Vec<WeightedScore> = Vec::new();
        let mut i: usize = 0;
        while i < anomalies.len()
            invariant
                i <= anomalies.len(),
                all == views(anomalies@),
                scores@ == weighed(all.take(i as int)),
            decreases anomalies.len() - i,
        {
            proof {
                let longer = all.take(i + 1);
                assert(longer.drop_last() =~= all.take(i as int));
                assert(longer.last() == anomalies@[i as int]@);
            }
            if anomalies[i].anomaly_type != AnomalyType::EnsembleScore {
                scores.push(
                    WeightedScore {
                        hundredths: severity_to_score(anomalies[i].severity),
                        tenths: weight_of(anomalies[i].anomaly_type),
                    },
                );
            }
            i = i + 1;
        }
        proof {
            assert(all.take(all.len() as int) =~= all);
        }
        if scores.len() < 2 {
            None
        } else {
            Some(scores)
        }
    }

    /// Score a batch of anomalies from a single event, given the reading of their
    /// evidence. Returns an EnsembleScore anomaly if the combined signal is strong
    /// enough.
    pub fn score(
        &self,
        anomalies: &[Anomaly],
        event: &BehavioralEvent,
        reading: &EnsembleReading,
    ) -> (r: Option<Anomaly>)
        ensures
            crate::order::opt_view(r) == ensemble_score(views(anomalies@), event@, reading@),
    {
        let scores = match self.signals(anomalies) {
            Some(scores) => scores,
            None => {
                return None;
            },
        };
        let severity = match reading.strength {
            Strength::Weak => {
                return None;
            },
            Strength::Notable => Severity::Medium,
            Strength::Strong => Severity::High,
            Strength::Overwhelming => Severity::Critical,
        };
        let anomaly = Anomaly {
            timestamp: event.timestamp,
            severity,
            anomaly_type: AnomalyType::EnsembleScore,
            description: "ensemble score: ".to_owned().concat(reading.combined.as_str()).concat(
                " from ",
            ).concat(decimal_text(scores.len() as u64).as_str()).concat(" signals (fisher=").concat(
                reading.fisher.as_str(),
            ).concat(", stouffer=").concat(reading.stouffer.as_str()).concat(")"),
            evidence: Evidence {
                event: event.clone(),
                baseline_value: "threshold: 0.8".to_owned(),
                observed_value: "combined p-value: ".to_owned().concat(reading.combined.as_str()),
                z_score: Some(reading.z_score.clone()),
                confidence: Decimal::new("1"),
            },
        };
        Some(anomaly)
    }
}

} // verus!
