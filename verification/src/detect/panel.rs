//! The default set of detectors, run side by side.

use vstd::prelude::*;

use crate::baseline::Baseline;
use crate::detect::detectors::{
    measured_volume, opt_spike, unknown_tool, volume_spike, RateSpikeDetector, RateView, SequenceView,
    SpikeReading, UnknownSequenceDetector, UnknownToolDetector, VolumeSpikeDetector,
};
use crate::detect::{Anomaly, Detector};
use crate::event::{BehavioralEvent, EventView};
use crate::number::Decimal;
use crate::order::views;

verus! {

/// The default set of detectors.
///
/// For each event, `interval_ms` and `volume_bytes` give what is to be measured,
/// and `detect` takes the readings.
#[derive(Debug)]
pub struct Panel {
    unknown_tool: UnknownToolDetector,
    unknown_sequence: UnknownSequenceDetector,
    rate_spike: RateSpikeDetector,
    volume_spike: VolumeSpikeDetector,
}

/// The model of a `Panel`.
#[verifier::ext_equal]
pub struct PanelView {
    pub sequence: SequenceView,
    pub rate: RateView,
    pub volume_threshold: Seq<char>,
}

impl View for Panel {
    type V = PanelView;

    closed spec fn view(&self) -> PanelView {
        PanelView {
            sequence: self.unknown_sequence@,
            rate: self.rate_spike@,
            volume_threshold: self.volume_spike.threshold@,
        }
    }
}

impl PanelView {
    /// What is remembered after `event`.
    pub open spec fn after(self, event: EventView) -> PanelView {
        PanelView {
            sequence: self.sequence.after(event),
            rate: self.rate.after(event),
            volume_threshold: self.volume_threshold,
        }
    }
}

/// Returns the default set of detectors.
pub fn default_detectors(threshold: Decimal) -> (r: Panel)
    ensures
        r@ == (PanelView {
            sequence: SequenceView { last_tool: None, session: None },
            rate: RateView { threshold: threshold@, last_time: None, session: None },
            volume_threshold: threshold@,
        }),
{
    Panel {
        unknown_tool: UnknownToolDetector,
        unknown_sequence: UnknownSequenceDetector::new(),
        rate_spike: RateSpikeDetector::new(threshold.clone()),
        volume_spike: VolumeSpikeDetector::new(threshold),
    }
}

/// `more` behind `out`.
fn append_anomalies(out: &mut Vec<Anomaly>, more: Vec<Anomaly>)
    ensures
        views(final(out)@) == views(old(out)@) + views(more@),
{
    let mut more = more;
    let ghost first = out@;
    let ghost second = more@;
    out.append(&mut more);
    proof {
        assert(views(first + second) =~= views(first) + views(second));
    }
}

impl Panel {
    /// How many deviations above the mean make a rate spike.
    pub fn rate_threshold(&self) -> (r: &Decimal)
        ensures
            r@ == self@.rate.threshold,
    {
        self.rate_spike.threshold()
    }

    /// How many deviations above the mean make a volume spike.
    pub fn volume_threshold(&self) -> (r: &Decimal)
        ensures
            r@ == self@.volume_threshold,
    {
        &self.volume_spike.threshold
    }

    /// The time that makes the event's call rate, where there is one.
    pub fn interval_ms(&self, event: &BehavioralEvent) -> (r: Option<u64>)
        ensures
            r == self@.rate.interval_to(event@),
    {
        self.rate_spike.interval_ms(event)
    }

    /// The event's volume, where the profile holds volumes of its tool.
    pub fn volume_bytes(&self, event: &BehavioralEvent, baseline: &Baseline) -> (r: Option<u64>)
        requires
            measured_volume(event@, baseline@.volume_stats.dom()) is Some ==> event@.volume()
                <= u64::MAX,
        ensures
            r == measured_volume(event@, baseline@.volume_stats.dom()),
    {
        self.volume_spike.volume_bytes(event, baseline)
    }

    /// The anomalies that the event shows: an unknown tool, an unknown sequence, a
    /// rate spike, a volume spike, in this order.
    pub fn detect(
        &mut self,
        event: &BehavioralEvent,
        baseline: &Baseline,
        rate: Option<&SpikeReading>,
        volume: Option<&SpikeReading>,
    ) -> (r: Vec<Anomaly>)
        ensures
            views(r@) == unknown_tool(event@, baseline@.event_count, baseline.tool_stats.keys())
                + old(self)@.sequence.finds(
                event@,
                baseline@.event_count,
                baseline@.bigrams.dom(),
            ) + old(self)@.rate.finds(event@, baseline@.event_count, opt_spike(rate))
                + volume_spike(
                event@,
                baseline@.event_count,
                baseline@.volume_stats.dom(),
                opt_spike(volume),
            ),
            final(self)@ == old(self)@.after(event@),
    {
        let mut out = self.unknown_tool.detect(event, baseline);
        append_anomalies(&mut out, self.unknown_sequence.detect(event, baseline));
        append_anomalies(&mut out, self.rate_spike.detect(event, baseline, rate));
        append_anomalies(&mut out, self.volume_spike.detect(event, baseline, volume));
        out
    }
}

} // verus!
