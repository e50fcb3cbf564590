//! The detection strategies.
//!
//! A strategy that weighs real numbers comes in two halves. The first says what
//! is to be weighed, the second takes the reading and draws the conclusion.

use vstd::prelude::*;
use vstd::string::*;

use crate::baseline::builder::{call_interval, interval};
use crate::baseline::{bigram_text, total, Baseline, BaselineView, Bigram};
use crate::detect::{Anomaly, AnomalyType, AnomalyView, Detector, Evidence, EvidenceView, Severity};
use crate::dict::{Dict, Key};
use crate::event::{BehavioralEvent, EventType, EventView};
use crate::number::{hundredths, Decimal};
use crate::order::{opt_view, views};
use crate::text::{copy_texts, decimal, decimal_text, joined, same_texts};
use crate::time::{hour_of_day, Timestamp};

verus! {

/// How far a profile is to be trusted: a hundredth for each event up to one.
pub fn confidence(baseline: &Baseline) -> (r: Decimal)
    ensures
        r@ == hundredths(baseline@.event_count as nat),
{
    Decimal::from_hundredths(baseline.event_count)
}

/// An anomaly of `event` as the strategies report it.
pub open spec fn finding(
    event: EventView,
    event_count: u64,
    severity: Severity,
    anomaly_type: AnomalyType,
    description: Seq<char>,
    baseline_value: Seq<char>,
    observed_value: Seq<char>,
    z_score: Option<Seq<char>>,
) -> AnomalyView {
    AnomalyView {
        timestamp: event.timestamp,
        severity,
        anomaly_type,
        description,
        evidence: EvidenceView {
            event,
            baseline_value,
            observed_value,
            z_score,
            confidence: hundredths(event_count as nat),
        },
    }
}

/// A list of the one anomaly that the arguments describe.
fn report(
    event: &BehavioralEvent,
    baseline: &Baseline,
    severity: Severity,
    anomaly_type: AnomalyType,
    description: String,
    baseline_value: String,
    observed_value: String,
    z_score: Option<Decimal>,
) -> (r: Vec<Anomaly>)
    ensures
        views(r@) == seq![
            finding(
                event@,
                baseline@.event_count,
                severity,
                anomaly_type,
                description@,
                baseline_value@,
                observed_value@,
                opt_view(z_score),
            ),
        ],
{
    let mut out: Vec<Anomaly> = Vec::new();
    let anomaly = Anomaly {
        timestamp: event.timestamp,
        severity,
        anomaly_type,
        description,
        evidence: Evidence {
            event: event.clone(),
            baseline_value,
            observed_value,
            z_score,
            confidence: confidence(baseline),
        },
    };
    let ghost expected = finding(
        event@,
        baseline@.event_count,
        severity,
        anomaly_type,
        description@,
        baseline_value@,
        observed_value@,
        opt_view(z_score),
    );
    proof {
        assert(anomaly@ == expected);
    }
    out.push(anomaly);
    proof {
        assert(views(out@) =~= seq![expected]);
    }
    out
}

/// No anomalies.
fn nothing() -> (r: Vec<Anomaly>)
    ensures
        views(r@) == Seq::<AnomalyView>::empty(),
{
    let out: Vec<Anomaly> = Vec::new();
    proof {
        assert(views(out@) =~= Seq::<AnomalyView>::empty());
    }
    out
}

/// The tool that an event calls, where it is a tool call that names one.
pub open spec fn called_tool(event: EventView) -> Option<Seq<char>> {
    if event.event_type == EventType::ToolCall {
        event.tool_name
    } else {
        None
    }
}

/// The tool that an event calls, where it is a tool call that names one.
fn tool_called(event: &BehavioralEvent) -> (r: Option<&String>)
    ensures
        match r {
            Some(name) => called_tool(event@) == Some(name@),
            None => called_tool(event@) is None,
        },
{
    if event.event_type != EventType::ToolCall {
        return None;
    }
    match &event.tool_name {
        Some(name) => Some(name),
        None => None,
    }
}

// ---------------------------------------------------------------------------
// Unknown tools
// ---------------------------------------------------------------------------

/// The keys of a table with `separator` between them.
fn join_keys<T: View>(table: &Dict<String, T>, separator: &str) -> (r: String)
    ensures
        r@ == joined(table.keys(), separator@),
{
    let mut out = String::new();
    let n: usize = table.len();
    let mut i: usize = 0;
    while i < n
        invariant
            i <= n,
            n == table.keys().len(),
            out@ == joined(table.keys().take(i as int), separator@),
        decreases n - i,
    {
        if i > 0 {
            out.append(separator);
        }
        out.append(table.key_at(i).as_str());
        proof {
            let longer = table.keys().take(i + 1);
            assert(longer.drop_last() =~= table.keys().take(i as int));
            if i == 0 {
                assert(out@ =~= table.keys()[0]);
            }
        }
        i = i + 1;
    }
    proof {
        assert(table.keys().take(n as int) =~= table.keys());
    }
    out
}

/// Flags tool calls with tool names not seen in the baseline.
#[derive(Debug)]
pub struct UnknownToolDetector;

/// What `UnknownToolDetector` finds. `known` are the tools of the profile in the
/// order in which they came.
pub open spec fn unknown_tool(
    event: EventView,
    event_count: u64,
    known: Seq<Seq<char>>,
) -> Seq<AnomalyView> {
    match called_tool(event) {
        Some(tool) => if known.contains(tool) {
            Seq::empty()
        } else {
            seq![
                finding(
                    event,
                    event_count,
                    Severity::High,
                    AnomalyType::UnknownTool,
                    "unknown tool: "@ + tool,
                    "known tools: ["@ + joined(known, ", "@) + "]"@,
                    tool,
                    None,
                ),
            ]
        },
        None => Seq::empty(),
    }
}

impl Detector for UnknownToolDetector {
    open spec fn ready(&self, event: EventView) -> bool {
        true
    }

    fn detect(&mut self, event: &BehavioralEvent, baseline: &Baseline) -> (r: Vec<Anomaly>)
        ensures
            views(r@) == unknown_tool(
                event@,
                baseline@.event_count,
                baseline.tool_stats.keys(),
            ),
    {
        let tool_name = match tool_called(event) {
            Some(name) => name,
            None => {
                return nothing();
            },
        };
        if baseline.tool_stats.contains_key(tool_name) {
            return nothing();
        }
        let description = "unknown tool: ".to_owned().concat(tool_name.as_str());
        let known = "known tools: [".to_owned().concat(
            join_keys(&baseline.tool_stats, ", ").as_str(),
        ).concat("]");
        report(
            event,
            baseline,
            Severity::High,
            AnomalyType::UnknownTool,
            description,
            known,
            tool_name.clone(),
            None,
        )
    }
}

// ---------------------------------------------------------------------------
// Unknown sequences
// ---------------------------------------------------------------------------

/// Flags tool call bigrams not seen in the baseline.
#[derive(Debug)]
pub struct UnknownSequenceDetector {
    last_tool_call: Option<String>,
    last_session_id: Option<String>,
}

/// The model of an `UnknownSequenceDetector`.
#[verifier::ext_equal]
pub struct SequenceView {
    pub last_tool: Option<Seq<char>>,
    pub session: Option<Seq<char>>,
}

impl View for UnknownSequenceDetector {
    type V = SequenceView;

    closed spec fn view(&self) -> SequenceView {
        SequenceView {
            last_tool: opt_view(self.last_tool_call),
            session: opt_view(self.last_session_id),
        }
    }
}

impl SequenceView {
    /// The tool called before `event` in its session.
    pub open spec fn previous(self, event: EventView) -> Option<Seq<char>> {
        if self.session == Some(event.session_id) {
            self.last_tool
        } else {
            None
        }
    }

    /// What is remembered after `event`.
    pub open spec fn after(self, event: EventView) -> SequenceView {
        match called_tool(event) {
            Some(tool) => SequenceView {
                last_tool: Some(tool),
                session: Some(event.session_id),
            },
            None => self,
        }
    }

    /// What `UnknownSequenceDetector` finds. `known` are the pairs of the profile.
    pub open spec fn finds(
        self,
        event: EventView,
        event_count: u64,
        known: Set<(Seq<char>, Seq<char>)>,
    ) -> Seq<AnomalyView> {
        match (called_tool(event), self.previous(event)) {
            (Some(tool), Some(prev)) => if known.contains((prev, tool)) {
                Seq::empty()
            } else {
                seq![
                    finding(
                        event,
                        event_count,
                        Severity::Medium,
                        AnomalyType::UnknownSequence,
                        "unseen sequence: "@ + bigram_text((prev, tool)),
                        decimal(known.len()) + " known bigrams"@,
                        bigram_text((prev, tool)),
                        None,
                    ),
                ]
            },
            _ => Seq::empty(),
        }
    }
}

impl UnknownSequenceDetector {
    /// A detector that has seen no call.
    pub fn new() -> (r: Self)
        ensures
            r@ == (SequenceView { last_tool: None, session: None }),
    {
        UnknownSequenceDetector { last_tool_call: None, last_session_id: None }
    }
}

impl Default for UnknownSequenceDetector {
    fn default() -> (r: Self)
        ensures
            r@ == (SequenceView { last_tool: None, session: None }),
    {
        UnknownSequenceDetector::new()
    }
}

/// Whether `last` is the session of `event`.
fn in_same_session(last: &Option<String>, event: &BehavioralEvent) -> (r: bool)
    ensures
        r == (opt_view(*last) == Some(event@.session_id)),
{
    match last {
        Some(session) => *session == event.session_id,
        None => false,
    }
}

impl Detector for UnknownSequenceDetector {
    open spec fn ready(&self, event: EventView) -> bool {
        true
    }

    fn detect(&mut self, event: &BehavioralEvent, baseline: &Baseline) -> (r: Vec<Anomaly>)
        ensures
            views(r@) == old(self)@.finds(
                event@,
                baseline@.event_count,
                baseline@.bigrams.dom(),
            ),
            final(self)@ == old(self)@.after(event@),
    {
        let tool_name = match tool_called(event) {
            Some(name) => name,
            None => {
                return nothing();
            },
        };
        if !in_same_session(&self.last_session_id, event) {
            self.last_tool_call = None;
            self.last_session_id = Some(event.session_id.clone());
        }
        let known: usize = baseline.bigrams.len();
        let result = match &self.last_tool_call {
            Some(prev) => {
                let bigram = Bigram::new(prev.as_str(), tool_name.as_str());
                if baseline.bigrams.contains_key(&bigram) {
                    nothing()
                } else {
                    report(
                        event,
                        baseline,
                        Severity::Medium,
                        AnomalyType::UnknownSequence,
                        "unseen sequence: ".to_owned().concat(bigram.to_string().as_str()),
                        decimal_text(known as u64).concat(" known bigrams"),
                        bigram.to_string(),
                        None,
                    )
                }
            },
            None => nothing(),
        };
        self.last_tool_call = Some(tool_name.clone());
        result
    }
}

// ---------------------------------------------------------------------------
// Rate spikes
// ---------------------------------------------------------------------------

/// Where a measured value stands against a threshold.
#[derive(Debug, Clone, Copy, PartialEq, Eq, Structural)]
pub enum Level {
    /// Not above the threshold.
    Within,
    /// Above the threshold.
    Above,
    /// Above the threshold by more than the detector's margin.
    FarAbove,
}

/// The severity that a level above the threshold has.
pub open spec fn level_severity(level: Level) -> Severity {
    if level == Level::FarAbove {
        Severity::High
    } else {
        Severity::Medium
    }
}

fn severity_of(level: Level) -> (r: Severity)
    ensures
        r == level_severity(level),
{
    if level == Level::FarAbove {
        Severity::High
    } else {
        Severity::Medium
    }
}

/// A value measured against the mean and the deviation of earlier ones. The
/// texts are for people to read, rounded as the detector reports them.
#[derive(Debug)]
pub struct SpikeReading {
    pub level: Level,
    /// The value.
    pub value: String,
    /// The mean of earlier values.
    pub mean: String,
    /// How many deviations the value lies above the mean.
    pub z: String,
    /// The same, unrounded.
    pub z_score: Decimal,
}

/// The model of a `SpikeReading`.
pub struct SpikeView {
    pub level: Level,
    pub value: Seq<char>,
    pub mean: Seq<char>,
    pub z: Seq<char>,
    pub z_score: Seq<char>,
}

impl View for SpikeReading {
    type V = SpikeView;

    open spec fn view(&self) -> SpikeView {
        SpikeView {
            level: self.level,
            value: self.value@,
            mean: self.mean@,
            z: self.z@,
            z_score: self.z_score@,
        }
    }
}

/// Flags tool call rates that exceed a z-score threshold.
///
/// `interval_ms` gives the time that makes the rate; `detect` takes the reading of
/// that rate against the profile's `rate_stats`. The margin is two deviations.
#[derive(Debug)]
pub struct RateSpikeDetector {
    pub threshold: Decimal,
    last_tool_call_time: Option<Timestamp>,
    last_session_id: Option<String>,
}

/// The model of a `RateSpikeDetector`.
#[verifier::ext_equal]
pub struct RateView {
    pub threshold: Seq<char>,
    pub last_time: Option<Timestamp>,
    pub session: Option<Seq<char>>,
}

impl View for RateSpikeDetector {
    type V = RateView;

    closed spec fn view(&self) -> RateView {
        RateView {
            threshold: self.threshold@,
            last_time: self.last_tool_call_time,
            session: opt_view(self.last_session_id),
        }
    }
}

impl RateView {
    /// The milliseconds from the session's last tool call to `event`, where both
    /// are there and time has passed.
    pub open spec fn interval_to(self, event: EventView) -> Option<u64> {
        if event.event_type == EventType::ToolCall && self.session == Some(event.session_id) {
            interval(self.last_time, event.timestamp)
        } else {
            None
        }
    }

    /// What is remembered after `event`.
    pub open spec fn after(self, event: EventView) -> RateView {
        if event.event_type == EventType::ToolCall {
            RateView {
                threshold: self.threshold,
                last_time: Some(event.timestamp),
                session: Some(event.session_id),
            }
        } else {
            self
        }
    }

    /// What `RateSpikeDetector` finds, given the reading of the rate, where there
    /// is a rate and the profile's rates deviate at all.
    pub open spec fn finds(
        self,
        event: EventView,
        event_count: u64,
        reading: Option<SpikeView>,
    ) -> Seq<AnomalyView> {
        match (self.interval_to(event), reading) {
            (Some(_), Some(spike)) => if spike.level == Level::Within {
                Seq::empty()
            } else {
                seq![
                    finding(
                        event,
                        event_count,
                        level_severity(spike.level),
                        AnomalyType::RateSpike,
                        "rate spike: "@ + spike.value + " calls/min (z="@ + spike.z + ")"@,
                        spike.mean + " calls/min (mean)"@,
                        spike.value + " calls/min"@,
                        Some(spike.z_score),
                    ),
                ]
            },
            _ => Seq::empty(),
        }
    }
}

/// The model of an optional reading.
pub open spec fn opt_spike(reading: Option<&SpikeReading>) -> Option<SpikeView> {
    match reading {
        Some(r) => Some(r@),
        None => None,
    }
}

impl RateSpikeDetector {
    /// A detector that has seen no call.
    pub fn new(threshold: Decimal) -> (r: Self)
        ensures
            r@ == (RateView { threshold: threshold@, last_time: None, session: None }),
    {
        RateSpikeDetector { threshold, last_tool_call_time: None, last_session_id: None }
    }

    /// How many deviations above the mean make a spike.
    pub fn threshold(&self) -> (r: &Decimal)
        ensures
            r@ == self@.threshold,
    {
        &self.threshold
    }

    /// The milliseconds from the session's last tool call to `event`, where both
    /// are there and time has passed.
    pub fn interval_ms(&self, event: &BehavioralEvent) -> (r: Option<u64>)
        ensures
            r == self@.interval_to(event@),
    {
        if event.event_type != EventType::ToolCall || !in_same_session(
            &self.last_session_id,
            event,
        ) {
            return None;
        }
        call_interval(&self.last_tool_call_time, &event.timestamp)
    }

    /// The anomalies that the event shows against the profile, given the reading
    /// of its rate.
    pub fn detect(
        &mut self,
        event: &BehavioralEvent,
        baseline: &Baseline,
        reading: Option<&SpikeReading>,
    ) -> (r: Vec<Anomaly>)
        ensures
            views(r@) == old(self)@.finds(event@, baseline@.event_count, opt_spike(reading)),
            final(self)@ == old(self)@.after(event@),
    {
        if event.event_type != EventType::ToolCall {
            return nothing();
        }
        let measured = self.interval_ms(event);
        if !in_same_session(&self.last_session_id, event) {
            self.last_session_id = Some(event.session_id.clone());
        }
        self.last_tool_call_time = Some(event.timestamp);
        if measured.is_none() {
            return nothing();
        }
        match reading {
            Some(spike) => {
                if spike.level == Level::Within {
                    return nothing();
                }
                report(
                    event,
                    baseline,
                    severity_of(spike.level),
                    AnomalyType::RateSpike,
                    "rate spike: ".to_owned().concat(spike.value.as_str()).concat(
                        " calls/min (z=",
                    ).concat(spike.z.as_str()).concat(")"),
                    spike.mean.clone().concat(" calls/min (mean)"),
                    spike.value.clone().concat(" calls/min"),
                    Some(spike.z_score.clone()),
                )
            },
            None => nothing(),
        }
    }
}

// ---------------------------------------------------------------------------
// Volume spikes
// ---------------------------------------------------------------------------

/// Flags data volumes that exceed a z-score threshold for a given tool.
///
/// `volume_bytes` gives the volume; `detect` takes its reading against the
/// profile's `volume_stats` of the tool. The margin is two deviations.
#[derive(Debug)]
pub struct VolumeSpikeDetector {
    pub threshold: Decimal,
}

/// The volume of a call of a tool whose volumes the profile holds.
pub open spec fn measured_volume(event: EventView, known: Set<Seq<char>>) -> Option<u64> {
    match called_tool(event) {
        Some(tool) => if known.contains(tool) {
            Some(event.volume() as u64)
        } else {
            None
        },
        None => None,
    }
}

/// What `VolumeSpikeDetector` finds, given the reading of the volume. `known` are
/// the tools whose volumes the profile holds.
pub open spec fn volume_spike(
    event: EventView,
    event_count: u64,
    known: Set<Seq<char>>,
    reading: Option<SpikeView>,
) -> Seq<AnomalyView> {
    match (called_tool(event), reading) {
        (Some(tool), Some(spike)) => if !known.contains(tool) || spike.level == Level::Within {
            Seq::empty()
        } else {
            seq![
                finding(
                    event,
                    event_count,
                    level_severity(spike.level),
                    AnomalyType::VolumeSpike,
                    "volume spike on "@ + tool + ": "@ + spike.value + " bytes (z="@ + spike.z + ")"@,
                    spike.mean + " bytes (mean)"@,
                    spike.value + " bytes"@,
                    Some(spike.z_score),
                ),
            ]
        },
        _ => Seq::empty(),
    }
}

impl VolumeSpikeDetector {
    /// A detector with the given threshold.
    pub fn new(threshold: Decimal) -> (r: Self)
        ensures
            r.threshold == threshold,
    {
        VolumeSpikeDetector { threshold }
    }

    /// The volume of a call of a tool whose volumes the profile holds.
    pub fn volume_bytes(&self, event: &BehavioralEvent, baseline: &Baseline) -> (r: Option<u64>)
        requires
            measured_volume(event@, baseline@.volume_stats.dom()) is Some ==> event@.volume()
                <= u64::MAX,
        ensures
            r == measured_volume(event@, baseline@.volume_stats.dom()),
    {
        match tool_called(event) {
            Some(tool) => if baseline.volume_stats.contains_key(tool) {
                Some(event.data_in_bytes + event.data_out_bytes)
            } else {
                None
            },
            None => None,
        }
    }

    /// The anomalies that the event shows against the profile, given the reading
    /// of its volume.
    pub fn detect(
        &self,
        event: &BehavioralEvent,
        baseline: &Baseline,
        reading: Option<&SpikeReading>,
    ) -> (r: Vec<Anomaly>)
        ensures
            views(r@) == volume_spike(
                event@,
                baseline@.event_count,
                baseline@.volume_stats.dom(),
                opt_spike(reading),
            ),
    {
        let tool_name = match tool_called(event) {
            Some(name) => name,
            None => {
                return nothing();
            },
        };
        if !baseline.volume_stats.contains_key(tool_name) {
            return nothing();
        }
        match reading {
            Some(spike) => {
                if spike.level == Level::Within {
                    return nothing();
                }
                report(
                    event,
                    baseline,
                    severity_of(spike.level),
                    AnomalyType::VolumeSpike,
                    "volume spike on ".to_owned().concat(tool_name.as_str()).concat(": ").concat(
                        spike.value.as_str(),
                    ).concat(" bytes (z=").concat(spike.z.as_str()).concat(")"),
                    spike.mean.clone().concat(" bytes (mean)"),
                    spike.value.clone().concat(" bytes"),
                    Some(spike.z_score.clone()),
                )
            },
            None => nothing(),
        }
    }
}

// ---------------------------------------------------------------------------
// Reasoning loops
// ---------------------------------------------------------------------------

/// A tool call signature: the tool and its parameter names.
#[derive(Debug)]
pub struct ToolSignature {
    pub tool: String,
    pub params: Vec<String>,
}

impl View for ToolSignature {
    type V = (Seq<char>, Seq<Seq<char>>);

    open spec fn view(&self) -> (Seq<char>, Seq<Seq<char>>) {
        (self.tool@, views(self.params@))
    }
}

impl Key for ToolSignature {
    fn same(&self, other: &Self) -> (r: bool) {
        self.tool == other.tool && same_texts(&self.params, &other.params)
    }

    fn copy(&self) -> (r: Self) {
        ToolSignature { tool: self.tool.clone(), params: copy_texts(&self.params) }
    }
}

/// The last calls of a session, oldest first.
#[derive(Debug)]
pub struct CallHistory {
    pub calls: Vec<ToolSignature>,
}

impl View for CallHistory {
    type V = Seq<(Seq<char>, Seq<Seq<char>>)>;

    open spec fn view(&self) -> Seq<(Seq<char>, Seq<Seq<char>>)> {
        views(self.calls@)
    }
}

/// How many of the last items of `calls` are `call`.
pub open spec fn trailing<A>(calls: Seq<A>, call: A) -> nat
    decreases calls.len(),
{
    if calls.len() == 0 || calls.last() != call {
        0
    } else {
        trailing(calls.drop_last(), call) + 1
    }
}

/// Detects repeated identical tool calls (same tool + same param_keys)
/// within a session, indicating the agent is stuck in a reasoning loop.
#[derive(Debug)]
pub struct ReasoningLoopDetector {
    loop_threshold: usize,
    window_size: usize,
    sessions: Dict<String, CallHistory>,
}

/// The model of a `ReasoningLoopDetector`.
#[verifier::ext_equal]
pub struct LoopView {
    pub loop_threshold: usize,
    pub window_size: usize,
    pub sessions: Map<Seq<char>, Seq<(Seq<char>, Seq<Seq<char>>)>>,
}

impl View for ReasoningLoopDetector {
    type V = LoopView;

    closed spec fn view(&self) -> LoopView {
        LoopView {
            loop_threshold: self.loop_threshold,
            window_size: self.window_size,
            sessions: self.sessions@,
        }
    }
}

impl LoopView {
    /// The last calls of a session.
    pub open spec fn history(self, session: Seq<char>) -> Seq<(Seq<char>, Seq<Seq<char>>)> {
        if self.sessions.contains_key(session) {
            self.sessions[session]
        } else {
            Seq::empty()
        }
    }

    /// The last calls of a session with `call` as the latest: the window lets the
    /// oldest one go where it would hold too many.
    pub open spec fn window(
        self,
        session: Seq<char>,
        call: (Seq<char>, Seq<Seq<char>>),
    ) -> Seq<(Seq<char>, Seq<Seq<char>>)> {
        let longer = self.history(session).push(call);
        if longer.len() > self.window_size {
            longer.skip(1)
        } else {
            longer
        }
    }

    /// What is remembered after `event`.
    pub open spec fn after(self, event: EventView) -> LoopView {
        match called_tool(event) {
            Some(tool) => LoopView {
                sessions: self.sessions.insert(
                    event.session_id,
                    self.window(event.session_id, (tool, event.param_keys)),
                ),
                ..self
            },
            None => self,
        }
    }

    /// What `ReasoningLoopDetector` finds.
    pub open spec fn finds(self, event: EventView, event_count: u64) -> Seq<AnomalyView> {
        match called_tool(event) {
            Some(tool) => {
                let call = (tool, event.param_keys);
                let repeats = trailing(self.window(event.session_id, call), call);
                if repeats >= self.loop_threshold {
                    seq![
                        finding(
                            event,
                            event_count,
                            if repeats >= 5 {
                                Severity::High
                            } else {
                                Severity::Medium
                            },
                            AnomalyType::ReasoningLoop,
                            "reasoning loop: "@ + tool + " called "@ + decimal(repeats)
                                + " times consecutively"@,
                            "no repeated calls expected"@,
                            decimal(repeats) + " consecutive identical calls"@,
                            None,
                        ),
                    ]
                } else {
                    Seq::empty()
                }
            },
            None => Seq::empty(),
        }
    }
}

/// How many of the last calls are `call`.
fn count_trailing(calls: &Vec<ToolSignature>, call: &ToolSignature) -> (r: usize)
    ensures
        r == trailing(views(calls@), call@),
        r <= calls@.len(),
{
    let mut n: usize = 0;
    let ghost all = views(calls@);
    proof {
        assert(all.take(all.len() as int) =~= all);
    }
    while n < calls.len() && calls[calls.len() - 1 - n].same(call)
        invariant
            n <= calls.len(),
            all == views(calls@),
            trailing(all, call@) == n + trailing(all.take(all.len() - n), call@),
        decreases calls.len() - n,
    {
        proof {
            let rest = all.take(all.len() - n);
            assert(rest.drop_last() =~= all.take(all.len() - n - 1));
            assert(rest.last() == calls@[calls@.len() - 1 - n]@);
        }
        n = n + 1;
    }
    proof {
        let rest = all.take(all.len() - n);
        if n < all.len() {
            assert(rest.last() == calls@[calls@.len() - 1 - n]@);
        }
    }
    n
}

/// A copy of a row of calls.
fn copy_calls(calls: &Vec<ToolSignature>) -> (r: Vec<ToolSignature>)
    ensures
        views(r@) == views(calls@),
{
    let mut out: Vec<ToolSignature> = Vec::new();
    let mut i: usize = 0;
    while i < calls.len()
        invariant
            i <= calls.len(),
            views(out@) == views(calls@).take(i as int),
        decreases calls.len() - i,
    {
        let ghost before = out@;
        out.push(calls[i].copy());
        proof {
            assert(views(out@) =~= views(before).push(calls@[i as int]@));
            assert(views(calls@).take(i + 1) =~= views(calls@).take(i as int).push(
                calls@[i as int]@,
            ));
        }
        i = i + 1;
    }
    proof {
        assert(views(calls@).take(calls@.len() as int) =~= views(calls@));
    }
    out
}

impl ReasoningLoopDetector {
    /// A detector that has seen no call.
    pub fn new(loop_threshold: usize, window_size: usize) -> (r: Self)
        ensures
            r@ == (LoopView { loop_threshold, window_size, sessions: Map::empty() }),
    {
        ReasoningLoopDetector { loop_threshold, window_size, sessions: Dict::new() }
    }
}

impl Detector for ReasoningLoopDetector {
    open spec fn ready(&self, event: EventView) -> bool {
        true
    }

    fn detect(&mut self, event: &BehavioralEvent, baseline: &Baseline) -> (r: Vec<Anomaly>)
        ensures
            views(r@) == old(self)@.finds(event@, baseline@.event_count),
            final(self)@ == old(self)@.after(event@),
    {
        let tool_name = match tool_called(event) {
            Some(name) => name,
            None => {
                return nothing();
            },
        };
        let current = ToolSignature {
            tool: tool_name.clone(),
            params: copy_texts(&event.param_keys),
        };
        let ghost session = event@.session_id;
        let mut calls = match self.sessions.get(&event.session_id) {
            Some(history) => copy_calls(&history.calls),
            None => Vec::new(),
        };
        proof {
            assert(views(calls@) =~= old(self)@.history(session));
        }
        let ghost earlier = calls@;
        calls.push(current.copy());
        proof {
            assert(views(calls@) =~= views(earlier).push(current@));
        }
        let ghost longer = calls@;
        if calls.len() > self.window_size {
            calls.remove(0);
            proof {
                assert(views(calls@) =~= views(longer).skip(1));
            }
        }
        proof {
            assert(views(calls@) == old(self)@.window(session, current@));
        }
        let consecutive: usize = count_trailing(&calls, &current);
        self.sessions.set(event.session_id.clone(), CallHistory { calls });
        if consecutive >= self.loop_threshold {
            let severity = if consecutive >= 5 {
                Severity::High
            } else {
                Severity::Medium
            };
            report(
                event,
                baseline,
                severity,
                AnomalyType::ReasoningLoop,
                "reasoning loop: ".to_owned().concat(tool_name.as_str()).concat(" called ").concat(
                    decimal_text(consecutive as u64).as_str(),
                ).concat(" times consecutively"),
                "no repeated calls expected".to_owned(),
                decimal_text(consecutive as u64).concat(" consecutive identical calls"),
                None,
            )
        } else {
            nothing()
        }
    }
}

// ---------------------------------------------------------------------------
// Error-retry loops
// ---------------------------------------------------------------------------

/// What is remembered of the errors of a session.
#[derive(Debug)]
pub struct ErrorRetryState {
    pub last_tool_call: Option<ToolSignature>,
    pub consecutive_retries: u32,
    pub awaiting_retry: bool,
}

/// The model of an `ErrorRetryState`.
#[verifier::ext_equal]
pub struct RetryView {
    pub last_call: Option<(Seq<char>, Seq<Seq<char>>)>,
    pub retries: u32,
    pub awaiting: bool,
}

impl View for ErrorRetryState {
    type V = RetryView;

    open spec fn view(&self) -> RetryView {
        RetryView {
            last_call: opt_view(self.last_tool_call),
            retries: self.consecutive_retries,
            awaiting: self.awaiting_retry,
        }
    }
}

/// The signature of a tool call; a call that names no tool has an empty name.
pub open spec fn signature(event: EventView) -> (Seq<char>, Seq<Seq<char>>) {
    (
        match event.tool_name {
            Some(name) => name,
            None => Seq::empty(),
        },
        event.param_keys,
    )
}

impl RetryView {
    /// A session without calls.
    pub open spec fn fresh() -> RetryView {
        RetryView { last_call: None, retries: 0, awaiting: false }
    }

    /// After an event of the session. A call of something else starts the count
    /// anew. An error completes a cycle and adds to the count, but for an error
    /// behind which the call was not made again. Any other event resets the count.
    pub open spec fn after(self, event: EventView) -> RetryView {
        match event.event_type {
            EventType::ToolCall => RetryView {
                last_call: Some(signature(event)),
                retries: if self.last_call == Some(signature(event)) {
                    self.retries
                } else {
                    0
                },
                awaiting: false,
            },
            EventType::Error => if self.last_call is Some && !self.awaiting {
                RetryView { retries: (self.retries + 1) as u32, awaiting: true, ..self }
            } else {
                self
            },
            _ => RetryView { retries: 0, awaiting: false, ..self },
        }
    }
}

/// Detects repeated ToolCall to Error cycles on the same tool,
/// indicating the agent is retrying a failing operation.
#[derive(Debug)]
pub struct ErrorRetryDetector {
    cycle_threshold: u32,
    sessions: Dict<String, ErrorRetryState>,
}

/// The model of an `ErrorRetryDetector`.
#[verifier::ext_equal]
pub struct ErrorRetryView {
    pub cycle_threshold: u32,
    pub sessions: Map<Seq<char>, RetryView>,
}

impl View for ErrorRetryDetector {
    type V = ErrorRetryView;

    closed spec fn view(&self) -> ErrorRetryView {
        ErrorRetryView { cycle_threshold: self.cycle_threshold, sessions: self.sessions@ }
    }
}

impl ErrorRetryView {
    /// What is remembered of a session.
    pub open spec fn state(self, session: Seq<char>) -> RetryView {
        if self.sessions.contains_key(session) {
            self.sessions[session]
        } else {
            RetryView::fresh()
        }
    }

    /// What is remembered after `event`.
    pub open spec fn after(self, event: EventView) -> ErrorRetryView {
        ErrorRetryView {
            sessions: self.sessions.insert(
                event.session_id,
                self.state(event.session_id).after(event),
            ),
            ..self
        }
    }

    /// What `ErrorRetryDetector` finds.
    pub open spec fn finds(self, event: EventView, event_count: u64) -> Seq<AnomalyView> {
        let before = self.state(event.session_id);
        let retries = before.after(event).retries;
        match (event.event_type, before.last_call) {
            (EventType::Error, Some(call)) => if !before.awaiting && retries
                >= self.cycle_threshold {
                seq![
                    finding(
                        event,
                        event_count,
                        Severity::Medium,
                        AnomalyType::ErrorRetryLoop,
                        "error-retry loop: "@ + call.0 + " failed "@ + decimal(retries as nat)
                            + " times consecutively"@,
                        "successful tool execution expected"@,
                        decimal(retries as nat) + " consecutive failures"@,
                        None,
                    ),
                ]
            } else {
                Seq::empty()
            },
            _ => Seq::empty(),
        }
    }

    /// The count of failures in the event's session can still go up.
    pub open spec fn has_room(self, event: EventView) -> bool {
        let before = self.state(event.session_id);
        event.event_type == EventType::Error && before.last_call is Some && !before.awaiting
            ==> before.retries < u32::MAX
    }
}

impl ErrorRetryDetector {
    /// A detector that has seen no event.
    pub fn new(cycle_threshold: u32) -> (r: Self)
        ensures
            r@ == (ErrorRetryView { cycle_threshold, sessions: Map::empty() }),
    {
        ErrorRetryDetector { cycle_threshold, sessions: Dict::new() }
    }

    /// Whether the count of failures in the event's session can still go up.
    pub fn accepts(&self, event: &BehavioralEvent) -> (r: bool)
        ensures
            r == self@.has_room(event@),
    {
        match self.sessions.get(&event.session_id) {
            Some(state) => event.event_type != EventType::Error || state.last_tool_call.is_none()
                || state.awaiting_retry || state.consecutive_retries < u32::MAX,
            None => true,
        }
    }

    /// A copy of what is remembered of the event's session.
    fn session_state(&self, event: &BehavioralEvent) -> (r: ErrorRetryState)
        ensures
            r@ == self@.state(event@.session_id),
    {
        match self.sessions.get(&event.session_id) {
            Some(state) => ErrorRetryState {
                last_tool_call: match &state.last_tool_call {
                    Some(call) => Some(call.copy()),
                    None => None,
                },
                consecutive_retries: state.consecutive_retries,
                awaiting_retry: state.awaiting_retry,
            },
            None => ErrorRetryState {
                last_tool_call: None,
                consecutive_retries: 0,
                awaiting_retry: false,
            },
        }
    }
}

/// The signature of a tool call.
fn signature_of(event: &BehavioralEvent) -> (r: ToolSignature)
    ensures
        r@ == signature(event@),
{
    ToolSignature {
        tool: match &event.tool_name {
            Some(name) => name.clone(),
            None => String::new(),
        },
        params: copy_texts(&event.param_keys),
    }
}

impl Detector for ErrorRetryDetector {
    open spec fn ready(&self, event: EventView) -> bool {
        self@.has_room(event)
    }

    fn detect(&mut self, event: &BehavioralEvent, baseline: &Baseline) -> (r: Vec<Anomaly>)
        ensures
            views(r@) == old(self)@.finds(event@, baseline@.event_count),
            final(self)@ == old(self)@.after(event@),
    {
        let mut session = self.session_state(event);
        let mut result = nothing();
        match event.event_type {
            EventType::ToolCall => {
                let current = signature_of(event);
                let repeated = match &session.last_tool_call {
                    Some(call) => call.same(&current),
                    None => false,
                };
                if !repeated {
                    session.consecutive_retries = 0;
                }
                session.last_tool_call = Some(current);
                session.awaiting_retry = false;
            },
            EventType::Error => {
                match &session.last_tool_call {
                    Some(call) => {
                        let completes = !session.awaiting_retry;
                        if completes {
                            session.consecutive_retries = session.consecutive_retries + 1;
                            session.awaiting_retry = true;
                        }
                        let retries: u32 = session.consecutive_retries;
                        if completes && retries >= self.cycle_threshold {
                            result = report(
                                event,
                                baseline,
                                Severity::Medium,
                                AnomalyType::ErrorRetryLoop,
                                "error-retry loop: ".to_owned().concat(call.tool.as_str()).concat(
                                    " failed ",
                                ).concat(decimal_text(retries as u64).as_str()).concat(
                                    " times consecutively",
                                ),
                                "successful tool execution expected".to_owned(),
                                decimal_text(retries as u64).concat(" consecutive failures"),
                                None,
                            );
                        }
                    },
                    None => {},
                }
            },
            _ => {
                session.consecutive_retries = 0;
                session.awaiting_retry = false;
            },
        }
        self.sessions.set(event.session_id.clone(), session);
        result
    }
}

// ---------------------------------------------------------------------------
// Combined anomalies
// ---------------------------------------------------------------------------

/// One part of a combined score.
#[derive(Debug, Clone, Copy, PartialEq, Eq, Structural)]
pub enum Signal {
    /// Something seen `seen` times in `of`: it counts by the negative logarithm
    /// of that share.
    Surprise { seen: u64, of: u64 },
    /// A data volume in bytes: it counts by how many deviations it lies from the
    /// mean of the tool's volumes, where those deviate at all.
    Volume { bytes: u64 },
}

/// The sum of the counts of a row of pairs.
pub open spec fn pair_total(
    keys: Seq<(Seq<char>, Seq<char>)>,
    counts: Map<(Seq<char>, Seq<char>), u64>,
) -> nat
    decreases keys.len(),
{
    if keys.len() == 0 {
        0
    } else {
        pair_total(keys.drop_last(), counts) + counts[keys.last()] as nat
    }
}

/// How surprising it is that `tool` follows `prev`: the share of the pair among all
/// pairs, and for a pair that was never seen one more share than there are.
pub open spec fn pair_surprise(
    prev: Option<Seq<char>>,
    tool: Seq<char>,
    keys: Seq<(Seq<char>, Seq<char>)>,
    counts: Map<(Seq<char>, Seq<char>), u64>,
) -> Option<Signal> {
    let total = pair_total(keys, counts);
    match prev {
        Some(first) => if total == 0 {
            None
        } else if counts.contains_key((first, tool)) && counts[(first, tool)] > 0 {
            Some(Signal::Surprise { seen: counts[(first, tool)], of: total as u64 })
        } else {
            Some(Signal::Surprise { seen: 1, of: (total + keys.len() + 1) as u64 })
        },
        None => None,
    }
}

/// How surprising the hour is: its share of all events, and for an hour in which
/// nothing was ever seen one share in all of them and a day's hours.
pub open spec fn hour_surprise(hour: int, hours: Seq<u64>) -> Option<Signal> {
    let all = total(hours);
    if all == 0 {
        None
    } else if hours[hour] > 0 {
        Some(Signal::Surprise { seen: hours[hour], of: all as u64 })
    } else {
        Some(Signal::Surprise { seen: 1, of: (all + 24) as u64 })
    }
}

/// What a score of the event is combined from, in this order: the pair of calls,
/// the volume, the hour.
pub open spec fn combined_signals(
    event: EventView,
    prev: Option<Seq<char>>,
    keys: Seq<(Seq<char>, Seq<char>)>,
    baseline: BaselineView,
) -> Seq<Signal> {
    match called_tool(event) {
        Some(tool) => listed(pair_surprise(prev, tool, keys, baseline.bigrams)) + listed(
            match measured_volume(event, baseline.volume_stats.dom()) {
                Some(bytes) => Some(Signal::Volume { bytes }),
                None => None,
            },
        ) + listed(
            hour_surprise(
                hour_of_day(event.timestamp.unix_seconds()),
                baseline.hourly_distribution,
            ),
        ),
        None => Seq::empty(),
    }
}

/// A row of the one item, where there is one.
pub open spec fn listed(signal: Option<Signal>) -> Seq<Signal> {
    match signal {
        Some(s) => seq![s],
        None => Seq::empty(),
    }
}

/// The sums that a combined score needs can be held.
pub open spec fn sums_fit(
    event: EventView,
    prev: Option<Seq<char>>,
    keys: Seq<(Seq<char>, Seq<char>)>,
    baseline: BaselineView,
) -> bool {
    match called_tool(event) {
        Some(tool) => {
            &&& match prev {
                Some(first) => pairs_fit((first, tool), keys, baseline.bigrams),
                None => true,
            }
            &&& measured_volume(event, baseline.volume_stats.dom()) is Some ==> event.volume()
                <= u64::MAX
            &&& hours_fit(
                hour_of_day(event.timestamp.unix_seconds()),
                baseline.hourly_distribution,
            )
        },
        None => true,
    }
}

/// The sum of the counts of all pairs can be held, and for a pair that was never
/// seen the count of shares too.
pub open spec fn pairs_fit(
    pair: (Seq<char>, Seq<char>),
    keys: Seq<(Seq<char>, Seq<char>)>,
    counts: Map<(Seq<char>, Seq<char>), u64>,
) -> bool {
    let all = pair_total(keys, counts);
    let seen = counts.contains_key(pair) && counts[pair] > 0;
    all <= u64::MAX && (all > 0 && !seen ==> all + keys.len() + 1 <= u64::MAX)
}

/// The sum of all hours can be held, and for an hour in which nothing was seen the
/// count of shares too.
pub open spec fn hours_fit(hour: int, hours: Seq<u64>) -> bool {
    total(hours) <= u64::MAX && (total(hours) > 0 && hours[hour] == 0 ==> total(hours) + 24
        <= u64::MAX)
}

/// The score that the signals of an event combine to.
#[derive(Debug)]
pub struct CombinedReading {
    pub level: Level,
    /// The score with two decimals.
    pub score: String,
    /// The threshold with one decimal.
    pub threshold: String,
    /// How many signals took part.
    pub used: u64,
    /// The score, unrounded.
    pub z_score: Decimal,
}

/// The model of a `CombinedReading`.
pub struct CombinedReadingView {
    pub level: Level,
    pub score: Seq<char>,
    pub threshold: Seq<char>,
    pub used: u64,
    pub z_score: Seq<char>,
}

impl View for CombinedReading {
    type V = CombinedReadingView;

    open spec fn view(&self) -> CombinedReadingView {
        CombinedReadingView {
            level: self.level,
            score: self.score@,
            threshold: self.threshold@,
            used: self.used,
            z_score: self.z_score@,
        }
    }
}

/// The model of an optional reading.
pub open spec fn opt_combined(reading: Option<&CombinedReading>) -> Option<CombinedReadingView> {
    match reading {
        Some(r) => Some(r@),
        None => None,
    }
}

/// Combined anomaly scoring.
/// Aggregates bigram transition surprise, volume z-score, and temporal
/// surprise into a single score via negative log probability.
///
/// `signals` gives what the score is combined from; `detect` takes the reading of
/// their mean against the threshold. The margin is three.
#[derive(Debug)]
pub struct CombinedAnomalyDetector {
    pub threshold: Decimal,
    sessions: Dict<String, String>,
}

/// The model of a `CombinedAnomalyDetector`.
#[verifier::ext_equal]
pub struct CombinedView {
    pub threshold: Seq<char>,
    pub sessions: Map<Seq<char>, Seq<char>>,
}

impl View for CombinedAnomalyDetector {
    type V = CombinedView;

    closed spec fn view(&self) -> CombinedView {
        CombinedView { threshold: self.threshold@, sessions: self.sessions@ }
    }
}

impl CombinedView {
    /// The tool called before `event` in its session.
    pub open spec fn previous(self, event: EventView) -> Option<Seq<char>> {
        if self.sessions.contains_key(event.session_id) {
            Some(self.sessions[event.session_id])
        } else {
            None
        }
    }

    /// What is remembered after `event`.
    pub open spec fn after(self, event: EventView) -> CombinedView {
        match called_tool(event) {
            Some(tool) => CombinedView {
                sessions: self.sessions.insert(event.session_id, tool),
                ..self
            },
            None => self,
        }
    }
}

/// What `CombinedAnomalyDetector` finds, given the signals of the event and the reading
/// of the score, where any signal took part in one.
pub open spec fn combined_anomaly(
    event: EventView,
    event_count: u64,
    signals: Seq<Signal>,
    reading: Option<CombinedReadingView>,
) -> Seq<AnomalyView> {
    match (called_tool(event), reading) {
        (Some(_), Some(r)) => if signals.len() == 0 || r.level == Level::Within {
            Seq::empty()
        } else {
            seq![
                finding(
                    event,
                    event_count,
                    level_severity(r.level),
                    AnomalyType::CombinedAnomaly,
                    "combined anomaly score "@ + r.score + " (threshold "@ + r.threshold + ")"@,
                    "threshold: "@ + r.threshold,
                    "combined="@ + r.score + " from "@ + decimal(r.used as nat) + " signals"@,
                    Some(r.z_score),
                ),
            ]
        },
        _ => Seq::empty(),
    }
}

proof fn lemma_pair_total_grows(
    keys: Seq<(Seq<char>, Seq<char>)>,
    counts: Map<(Seq<char>, Seq<char>), u64>,
    i: int,
)
    requires
        0 <= i <= keys.len(),
    ensures
        pair_total(keys.take(i), counts) <= pair_total(keys, counts),
    decreases keys.len(),
{
    if i == keys.len() {
        assert(keys.take(i) =~= keys);
    } else {
        lemma_pair_total_grows(keys.drop_last(), counts, i);
        assert(keys.drop_last().take(i) =~= keys.take(i));
    }
}

/// The sum of the counts of all pairs, where it can be held.
fn count_pairs(bigrams: &Dict<Bigram, u64>) -> (r: Option<u64>)
    ensures
        match r {
            Some(all) => all == pair_total(bigrams.keys(), bigrams@),
            None => pair_total(bigrams.keys(), bigrams@) > u64::MAX,
        },
{
    let n: usize = bigrams.len();
    let ghost keys = bigrams.keys();
    let mut all: u64 = 0;
    let mut i: usize = 0;
    while i < n
        invariant
            i <= n,
            n == keys.len(),
            keys == bigrams.keys(),
            all == pair_total(keys.take(i as int), bigrams@),
        decreases n - i,
    {
        let count: u64 = *bigrams.value_at(i);
        proof {
            let longer = keys.take(i + 1);
            assert(longer.drop_last() =~= keys.take(i as int));
            assert(longer.last() == keys[i as int]);
            lemma_pair_total_grows(keys, bigrams@, i + 1);
        }
        match all.checked_add(count) {
            Some(sum) => {
                all = sum;
            },
            None => {
                return None;
            },
        }
        i = i + 1;
    }
    proof {
        assert(keys.take(n as int) =~= keys);
    }
    Some(all)
}

proof fn lemma_hour_total_grows(hours: Seq<u64>, i: int)
    requires
        0 <= i <= hours.len(),
    ensures
        total(hours.take(i)) <= total(hours),
    decreases hours.len(),
{
    if i == hours.len() {
        assert(hours.take(i) =~= hours);
    } else {
        lemma_hour_total_grows(hours.drop_last(), i);
        assert(hours.drop_last().take(i) =~= hours.take(i));
    }
}

/// The sum of the counters of all hours, where it can be held.
fn count_hours(hours: &[u64; 24]) -> (r: Option<u64>)
    ensures
        match r {
            Some(all) => all == total(hours@),
            None => total(hours@) > u64::MAX,
        },
{
    let mut all: u64 = 0;
    let mut i: usize = 0;
    while i < 24
        invariant
            i <= 24,
            all == total(hours@.take(i as int)),
        decreases 24 - i,
    {
        proof {
            let longer = hours@.take(i + 1);
            assert(longer.drop_last() =~= hours@.take(i as int));
            assert(longer.last() == hours@[i as int]);
            lemma_hour_total_grows(hours@, i + 1);
        }
        match all.checked_add(hours[i]) {
            Some(sum) => {
                all = sum;
            },
            None => {
                return None;
            },
        }
        i = i + 1;
    }
    proof {
        assert(hours@.take(24) =~= hours@);
    }
    Some(all)
}

/// How often a pair of calls was seen.
fn pair_count(bigrams: &Dict<Bigram, u64>, prev: &String, tool: &String) -> (r: u64)
    ensures
        r == (if bigrams@.contains_key((prev@, tool@)) {
            bigrams@[(prev@, tool@)]
        } else {
            0
        }),
{
    match bigrams.get(&Bigram::new(prev.as_str(), tool.as_str())) {
        Some(n) => *n,
        None => 0,
    }
}

impl CombinedAnomalyDetector {
    /// A detector that has seen no call.
    pub fn new(threshold: Decimal) -> (r: Self)
        ensures
            r@ == (CombinedView { threshold: threshold@, sessions: Map::empty() }),
    {
        CombinedAnomalyDetector { threshold, sessions: Dict::new() }
    }

    /// Whether the sums that a score of the event needs can be held.
    pub fn accepts(&self, event: &BehavioralEvent, baseline: &Baseline) -> (r: bool)
        ensures
            r == sums_fit(event@, self@.previous(event@), baseline.bigrams.keys(), baseline@),
    {
        let tool_name = match tool_called(event) {
            Some(name) => name,
            None => {
                return true;
            },
        };
        match self.sessions.get(&event.session_id) {
            Some(prev) => {
                let kinds: u64 = baseline.bigrams.len() as u64;
                match count_pairs(&baseline.bigrams) {
                    Some(all) => {
                        if all > 0 && pair_count(&baseline.bigrams, prev, tool_name) == 0 && (all
                            == u64::MAX || kinds > u64::MAX - all - 1) {
                            return false;
                        }
                    },
                    None => {
                        return false;
                    },
                }
            },
            None => {},
        }
        if baseline.volume_stats.contains_key(tool_name) && event.data_out_bytes > u64::MAX
            - event.data_in_bytes {
            return false;
        }
        let hour: usize = event.timestamp.hour();
        match count_hours(&baseline.hourly_distribution) {
            Some(all) => all == 0 || baseline.hourly_distribution[hour] > 0 || all <= u64::MAX - 24,
            None => false,
        }
    }

    /// What a score of the event is combined from.
    pub fn signals(&self, event: &BehavioralEvent, baseline: &Baseline) -> (r: Vec<Signal>)
        requires
            sums_fit(event@, self@.previous(event@), baseline.bigrams.keys(), baseline@),
        ensures
            r@ == combined_signals(
                event@,
                self@.previous(event@),
                baseline.bigrams.keys(),
                baseline@,
            ),
    {
        let mut out: Vec<Signal> = Vec::new();
        let tool_name = match tool_called(event) {
            Some(name) => name,
            None => {
                return out;
            },
        };
        match self.sessions.get(&event.session_id) {
            Some(prev) => {
                match count_pairs(&baseline.bigrams) {
                    Some(all) => {
                        if all > 0 {
                            let seen: u64 = pair_count(&baseline.bigrams, prev, tool_name);
                            if seen > 0 {
                                out.push(Signal::Surprise { seen, of: all });
                            } else {
                                let kinds: u64 = baseline.bigrams.len() as u64;
                                out.push(Signal::Surprise { seen: 1, of: all + kinds + 1 });
                            }
                        }
                    },
                    None => {},
                }
            },
            None => {},
        }
        if baseline.volume_stats.contains_key(tool_name) {
            out.push(Signal::Volume { bytes: event.data_in_bytes + event.data_out_bytes });
        }
        let hour: usize = event.timestamp.hour();
        match count_hours(&baseline.hourly_distribution) {
            Some(all) => {
                if all > 0 {
                    let seen: u64 = baseline.hourly_distribution[hour];
                    if seen > 0 {
                        out.push(Signal::Surprise { seen, of: all });
                    } else {
                        out.push(Signal::Surprise { seen: 1, of: all + 24 });
                    }
                }
            },
            None => {},
        }
        out
    }

    /// The anomalies that the event shows against the profile, given the reading
    /// of its score.
    pub fn detect(
        &mut self,
        event: &BehavioralEvent,
        baseline: &Baseline,
        reading: Option<&CombinedReading>,
    ) -> (r: Vec<Anomaly>)
        requires
            sums_fit(event@, old(self)@.previous(event@), baseline.bigrams.keys(), baseline@),
        ensures
            views(r@) == combined_anomaly(
                event@,
                baseline@.event_count,
                combined_signals(
                    event@,
                    old(self)@.previous(event@),
                    baseline.bigrams.keys(),
                    baseline@,
                ),
                opt_combined(reading),
            ),
            final(self)@ == old(self)@.after(event@),
    {
        let tool_name = match tool_called(event) {
            Some(name) => name,
            None => {
                return nothing();
            },
        };
        let signals = self.signals(event, baseline);
        self.sessions.set(event.session_id.clone(), tool_name.clone());
        match reading {
            Some(r) => {
                if signals.len() == 0 || r.level == Level::Within {
                    return nothing();
                }
                report(
                    event,
                    baseline,
                    severity_of(r.level),
                    AnomalyType::CombinedAnomaly,
                    "combined anomaly score ".to_owned().concat(r.score.as_str()).concat(
                        " (threshold ",
                    ).concat(r.threshold.as_str()).concat(")"),
                    "threshold: ".to_owned().concat(r.threshold.as_str()),
                    "combined=".to_owned().concat(r.score.as_str()).concat(" from ").concat(
                        decimal_text(r.used).as_str(),
                    ).concat(" signals"),
                    Some(r.z_score.clone()),
                )
            },
            None => nothing(),
        }
    }
}

} // verus!
