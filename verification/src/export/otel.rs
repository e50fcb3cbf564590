//! Anomalies as OpenTelemetry spans.

use vstd::prelude::*;
use vstd::string::*;

use crate::detect::{anomaly_name, severity_name, Anomaly, AnomalyType, AnomalyView};
use crate::json::{json_quoted, quote_json};
use crate::order::views;
use crate::text::{
    join_texts, joined, law_padded_hex_reads_back, padded_hex, padded_hex_text, signed_decimal,
    signed_decimal_text,
};
use crate::time::Timestamp;

verus! {

/// An attribute of a span.
#[derive(Debug)]
pub struct KeyValue {
    pub key: String,
    pub string_value: String,
}

/// A span.
#[derive(Debug)]
pub struct OtlpSpan {
    pub trace_id: String,
    pub span_id: String,
    pub name: String,
    pub start_time_unix_nano: String,
    pub end_time_unix_nano: String,
    pub attributes: Vec<KeyValue>,
}

/// The model of a `KeyValue`.
#[verifier::ext_equal]
pub struct AttributeView {
    pub key: Seq<char>,
    pub string_value: Seq<char>,
}

/// The model of an `OtlpSpan`.
#[verifier::ext_equal]
pub struct SpanView {
    pub trace_id: Seq<char>,
    pub span_id: Seq<char>,
    pub name: Seq<char>,
    pub start_time_unix_nano: Seq<char>,
    pub end_time_unix_nano: Seq<char>,
    pub attributes: Seq<AttributeView>,
}

impl View for KeyValue {
    type V = AttributeView;

    open spec fn view(&self) -> AttributeView {
        AttributeView { key: self.key@, string_value: self.string_value@ }
    }
}

impl View for OtlpSpan {
    type V = SpanView;

    open spec fn view(&self) -> SpanView {
        SpanView {
            trace_id: self.trace_id@,
            span_id: self.span_id@,
            name: self.name@,
            start_time_unix_nano: self.start_time_unix_nano@,
            end_time_unix_nano: self.end_time_unix_nano@,
            attributes: views(self.attributes@),
        }
    }
}

// ---------------------------------------------------------------------------
// Spans
// ---------------------------------------------------------------------------

/// The number that tells kinds of anomalies apart.
pub open spec fn kind_number(kind: AnomalyType) -> u64 {
    match kind {
        AnomalyType::UnknownTool => 1,
        AnomalyType::UnknownSequence => 2,
        AnomalyType::UnknownResource => 3,
        AnomalyType::VolumeSpike => 4,
        AnomalyType::RateSpike => 5,
        AnomalyType::TemporalAnomaly => 6,
        AnomalyType::UnknownParamPattern => 7,
        AnomalyType::ReasoningLoop => 8,
        AnomalyType::ErrorRetryLoop => 9,
        AnomalyType::CombinedAnomaly => 10,
        AnomalyType::EnsembleScore => 11,
    }
}

/// The number that tells kinds of anomalies apart.
pub fn anomaly_type_hash(kind: &AnomalyType) -> (r: u64)
    ensures
        r == kind_number(*kind),
{
    match kind {
        AnomalyType::UnknownTool => 1,
        AnomalyType::UnknownSequence => 2,
        AnomalyType::UnknownResource => 3,
        AnomalyType::VolumeSpike => 4,
        AnomalyType::RateSpike => 5,
        AnomalyType::TemporalAnomaly => 6,
        AnomalyType::UnknownParamPattern => 7,
        AnomalyType::ReasoningLoop => 8,
        AnomalyType::ErrorRetryLoop => 9,
        AnomalyType::CombinedAnomaly => 10,
        AnomalyType::EnsembleScore => 11,
    }
}

/// The nanoseconds of an instant since 1970; zero where an `i64` cannot hold them.
pub open spec fn nanos_of(timestamp: Timestamp) -> int {
    let nanos = timestamp.unix_seconds() * 1_000_000_000 + timestamp.subsec_nanos();
    if i64::MIN <= nanos <= i64::MAX {
        nanos
    } else {
        0
    }
}

/// The trace id of an instant: its nanoseconds in 32 hexadecimal digits, a negative
/// number in two's complement.
pub open spec fn trace_id_of(nanos: int) -> Seq<char> {
    padded_hex((nanos % (u128::MAX + 1)) as nat, 32)
}

/// The span id of an anomaly: its nanoseconds and the number of its kind, added in 64
/// bits, in 16 hexadecimal digits.
pub open spec fn span_id_of(nanos: int, kind: AnomalyType) -> Seq<char> {
    padded_hex(((nanos + kind_number(kind)) % 0x1_0000_0000_0000_0000) as nat, 16)
}

/// An attribute.
pub open spec fn attribute(key: Seq<char>, string_value: Seq<char>) -> AttributeView {
    AttributeView { key, string_value }
}

/// The attributes of an anomaly's span.
pub open spec fn anomaly_attributes(anomaly: AnomalyView) -> Seq<AttributeView> {
    let always = seq![
        attribute("vigil.anomaly.type"@, anomaly_name(anomaly.anomaly_type)),
        attribute("vigil.severity"@, severity_name(anomaly.severity)),
        attribute("vigil.description"@, anomaly.description),
        attribute("vigil.confidence"@, anomaly.evidence.confidence),
        attribute("vigil.baseline_value"@, anomaly.evidence.baseline_value),
        attribute("vigil.observed_value"@, anomaly.evidence.observed_value),
        attribute("vigil.agent_id"@, anomaly.evidence.event.agent_id),
    ];
    let scored = match anomaly.evidence.z_score {
        Some(z) => always.push(attribute("vigil.z_score"@, z)),
        None => always,
    };
    match anomaly.evidence.event.tool_name {
        Some(tool) => scored.push(attribute("vigil.tool_name"@, tool)),
        None => scored,
    }
}

/// The span of an anomaly.
pub open spec fn anomaly_span(anomaly: AnomalyView) -> SpanView {
    let nanos = nanos_of(anomaly.timestamp);
    SpanView {
        trace_id: match anomaly.evidence.event.trace_id {
            Some(trace_id) => trace_id,
            None => trace_id_of(nanos),
        },
        span_id: span_id_of(nanos, anomaly.anomaly_type),
        name: "vigil.anomaly "@ + anomaly_name(anomaly.anomaly_type),
        start_time_unix_nano: signed_decimal(nanos),
        end_time_unix_nano: signed_decimal(nanos),
        attributes: anomaly_attributes(anomaly),
    }
}

/// An attribute.
pub fn kv(key: &str, value: &str) -> (r: KeyValue)
    ensures
        r@ == attribute(key@, value@),
{
    KeyValue { key: key.to_owned(), string_value: value.to_owned() }
}

/// A number in two's complement of 128 bits.
fn complement_128(nanos: i64) -> (r: u128)
    ensures
        r == (nanos as int) % (u128::MAX + 1),
{
    if nanos >= 0 {
        nanos as u128
    } else {
        let size: u128 = (-(nanos as i128)) as u128;
        u128::MAX - size + 1
    }
}

/// A sum in 64 bits.
fn wrapped_sum(nanos: i64, number: u64) -> (r: u64)
    ensures
        r == (nanos + number) % 0x1_0000_0000_0000_0000,
{
    let sum: i128 = nanos as i128 + number as i128;
    if sum < 0 {
        (sum + 0x1_0000_0000_0000_0000) as u64
    } else if sum < 0x1_0000_0000_0000_0000 {
        sum as u64
    } else {
        (sum - 0x1_0000_0000_0000_0000) as u64
    }
}

/// The span of an anomaly.
pub fn anomaly_to_span(anomaly: &Anomaly) -> (r: OtlpSpan)
    ensures
        r@ == anomaly_span(anomaly@),
{
    let nanos: i64 = match anomaly.timestamp.unix_nanos() {
        Some(n) => n,
        None => 0,
    };
    let trace_id = match &anomaly.evidence.event.trace_id {
        Some(trace_id) => trace_id.clone(),
        None => padded_hex_text(complement_128(nanos), 32),
    };
    let number: u64 = anomaly_type_hash(&anomaly.anomaly_type);
    let span_id = padded_hex_text(wrapped_sum(nanos, number) as u128, 16);
    let mut attributes: Vec<KeyValue> = Vec::new();
    attributes.push(kv("vigil.anomaly.type", anomaly.anomaly_type.name()));
    attributes.push(kv("vigil.severity", anomaly.severity.name()));
    attributes.push(kv("vigil.description", anomaly.description.as_str()));
    attributes.push(kv("vigil.confidence", anomaly.evidence.confidence.text.as_str()));
    attributes.push(kv("vigil.baseline_value", anomaly.evidence.baseline_value.as_str()));
    attributes.push(kv("vigil.observed_value", anomaly.evidence.observed_value.as_str()));
    attributes.push(kv("vigil.agent_id", anomaly.evidence.event.agent_id.as_str()));
    if let Some(z) = &anomaly.evidence.z_score {
        attributes.push(kv("vigil.z_score", z.text.as_str()));
    }
    if let Some(tool) = &anomaly.evidence.event.tool_name {
        attributes.push(kv("vigil.tool_name", tool.as_str()));
    }
    proof {
        assert(views(attributes@) =~= anomaly_attributes(anomaly@));
    }
    OtlpSpan {
        trace_id,
        span_id,
        name: "vigil.anomaly ".to_owned().concat(anomaly.anomaly_type.name()),
        start_time_unix_nano: signed_decimal_text(nanos),
        end_time_unix_nano: signed_decimal_text(nanos),
        attributes,
    }
}

// ---------------------------------------------------------------------------
// JSON
// ---------------------------------------------------------------------------

/// An attribute in JSON.
pub open spec fn attribute_json(attribute: AttributeView) -> Seq<char> {
    "{\"key\":"@ + json_quoted(attribute.key) + ",\"value\":{\"stringValue\":"@ + json_quoted(
        attribute.string_value,
    ) + "}}"@
}

/// A span in JSON.
pub open spec fn span_json(span: SpanView) -> Seq<char> {
    "{\"traceId\":"@ + json_quoted(span.trace_id) + ",\"spanId\":"@ + json_quoted(span.span_id)
        + ",\"name\":"@ + json_quoted(span.name) + ",\"startTimeUnixNano\":"@ + json_quoted(
        span.start_time_unix_nano,
    ) + ",\"endTimeUnixNano\":"@ + json_quoted(span.end_time_unix_nano) + ",\"attributes\":["@
        + joined(span.attributes.map_values(|a: AttributeView| attribute_json(a)), ","@) + "]}"@
}

/// An export request in JSON.
pub open spec fn request_json(spans: Seq<SpanView>) -> Seq<char> {
    "{\"resourceSpans\":[{\"scopeSpans\":[{\"spans\":["@ + joined(
        spans.map_values(|s: SpanView| span_json(s)),
        ","@,
    ) + "]}]}]}"@
}

fn write_attribute(attribute: &KeyValue) -> (r: String)
    ensures
        r@ == attribute_json(attribute@),
{
    "{\"key\":".to_owned().concat(quote_json(attribute.key.as_str()).as_str()).concat(
        ",\"value\":{\"stringValue\":",
    ).concat(quote_json(attribute.string_value.as_str()).as_str()).concat("}}")
}

fn write_span(span: &OtlpSpan) -> (r: String)
    ensures
        r@ == span_json(span@),
{
    let ghost all = views(span.attributes@);
    let mut parts: Vec<String> = Vec::new();
    let mut i: usize = 0;
    proof {
        assert(views(parts@) =~= all.take(0).map_values(|a: AttributeView| attribute_json(a)));
    }
    while i < span.attributes.len()
        invariant
            i <= span.attributes.len(),
            all == views(span.attributes@),
            views(parts@) == all.take(i as int).map_values(|a: AttributeView| attribute_json(a)),
        decreases span.attributes.len() - i,
    {
        let ghost before = parts@;
        let part = write_attribute(&span.attributes[i]);
        proof {
            assert(views(before.push(part)) =~= views(before).push(part@));
            assert(all.take(i + 1) =~= all.take(i as int).push(span.attributes@[i as int]@));
        }
        parts.push(part);
        proof {
            assert(views(parts@) =~= all.take(i + 1).map_values(
                |a: AttributeView| attribute_json(a),
            ));
        }
        i = i + 1;
    }
    proof {
        assert(all.take(all.len() as int) =~= all);
    }
    "{\"traceId\":".to_owned().concat(quote_json(span.trace_id.as_str()).as_str()).concat(
        ",\"spanId\":",
    ).concat(quote_json(span.span_id.as_str()).as_str()).concat(",\"name\":").concat(
        quote_json(span.name.as_str()).as_str(),
    ).concat(",\"startTimeUnixNano\":").concat(
        quote_json(span.start_time_unix_nano.as_str()).as_str(),
    ).concat(",\"endTimeUnixNano\":").concat(
        quote_json(span.end_time_unix_nano.as_str()).as_str(),
    ).concat(",\"attributes\":[").concat(join_texts(&parts, ",").as_str()).concat("]}")
}

/// Convert anomalies to OTLP JSON (ExportTraceServiceRequest).
pub fn anomalies_to_otlp(anomalies: &[Anomaly]) -> (r: String)
    ensures
        r@ == request_json(views(anomalies@).map_values(|a: AnomalyView| anomaly_span(a))),
{
    let ghost all = views(anomalies@);
    let ghost spans = all.map_values(|a: AnomalyView| anomaly_span(a));
    let mut parts: Vec<String> = Vec::new();
    let mut i: usize = 0;
    proof {
        assert(views(parts@) =~= spans.take(0).map_values(|s: SpanView| span_json(s)));
    }
    while i < anomalies.len()
        invariant
            i <= anomalies.len(),
            all == views(anomalies@),
            spans == all.map_values(|a: AnomalyView| anomaly_span(a)),
            views(parts@) == spans.take(i as int).map_values(|s: SpanView| span_json(s)),
        decreases anomalies.len() - i,
    {
        let ghost before = parts@;
        let span = anomaly_to_span(&anomalies[i]);
        let part = write_span(&span);
        proof {
            assert(span@ == spans[i as int]);
            assert(views(before.push(part)) =~= views(before).push(part@));
            assert(spans.take(i + 1) =~= spans.take(i as int).push(spans[i as int]));
        }
        parts.push(part);
        proof {
            assert(views(parts@) =~= spans.take(i + 1).map_values(|s: SpanView| span_json(s)));
        }
        i = i + 1;
    }
    proof {
        assert(spans.take(spans.len() as int) =~= spans);
    }
    "{\"resourceSpans\":[{\"scopeSpans\":[{\"spans\":[".to_owned().concat(
        join_texts(&parts, ",").as_str(),
    ).concat("]}]}]}")
}

/// Anomalies of different kinds at one instant have different span ids.
pub proof fn law_kinds_are_told_apart(a: AnomalyType, b: AnomalyType, nanos: int)
    requires
        a != b,
    ensures
        span_id_of(nanos, a) != span_id_of(nanos, b),
{
    let first = (nanos + kind_number(a)) % 0x1_0000_0000_0000_0000;
    let second = (nanos + kind_number(b)) % 0x1_0000_0000_0000_0000;
    assert(first != second);
    law_padded_hex_reads_back(first as nat, 16);
    law_padded_hex_reads_back(second as nat, 16);
}

/// An anomaly of an event with a trace id is exported into that trace.
pub proof fn law_trace_is_kept(anomaly: AnomalyView)
    requires
        anomaly.evidence.event.trace_id is Some,
    ensures
        Some(anomaly_span(anomaly).trace_id) == anomaly.evidence.event.trace_id,
{
}

} // verus!
