//! What an exported anomaly tells, and how it is written.

use vstd::prelude::*;

use crate::detect::{anomaly_name, severity_name, AnomalyType, AnomalyView, Severity};
use crate::export::otel::{
    anomaly_span, attribute_json, kind_number, nanos_of, request_json, span_json, AttributeView,
    SpanView,
};
use crate::json::json_quoted;
use crate::text::{
    joined, law_joins_chain, law_padded_hex_reads_back, law_padding, numeral, numeral_value,
    signed_decimal,
};
use crate::time::Timestamp;

verus! {

/// The nanoseconds of an instant since 1970, where 64 bits can hold them.
pub open spec fn exported_nanos(t: Timestamp) -> int {
    let nanos = t.unix_seconds() * 1_000_000_000 + t.subsec_nanos();
    if nanos < i64::MIN || nanos > i64::MAX {
        0
    } else {
        nanos
    }
}

/// A span starts and ends at the instant of its anomaly, to the nanosecond; an instant that
/// 64 bits cannot hold counts as the start of 1970.
pub proof fn law_span_comes_with_its_anomaly(anomaly: AnomalyView)
    ensures
        ({
            let span = anomaly_span(anomaly);
            &&& span.start_time_unix_nano == signed_decimal(exported_nanos(anomaly.timestamp))
            &&& span.end_time_unix_nano == span.start_time_unix_nano
            &&& span.name == "vigil.anomaly "@ + anomaly_name(anomaly.anomaly_type)
        }),
{
}

proof fn lemma_digits_fit(n: nat, width: nat, limit: nat)
    requires
        n < limit,
        limit == vstd::arithmetic::power::pow(16, width),
        width >= 1,
    ensures
        numeral(n, 16).len() <= width,
    decreases width,
{
    vstd::arithmetic::power::lemma_pow_positive(16, (width - 1) as nat);
    reveal(vstd::arithmetic::power::pow);
    if width == 1 {
        assert(vstd::arithmetic::power::pow(16, 0) == 1);
        assert(numeral(n, 16) =~= seq![crate::text::digit(n)]);
    } else if n >= 16 {
        let smaller = vstd::arithmetic::power::pow(16, (width - 1) as nat);
        assert(limit == 16 * smaller);
        assert(n / 16 < smaller);
        lemma_digits_fit(n / 16, (width - 1) as nat, smaller as nat);
    }
}

/// An event's own trace id is kept. Without one the trace id is 32 digits that write the
/// nanoseconds, and the span id is 16 digits that write the nanoseconds and the number of
/// the kind, added.
pub proof fn law_ids_write_the_instant(anomaly: AnomalyView)
    ensures
        ({
            let span = anomaly_span(anomaly);
            let nanos = exported_nanos(anomaly.timestamp);
            &&& anomaly.evidence.event.trace_id is Some ==> Some(span.trace_id)
                == anomaly.evidence.event.trace_id
            &&& anomaly.evidence.event.trace_id is None ==> {
                &&& span.trace_id.len() == 32
                &&& numeral_value(span.trace_id, 16) == nanos % (u128::MAX + 1)
            }
            &&& span.span_id.len() == 16
            &&& numeral_value(span.span_id, 16) == (nanos + kind_number(anomaly.anomaly_type))
                % 0x1_0000_0000_0000_0000
        }),
{
    let nanos = nanos_of(anomaly.timestamp);
    let first = (nanos % (u128::MAX + 1)) as nat;
    let second = ((nanos + kind_number(anomaly.anomaly_type)) % 0x1_0000_0000_0000_0000) as nat;
    law_padded_hex_reads_back(first, 32);
    law_padded_hex_reads_back(second, 16);
    law_padding(first, 32);
    law_padding(second, 16);
    lemma_powers();
    lemma_digits_fit(first, 32, (u128::MAX + 1) as nat);
    lemma_digits_fit(second, 16, 0x1_0000_0000_0000_0000);
}

proof fn lemma_powers()
    ensures
        vstd::arithmetic::power::pow(16, 16) == 0x1_0000_0000_0000_0000,
        vstd::arithmetic::power::pow(16, 32) == u128::MAX + 1,
{
    reveal_with_fuel(vstd::arithmetic::power::pow, 9);
    assert(vstd::arithmetic::power::pow(16, 8) == 0x1_0000_0000);
    vstd::arithmetic::power::lemma_pow_adds(16, 8, 8);
    vstd::arithmetic::power::lemma_pow_adds(16, 16, 16);
    assert(0x1_0000_0000_0000_0000 * 0x1_0000_0000_0000_0000 == u128::MAX + 1) by (nonlinear_arith);
}

/// The kinds are numbered from one upward in the order in which they are listed.
pub proof fn law_kinds_are_numbered()
    ensures
        kind_number(AnomalyType::UnknownTool) == 1,
        kind_number(AnomalyType::UnknownSequence) == 2,
        kind_number(AnomalyType::UnknownResource) == 3,
        kind_number(AnomalyType::VolumeSpike) == 4,
        kind_number(AnomalyType::RateSpike) == 5,
        kind_number(AnomalyType::TemporalAnomaly) == 6,
        kind_number(AnomalyType::UnknownParamPattern) == 7,
        kind_number(AnomalyType::ReasoningLoop) == 8,
        kind_number(AnomalyType::ErrorRetryLoop) == 9,
        kind_number(AnomalyType::CombinedAnomaly) == 10,
        kind_number(AnomalyType::EnsembleScore) == 11,
{
}

/// The attribute has the name and the value.
pub open spec fn tells(a: AttributeView, key: Seq<char>, value: Seq<char>) -> bool {
    a.key == key && a.string_value == value
}

/// A span tells all that is known of its anomaly: kind, severity, description, confidence,
/// the two values, the agent; behind those the score and the tool, each where there is one;
/// and nothing else.
pub proof fn law_span_tells_the_anomaly(anomaly: AnomalyView)
    ensures
        ({
            let told = anomaly_span(anomaly).attributes;
            let scored = if anomaly.evidence.z_score is Some {
                1int
            } else {
                0int
            };
            let named = if anomaly.evidence.event.tool_name is Some {
                1int
            } else {
                0int
            };
            &&& told.len() == 7 + scored + named
            &&& tells(told[0], "vigil.anomaly.type"@, anomaly_name(anomaly.anomaly_type))
            &&& tells(told[1], "vigil.severity"@, severity_name(anomaly.severity))
            &&& tells(told[2], "vigil.description"@, anomaly.description)
            &&& tells(told[3], "vigil.confidence"@, anomaly.evidence.confidence)
            &&& tells(told[4], "vigil.baseline_value"@, anomaly.evidence.baseline_value)
            &&& tells(told[5], "vigil.observed_value"@, anomaly.evidence.observed_value)
            &&& tells(told[6], "vigil.agent_id"@, anomaly.evidence.event.agent_id)
            &&& anomaly.evidence.z_score is Some ==> tells(
                told[7],
                "vigil.z_score"@,
                anomaly.evidence.z_score->0,
            )
            &&& anomaly.evidence.event.tool_name is Some ==> tells(
                told[7 + scored],
                "vigil.tool_name"@,
                anomaly.evidence.event.tool_name->0,
            )
        }),
{
}

/// Severities and kinds go by their own names.
pub proof fn law_names()
    ensures
        severity_name(Severity::Low) == "Low"@,
        severity_name(Severity::Medium) == "Medium"@,
        severity_name(Severity::High) == "High"@,
        severity_name(Severity::Critical) == "Critical"@,
        anomaly_name(AnomalyType::UnknownTool) == "UnknownTool"@,
        anomaly_name(AnomalyType::UnknownSequence) == "UnknownSequence"@,
        anomaly_name(AnomalyType::UnknownResource) == "UnknownResource"@,
        anomaly_name(AnomalyType::VolumeSpike) == "VolumeSpike"@,
        anomaly_name(AnomalyType::RateSpike) == "RateSpike"@,
        anomaly_name(AnomalyType::TemporalAnomaly) == "TemporalAnomaly"@,
        anomaly_name(AnomalyType::UnknownParamPattern) == "UnknownParamPattern"@,
        anomaly_name(AnomalyType::ReasoningLoop) == "ReasoningLoop"@,
        anomaly_name(AnomalyType::ErrorRetryLoop) == "ErrorRetryLoop"@,
        anomaly_name(AnomalyType::CombinedAnomaly) == "CombinedAnomaly"@,
        anomaly_name(AnomalyType::EnsembleScore) == "EnsembleScore"@,
{
}

// ---------------------------------------------------------------------------
// JSON
// ---------------------------------------------------------------------------

/// The spans of a request as they are written, with commas between them.
pub open spec fn spans_text(spans: Seq<SpanView>) -> Seq<char> {
    joined(spans.map_values(|s: SpanView| span_json(s)), ","@)
}

/// A request is its spans between a fixed start and a fixed end. However many they are, all
/// of them are written, each once and in its place: two rows of spans are written as each of
/// them, with a comma between.
pub proof fn law_request_writes_every_span(a: Seq<SpanView>, b: Seq<SpanView>, span: SpanView)
    requires
        a.len() > 0,
        b.len() > 0,
    ensures
        request_json(a) == "{\"resourceSpans\":[{\"scopeSpans\":[{\"spans\":["@ + spans_text(a)
            + "]}]}]}"@,
        request_json(Seq::empty()) == "{\"resourceSpans\":[{\"scopeSpans\":[{\"spans\":["@
            + "]}]}]}"@,
        spans_text(seq![span]) == span_json(span),
        spans_text(a + b) == spans_text(a) + ","@ + spans_text(b),
{
    let write = |s: SpanView| span_json(s);
    law_joins_chain(a.map_values(write), b.map_values(write), ","@, span_json(span));
    assert((a + b).map_values(write) =~= a.map_values(write) + b.map_values(write));
    assert(seq![span].map_values(write) =~= seq![span_json(span)]);
    let none = Seq::<SpanView>::empty();
    assert(joined(none.map_values(write), ","@) =~= Seq::<char>::empty());
    assert(request_json(none) =~= "{\"resourceSpans\":[{\"scopeSpans\":[{\"spans\":["@
        + "]}]}]}"@);
}

/// The attributes of a span as they are written, with commas between them.
pub open spec fn attributes_text(attributes: Seq<AttributeView>) -> Seq<char> {
    joined(attributes.map_values(|a: AttributeView| attribute_json(a)), ","@)
}

/// A span is written with its ids, its name, its times and all its attributes, however many
/// they are, and every text of it is quoted.
pub proof fn law_span_is_written(
    span: SpanView,
    a: Seq<AttributeView>,
    b: Seq<AttributeView>,
    one: AttributeView,
)
    requires
        a.len() > 0,
        b.len() > 0,
    ensures
        span_json(span) == "{\"traceId\":"@ + json_quoted(span.trace_id) + ",\"spanId\":"@
            + json_quoted(span.span_id) + ",\"name\":"@ + json_quoted(span.name)
            + ",\"startTimeUnixNano\":"@ + json_quoted(span.start_time_unix_nano)
            + ",\"endTimeUnixNano\":"@ + json_quoted(span.end_time_unix_nano)
            + ",\"attributes\":["@ + attributes_text(span.attributes) + "]}"@,
        attributes_text(Seq::empty()).len() == 0,
        attributes_text(seq![one]) == "{\"key\":"@ + json_quoted(one.key)
            + ",\"value\":{\"stringValue\":"@ + json_quoted(one.string_value) + "}}"@,
        attributes_text(a + b) == attributes_text(a) + ","@ + attributes_text(b),
{
    let write = |a: AttributeView| attribute_json(a);
    law_joins_chain(a.map_values(write), b.map_values(write), ","@, attribute_json(one));
    assert((a + b).map_values(write) =~= a.map_values(write) + b.map_values(write));
    assert(seq![one].map_values(write) =~= seq![attribute_json(one)]);
    assert(joined(Seq::<AttributeView>::empty().map_values(write), ","@).len() == 0);
}

} // verus!
