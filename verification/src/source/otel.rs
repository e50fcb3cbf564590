//! OpenTelemetry traces.

use vstd::prelude::*;
use vstd::string::*;
use vstd::utf8::encode_utf8;

use crate::dict::Dict;
use crate::event::{BehavioralEvent, EventType, EventView};
use crate::json::{
    explain, field_absent, field_optional_string, field_string, field_string_or_empty,
    field_values, fields_in, is_absent, json_at, opt_text, optional_string_in, read_error,
    read_fields, read_json, string_in, string_or_empty_in, values_in, ReadError, Reader, Shape,
    ShapeView,
};
use crate::order::{
    law_sort_is_stable, lemma_sorted_members, opt_view, placed, rank_order, sort, sorted_by,
    total_preorder, views, Ranked,
};
use crate::source::{keys_and_resources, keys_of, resources_of};
use crate::text::{
    byte_len, contains, decimal, decimal_text, occurs, parse_u64, parsed_u64, same_text,
};
use crate::time::{representable, Timestamp};

verus! {

// ---------------------------------------------------------------------------
// Spans
// ---------------------------------------------------------------------------

/// A number that may be written as a string.
#[derive(Debug)]
pub enum StringOrU64 {
    String(String),
    Number(u64),
}

/// The model of a `StringOrU64`.
pub enum NumberView {
    String(Seq<char>),
    Number(u64),
}

impl View for StringOrU64 {
    type V = NumberView;

    open spec fn view(&self) -> NumberView {
        match *self {
            StringOrU64::String(s) => NumberView::String(s@),
            StringOrU64::Number(n) => NumberView::Number(n),
        }
    }
}

impl NumberView {
    /// The number; zero where the string writes none.
    pub open spec fn value(self) -> u64 {
        match self {
            NumberView::String(s) => match parsed_u64(s) {
                Some(n) => n,
                None => 0,
            },
            NumberView::Number(n) => n,
        }
    }
}

impl StringOrU64 {
    /// The number; zero where the string writes none.
    pub fn as_u64(&self) -> (r: u64)
        ensures
            r == self@.value(),
    {
        match self {
            StringOrU64::String(s) => match parse_u64(s.as_str()) {
                Some(n) => n,
                None => 0,
            },
            StringOrU64::Number(n) => *n,
        }
    }
}

impl Default for StringOrU64 {
    fn default() -> (r: Self)
        ensures
            r@ == NumberView::Number(0),
    {
        StringOrU64::Number(0)
    }
}

/// An attribute of a span.
#[derive(Debug)]
pub struct KeyValue {
    pub key: String,
    pub value: Option<AnyValue>,
}

/// The value of an attribute, where it is a string or an integer.
#[derive(Debug)]
pub struct AnyValue {
    pub string_value: Option<String>,
    pub int_value: Option<StringOrU64>,
}

/// The status of a span.
#[derive(Debug, Clone, Copy, PartialEq, Eq, Structural)]
pub struct SpanStatus {
    pub code: u32,
}

/// A span of a trace.
#[derive(Debug)]
pub struct OtlpSpan {
    pub trace_id: String,
    pub span_id: String,
    pub name: String,
    pub start_time_unix_nano: Option<StringOrU64>,
    pub end_time_unix_nano: Option<StringOrU64>,
    pub attributes: Vec<KeyValue>,
    pub status: Option<SpanStatus>,
}

/// The model of a `KeyValue`.
#[verifier::ext_equal]
pub struct AttributeView {
    pub key: Seq<char>,
    pub value: Option<AnyView>,
}

/// The model of an `AnyValue`.
#[verifier::ext_equal]
pub struct AnyView {
    pub string_value: Option<Seq<char>>,
    pub int_value: Option<NumberView>,
}

/// The model of an `OtlpSpan`.
#[verifier::ext_equal]
pub struct SpanView {
    pub trace_id: Seq<char>,
    pub span_id: Seq<char>,
    pub name: Seq<char>,
    pub start_time_unix_nano: Option<NumberView>,
    pub end_time_unix_nano: Option<NumberView>,
    pub attributes: Seq<AttributeView>,
    pub status: Option<SpanStatus>,
}

impl View for AnyValue {
    type V = AnyView;

    open spec fn view(&self) -> AnyView {
        AnyView { string_value: opt_view(self.string_value), int_value: opt_view(self.int_value) }
    }
}

impl View for KeyValue {
    type V = AttributeView;

    open spec fn view(&self) -> AttributeView {
        AttributeView { key: self.key@, value: opt_view(self.value) }
    }
}

impl View for OtlpSpan {
    type V = SpanView;

    open spec fn view(&self) -> SpanView {
        SpanView {
            trace_id: self.trace_id@,
            span_id: self.span_id@,
            name: self.name@,
            start_time_unix_nano: opt_view(self.start_time_unix_nano),
            end_time_unix_nano: opt_view(self.end_time_unix_nano),
            attributes: views(self.attributes@),
            status: self.status,
        }
    }
}

/// The number that a time is given by; zero where it is left out.
pub open spec fn nanos_of(time: Option<NumberView>) -> u64 {
    match time {
        Some(n) => n.value(),
        None => 0,
    }
}

fn read_nanos(time: &Option<StringOrU64>) -> (r: u64)
    ensures
        r == nanos_of(opt_view(*time)),
{
    match time {
        Some(n) => n.as_u64(),
        None => 0,
    }
}

/// Spans stand in the order in which they start.
impl Ranked for OtlpSpan {
    open spec fn ranks(a: SpanView, b: SpanView) -> bool {
        nanos_of(a.start_time_unix_nano) <= nanos_of(b.start_time_unix_nano)
    }

    fn at_most(&self, other: &Self) -> (r: bool) {
        read_nanos(&self.start_time_unix_nano) <= read_nanos(&other.start_time_unix_nano)
    }
}

// ---------------------------------------------------------------------------
// Reading
// ---------------------------------------------------------------------------

/// The number or string of a field that may be left out; none where it holds something
/// else.
pub open spec fn number_in(field: Option<Seq<char>>) -> Option<Option<NumberView>> {
    match field {
        Some(text) => match json_at(text, ""@) {
            Some(node) => match node.shape {
                ShapeView::Null => Some(None),
                ShapeView::Text(s) => Some(Some(NumberView::String(s))),
                ShapeView::Number(Some(n)) => Some(Some(NumberView::Number(n))),
                _ => None,
            },
            None => None,
        },
        None => Some(None),
    }
}

fn read_number(field: Option<&str>) -> (r: Option<Option<StringOrU64>>)
    ensures
        match r {
            Some(n) => number_in(opt_text(field)) == Some(opt_view(n)),
            None => number_in(opt_text(field)) is None,
        },
{
    match field {
        Some(text) => match read_json(text, "") {
            Some(node) => match node.shape {
                Shape::Null => Some(None),
                Shape::Text(s) => Some(Some(StringOrU64::String(s))),
                Shape::Number(Some(n)) => Some(Some(StringOrU64::Number(n))),
                _ => None,
            },
            None => None,
        },
        None => Some(None),
    }
}

/// The value of an attribute; none where it cannot be read.
pub open spec fn any_value_in(field: Option<Seq<char>>) -> Option<Option<AnyView>> {
    match field {
        Some(text) => if is_absent(field) {
            Some(None)
        } else {
            match fields_in(text, seq!["stringValue"@, "intValue"@], 2) {
                Some(fields) => match (optional_string_in(fields[0]), number_in(fields[1])) {
                    (Some(string_value), Some(int_value)) => Some(
                        Some(AnyView { string_value, int_value }),
                    ),
                    _ => None,
                },
                None => None,
            }
        },
        None => Some(None),
    }
}

fn read_any_value(field: Option<&str>) -> (r: Option<Option<AnyValue>>)
    ensures
        match r {
            Some(value) => any_value_in(opt_text(field)) == Some(opt_view(value)),
            None => any_value_in(opt_text(field)) is None,
        },
{
    let text = match field {
        Some(text) => text,
        None => {
            return Some(None);
        },
    };
    if field_absent(field) {
        return Some(None);
    }
    let names = vec!["stringValue", "intValue"];
    proof {
        assert(views(names@) =~= seq!["stringValue"@, "intValue"@]);
    }
    match read_fields(text, &names, 2) {
        Some(fields) => match (field_optional_string(fields[0]), read_number(fields[1])) {
            (Some(string_value), Some(int_value)) => Some(
                Some(AnyValue { string_value, int_value }),
            ),
            _ => None,
        },
        None => None,
    }
}

/// The code of a status, zero where it is left out; none where it cannot be read.
pub open spec fn code_in(field: Option<Seq<char>>) -> Option<u32> {
    match field {
        Some(text) => match json_at(text, ""@) {
            Some(node) => match node.shape {
                ShapeView::Number(Some(n)) => if n <= u32::MAX {
                    Some(n as u32)
                } else {
                    None
                },
                _ => None,
            },
            None => None,
        },
        None => Some(0),
    }
}

/// The status of a span; none where it cannot be read.
pub open spec fn status_in(field: Option<Seq<char>>) -> Option<Option<SpanStatus>> {
    match field {
        Some(text) => if is_absent(field) {
            Some(None)
        } else {
            match fields_in(text, seq!["code"@], 0) {
                Some(fields) => match code_in(fields[0]) {
                    Some(code) => Some(Some(SpanStatus { code })),
                    None => None,
                },
                None => None,
            }
        },
        None => Some(None),
    }
}

fn read_code(field: Option<&str>) -> (r: Option<u32>)
    ensures
        r == code_in(opt_text(field)),
{
    match field {
        Some(text) => match read_json(text, "") {
            Some(node) => match node.shape {
                Shape::Number(Some(n)) => if n <= u32::MAX as u64 {
                    Some(n as u32)
                } else {
                    None
                },
                _ => None,
            },
            None => None,
        },
        None => Some(0),
    }
}

fn read_status(field: Option<&str>) -> (r: Option<Option<SpanStatus>>)
    ensures
        r == status_in(opt_text(field)),
{
    let text = match field {
        Some(text) => text,
        None => {
            return Some(None);
        },
    };
    if field_absent(field) {
        return Some(None);
    }
    let names = vec!["code"];
    proof {
        assert(views(names@) =~= seq!["code"@]);
    }
    match read_fields(text, &names, 0) {
        Some(fields) => match read_code(fields[0]) {
            Some(code) => Some(Some(SpanStatus { code })),
            None => None,
        },
        None => None,
    }
}

/// Reads an attribute.
pub struct AttributeReader;

impl Reader for AttributeReader {
    type Item = KeyValue;

    open spec fn values(text: Seq<char>) -> Option<Seq<AttributeView>> {
        match fields_in(text, seq!["key"@, "value"@], 2) {
            Some(fields) => match (string_in(fields[0]), any_value_in(fields[1])) {
                (Some(key), Some(value)) => Some(seq![AttributeView { key, value }]),
                _ => None,
            },
            None => None,
        }
    }

    fn read(text: &str) -> (r: Option<Vec<KeyValue>>) {
        let names = vec!["key", "value"];
        proof {
            assert(views(names@) =~= seq!["key"@, "value"@]);
        }
        let fields = match read_fields(text, &names, 2) {
            Some(fields) => fields,
            None => {
                return None;
            },
        };
        match (field_string(fields[0]), read_any_value(fields[1])) {
            (Some(key), Some(value)) => {
                let mut out: Vec<KeyValue> = Vec::new();
                out.push(KeyValue { key, value });
                proof {
                    assert(views(out@) =~= seq![out@[0]@]);
                }
                Some(out)
            },
            _ => None,
        }
    }
}

/// The fields of a span.
pub open spec fn span_names() -> Seq<Seq<char>> {
    seq![
        "traceId"@,
        "spanId"@,
        "name"@,
        "startTimeUnixNano"@,
        "endTimeUnixNano"@,
        "attributes"@,
        "status"@,
    ]
}

/// Reads a span.
pub struct SpanReader;

impl Reader for SpanReader {
    type Item = OtlpSpan;

    open spec fn values(text: Seq<char>) -> Option<Seq<SpanView>> {
        match fields_in(text, span_names(), 0) {
            Some(fields) => match (
                string_or_empty_in(fields[0]),
                string_or_empty_in(fields[1]),
                string_or_empty_in(fields[2]),
                number_in(fields[3]),
                number_in(fields[4]),
                values_in::<AttributeReader>(fields[5]),
                status_in(fields[6]),
            ) {
                (
                    Some(trace_id),
                    Some(span_id),
                    Some(name),
                    Some(start_time_unix_nano),
                    Some(end_time_unix_nano),
                    Some(attributes),
                    Some(status),
                ) => Some(
                    seq![
                        SpanView {
                            trace_id,
                            span_id,
                            name,
                            start_time_unix_nano,
                            end_time_unix_nano,
                            attributes,
                            status,
                        },
                    ],
                ),
                _ => None,
            },
            None => None,
        }
    }

    fn read(text: &str) -> (r: Option<Vec<OtlpSpan>>) {
        let names = vec![
            "traceId",
            "spanId",
            "name",
            "startTimeUnixNano",
            "endTimeUnixNano",
            "attributes",
            "status",
        ];
        proof {
            assert(views(names@) =~= span_names());
        }
        let fields = match read_fields(text, &names, 0) {
            Some(fields) => fields,
            None => {
                return None;
            },
        };
        match (
            field_string_or_empty(fields[0]),
            field_string_or_empty(fields[1]),
            field_string_or_empty(fields[2]),
            read_number(fields[3]),
            read_number(fields[4]),
            field_values::<AttributeReader>(fields[5]),
            read_status(fields[6]),
        ) {
            (
                Some(trace_id),
                Some(span_id),
                Some(name),
                Some(start_time_unix_nano),
                Some(end_time_unix_nano),
                Some(attributes),
                Some(status),
            ) => {
                let mut out: Vec<OtlpSpan> = Vec::new();
                out.push(
                    OtlpSpan {
                        trace_id,
                        span_id,
                        name,
                        start_time_unix_nano,
                        end_time_unix_nano,
                        attributes,
                        status,
                    },
                );
                proof {
                    assert(views(out@) =~= seq![out@[0]@]);
                }
                Some(out)
            },
            _ => None,
        }
    }
}

/// Reads the spans of one instrumentation scope.
pub struct ScopeSpansReader;

impl Reader for ScopeSpansReader {
    type Item = OtlpSpan;

    open spec fn values(text: Seq<char>) -> Option<Seq<SpanView>> {
        match fields_in(text, seq!["spans"@], 0) {
            Some(fields) => values_in::<SpanReader>(fields[0]),
            None => None,
        }
    }

    fn read(text: &str) -> (r: Option<Vec<OtlpSpan>>) {
        let names = vec!["spans"];
        proof {
            assert(views(names@) =~= seq!["spans"@]);
        }
        match read_fields(text, &names, 0) {
            Some(fields) => field_values::<SpanReader>(fields[0]),
            None => None,
        }
    }
}

/// Reads the spans of one resource.
pub struct ResourceSpansReader;

impl Reader for ResourceSpansReader {
    type Item = OtlpSpan;

    open spec fn values(text: Seq<char>) -> Option<Seq<SpanView>> {
        match fields_in(text, seq!["scopeSpans"@], 0) {
            Some(fields) => values_in::<ScopeSpansReader>(fields[0]),
            None => None,
        }
    }

    fn read(text: &str) -> (r: Option<Vec<OtlpSpan>>) {
        let names = vec!["scopeSpans"];
        proof {
            assert(views(names@) =~= seq!["scopeSpans"@]);
        }
        match read_fields(text, &names, 0) {
            Some(fields) => field_values::<ScopeSpansReader>(fields[0]),
            None => None,
        }
    }
}

/// The spans of the export request that a JSON text writes; none where it writes no
/// such request.
pub open spec fn spans_in(text: Seq<char>) -> Option<Seq<SpanView>> {
    match fields_in(text, seq!["resourceSpans"@], 0) {
        Some(fields) => values_in::<ResourceSpansReader>(fields[0]),
        None => None,
    }
}

/// Reads the spans of an export request, in the order in which they stand there.
pub fn read_request(text: &str) -> (r: Result<Vec<OtlpSpan>, ReadError>)
    ensures
        match r {
            Ok(spans) => spans_in(text@) == Some(views(spans@)),
            Err(e) => spans_in(text@) is None && e == read_error(text@),
        },
{
    let names = vec!["resourceSpans"];
    proof {
        assert(views(names@) =~= seq!["resourceSpans"@]);
    }
    match read_fields(text, &names, 0) {
        Some(fields) => match field_values::<ResourceSpansReader>(fields[0]) {
            Some(spans) => Ok(spans),
            None => Err(explain(text)),
        },
        None => Err(explain(text)),
    }
}

// ---------------------------------------------------------------------------
// Attributes
// ---------------------------------------------------------------------------

/// The text of an attribute's value: its string, or else its integer in decimal;
/// none where it has neither.
pub open spec fn value_text(value: Option<AnyView>) -> Option<Seq<char>> {
    match value {
        Some(any) => match any.string_value {
            Some(s) => Some(s),
            None => match any.int_value {
                Some(n) => Some(decimal(n.value() as nat)),
                None => None,
            },
        },
        None => None,
    }
}

/// The attributes by name. Of a name that comes twice the last value counts; an
/// attribute without a text is left out.
pub open spec fn by_name(attributes: Seq<AttributeView>) -> Map<Seq<char>, Seq<char>>
    decreases attributes.len(),
{
    if attributes.len() == 0 {
        Map::empty()
    } else {
        let before = by_name(attributes.drop_last());
        let last = attributes.last();
        match value_text(last.value) {
            Some(text) => before.insert(last.key, text),
            None => before,
        }
    }
}

/// The attributes by name.
pub fn attributes_map(attributes: &Vec<KeyValue>) -> (r: Dict<String, String>)
    ensures
        r@ == by_name(views(attributes@)),
{
    let ghost all = views(attributes@);
    let mut map: Dict<String, String> = Dict::new();
    let mut i: usize = 0;
    while i < attributes.len()
        invariant
            i <= attributes.len(),
            all == views(attributes@),
            map@ == by_name(all.take(i as int)),
        decreases attributes.len() - i,
    {
        proof {
            assert(all.take(i + 1).drop_last() =~= all.take(i as int));
            assert(all.take(i + 1).last() == attributes@[i as int]@);
        }
        match &attributes[i].value {
            Some(any) => {
                match &any.string_value {
                    Some(s) => {
                        map.set(attributes[i].key.clone(), s.clone());
                    },
                    None => match &any.int_value {
                        Some(n) => {
                            map.set(attributes[i].key.clone(), decimal_text(n.as_u64()));
                        },
                        None => {},
                    },
                }
            },
            None => {},
        }
        i = i + 1;
    }
    proof {
        assert(all.take(all.len() as int) =~= all);
    }
    map
}

/// The attribute `name`, where there is one.
pub open spec fn attribute(attrs: Map<Seq<char>, Seq<char>>, name: Seq<char>) -> Option<Seq<char>> {
    if attrs.contains_key(name) {
        Some(attrs[name])
    } else {
        None
    }
}

/// The first of two that is there.
pub open spec fn or_else<A>(first: Option<A>, second: Option<A>) -> Option<A> {
    match first {
        Some(a) => Some(a),
        None => second,
    }
}

fn get_attribute(attrs: &Dict<String, String>, name: &str) -> (r: Option<String>)
    ensures
        opt_view(r) == attribute(attrs@, name@),
{
    match attrs.get(&name.to_owned()) {
        Some(s) => Some(s.clone()),
        None => None,
    }
}

fn get_either(attrs: &Dict<String, String>, first: &str, second: &str) -> (r: Option<String>)
    ensures
        opt_view(r) == or_else(attribute(attrs@, first@), attribute(attrs@, second@)),
{
    match get_attribute(attrs, first) {
        Some(s) => Some(s),
        None => get_attribute(attrs, second),
    }
}

/// The number that an attribute writes, where it writes one.
pub open spec fn number_attribute(attrs: Map<Seq<char>, Seq<char>>, name: Seq<char>) -> Option<u64> {
    match attribute(attrs, name) {
        Some(s) => parsed_u64(s),
        None => None,
    }
}

fn get_number(attrs: &Dict<String, String>, name: &str) -> (r: Option<u64>)
    ensures
        r == number_attribute(attrs@, name@),
{
    match get_attribute(attrs, name) {
        Some(s) => parse_u64(s.as_str()),
        None => None,
    }
}

// ---------------------------------------------------------------------------
// Events
// ---------------------------------------------------------------------------

/// The instant so many nanoseconds after the start of 1970.
pub open spec fn instant_of(nanos: u64) -> Timestamp {
    Timestamp::at((nanos / 1_000_000_000) as int, (nanos % 1_000_000_000) as int)
}

/// The instant so many nanoseconds after the start of 1970.
pub fn nanos_to_datetime(nanos: u64) -> (r: Timestamp)
    ensures
        r == instant_of(nanos),
        r.unix_seconds() == nanos / 1_000_000_000,
        r.subsec_nanos() == nanos % 1_000_000_000,
{
    let secs: i64 = (nanos / 1_000_000_000) as i64;
    let nsec: u32 = (nanos % 1_000_000_000) as u32;
    match Timestamp::from_unix(secs, nsec) {
        Some(t) => t,
        None => {
            proof {
                assert(representable(secs as int, nsec as int));
            }
            Timestamp::now()
        },
    }
}

/// A tool span shows an error or a call.
pub open spec fn tool_event(status: Option<SpanStatus>) -> EventType {
    match status {
        Some(s) => if s.code == 2 {
            EventType::Error
        } else {
            EventType::ToolCall
        },
        None => EventType::ToolCall,
    }
}

/// What a span shows, where it shows anything: by its `gen_ai` operation, or else by
/// its OpenInference kind, or else by its name.
pub open spec fn shown(
    attrs: Map<Seq<char>, Seq<char>>,
    name: Seq<char>,
    status: Option<SpanStatus>,
) -> Option<EventType> {
    match attribute(attrs, "gen_ai.operation.name"@) {
        Some(op) => if op == "execute_tool"@ {
            Some(tool_event(status))
        } else if op == "chat"@ {
            if attribute(attrs, "gen_ai.message.role"@) == Some("user"@) {
                Some(EventType::UserMessage)
            } else {
                Some(EventType::AgentMessage)
            }
        } else if op == "invoke_agent"@ || op == "create_agent"@ {
            None
        } else {
            Some(EventType::AgentMessage)
        },
        None => match attribute(attrs, "openinference.span.kind"@) {
            Some(kind) => if kind == "TOOL"@ {
                Some(tool_event(status))
            } else if kind == "LLM"@ || kind == "AGENT"@ {
                Some(EventType::AgentMessage)
            } else {
                None
            },
            None => if occurs(name, "tool"@) {
                Some(tool_event(status))
            } else {
                None
            },
        },
    }
}

/// What a span shows, by its own attributes.
pub open spec fn span_shows(span: SpanView) -> Option<EventType> {
    shown(by_name(span.attributes), span.name, span.status)
}

/// The tokens that went in and out.
pub open spec fn token_sum(attrs: Map<Seq<char>, Seq<char>>) -> int {
    or_zero(number_attribute(attrs, "gen_ai.usage.input_tokens"@)) + or_zero(
        number_attribute(attrs, "gen_ai.usage.output_tokens"@),
    )
}

/// A number, or zero where there is none.
pub open spec fn or_zero(n: Option<u64>) -> u64 {
    match n {
        Some(n) => n,
        None => 0,
    }
}

/// The token count of a span: what went in and out, or else the total it names.
pub open spec fn token_count(attrs: Map<Seq<char>, Seq<char>>) -> Option<u64> {
    if token_sum(attrs) > 0 {
        Some(token_sum(attrs) as u64)
    } else {
        number_attribute(attrs, "llm.token_count.total"@)
    }
}

/// The names of a tool call's arguments.
pub open spec fn argument_keys(arguments: Seq<char>) -> Seq<Seq<char>> {
    match json_at(arguments, ""@) {
        Some(node) => match node.shape {
            ShapeView::Object(members) => keys_of(members),
            _ => Seq::empty(),
        },
        None => Seq::empty(),
    }
}

/// The resources among a tool call's arguments.
pub open spec fn argument_resources(arguments: Seq<char>) -> Seq<Seq<char>> {
    match json_at(arguments, ""@) {
        Some(node) => match node.shape {
            ShapeView::Object(members) => resources_of(members),
            _ => Seq::empty(),
        },
        None => Seq::empty(),
    }
}

/// The whole milliseconds from start to end; zero where the end is not later.
pub open spec fn span_millis(span: SpanView) -> u64 {
    let start = nanos_of(span.start_time_unix_nano);
    let end = nanos_of(span.end_time_unix_nano);
    if end > start {
        ((end - start) / 1_000_000) as u64
    } else {
        0
    }
}

/// The event of a span.
pub open spec fn span_event(
    default_agent: Seq<char>,
    span: SpanView,
    trace_id: Seq<char>,
    event_type: EventType,
    position: int,
) -> EventView {
    let attrs = by_name(span.attributes);
    let arguments = attribute(attrs, "gen_ai.tool.call.arguments"@);
    EventView {
        timestamp: instant_of(nanos_of(span.start_time_unix_nano)),
        session_id: match or_else(
            attribute(attrs, "gen_ai.conversation.id"@),
            attribute(attrs, "session.id"@),
        ) {
            Some(s) => s,
            None => trace_id,
        },
        agent_id: match or_else(
            or_else(
                attribute(attrs, "gen_ai.agent.name"@),
                attribute(attrs, "gen_ai.agent.id"@),
            ),
            attribute(attrs, "agent.name"@),
        ) {
            Some(s) => s,
            None => default_agent,
        },
        event_type,
        tool_name: or_else(
            attribute(attrs, "gen_ai.tool.name"@),
            attribute(attrs, "tool.name"@),
        ),
        param_keys: match arguments {
            Some(s) => argument_keys(s),
            None => Seq::empty(),
        },
        resource_ids: match arguments {
            Some(s) => argument_resources(s),
            None => Seq::empty(),
        },
        data_in_bytes: match arguments {
            Some(s) => encode_utf8(s).len() as u64,
            None => 0,
        },
        data_out_bytes: match attribute(attrs, "gen_ai.tool.call.result"@) {
            Some(s) => encode_utf8(s).len() as u64,
            None => 0,
        },
        duration_ms: span_millis(span),
        token_count: token_count(attrs),
        sequence_position: position as u32,
        trace_id: Some(trace_id),
        span_id: Some(span.span_id),
        provider: attribute(attrs, "gen_ai.provider.name"@),
        model: attribute(attrs, "gen_ai.request.model"@),
    }
}

/// The names of a tool call's arguments, the resources among them, and their bytes.
pub fn extract_from_args_json(arguments: &str) -> (r: (Vec<String>, Vec<String>, u64))
    ensures
        views(r.0@) == argument_keys(arguments@),
        views(r.1@) == argument_resources(arguments@),
        r.2 == encode_utf8(arguments@).len() as u64,
{
    let bytes: u64 = byte_len(arguments) as u64;
    match read_json(arguments, "") {
        Some(node) => match node.shape {
            Shape::Object(members) => {
                let (keys, resources) = keys_and_resources(&members);
                return (keys, resources, bytes);
            },
            _ => {},
        },
        None => {},
    }
    let keys: Vec<String> = Vec::new();
    let resources: Vec<String> = Vec::new();
    proof {
        assert(views(keys@) =~= argument_keys(arguments@));
        assert(views(resources@) =~= argument_resources(arguments@));
    }
    (keys, resources, bytes)
}

/// The token count of a span.
fn count_tokens(attrs: &Dict<String, String>) -> (r: Option<u64>)
    requires
        token_sum(attrs@) <= u64::MAX,
    ensures
        r == token_count(attrs@),
{
    let input_tokens: u64 = match get_number(attrs, "gen_ai.usage.input_tokens") {
        Some(n) => n,
        None => 0,
    };
    let output_tokens: u64 = match get_number(attrs, "gen_ai.usage.output_tokens") {
        Some(n) => n,
        None => 0,
    };
    let total: u64 = input_tokens + output_tokens;
    if total > 0 {
        Some(total)
    } else {
        get_number(attrs, "llm.token_count.total")
    }
}

/// Parses OTLP JSON (ExportTraceServiceRequest) into `BehavioralEvent`s.
#[derive(Debug)]
pub struct OtelParser {
    pub default_agent_id: String,
}

impl OtelParser {
    /// A parser that tags events with `default_agent_id` where they name no agent.
    pub fn new(default_agent_id: &str) -> (r: Self)
        ensures
            r.default_agent_id@ == default_agent_id@,
    {
        OtelParser { default_agent_id: default_agent_id.to_owned() }
    }

    /// What a span shows, where it shows anything.
    pub fn resolve_event_type(&self, attrs: &Dict<String, String>, span: &OtlpSpan) -> (r: Option<
        EventType,
    >)
        ensures
            r == shown(attrs@, span@.name, span.status),
    {
        let tool = match span.status {
            Some(s) => if s.code == 2 {
                EventType::Error
            } else {
                EventType::ToolCall
            },
            None => EventType::ToolCall,
        };
        if let Some(op) = get_attribute(attrs, "gen_ai.operation.name") {
            if same_text(op.as_str(), "execute_tool") {
                return Some(tool);
            }
            if same_text(op.as_str(), "chat") {
                return match get_attribute(attrs, "gen_ai.message.role") {
                    Some(role) => if same_text(role.as_str(), "user") {
                        Some(EventType::UserMessage)
                    } else {
                        Some(EventType::AgentMessage)
                    },
                    None => Some(EventType::AgentMessage),
                };
            }
            if same_text(op.as_str(), "invoke_agent") || same_text(op.as_str(), "create_agent") {
                return None;
            }
            return Some(EventType::AgentMessage);
        }
        if let Some(kind) = get_attribute(attrs, "openinference.span.kind") {
            if same_text(kind.as_str(), "TOOL") {
                return Some(tool);
            }
            if same_text(kind.as_str(), "LLM") || same_text(kind.as_str(), "AGENT") {
                return Some(EventType::AgentMessage);
            }
            return None;
        }
        if contains(span.name.as_str(), "tool") {
            return Some(tool);
        }
        None
    }

    /// The event of a span, where it shows one. `seq` counts the events of the trace.
    pub fn convert_span(&self, span: &OtlpSpan, trace_id: &str, seq: &mut u32) -> (r: Option<
        BehavioralEvent,
    >)
        requires
            span_shows(span@) is Some ==> token_sum(by_name(span@.attributes)) <= u64::MAX && *old(
                seq,
            ) < u32::MAX,
        ensures
            match span_shows(span@) {
                Some(event_type) => {
                    &&& *final(seq) == *old(seq) + 1
                    &&& opt_view(r) == Some(
                        span_event(
                            self.default_agent_id@,
                            span@,
                            trace_id@,
                            event_type,
                            *old(seq) + 1,
                        ),
                    )
                },
                None => r is None && *final(seq) == *old(seq),
            },
    {
        let attrs = attributes_map(&span.attributes);
        let event_type = match self.resolve_event_type(&attrs, span) {
            Some(event_type) => event_type,
            None => {
                return None;
            },
        };
        let session_id = match get_either(&attrs, "gen_ai.conversation.id", "session.id") {
            Some(s) => s,
            None => trace_id.to_owned(),
        };
        let agent_id = match get_either(&attrs, "gen_ai.agent.name", "gen_ai.agent.id") {
            Some(s) => s,
            None => match get_attribute(&attrs, "agent.name") {
                Some(s) => s,
                None => self.default_agent_id.clone(),
            },
        };
        let tool_name = get_either(&attrs, "gen_ai.tool.name", "tool.name");
        let (param_keys, resource_ids, data_in_bytes) = match get_attribute(
            &attrs,
            "gen_ai.tool.call.arguments",
        ) {
            Some(arguments) => extract_from_args_json(arguments.as_str()),
            None => (Vec::new(), Vec::new(), 0),
        };
        let data_out_bytes: u64 = match get_attribute(&attrs, "gen_ai.tool.call.result") {
            Some(result) => byte_len(result.as_str()) as u64,
            None => 0,
        };
        let token_count = count_tokens(&attrs);
        let start_nanos: u64 = read_nanos(&span.start_time_unix_nano);
        let end_nanos: u64 = read_nanos(&span.end_time_unix_nano);
        let duration_ms: u64 = if end_nanos > start_nanos {
            (end_nanos - start_nanos) / 1_000_000
        } else {
            0
        };
        let timestamp = nanos_to_datetime(start_nanos);
        let provider = get_attribute(&attrs, "gen_ai.provider.name");
        let model = get_attribute(&attrs, "gen_ai.request.model");
        *seq = *seq + 1;
        let event = BehavioralEvent {
            timestamp,
            session_id,
            agent_id,
            event_type,
            tool_name,
            param_keys,
            resource_ids,
            data_in_bytes,
            data_out_bytes,
            duration_ms,
            token_count,
            sequence_position: *seq,
            trace_id: Some(trace_id.to_owned()),
            span_id: Some(span.span_id.clone()),
            provider,
            model,
        };
        proof {
            let wanted = span_event(
                self.default_agent_id@,
                span@,
                trace_id@,
                event_type,
                *old(seq) + 1,
            );
            assert(event@.param_keys =~= wanted.param_keys);
            assert(event@.resource_ids =~= wanted.resource_ids);
            assert(event@ =~= wanted);
        }
        Some(event)
    }
}

// ---------------------------------------------------------------------------
// Traces
// ---------------------------------------------------------------------------

/// The spans of one trace.
#[derive(Debug)]
pub struct Trace {
    pub trace_id: String,
    pub spans: Vec<OtlpSpan>,
}

/// The model of a `Trace`.
#[verifier::ext_equal]
pub struct TraceView {
    pub trace_id: Seq<char>,
    pub spans: Seq<SpanView>,
}

impl View for Trace {
    type V = TraceView;

    open spec fn view(&self) -> TraceView {
        TraceView { trace_id: self.trace_id@, spans: views(self.spans@) }
    }
}

/// Some trace has the id.
pub open spec fn has_trace(traces: Seq<TraceView>, trace_id: Seq<char>) -> bool {
    exists|k: int| 0 <= k < traces.len() && (#[trigger] traces[k]).trace_id == trace_id
}

/// The traces with one span more: behind the others of its trace, or else in a new
/// trace.
pub open spec fn with_span(traces: Seq<TraceView>, span: SpanView) -> Seq<TraceView> {
    if has_trace(traces, span.trace_id) {
        Seq::new(
            traces.len(),
            |k: int|
                if traces[k].trace_id == span.trace_id {
                    TraceView {
                        trace_id: traces[k].trace_id,
                        spans: traces[k].spans.push(span),
                    }
                } else {
                    traces[k]
                },
        )
    } else {
        traces.push(TraceView { trace_id: span.trace_id, spans: seq![span] })
    }
}

/// The spans by trace, traces and spans in the order in which they came.
pub open spec fn by_trace(spans: Seq<SpanView>) -> Seq<TraceView>
    decreases spans.len(),
{
    if spans.len() == 0 {
        Seq::empty()
    } else {
        with_span(by_trace(spans.drop_last()), spans.last())
    }
}

/// The events of a trace's spans, in the order of the spans. Positions count from
/// one; a span that shows nothing takes none.
pub open spec fn trace_events(
    default_agent: Seq<char>,
    spans: Seq<SpanView>,
    trace_id: Seq<char>,
) -> Seq<EventView>
    decreases spans.len(),
{
    if spans.len() == 0 {
        Seq::empty()
    } else {
        let before = trace_events(default_agent, spans.drop_last(), trace_id);
        match span_shows(spans.last()) {
            Some(event_type) => before.push(
                span_event(default_agent, spans.last(), trace_id, event_type, before.len() as int + 1),
            ),
            None => before,
        }
    }
}

/// The events of several traces, one trace behind the other.
pub open spec fn traces_events(default_agent: Seq<char>, traces: Seq<TraceView>) -> Seq<EventView>
    decreases traces.len(),
{
    if traces.len() == 0 {
        Seq::empty()
    } else {
        let last = traces.last();
        traces_events(default_agent, traces.drop_last()) + trace_events(
            default_agent,
            sorted_by(last.spans, rank_order::<OtlpSpan>()),
            last.trace_id,
        )
    }
}

/// The events of some spans: trace by trace in the order in which the spans start,
/// and all together in the order of time.
pub open spec fn events_of(default_agent: Seq<char>, spans: Seq<SpanView>) -> Seq<EventView> {
    sorted_by(
        traces_events(default_agent, by_trace(spans)),
        rank_order::<BehavioralEvent>(),
    )
}

/// How many spans of a trace show something.
pub open spec fn showing(spans: Seq<SpanView>, trace_id: Seq<char>) -> nat
    decreases spans.len(),
{
    if spans.len() == 0 {
        0
    } else {
        let before = showing(spans.drop_last(), trace_id);
        if spans.last().trace_id == trace_id && span_shows(spans.last()) is Some {
            before + 1
        } else {
            before
        }
    }
}

/// The tokens of every span and the events of every trace can be counted.
pub open spec fn countable(spans: Seq<SpanView>) -> bool {
    &&& forall|i: int|
        0 <= i < spans.len() && span_shows(#[trigger] spans[i]) is Some ==> token_sum(
            by_name(spans[i].attributes),
        ) <= u64::MAX
    &&& forall|trace_id: Seq<char>| #[trigger] showing(spans, trace_id) <= u32::MAX
}

/// No two traces have the same id.
pub open spec fn distinct(traces: Seq<TraceView>) -> bool {
    forall|j: int, k: int|
        0 <= j < k < traces.len() ==> (#[trigger] traces[j]).trace_id != (
        #[trigger] traces[k]).trace_id
}

/// The spans of `all` that belong to a trace, in their order.
pub open spec fn spans_of(all: Seq<SpanView>, trace_id: Seq<char>) -> Seq<SpanView>
    decreases all.len(),
{
    if all.len() == 0 {
        Seq::empty()
    } else if all.last().trace_id == trace_id {
        spans_of(all.drop_last(), trace_id).push(all.last())
    } else {
        spans_of(all.drop_last(), trace_id)
    }
}

/// Each trace comes once, with all its spans in their order, and with a span at
/// least.
pub proof fn law_traces_part_spans(spans: Seq<SpanView>)
    ensures
        distinct(by_trace(spans)),
        forall|k: int|
            0 <= k < by_trace(spans).len() ==> (#[trigger] by_trace(spans)[k]).spans == spans_of(
                spans,
                by_trace(spans)[k].trace_id,
            ) && by_trace(spans)[k].spans.len() > 0,
        forall|trace_id: Seq<char>|
            has_trace(by_trace(spans), trace_id) == (#[trigger] spans_of(spans, trace_id).len()
                > 0),
    decreases spans.len(),
{
    if spans.len() > 0 {
        let short = spans.drop_last();
        let last = spans.last();
        law_traces_part_spans(short);
        let before = by_trace(short);
        let traces = by_trace(spans);
        assert forall|k: int| 0 <= k < traces.len() implies (#[trigger] traces[k]).spans
            == spans_of(spans, traces[k].trace_id) && traces[k].spans.len() > 0 by {
            if k < before.len() {
                assert(before[k].spans == spans_of(short, before[k].trace_id));
                assert(traces[k].trace_id == before[k].trace_id);
            } else {
                assert(!has_trace(before, last.trace_id));
                assert(spans_of(short, last.trace_id).len() == 0);
                assert(spans_of(spans, last.trace_id) =~= seq![last]);
            }
        }
        assert forall|j: int, k: int| 0 <= j < k < traces.len() implies (
        #[trigger] traces[j]).trace_id != (#[trigger] traces[k]).trace_id by {
            assert(traces[j].trace_id == before[j].trace_id);
            if k < before.len() {
                assert(traces[k].trace_id == before[k].trace_id);
                assert(before[j].trace_id != before[k].trace_id);
            } else {
                assert(!has_trace(before, last.trace_id));
            }
        }
        assert forall|trace_id: Seq<char>|
            has_trace(traces, trace_id) == (#[trigger] spans_of(spans, trace_id).len() > 0) by {
            assert(has_trace(before, trace_id) == (spans_of(short, trace_id).len() > 0));
            if has_trace(before, trace_id) {
                let k = choose|k: int|
                    0 <= k < before.len() && (#[trigger] before[k]).trace_id == trace_id;
                assert(traces[k].trace_id == trace_id);
            }
            if trace_id == last.trace_id && !has_trace(before, trace_id) {
                assert(traces[before.len() as int].trace_id == trace_id);
            }
            if has_trace(traces, trace_id) {
                let k = choose|k: int|
                    0 <= k < traces.len() && (#[trigger] traces[k]).trace_id == trace_id;
                if k < before.len() {
                    assert(before[k].trace_id == trace_id);
                }
            }
        }
    }
}

/// How many of some spans show something.
pub open spec fn bearing(spans: Seq<SpanView>) -> nat
    decreases spans.len(),
{
    if spans.len() == 0 {
        0
    } else {
        let before = bearing(spans.drop_last());
        if span_shows(spans.last()) is Some {
            before + 1
        } else {
            before
        }
    }
}

proof fn lemma_bearing_of_trace(spans: Seq<SpanView>, trace_id: Seq<char>)
    ensures
        bearing(spans_of(spans, trace_id)) == showing(spans, trace_id),
    decreases spans.len(),
{
    if spans.len() > 0 {
        let short = spans.drop_last();
        lemma_bearing_of_trace(short, trace_id);
        let part = spans_of(short, trace_id);
        assert(part.push(spans.last()).drop_last() =~= part);
    }
}

proof fn lemma_bearing_placed(
    spans: Seq<SpanView>,
    x: SpanView,
    le: spec_fn(SpanView, SpanView) -> bool,
)
    ensures
        bearing(placed(spans, x, le)) == bearing(spans.push(x)),
    decreases spans.len(),
{
    assert(spans.push(x).drop_last() =~= spans);
    if spans.len() == 0 || le(spans.last(), x) {
    } else {
        let short = spans.drop_last();
        lemma_bearing_placed(short, x, le);
        assert(short.push(x).drop_last() =~= short);
        let q = placed(short, x, le);
        assert(q.push(spans.last()).drop_last() =~= q);
        assert(bearing(spans) == bearing(short) + (if span_shows(spans.last()) is Some {
            1nat
        } else {
            0nat
        }));
    }
}

proof fn lemma_bearing_sorted(spans: Seq<SpanView>, le: spec_fn(SpanView, SpanView) -> bool)
    ensures
        bearing(sorted_by(spans, le)) == bearing(spans),
    decreases spans.len(),
{
    if spans.len() > 0 {
        let short = spans.drop_last();
        lemma_bearing_sorted(short, le);
        let done = sorted_by(short, le);
        lemma_bearing_placed(done, spans.last(), le);
        assert(done.push(spans.last()).drop_last() =~= done);
    }
}

proof fn lemma_event_per_bearing(
    default_agent: Seq<char>,
    spans: Seq<SpanView>,
    trace_id: Seq<char>,
)
    ensures
        trace_events(default_agent, spans, trace_id).len() == bearing(spans),
    decreases spans.len(),
{
    if spans.len() > 0 {
        lemma_event_per_bearing(default_agent, spans.drop_last(), trace_id);
    }
}

proof fn lemma_events_grow(
    default_agent: Seq<char>,
    spans: Seq<SpanView>,
    trace_id: Seq<char>,
    i: int,
)
    requires
        0 <= i <= spans.len(),
    ensures
        trace_events(default_agent, spans.take(i), trace_id).len() <= trace_events(
            default_agent,
            spans,
            trace_id,
        ).len(),
    decreases spans.len(),
{
    if i == spans.len() {
        assert(spans.take(i) =~= spans);
    } else {
        assert(spans.drop_last().take(i) =~= spans.take(i));
        lemma_events_grow(default_agent, spans.drop_last(), trace_id, i);
    }
}

proof fn lemma_part_members(spans: Seq<SpanView>, trace_id: Seq<char>)
    ensures
        forall|i: int|
            0 <= i < spans_of(spans, trace_id).len() ==> spans.contains(
                #[trigger] spans_of(spans, trace_id)[i],
            ),
    decreases spans.len(),
{
    if spans.len() > 0 {
        let short = spans.drop_last();
        lemma_part_members(short, trace_id);
        let part = spans_of(spans, trace_id);
        assert forall|i: int| 0 <= i < part.len() implies spans.contains(#[trigger] part[i]) by {
            let before = spans_of(short, trace_id);
            if i < before.len() {
                assert(short.contains(before[i]));
                let k = choose|k: int| 0 <= k < short.len() && short[k] == before[i];
                assert(spans[k] == part[i]);
            } else {
                assert(spans[spans.len() - 1] == part[i]);
            }
        }
    }
}

/// Where all spans can be counted, so can those of one trace, in any order.
proof fn lemma_trace_countable(default_agent: Seq<char>, spans: Seq<SpanView>, k: int)
    requires
        countable(spans),
        0 <= k < by_trace(spans).len(),
    ensures
        trace_countable(
            default_agent,
            sorted_by(by_trace(spans)[k].spans, rank_order::<OtlpSpan>()),
            by_trace(spans)[k].trace_id,
        ),
{
    let trace = by_trace(spans)[k];
    let le = rank_order::<OtlpSpan>();
    let in_order = sorted_by(trace.spans, le);
    law_traces_part_spans(spans);
    assert(trace.spans == spans_of(spans, trace.trace_id));
    law_trace_event_per_span(default_agent, spans, trace.trace_id);
    assert(showing(spans, trace.trace_id) <= u32::MAX);
    lemma_sorted_members(trace.spans, le);
    lemma_part_members(spans, trace.trace_id);
    assert forall|i: int| 0 <= i < in_order.len() && span_shows(#[trigger] in_order[i]) is Some implies token_sum(
        by_name(in_order[i].attributes),
    ) <= u64::MAX by {
        assert(trace.spans.contains(in_order[i]));
        let j = choose|j: int| 0 <= j < trace.spans.len() && trace.spans[j] == in_order[i];
        assert(spans.contains(trace.spans[j]));
        let m = choose|m: int| 0 <= m < spans.len() && spans[m] == trace.spans[j];
        assert(span_shows(spans[m]) is Some);
    }
}

/// The tokens and the events of a trace's spans can be counted.
spec fn trace_countable(
    default_agent: Seq<char>,
    spans: Seq<SpanView>,
    trace_id: Seq<char>,
) -> bool {
    &&& forall|i: int|
        0 <= i < spans.len() && span_shows(#[trigger] spans[i]) is Some ==> token_sum(
            by_name(spans[i].attributes),
        ) <= u64::MAX
    &&& trace_events(default_agent, spans, trace_id).len() <= u32::MAX
}

/// The spans by trace.
fn group_by_trace(spans: Vec<OtlpSpan>) -> (r: Vec<Trace>)
    ensures
        views(r@) == by_trace(views(spans@)),
{
    let ghost all = views(spans@);
    let mut traces: Vec<Trace> = Vec::new();
    proof {
        assert(views(traces@) =~= by_trace(all.take(0)));
    }
    for span in it: spans
        invariant
            it.seq() == spans@,
            all == views(spans@),
            views(traces@) == by_trace(all.take(it.index())),
    {
        let ghost before = views(traces@);
        let ghost n = it.index();
        proof {
            assert(all.take(n + 1).drop_last() =~= all.take(n));
            assert(all.take(n + 1).last() == span@);
            law_traces_part_spans(all.take(n));
        }
        let mut k: usize = 0;
        while k < traces.len() && !same_text(traces[k].trace_id.as_str(), span.trace_id.as_str())
            invariant
                k <= traces.len(),
                before == views(traces@),
                forall|j: int| 0 <= j < k ==> (#[trigger] before[j]).trace_id != span@.trace_id,
            decreases traces.len() - k,
        {
            proof {
                assert(before[k as int] == traces@[k as int]@);
            }
            k = k + 1;
        }
        if k < traces.len() {
            proof {
                assert(before[k as int] == traces@[k as int]@);
                assert(before[k as int].trace_id == span@.trace_id);
                assert(has_trace(before, span@.trace_id));
            }
            let ghost old_traces = traces@;
            let ghost old_spans = traces@[k as int].spans@;
            traces[k].spans.push(span);
            proof {
                assert(views(traces@[k as int].spans@) =~= views(old_spans).push(span@));
                assert forall|j: int| 0 <= j < before.len() implies #[trigger] views(traces@)[j]
                    == with_span(before, span@)[j] by {
                    if j != k {
                        assert(traces@[j] == old_traces[j]);
                        assert(before[j].trace_id != before[k as int].trace_id);
                    }
                }
                assert(views(traces@) =~= with_span(before, span@));
            }
        } else {
            proof {
                assert(!has_trace(before, span@.trace_id));
            }
            let trace_id = span.trace_id.clone();
            let ghost old_traces = traces@;
            let mut first: Vec<OtlpSpan> = Vec::new();
            first.push(span);
            let trace = Trace { trace_id, spans: first };
            proof {
                assert(views(first@) =~= seq![span@]);
                assert(views(old_traces.push(trace)) =~= before.push(trace@));
            }
            traces.push(trace);
        }
    }
    proof {
        assert(all.take(all.len() as int) =~= all);
    }
    traces
}

impl OtelParser {
    /// The events of one trace's spans, in the order of the spans.
    fn convert_trace(&self, spans: &Vec<OtlpSpan>, trace_id: &str) -> (r: Vec<BehavioralEvent>)
        requires
            trace_countable(self.default_agent_id@, views(spans@), trace_id@),
        ensures
            views(r@) == trace_events(self.default_agent_id@, views(spans@), trace_id@),
    {
        let ghost agent = self.default_agent_id@;
        let ghost all = views(spans@);
        let mut events: Vec<BehavioralEvent> = Vec::new();
        let mut seq: u32 = 0;
        let mut i: usize = 0;
        proof {
            assert(views(events@) =~= trace_events(agent, all.take(0), trace_id@));
        }
        while i < spans.len()
            invariant
                i <= spans.len(),
                all == views(spans@),
                agent == self.default_agent_id@,
                trace_countable(agent, all, trace_id@),
                seq == events@.len(),
                views(events@) == trace_events(agent, all.take(i as int), trace_id@),
            decreases spans.len() - i,
        {
            let ghost before = events@;
            proof {
                assert(all.take(i + 1).drop_last() =~= all.take(i as int));
                assert(all.take(i + 1).last() == spans@[i as int]@);
                assert(all[i as int] == spans@[i as int]@);
                lemma_events_grow(agent, all, trace_id@, i + 1);
            }
            match self.convert_span(&spans[i], trace_id, &mut seq) {
                Some(event) => {
                    proof {
                        assert(views(before.push(event)) =~= views(before).push(event@));
                    }
                    events.push(event);
                },
                None => {},
            }
            i = i + 1;
        }
        proof {
            assert(all.take(all.len() as int) =~= all);
        }
        events
    }

    /// The events of some spans.
    pub fn convert(&self, spans: Vec<OtlpSpan>) -> (r: Vec<BehavioralEvent>)
        requires
            countable(views(spans@)),
        ensures
            views(r@) == events_of(self.default_agent_id@, views(spans@)),
    {
        let ghost agent = self.default_agent_id@;
        let ghost all = views(spans@);
        let traces = group_by_trace(spans);
        let ghost groups = views(traces@);
        let mut all_events: Vec<BehavioralEvent> = Vec::new();
        proof {
            assert(views(all_events@) =~= traces_events(agent, groups.take(0)));
        }
        for trace in it: traces
            invariant
                it.seq() == traces@,
                groups == views(traces@),
                groups == by_trace(all),
                agent == self.default_agent_id@,
                countable(all),
                views(all_events@) == traces_events(agent, groups.take(it.index())),
        {
            let ghost k = it.index();
            proof {
                assert(groups.take(k + 1).drop_last() =~= groups.take(k));
                assert(groups.take(k + 1).last() == trace@);
                assert(groups[k] == trace@);
                lemma_trace_countable(agent, all, k);
            }
            let ghost before = all_events@;
            let in_order = sort(trace.spans);
            let mut events = self.convert_trace(&in_order, trace.trace_id.as_str());
            let ghost more = events@;
            all_events.append(&mut events);
            proof {
                assert(views(before + more) =~= views(before) + views(more));
            }
        }
        proof {
            assert(groups.take(groups.len() as int) =~= groups);
        }
        sort(all_events)
    }

    /// Parses an export request.
    pub fn parse(&self, input: &str) -> (r: Result<Vec<BehavioralEvent>, ReadError>)
        requires
            match spans_in(input@) {
                Some(spans) => countable(spans),
                None => true,
            },
        ensures
            match spans_in(input@) {
                Some(spans) => match r {
                    Ok(events) => views(events@) == events_of(self.default_agent_id@, spans),
                    Err(_) => false,
                },
                None => r == Err::<Vec<BehavioralEvent>, ReadError>(read_error(input@)),
            },
    {
        match read_request(input) {
            Ok(spans) => Ok(self.convert(spans)),
            Err(e) => Err(e),
        }
    }

    /// Parses an export request where its tokens and events can be counted; none where
    /// they cannot.
    pub fn try_parse(&self, input: &str) -> (r: Option<Result<Vec<BehavioralEvent>, ReadError>>)
        ensures
            match r {
                Some(result) => match spans_in(input@) {
                    Some(spans) => countable(spans) && match result {
                        Ok(events) => views(events@) == events_of(self.default_agent_id@, spans),
                        Err(_) => false,
                    },
                    None => result == Err::<Vec<BehavioralEvent>, ReadError>(read_error(input@)),
                },
                None => match spans_in(input@) {
                    Some(spans) => !countable(spans),
                    None => false,
                },
            },
    {
        match read_request(input) {
            Ok(spans) => if self.can_count(&spans) {
                Some(self.parse(input))
            } else {
                None
            },
            Err(_) => Some(self.parse(input)),
        }
    }

    /// How many spans of a trace show something.
    fn count_showing(&self, spans: &Vec<OtlpSpan>, trace_id: &str) -> (r: usize)
        ensures
            r == showing(views(spans@), trace_id@),
    {
        let ghost all = views(spans@);
        let mut count: usize = 0;
        let mut i: usize = 0;
        while i < spans.len()
            invariant
                i <= spans.len(),
                all == views(spans@),
                count <= i,
                count == showing(all.take(i as int), trace_id@),
            decreases spans.len() - i,
        {
            let span = &spans[i];
            proof {
                assert(all.take(i + 1).drop_last() =~= all.take(i as int));
                assert(all.take(i + 1).last() == span@);
            }
            if same_text(span.trace_id.as_str(), trace_id) {
                let attrs = attributes_map(&span.attributes);
                if let Some(_) = self.resolve_event_type(&attrs, span) {
                    count = count + 1;
                }
            }
            i = i + 1;
        }
        proof {
            assert(all.take(all.len() as int) =~= all);
        }
        count
    }

    /// Whether the tokens of every span and the events of every trace can be counted.
    pub fn can_count(&self, spans: &Vec<OtlpSpan>) -> (r: bool)
        ensures
            r == countable(views(spans@)),
    {
        let ghost all = views(spans@);
        let mut i: usize = 0;
        while i < spans.len()
            invariant
                i <= spans.len(),
                all == views(spans@),
                forall|j: int|
                    0 <= j < i && span_shows(#[trigger] all[j]) is Some ==> token_sum(
                        by_name(all[j].attributes),
                    ) <= u64::MAX,
                spans.len() > u32::MAX ==> forall|j: int|
                    0 <= j < i ==> showing(all, (#[trigger] all[j]).trace_id) <= u32::MAX,
            decreases spans.len() - i,
        {
            let span = &spans[i];
            proof {
                assert(all[i as int] == span@);
            }
            let attrs = attributes_map(&span.attributes);
            if let Some(_) = self.resolve_event_type(&attrs, span) {
                let input_tokens: u64 = match get_number(&attrs, "gen_ai.usage.input_tokens") {
                    Some(n) => n,
                    None => 0,
                };
                let output_tokens: u64 = match get_number(&attrs, "gen_ai.usage.output_tokens") {
                    Some(n) => n,
                    None => 0,
                };
                if output_tokens > u64::MAX - input_tokens {
                    proof {
                        assert(span_shows(all[i as int]) is Some);
                    }
                    return false;
                }
            }
            if spans.len() > u32::MAX as usize && self.count_showing(spans, span.trace_id.as_str())
                > u32::MAX as usize {
                return false;
            }
            i = i + 1;
        }
        proof {
            assert forall|trace_id: Seq<char>| #[trigger] showing(all, trace_id) <= u32::MAX by {
                lemma_showing(all, trace_id);
                if showing(all, trace_id) > 0 {
                    let j = choose|j: int|
                        0 <= j < all.len() && (#[trigger] all[j]).trace_id == trace_id;
                    assert(all[j].trace_id == trace_id);
                }
            }
        }
        true
    }
}

proof fn lemma_showing(spans: Seq<SpanView>, trace_id: Seq<char>)
    ensures
        showing(spans, trace_id) <= spans.len(),
        showing(spans, trace_id) > 0 ==> exists|j: int|
            0 <= j < spans.len() && (#[trigger] spans[j]).trace_id == trace_id,
    decreases spans.len(),
{
    if spans.len() > 0 {
        let short = spans.drop_last();
        lemma_showing(short, trace_id);
        if showing(short, trace_id) > 0 {
            let j = choose|j: int|
                0 <= j < short.len() && (#[trigger] short[j]).trace_id == trace_id;
            assert(spans[j].trace_id == trace_id);
        }
        if spans.last().trace_id == trace_id {
            assert(spans[spans.len() - 1].trace_id == trace_id);
        }
    }
}

/// How many spans of some traces show something.
spec fn bearing_all(traces: Seq<TraceView>) -> nat
    decreases traces.len(),
{
    if traces.len() == 0 {
        0
    } else {
        bearing_all(traces.drop_last()) + bearing(traces.last().spans)
    }
}

proof fn lemma_bearing_with_span(traces: Seq<TraceView>, span: SpanView)
    requires
        distinct(traces),
    ensures
        bearing_all(with_span(traces, span)) == bearing_all(traces) + bearing(seq![span]),
    decreases traces.len(),
{
    let next = with_span(traces, span);
    reveal_with_fuel(bearing, 2);
    assert(seq![span].drop_last() =~= Seq::<SpanView>::empty());
    if !has_trace(traces, span.trace_id) {
        assert(next.drop_last() =~= traces);
    } else {
        let short = traces.drop_last();
        let last = traces.last();
        assert forall|j: int, k: int| 0 <= j < k < short.len() implies (
        #[trigger] short[j]).trace_id != (#[trigger] short[k]).trace_id by {
            assert(traces[j].trace_id != traces[k].trace_id);
        }
        if last.trace_id == span.trace_id {
            assert forall|j: int| 0 <= j < short.len() implies next[j] == short[j] by {
                assert(traces[j].trace_id != traces[traces.len() - 1].trace_id);
            }
            assert(next.drop_last() =~= short);
            assert(last.spans.push(span).drop_last() =~= last.spans);
        } else {
            let k = choose|k: int|
                0 <= k < traces.len() && (#[trigger] traces[k]).trace_id == span.trace_id;
            assert(short[k].trace_id == span.trace_id);
            assert(has_trace(short, span.trace_id));
            lemma_bearing_with_span(short, span);
            assert(next.drop_last() =~= with_span(short, span));
            assert(next.last() == last);
        }
    }
}

proof fn lemma_bearing_by_trace(spans: Seq<SpanView>)
    ensures
        bearing_all(by_trace(spans)) == bearing(spans),
    decreases spans.len(),
{
    if spans.len() > 0 {
        let short = spans.drop_last();
        lemma_bearing_by_trace(short);
        law_traces_part_spans(short);
        lemma_bearing_with_span(by_trace(short), spans.last());
        reveal_with_fuel(bearing, 2);
        assert(seq![spans.last()].drop_last() =~= Seq::<SpanView>::empty());
    }
}

proof fn lemma_events_of_traces(default_agent: Seq<char>, traces: Seq<TraceView>)
    ensures
        traces_events(default_agent, traces).len() == bearing_all(traces),
    decreases traces.len(),
{
    if traces.len() > 0 {
        let last = traces.last();
        let le = rank_order::<OtlpSpan>();
        lemma_events_of_traces(default_agent, traces.drop_last());
        lemma_bearing_sorted(last.spans, le);
        lemma_event_per_bearing(default_agent, sorted_by(last.spans, le), last.trace_id);
    }
}

/// A trace makes as many events as spans of it show something.
pub proof fn law_trace_event_per_span(
    default_agent: Seq<char>,
    spans: Seq<SpanView>,
    trace_id: Seq<char>,
)
    ensures
        trace_events(
            default_agent,
            sorted_by(spans_of(spans, trace_id), rank_order::<OtlpSpan>()),
            trace_id,
        ).len() == showing(spans, trace_id),
{
    let part = spans_of(spans, trace_id);
    let le = rank_order::<OtlpSpan>();
    lemma_bearing_of_trace(spans, trace_id);
    lemma_bearing_sorted(part, le);
    lemma_event_per_bearing(default_agent, sorted_by(part, le), trace_id);
}

/// A request makes one event for each span that shows something, and no other.
pub proof fn law_event_per_span(default_agent: Seq<char>, spans: Seq<SpanView>)
    ensures
        events_of(default_agent, spans).len() == bearing(spans),
{
    let all = traces_events(default_agent, by_trace(spans));
    lemma_bearing_by_trace(spans);
    lemma_events_of_traces(default_agent, by_trace(spans));
    assert(total_preorder(rank_order::<BehavioralEvent>()));
    law_sort_is_stable(all, rank_order::<BehavioralEvent>());
}

} // verus!
