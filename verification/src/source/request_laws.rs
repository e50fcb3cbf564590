//! How an export request is read from its text.

use vstd::prelude::*;

use crate::json::{
    array_in, json_at, optional_string_in, read_each, string_in, string_or_empty_in, values_in,
    NodeView, Reader, ShapeView,
};
use crate::json_laws::{
    is_null, is_record, law_other_texts_are_no_records, law_records_are_read, writes_record,
};
use crate::source::otel::{
    any_value_in, code_in, number_in, spans_in, status_in, AnyView, AttributeReader, NumberView,
    ResourceSpansReader, ScopeSpansReader, SpanReader, SpanStatus,
};

verus! {

/// A field that holds a string or a whole number is read as what it holds; left out or null
/// it is none; anything else is an error.
pub proof fn law_number_or_text_is_read(value: Seq<char>)
    ensures
        number_in(None) == Some(None::<NumberView>),
        match json_at(value, ""@) {
            Some(NodeView { text: _, shape: ShapeView::Text(s) }) => number_in(Some(value)) == Some(
                Some(NumberView::String(s)),
            ),
            Some(NodeView { text: _, shape: ShapeView::Number(Some(n)) }) => number_in(Some(value))
                == Some(Some(NumberView::Number(n))),
            Some(NodeView { text: _, shape: ShapeView::Null }) => number_in(Some(value)) == Some(
                None::<NumberView>,
            ),
            _ => number_in(Some(value)) is None,
        },
{
}

/// The code of a status is the whole number that it holds, where 32 bits can hold it; left
/// out it is zero.
pub proof fn law_code_is_read(value: Seq<char>)
    ensures
        code_in(None) == Some(0u32),
        match json_at(value, ""@) {
            Some(NodeView { text: _, shape: ShapeView::Number(Some(n)) }) => {
                &&& n <= u32::MAX ==> code_in(Some(value)) is Some && code_in(Some(value))->0 == n
                &&& n > u32::MAX ==> code_in(Some(value)) is None
            },
            _ => code_in(Some(value)) is None,
        },
{
}

/// The status of a span has the code of its record.
pub proof fn law_status_is_read(text: Seq<char>, code: Option<Seq<char>>)
    requires
        !is_null(text),
        writes_record(text, seq!["code"@], 0, seq![code]),
    ensures
        status_in(None) == Some(None::<SpanStatus>),
        status_in(Some(text)) is Some <==> code_in(code) is Some,
        status_in(Some(text)) is Some ==> status_in(Some(text))->0 is Some && Some(
            (status_in(Some(text))->0)->0.code,
        ) == code_in(code),
{
    law_records_are_read(text, seq!["code"@], 0, seq![code]);
}

/// The value of an attribute has the text and the number of its record.
pub proof fn law_value_is_read(text: Seq<char>, string: Option<Seq<char>>, number: Option<Seq<char>>)
    requires
        !is_null(text),
        writes_record(text, seq!["stringValue"@, "intValue"@], 2, seq![string, number]),
    ensures
        any_value_in(None) == Some(None::<AnyView>),
        any_value_in(Some(text)) is Some <==> optional_string_in(string) is Some && number_in(
            number,
        ) is Some,
        any_value_in(Some(text)) is Some ==> {
            let value = (any_value_in(Some(text))->0)->0;
            &&& any_value_in(Some(text))->0 is Some
            &&& Some(value.string_value) == optional_string_in(string)
            &&& Some(value.int_value) == number_in(number)
        },
{
    law_records_are_read(text, seq!["stringValue"@, "intValue"@], 2, seq![string, number]);
}

/// An attribute is read exactly where it has a name that is a string and a value that can be
/// read, and it is one.
pub proof fn law_attribute_is_read(text: Seq<char>, key: Option<Seq<char>>, value: Option<Seq<char>>)
    requires
        writes_record(text, seq!["key"@, "value"@], 2, seq![key, value]),
    ensures
        ({
            let read = AttributeReader::values(text);
            &&& read is Some <==> string_in(key) is Some && any_value_in(value) is Some
            &&& read is Some ==> {
                &&& read->0.len() == 1
                &&& Some(read->0[0].key) == string_in(key)
                &&& Some(read->0[0].value) == any_value_in(value)
            }
        }),
{
    law_records_are_read(text, seq!["key"@, "value"@], 2, seq![key, value]);
}

/// A span is read exactly where each of its fields can be read, and then it has what they
/// hold.
pub proof fn law_span_is_read(
    text: Seq<char>,
    trace_id: Option<Seq<char>>,
    span_id: Option<Seq<char>>,
    name: Option<Seq<char>>,
    start: Option<Seq<char>>,
    end: Option<Seq<char>>,
    attributes: Option<Seq<char>>,
    status: Option<Seq<char>>,
)
    requires
        writes_record(
            text,
            seq![
                "traceId"@,
                "spanId"@,
                "name"@,
                "startTimeUnixNano"@,
                "endTimeUnixNano"@,
                "attributes"@,
                "status"@,
            ],
            0,
            seq![trace_id, span_id, name, start, end, attributes, status],
        ),
    ensures
        ({
            let read = SpanReader::values(text);
            &&& read is Some <==> string_or_empty_in(trace_id) is Some && string_or_empty_in(
                span_id,
            ) is Some && string_or_empty_in(name) is Some && number_in(start) is Some && number_in(
                end,
            ) is Some && values_in::<AttributeReader>(attributes) is Some && status_in(
                status,
            ) is Some
            &&& read is Some ==> {
                let span = read->0[0];
                &&& read->0.len() == 1
                &&& Some(span.trace_id) == string_or_empty_in(trace_id)
                &&& Some(span.span_id) == string_or_empty_in(span_id)
                &&& Some(span.name) == string_or_empty_in(name)
                &&& Some(span.start_time_unix_nano) == number_in(start)
                &&& Some(span.end_time_unix_nano) == number_in(end)
                &&& Some(span.attributes) == values_in::<AttributeReader>(attributes)
                &&& Some(span.status) == status_in(status)
            }
        }),
{
    let names = seq![
        "traceId"@,
        "spanId"@,
        "name"@,
        "startTimeUnixNano"@,
        "endTimeUnixNano"@,
        "attributes"@,
        "status"@,
    ];
    law_records_are_read(
        text,
        names,
        0,
        seq![trace_id, span_id, name, start, end, attributes, status],
    );
}

/// A list that is left out is empty; one that is there is read item by item, and where it
/// is no list, or one item cannot be read, it is an error.
pub proof fn law_lists_of_fields<R: Reader>(value: Seq<char>)
    ensures
        values_in::<R>(None) is Some && values_in::<R>(None)->0.len() == 0,
        array_in(value) is None ==> values_in::<R>(Some(value)) is None,
        array_in(value) is Some ==> values_in::<R>(Some(value)) == read_each(
            array_in(value)->0,
            |text: Seq<char>| R::values(text),
        ),
{
}

/// The spans of a request are those of its resources, the spans of a resource those of its
/// scopes, and the spans of a scope those that it lists.
pub proof fn law_requests_nest(text: Seq<char>, list: Option<Seq<char>>)
    ensures
        writes_record(text, seq!["resourceSpans"@], 0, seq![list]) ==> spans_in(text)
            == values_in::<ResourceSpansReader>(list),
        writes_record(text, seq!["scopeSpans"@], 0, seq![list]) ==> ResourceSpansReader::values(
            text,
        ) == values_in::<ScopeSpansReader>(list),
        writes_record(text, seq!["spans"@], 0, seq![list]) ==> ScopeSpansReader::values(text)
            == values_in::<SpanReader>(list),
{
    law_records_are_read(text, seq!["resourceSpans"@], 0, seq![list]);
    law_records_are_read(text, seq!["scopeSpans"@], 0, seq![list]);
    law_records_are_read(text, seq!["spans"@], 0, seq![list]);
}

/// What writes no such record is no span, attribute, value, status, scope, resource or
/// request; a value or a status that is null is none.
pub proof fn law_other_texts_are_no_requests(text: Seq<char>)
    ensures
        !is_record(text, seq!["resourceSpans"@], 0) ==> spans_in(text) is None,
        !is_record(text, seq!["scopeSpans"@], 0) ==> ResourceSpansReader::values(text) is None,
        !is_record(text, seq!["spans"@], 0) ==> ScopeSpansReader::values(text) is None,
        !is_record(text, seq!["key"@, "value"@], 2) ==> AttributeReader::values(text) is None,
        !is_null(text) && !is_record(text, seq!["stringValue"@, "intValue"@], 2) ==> any_value_in(
            Some(text),
        ) is None,
        !is_null(text) && !is_record(text, seq!["code"@], 0) ==> status_in(Some(text)) is None,
        is_null(text) ==> any_value_in(Some(text)) == Some(None::<AnyView>),
        is_null(text) ==> status_in(Some(text)) == Some(None::<SpanStatus>),
        !is_record(
            text,
            seq![
                "traceId"@,
                "spanId"@,
                "name"@,
                "startTimeUnixNano"@,
                "endTimeUnixNano"@,
                "attributes"@,
                "status"@,
            ],
            0,
        ) ==> SpanReader::values(text) is None,
{
    law_other_texts_are_no_records(text, seq!["resourceSpans"@], 0);
    law_other_texts_are_no_records(text, seq!["scopeSpans"@], 0);
    law_other_texts_are_no_records(text, seq!["spans"@], 0);
    law_other_texts_are_no_records(text, seq!["key"@, "value"@], 2);
    law_other_texts_are_no_records(text, seq!["stringValue"@, "intValue"@], 2);
    law_other_texts_are_no_records(text, seq!["code"@], 0);
    law_other_texts_are_no_records(
        text,
        seq![
            "traceId"@,
            "spanId"@,
            "name"@,
            "startTimeUnixNano"@,
            "endTimeUnixNano"@,
            "attributes"@,
            "status"@,
        ],
        0,
    );
}

} // verus!
