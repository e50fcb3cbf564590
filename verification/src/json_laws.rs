//! How objects, arrays and records are read from JSON texts.

use vstd::prelude::*;

use crate::json::{
    array_in, fields_in, is_absent, items_after, json_at, json_escaped, json_escaped_all,
    json_front, json_quoted, json_space, members_after, object_in, optional_bool_in,
    optional_number_in, optional_string_in, read_each, read_error, string_at, string_in,
    string_or_empty_in, times, unspaced, value_of, NodeView, ReadError, ShapeView,
};

verus! {

/// The character is white space in JSON.
pub open spec fn is_space(c: char) -> bool {
    c == ' ' || c == '\t' || c == '\n' || c == '\r'
}

/// White space at the start of a text is taken off, all of it and nothing else.
pub proof fn law_space_is_taken_off(text: Seq<char>)
    ensures
        unspaced(text).len() <= text.len(),
        text.skip(text.len() - unspaced(text).len()) == unspaced(text),
        forall|i: int|
            0 <= i < text.len() - unspaced(text).len() ==> is_space(#[trigger] text[i]),
        unspaced(text).len() > 0 ==> !is_space(unspaced(text)[0]),
    decreases text.len(),
{
    if text.len() > 0 && json_space(text[0]) {
        let rest = text.skip(1);
        law_space_is_taken_off(rest);
        let n = text.len() - unspaced(text).len();
        assert(text.skip(n) =~= rest.skip(n - 1));
        assert forall|i: int| 0 <= i < n implies is_space(#[trigger] text[i]) by {
            if i > 0 {
                assert(rest[i - 1] == text[i]);
            }
        }
    } else {
        assert(text.skip(0) =~= text);
    }
}

/// The text of a value that is the string `s`.
pub open spec fn is_text(value: Seq<char>, s: Seq<char>) -> bool {
    json_at(value, ""@) matches Some(node) && node.shape == ShapeView::Text(s)
}

/// The text of a value that is null.
pub open spec fn is_null(value: Seq<char>) -> bool {
    json_at(value, ""@) matches Some(node) && node.shape == ShapeView::Null
}

// ---------------------------------------------------------------------------
// Objects and arrays
// ---------------------------------------------------------------------------

/// From `text` on the members of an object are spelled out, each a name, a colon and a
/// value, with commas between them, and behind them the end of the object and `tail`.
pub open spec fn spells_members(
    text: Seq<char>,
    members: Seq<(Seq<char>, Seq<char>)>,
    tail: Seq<char>,
) -> bool
    decreases members.len(),
{
    let start = unspaced(text);
    &&& members.len() > 0
    &&& start.len() > 0
    &&& start[0] == '"'
    &&& json_front(start) is Some
    &&& is_text((json_front(start)->0).0, members[0].0)
    &&& {
        let colon = unspaced((json_front(start)->0).1);
        &&& colon.len() > 0
        &&& colon[0] == ':'
        &&& json_front(colon.skip(1)) is Some
        &&& (json_front(colon.skip(1))->0).0 == members[0].1
        &&& {
            let end = unspaced((json_front(colon.skip(1))->0).1);
            &&& 0 < end.len()
            &&& members.len() == 1 ==> end[0] == '}' && end.skip(1) == tail
            &&& members.len() > 1 ==> end[0] == ',' && end.len() <= text.len() && spells_members(
                end.skip(1),
                members.skip(1),
                tail,
            )
        }
    }
}

proof fn lemma_members(
    seen: Seq<(Seq<char>, Seq<char>)>,
    text: Seq<char>,
    members: Seq<(Seq<char>, Seq<char>)>,
    tail: Seq<char>,
)
    requires
        spells_members(text, members, tail),
    ensures
        members_after(seen, text) == Some((seen + members, tail)),
    decreases members.len(),
{
    let start = unspaced(text);
    let colon = unspaced((json_front(start)->0).1);
    let end = unspaced((json_front(colon.skip(1))->0).1);
    let all = seen.push(members[0]);
    assert(all == seen.push((members[0].0, members[0].1)));
    if members.len() == 1 {
        assert(seen + members =~= all);
    } else {
        lemma_members(all, end.skip(1), members.skip(1), tail);
        assert(all + members.skip(1) =~= seen + members);
    }
}

/// An object that is spelled out is read with all its members, in their order, however many
/// they are, and white space around it makes no difference.
pub proof fn law_objects_are_read_whole(
    text: Seq<char>,
    members: Seq<(Seq<char>, Seq<char>)>,
    tail: Seq<char>,
)
    requires
        unspaced(text).len() > 0,
        unspaced(text)[0] == '{',
        spells_members(unspaced(text).skip(1), members, tail),
        forall|i: int| 0 <= i < tail.len() ==> is_space(#[trigger] tail[i]),
    ensures
        object_in(text) == Some(members),
        array_in(text) is None,
{
    let inside = unspaced(text).skip(1);
    lemma_members(Seq::empty(), inside, members, tail);
    assert(Seq::<(Seq<char>, Seq<char>)>::empty() + members =~= members);
    assert(unspaced(inside)[0] == '"');
    lemma_only_space(tail);
}

proof fn lemma_only_space(text: Seq<char>)
    requires
        forall|i: int| 0 <= i < text.len() ==> is_space(#[trigger] text[i]),
    ensures
        unspaced(text).len() == 0,
{
    law_space_is_taken_off(text);
    let n = text.len() - unspaced(text).len();
    if unspaced(text).len() > 0 {
        assert(text.skip(n)[0] == text[n]);
        assert(is_space(text[n]));
    }
}

/// From `text` on the items of an array are spelled out, with commas between them, and
/// behind them the end of the array and `tail`.
pub open spec fn spells_items(text: Seq<char>, items: Seq<Seq<char>>, tail: Seq<char>) -> bool
    decreases items.len(),
{
    &&& items.len() > 0
    &&& json_front(text) is Some
    &&& (json_front(text)->0).0 == items[0]
    &&& {
        let end = unspaced((json_front(text)->0).1);
        &&& 0 < end.len()
        &&& items.len() == 1 ==> end[0] == ']' && end.skip(1) == tail
        &&& items.len() > 1 ==> end[0] == ',' && end.len() <= text.len() && spells_items(
            end.skip(1),
            items.skip(1),
            tail,
        )
    }
}

proof fn lemma_items(
    seen: Seq<Seq<char>>,
    text: Seq<char>,
    items: Seq<Seq<char>>,
    tail: Seq<char>,
)
    requires
        spells_items(text, items, tail),
    ensures
        items_after(seen, text) == Some((seen + items, tail)),
    decreases items.len(),
{
    let end = unspaced((json_front(text)->0).1);
    let all = seen.push(items[0]);
    if items.len() == 1 {
        assert(seen + items =~= all);
    } else {
        lemma_items(all, end.skip(1), items.skip(1), tail);
        assert(all + items.skip(1) =~= seen + items);
    }
}

/// An array that is spelled out is read with all its items, in their order, however many
/// they are, and white space around it makes no difference.
pub proof fn law_arrays_are_read_whole(text: Seq<char>, items: Seq<Seq<char>>, tail: Seq<char>)
    requires
        unspaced(text).len() > 0,
        unspaced(text)[0] == '[',
        unspaced(unspaced(text).skip(1)).len() > 0 ==> unspaced(unspaced(text).skip(1))[0] != ']',
        spells_items(unspaced(text).skip(1), items, tail),
        forall|i: int| 0 <= i < tail.len() ==> is_space(#[trigger] tail[i]),
    ensures
        array_in(text) == Some(items),
        object_in(text) is None,
{
    let inside = unspaced(text).skip(1);
    lemma_items(Seq::empty(), inside, items, tail);
    assert(Seq::<Seq<char>>::empty() + items =~= items);
    lemma_only_space(tail);
}

/// Whatever does not start as an object is none, and whatever does not start as an array is
/// none; nothing is both.
pub proof fn law_brackets_decide(text: Seq<char>)
    ensures
        object_in(text) is Some ==> unspaced(text).len() > 0 && unspaced(text)[0] == '{',
        array_in(text) is Some ==> unspaced(text).len() > 0 && unspaced(text)[0] == '[',
        object_in(text) is None || array_in(text) is None,
{
}

/// The error tells whether the text is JSON at all: one value with nothing but white space
/// behind it.
pub proof fn law_errors_are_told_apart(text: Seq<char>)
    ensures
        json_front(text) is None ==> read_error(text) == ReadError::NotJson,
        json_front(text) is Some && (forall|i: int|
            0 <= i < (json_front(text)->0).1.len() ==> is_space(#[trigger] (json_front(text)->0).1[i]))
            ==> read_error(text) == ReadError::Unexpected,
        forall|i: int|
            json_front(text) is Some && 0 <= i < (json_front(text)->0).1.len() && !is_space(
                #[trigger] (json_front(text)->0).1[i],
            ) ==> read_error(text) == ReadError::NotJson,
{
    if json_front(text) is Some {
        let rest = (json_front(text)->0).1;
        law_space_is_taken_off(rest);
        if forall|i: int| 0 <= i < rest.len() ==> is_space(#[trigger] rest[i]) {
            lemma_only_space(rest);
        }
    }
}

// ---------------------------------------------------------------------------
// Records
// ---------------------------------------------------------------------------

/// The one member of the name has the value that `field` holds, or there is none and
/// `field` holds none.
pub open spec fn holds_field(
    members: Seq<(Seq<char>, Seq<char>)>,
    name: Seq<char>,
    field: Option<Seq<char>>,
) -> bool {
    match field {
        Some(value) => exists|i: int|
            {
                &&& 0 <= i < members.len()
                &&& #[trigger] members[i] == (name, value)
                &&& forall|j: int|
                    0 <= j < members.len() && j != i ==> (#[trigger] members[j]).0 != name
            },
        None => forall|j: int| 0 <= j < members.len() ==> (#[trigger] members[j]).0 != name,
    }
}

/// The text writes a record with these fields: an object that has each of them once or not
/// at all, or an array that has them one behind the other, the last ones left out where that
/// is allowed.
pub open spec fn writes_record(
    text: Seq<char>,
    names: Seq<Seq<char>>,
    least: nat,
    fields: Seq<Option<Seq<char>>>,
) -> bool {
    &&& fields.len() == names.len()
    &&& match (object_in(text), array_in(text)) {
        (Some(members), _) => forall|k: int|
            0 <= k < names.len() ==> #[trigger] holds_field(members, names[k], fields[k]),
        (None, Some(items)) => {
            &&& least <= items.len() <= names.len()
            &&& forall|k: int| 0 <= k < items.len() ==> #[trigger] fields[k] == Some(items[k])
            &&& forall|k: int| items.len() <= k < names.len() ==> #[trigger] fields[k] is None
        },
        _ => false,
    }
}

proof fn lemma_missing(members: Seq<(Seq<char>, Seq<char>)>, name: Seq<char>)
    requires
        forall|j: int| 0 <= j < members.len() ==> (#[trigger] members[j]).0 != name,
    ensures
        times(members, name) == 0,
        value_of(members, name) is None,
    decreases members.len(),
{
    if members.len() > 0 {
        let short = members.drop_last();
        assert forall|j: int| 0 <= j < short.len() implies (#[trigger] short[j]).0 != name by {
            assert(members[j] == short[j]);
        }
        lemma_missing(short, name);
        assert(members[members.len() - 1].0 != name);
    }
}

proof fn lemma_only(members: Seq<(Seq<char>, Seq<char>)>, name: Seq<char>, i: int)
    requires
        0 <= i < members.len(),
        members[i].0 == name,
        forall|j: int| 0 <= j < members.len() && j != i ==> (#[trigger] members[j]).0 != name,
    ensures
        times(members, name) == 1,
        value_of(members, name) == Some(members[i].1),
    decreases members.len(),
{
    let short = members.drop_last();
    if i == members.len() - 1 {
        assert forall|j: int| 0 <= j < short.len() implies (#[trigger] short[j]).0 != name by {
            assert(members[j] == short[j]);
        }
        lemma_missing(short, name);
    } else {
        assert forall|j: int| 0 <= j < short.len() && j != i implies (#[trigger] short[j]).0
            != name by {
            assert(members[j] == short[j]);
        }
        assert(short[i] == members[i]);
        lemma_only(short, name, i);
        assert(members[members.len() - 1].0 != name);
    }
}

proof fn lemma_times_none(members: Seq<(Seq<char>, Seq<char>)>, name: Seq<char>)
    requires
        times(members, name) == 0,
    ensures
        forall|j: int| 0 <= j < members.len() ==> (#[trigger] members[j]).0 != name,
    decreases members.len(),
{
    if members.len() > 0 {
        let short = members.drop_last();
        lemma_times_none(short, name);
        assert forall|j: int| 0 <= j < members.len() implies (#[trigger] members[j]).0 != name by {
            if j < short.len() {
                assert(short[j] == members[j]);
            }
        }
    }
}

proof fn lemma_times_once(members: Seq<(Seq<char>, Seq<char>)>, name: Seq<char>)
    requires
        times(members, name) == 1,
    ensures
        value_of(members, name) is Some,
        holds_field(members, name, value_of(members, name)),
    decreases members.len(),
{
    let short = members.drop_last();
    let last = members.len() - 1;
    if members.last().0 == name {
        lemma_times_none(short, name);
        assert(members[last] == (name, members.last().1));
        assert forall|j: int| 0 <= j < members.len() && j != last implies (
        #[trigger] members[j]).0 != name by {
            assert(short[j] == members[j]);
        }
    } else {
        lemma_times_once(short, name);
        let value = value_of(members, name)->0;
        let i = choose|i: int|
            {
                &&& 0 <= i < short.len()
                &&& #[trigger] short[i] == (name, value)
                &&& forall|j: int| 0 <= j < short.len() && j != i ==> (#[trigger] short[j]).0 != name
            };
        assert(members[i] == (name, value));
        assert forall|j: int| 0 <= j < members.len() && j != i implies (#[trigger] members[j]).0
            != name by {
            if j < last {
                assert(short[j] == members[j]);
            }
        }
    }
}

/// A record is read exactly where it is written, and its fields are those that were
/// written: of an object the one member of each name, whatever other members it has, of an
/// array the item at each place.
pub proof fn law_records_are_read(
    text: Seq<char>,
    names: Seq<Seq<char>>,
    least: nat,
    fields: Seq<Option<Seq<char>>>,
)
    ensures
        writes_record(text, names, least, fields) <==> fields_in(text, names, least) == Some(fields),
{
    if writes_record(text, names, least, fields) {
        match object_in(text) {
            Some(members) => {
                assert forall|k: int| 0 <= k < names.len() implies times(
                    members,
                    #[trigger] names[k],
                ) <= 1 && value_of(members, names[k]) == fields[k] by {
                    assert(holds_field(members, names[k], fields[k]));
                    match fields[k] {
                        Some(value) => {
                            let i = choose|i: int|
                                {
                                    &&& 0 <= i < members.len()
                                    &&& #[trigger] members[i] == (names[k], value)
                                    &&& forall|j: int|
                                        0 <= j < members.len() && j != i ==> (
                                        #[trigger] members[j]).0 != names[k]
                                };
                            lemma_only(members, names[k], i);
                        },
                        None => {
                            lemma_missing(members, names[k]);
                        },
                    }
                }
                assert(fields_in(text, names, least)->0 =~= fields);
            },
            None => {
                assert(fields_in(text, names, least)->0 =~= fields);
            },
        }
    }
    if fields_in(text, names, least) == Some(fields) {
        match object_in(text) {
            Some(members) => {
                assert forall|k: int| 0 <= k < names.len() implies #[trigger] holds_field(
                    members,
                    names[k],
                    fields[k],
                ) by {
                    assert(times(members, names[k]) <= 1);
                    assert(fields[k] == value_of(members, names[k]));
                    if times(members, names[k]) == 0 {
                        lemma_times_none(members, names[k]);
                        lemma_missing(members, names[k]);
                    } else {
                        lemma_times_once(members, names[k]);
                    }
                }
            },
            None => {},
        }
    }
}

/// The text writes a record of the names.
pub open spec fn is_record(text: Seq<char>, names: Seq<Seq<char>>, least: nat) -> bool {
    exists|fields: Seq<Option<Seq<char>>>| writes_record(text, names, least, fields)
}

/// What writes no record is not read as one.
pub proof fn law_other_texts_are_no_records(text: Seq<char>, names: Seq<Seq<char>>, least: nat)
    ensures
        fields_in(text, names, least) is Some <==> is_record(text, names, least),
{
    if fields_in(text, names, least) is Some {
        law_records_are_read(text, names, least, fields_in(text, names, least)->0);
    }
    if is_record(text, names, least) {
        let fields = choose|fields: Seq<Option<Seq<char>>>|
            writes_record(text, names, least, fields);
        law_records_are_read(text, names, least, fields);
    }
}

// ---------------------------------------------------------------------------
// Values
// ---------------------------------------------------------------------------

/// A field that holds a string is read as that string; one that is left out or null is
/// empty where that is allowed; one that holds anything else is an error.
pub proof fn law_strings_are_read(value: Seq<char>, s: Seq<char>)
    ensures
        is_text(value, s) ==> {
            &&& string_in(Some(value)) == Some(s)
            &&& optional_string_in(Some(value)) == Some(Some(s))
            &&& string_or_empty_in(Some(value)) == Some(s)
            &&& !is_absent(Some(value))
        },
        is_null(value) ==> {
            &&& string_in(Some(value)) is None
            &&& optional_string_in(Some(value)) == Some(None::<Seq<char>>)
            &&& string_or_empty_in(Some(value)) is None
            &&& is_absent(Some(value))
        },
        (forall|t: Seq<char>| !#[trigger] is_text(value, t)) && !is_null(value) ==> {
            &&& string_in(Some(value)) is None
            &&& optional_string_in(Some(value)) is None
            &&& string_or_empty_in(Some(value)) is None
            &&& !is_absent(Some(value))
        },
        string_in(None) is None,
        optional_string_in(None) == Some(None::<Seq<char>>),
        string_or_empty_in(None) == Some(Seq::<char>::empty()),
        is_absent(None),
{
    match json_at(value, ""@) {
        Some(node) => match node.shape {
            ShapeView::Text(t) => {
                assert(is_text(value, t));
            },
            _ => {},
        },
        None => {},
    }
}

/// A field that holds a whole number, or a truth value, is read as what it holds; left out
/// or null it is none; anything else is an error.
pub proof fn law_numbers_and_truths_are_read(value: Seq<char>)
    ensures
        match json_at(value, ""@) {
            Some(NodeView { text: _, shape: ShapeView::Number(Some(n)) }) => {
                &&& optional_number_in(Some(value)) == Some(Some(n))
                &&& optional_bool_in(Some(value)) is None
            },
            Some(NodeView { text: _, shape: ShapeView::Bool(b) }) => {
                &&& optional_number_in(Some(value)) is None
                &&& optional_bool_in(Some(value)) == Some(Some(b))
            },
            Some(NodeView { text: _, shape: ShapeView::Null }) => {
                &&& optional_number_in(Some(value)) == Some(None::<u64>)
                &&& optional_bool_in(Some(value)) == Some(None::<bool>)
            },
            _ => {
                &&& optional_number_in(Some(value)) is None
                &&& optional_bool_in(Some(value)) is None
            },
        },
        optional_number_in(None) == Some(None::<u64>),
        optional_bool_in(None) == Some(None::<bool>),
{
}

/// Of several texts one behind the other everything is read, or nothing where one of them
/// cannot be read.
pub proof fn law_lists_are_read_whole<A>(
    a: Seq<Seq<char>>,
    b: Seq<Seq<char>>,
    read: spec_fn(Seq<char>) -> Option<Seq<A>>,
    text: Seq<char>,
)
    ensures
        read_each(Seq::empty(), read) == Some(Seq::<A>::empty()),
        read_each(seq![text], read) == read(text),
        read_each(a, read) is Some && read_each(b, read) is Some ==> read_each(a + b, read) == Some(
            read_each(a, read)->0 + read_each(b, read)->0,
        ),
        read_each(a, read) is None || read_each(b, read) is None ==> read_each(a + b, read) is None,
    decreases b.len(),
{
    assert(seq![text].drop_last() =~= Seq::<Seq<char>>::empty());
    assert(read_each(seq![text].drop_last(), read) == Some(Seq::<A>::empty()));
    if read(text) is Some {
        assert(Seq::<A>::empty() + read(text)->0 =~= read(text)->0);
    }
    if b.len() == 0 {
        assert(a + b =~= a);
        if read_each(a, read) is Some {
            assert(read_each(a, read)->0 + Seq::<A>::empty() =~= read_each(a, read)->0);
        }
    } else {
        law_lists_are_read_whole(a, b.drop_last(), read, text);
        assert((a + b).drop_last() =~= a + b.drop_last());
        assert((a + b).last() == b.last());
        if read_each(a + b, read) is Some && read_each(b, read) is Some {
            assert(read_each(a + b, read)->0 =~= read_each(a, read)->0 + read_each(b, read)->0);
        }
    }
}

// ---------------------------------------------------------------------------
// Writing
// ---------------------------------------------------------------------------

/// A quoted text stands between quotes; two texts that are quoted one behind the other are
/// what is quoted of each.
pub proof fn law_quoting(a: Seq<char>, b: Seq<char>, c: char)
    ensures
        json_quoted(a).len() >= 2,
        json_quoted(a)[0] == '"',
        json_quoted(a).last() == '"',
        json_escaped_all(a + b) == json_escaped_all(a) + json_escaped_all(b),
        json_escaped_all(seq![c]) == json_escaped(c),
        ' ' <= c && c != '"' && c != '\\' ==> json_escaped(c) == seq![c],
        c == '"' || c == '\\' ==> json_escaped(c) == seq!['\\', c],
        ' ' > c ==> json_escaped(c).len() >= 2 && json_escaped(c)[0] == '\\',
    decreases b.len(),
{
    assert(seq![c].drop_last() =~= Seq::<char>::empty());
    assert(json_escaped_all(seq![c].drop_last()) =~= Seq::<char>::empty());
    assert(Seq::<char>::empty() + json_escaped(c) =~= json_escaped(c));
    if b.len() == 0 {
        assert(a + b =~= a);
        assert(json_escaped_all(a) + json_escaped_all(b) =~= json_escaped_all(a));
    } else {
        law_quoting(a, b.drop_last(), c);
        assert((a + b).drop_last() =~= a + b.drop_last());
        assert((a + b).last() == b.last());
        assert(json_escaped_all(a + b) =~= json_escaped_all(a) + json_escaped_all(b));
    }
}

// ---------------------------------------------------------------------------
// What is read was written
// ---------------------------------------------------------------------------

proof fn lemma_members_back(seen: Seq<(Seq<char>, Seq<char>)>, text: Seq<char>)
    requires
        members_after(seen, text) is Some,
    ensures
        ({
            let read = members_after(seen, text)->0;
            &&& read.0.len() > seen.len()
            &&& read.0.take(seen.len() as int) == seen
            &&& spells_members(text, read.0.skip(seen.len() as int), read.1)
        }),
    decreases text.len(),
{
    let start = unspaced(text);
    let name = json_front(start)->0;
    let key = string_at(name.0, ""@)->0;
    let colon = unspaced(name.1);
    let value = json_front(colon.skip(1))->0;
    let all = seen.push((key, value.0));
    let end = unspaced(value.1);
    let read = members_after(seen, text)->0;
    law_space_is_taken_off(text);
    if end[0] == '}' {
        assert(read == (all, end.skip(1)));
        assert(all.take(seen.len() as int) =~= seen);
        assert(all.skip(seen.len() as int) =~= seq![(key, value.0)]);
    } else {
        lemma_members_back(all, end.skip(1));
        let more = read.0.skip(all.len() as int);
        assert(read.0.take(all.len() as int) == all);
        assert(read.0.take(seen.len() as int) =~= read.0.take(all.len() as int).take(
            seen.len() as int,
        ));
        assert(all.take(seen.len() as int) =~= seen);
        let members = read.0.skip(seen.len() as int);
        assert(members.skip(1) =~= more);
        assert(members[0] == read.0.take(all.len() as int)[seen.len() as int]);
        assert(members[0] == (key, value.0));
    }
}

proof fn lemma_items_back(seen: Seq<Seq<char>>, text: Seq<char>)
    requires
        items_after(seen, text) is Some,
    ensures
        ({
            let read = items_after(seen, text)->0;
            &&& read.0.len() > seen.len()
            &&& read.0.take(seen.len() as int) == seen
            &&& spells_items(text, read.0.skip(seen.len() as int), read.1)
        }),
    decreases text.len(),
{
    let value = json_front(text)->0;
    let all = seen.push(value.0);
    let end = unspaced(value.1);
    let read = items_after(seen, text)->0;
    if end[0] == ']' {
        assert(read == (all, end.skip(1)));
        assert(all.take(seen.len() as int) =~= seen);
        assert(all.skip(seen.len() as int) =~= seq![value.0]);
    } else {
        lemma_items_back(all, end.skip(1));
        let more = read.0.skip(all.len() as int);
        assert(read.0.take(seen.len() as int) =~= read.0.take(all.len() as int).take(
            seen.len() as int,
        ));
        assert(all.take(seen.len() as int) =~= seen);
        let items = read.0.skip(seen.len() as int);
        assert(items.skip(1) =~= more);
        assert(items[0] == read.0.take(all.len() as int)[seen.len() as int]);
    }
}

/// The text is white space and nothing else.
pub open spec fn all_space(text: Seq<char>) -> bool {
    forall|i: int| 0 <= i < text.len() ==> is_space(#[trigger] text[i])
}

proof fn lemma_all_space(text: Seq<char>)
    requires
        unspaced(text).len() == 0,
    ensures
        all_space(text),
{
    law_space_is_taken_off(text);
}

/// The text from `inside` on ends an object or an array at once, and white space follows.
pub open spec fn ends_at_once(inside: Seq<char>, bracket: char) -> bool {
    &&& unspaced(inside).len() > 0
    &&& unspaced(inside)[0] == bracket
    &&& all_space(unspaced(inside).skip(1))
}

/// An object that is read was written: empty, or with its members spelled out, and with
/// nothing but white space behind it.
pub proof fn law_read_objects_were_written(text: Seq<char>)
    ensures
        object_in(text) is Some ==> {
            let inside = unspaced(text).skip(1);
            let members = object_in(text)->0;
            &&& unspaced(text).len() > 0
            &&& unspaced(text)[0] == '{'
            &&& members.len() == 0 ==> ends_at_once(inside, '}')
            &&& members.len() > 0 ==> exists|tail: Seq<char>| #[trigger]
                all_space(tail) && spells_members(inside, members, tail)
        },
        unspaced(text).len() > 0 && unspaced(text)[0] == '{' && ends_at_once(
            unspaced(text).skip(1),
            '}',
        ) ==> object_in(text) == Some(Seq::<(Seq<char>, Seq<char>)>::empty()),
{
    let inside = unspaced(text).skip(1);
    if object_in(text) is Some {
        let members = object_in(text)->0;
        if unspaced(inside).len() > 0 && unspaced(inside)[0] == '}' {
            lemma_all_space(unspaced(inside).skip(1));
        } else {
            lemma_members_back(Seq::empty(), inside);
            let read = members_after(Seq::empty(), inside)->0;
            assert(read.0.skip(0) =~= read.0);
            lemma_all_space(read.1);
            assert(all_space(read.1) && spells_members(inside, members, read.1));
        }
    }
    if ends_at_once(inside, '}') {
        lemma_only_space(unspaced(inside).skip(1));
    }
}

/// An array that is read was written: empty, or with its items spelled out, and with nothing
/// but white space behind it.
pub proof fn law_read_arrays_were_written(text: Seq<char>)
    ensures
        array_in(text) is Some ==> {
            let inside = unspaced(text).skip(1);
            let items = array_in(text)->0;
            &&& unspaced(text).len() > 0
            &&& unspaced(text)[0] == '['
            &&& items.len() == 0 ==> ends_at_once(inside, ']')
            &&& items.len() > 0 ==> exists|tail: Seq<char>| #[trigger]
                all_space(tail) && spells_items(inside, items, tail)
        },
        unspaced(text).len() > 0 && unspaced(text)[0] == '[' && ends_at_once(
            unspaced(text).skip(1),
            ']',
        ) ==> array_in(text) == Some(Seq::<Seq<char>>::empty()),
{
    let inside = unspaced(text).skip(1);
    if array_in(text) is Some {
        let items = array_in(text)->0;
        if unspaced(inside).len() > 0 && unspaced(inside)[0] == ']' {
            lemma_all_space(unspaced(inside).skip(1));
        } else {
            lemma_items_back(Seq::empty(), inside);
            let read = items_after(Seq::empty(), inside)->0;
            assert(read.0.skip(0) =~= read.0);
            lemma_all_space(read.1);
            assert(all_space(read.1) && spells_items(inside, items, read.1));
        }
    }
    if ends_at_once(inside, ']') {
        lemma_only_space(unspaced(inside).skip(1));
    }
}

} // verus!
