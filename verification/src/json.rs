//! JSON, read and written through `serde_json`.

use serde::de::IgnoredAny;
use serde_json::Value;
use vstd::prelude::*;
use vstd::string::*;

use crate::order::{opt_view, views};
use crate::text::{digit, same_text};

verus! {

/// A JSON value, one level deep.
#[derive(Debug)]
pub struct Node {
    /// The value in compact form.
    pub text: String,
    pub shape: Shape,
}

/// What kind of JSON value stands at a place, and what it holds.
#[derive(Debug)]
pub enum Shape {
    Null,
    Bool(bool),
    /// A number, as a `u64` where it is one.
    Number(Option<u64>),
    Text(String),
    /// An array, by its length.
    Array(usize),
    Object(Vec<Member>),
}

/// A member of an object.
#[derive(Debug)]
pub struct Member {
    pub key: String,
    /// The value, where it is a string.
    pub string: Option<String>,
}

/// The model of a `Node`.
pub struct NodeView {
    pub text: Seq<char>,
    pub shape: ShapeView,
}

/// The model of a `Shape`.
pub enum ShapeView {
    Null,
    Bool(bool),
    Number(Option<u64>),
    Text(Seq<char>),
    Array(nat),
    Object(Seq<MemberView>),
}

/// The model of a `Member`.
#[verifier::ext_equal]
pub struct MemberView {
    pub key: Seq<char>,
    pub string: Option<Seq<char>>,
}

impl View for Member {
    type V = MemberView;

    open spec fn view(&self) -> MemberView {
        MemberView { key: self.key@, string: opt_view(self.string) }
    }
}

impl View for Shape {
    type V = ShapeView;

    open spec fn view(&self) -> ShapeView {
        match *self {
            Shape::Null => ShapeView::Null,
            Shape::Bool(b) => ShapeView::Bool(b),
            Shape::Number(n) => ShapeView::Number(n),
            Shape::Text(s) => ShapeView::Text(s@),
            Shape::Array(n) => ShapeView::Array(n as nat),
            Shape::Object(members) => ShapeView::Object(views(members@)),
        }
    }
}

impl View for Node {
    type V = NodeView;

    open spec fn view(&self) -> NodeView {
        NodeView { text: self.text@, shape: self.shape@ }
    }
}

/// Why a JSON text could not be read.
#[derive(Debug, Clone, Copy, PartialEq, Eq, Structural)]
pub enum ReadError {
    /// The text is no JSON.
    NotJson,
    /// The text is JSON, but a value in it is missing or of the wrong kind.
    Unexpected,
}

impl ReadError {
    /// The error in words.
    pub fn message(&self) -> (r: &'static str)
        ensures
            r@ == (match *self {
                ReadError::NotJson => "the text is no JSON"@,
                ReadError::Unexpected => "a value is missing or of the wrong kind"@,
            }),
    {
        match *self {
            ReadError::NotJson => "the text is no JSON",
            ReadError::Unexpected => "a value is missing or of the wrong kind",
        }
    }
}

/// The value that a JSON pointer leads to in a JSON text; none where the text is
/// no JSON or the pointer leads nowhere. The empty pointer leads to the whole.
pub uninterp spec fn json_at(text: Seq<char>, pointer: Seq<char>) -> Option<NodeView>;

/// The first value in a text, with the white space before it, and what stands behind it;
/// none where the text does not start with a value.
pub uninterp spec fn json_front(text: Seq<char>) -> Option<(Seq<char>, Seq<char>)>;

/// A character as it stands in a JSON string.
pub open spec fn json_escaped(c: char) -> Seq<char> {
    if c == '"' {
        seq!['\\', '"']
    } else if c == '\\' {
        seq!['\\', '\\']
    } else if c == '\u{8}' {
        seq!['\\', 'b']
    } else if c == '\u{9}' {
        seq!['\\', 't']
    } else if c == '\u{a}' {
        seq!['\\', 'n']
    } else if c == '\u{c}' {
        seq!['\\', 'f']
    } else if c == '\u{d}' {
        seq!['\\', 'r']
    } else if ' ' > c {
        seq!['\\', 'u', '0', '0', digit(c as nat / 16), digit(c as nat % 16)]
    } else {
        seq![c]
    }
}

/// The characters of a text as they stand in a JSON string.
pub open spec fn json_escaped_all(text: Seq<char>) -> Seq<char>
    decreases text.len(),
{
    if text.len() == 0 {
        Seq::empty()
    } else {
        json_escaped_all(text.drop_last()) + json_escaped(text.last())
    }
}

/// The JSON string that writes a text, quotes and escapes in place.
pub open spec fn json_quoted(text: Seq<char>) -> Seq<char> {
    seq!['"'] + json_escaped_all(text) + seq!['"']
}

/// `serde_json::Value::pointer` on the value that `serde_json::from_str` reads.
/// Grammar, order of members and compact form are left to `serde_json`; of a
/// member that stands twice in an object it keeps the last.
#[verifier::external_body]
pub(crate) fn read_json(text: &str, pointer: &str) -> (r: Option<Node>)
    ensures
        opt_view(r) == json_at(text@, pointer@),
{
    let root = serde_json::from_str::<Value>(text).ok()?;
    let value = root.pointer(pointer)?;
    let shape = match value {
        Value::Null => Shape::Null,
        Value::Bool(b) => Shape::Bool(*b),
        Value::Number(n) => Shape::Number(n.as_u64()),
        Value::String(s) => Shape::Text(s.clone()),
        Value::Array(a) => Shape::Array(a.len()),
        Value::Object(o) => Shape::Object(o.iter().map(|(k, v)| Member { key: k.clone(), string: v.as_str().map(str::to_string) }).collect()),
    };
    Some(Node { text: value.to_string(), shape })
}

/// `serde_json::to_string` on a string: the string as JSON writes it, between quotes.
/// Quotes, backslashes and the control characters below the space are escaped, the
/// short way where JSON has one; all else stands as it is.
#[verifier::external_body]
pub(crate) fn quote_json(text: &str) -> (r: String)
    ensures
        r@ == json_quoted(text@),
{
    serde_json::to_string(text).unwrap()
}

/// `serde_json::StreamDeserializer`: one step over a text that skips a value. The text
/// falls apart into the value, white space before it included, and the rest. What a
/// value looks like is left to `serde_json`; strings and numbers are not decoded here.
#[verifier::external_body]
fn front<'a>(text: &'a str) -> (r: Option<(&'a str, &'a str)>)
    ensures
        opt_pair(r) == json_front(text@),
        match r {
            Some(p) => p.0@ + p.1@ == text@ && p.0@.len() > 0,
            None => true,
        },
{
    let mut values = serde_json::Deserializer::from_str(text).into_iter::<IgnoredAny>();
    match values.next() {
        Some(Ok(_)) => Some(text.split_at(values.byte_offset())),
        _ => None,
    }
}

/// `str::strip_prefix` with a character: what stands behind the character, where the
/// text starts with it.
#[verifier::external_body]
fn strip<'a>(text: &'a str, c: char) -> (r: Option<&'a str>)
    ensures
        match r {
            Some(rest) => text@ == seq![c] + rest@,
            None => !led_by(text@, c),
        },
{
    text.strip_prefix(c)
}

/// The view of an optional pair of texts.
pub open spec fn opt_pair(p: Option<(&str, &str)>) -> Option<(Seq<char>, Seq<char>)> {
    match p {
        Some(p) => Some((p.0@, p.1@)),
        None => None,
    }
}

/// The view of an optional text.
pub open spec fn opt_text(o: Option<&str>) -> Option<Seq<char>> {
    match o {
        Some(s) => Some(s@),
        None => None,
    }
}

// ---------------------------------------------------------------------------
// Objects and arrays
// ---------------------------------------------------------------------------

/// The text starts with the character.
pub open spec fn led_by(text: Seq<char>, c: char) -> bool {
    text.len() > 0 && text[0] == c
}

/// The white space of JSON.
pub open spec fn json_space(c: char) -> bool {
    c == ' ' || c == '\n' || c == '\t' || c == '\r'
}

/// A text without the white space at its start.
pub open spec fn unspaced(text: Seq<char>) -> Seq<char>
    decreases text.len(),
{
    if text.len() > 0 && json_space(text[0]) {
        unspaced(text.skip(1))
    } else {
        text
    }
}

proof fn lemma_unspaced(text: Seq<char>)
    ensures
        unspaced(text).len() <= text.len(),
    decreases text.len(),
{
    if text.len() > 0 && json_space(text[0]) {
        lemma_unspaced(text.skip(1));
    }
}

/// A text without the white space at its start.
fn skip_space<'a>(text: &'a str) -> (r: &'a str)
    ensures
        r@ == unspaced(text@),
        r@.len() <= text@.len(),
{
    let mut at: &'a str = text;
    proof {
        lemma_unspaced(text@);
    }
    loop
        invariant
            unspaced(at@) == unspaced(text@),
            unspaced(text@).len() <= text@.len(),
        decreases at@.len(),
    {
        let next = match strip(at, ' ') {
            Some(rest) => Some(rest),
            None => match strip(at, '\n') {
                Some(rest) => Some(rest),
                None => match strip(at, '\t') {
                    Some(rest) => Some(rest),
                    None => strip(at, '\r'),
                },
            },
        };
        match next {
            Some(rest) => {
                proof {
                    assert(at@.skip(1) =~= rest@);
                }
                at = rest;
            },
            None => {
                return at;
            },
        }
    }
}

/// The members that stand from `text` on in an object, behind `seen`, each by its name
/// and the text of its value; and what stands behind the object.
pub open spec fn members_after(
    seen: Seq<(Seq<char>, Seq<char>)>,
    text: Seq<char>,
) -> Option<(Seq<(Seq<char>, Seq<char>)>, Seq<char>)>
    decreases text.len(),
{
    let start = unspaced(text);
    if !led_by(start, '"') {
        None
    } else {
        match json_front(start) {
            Some(name) => match string_at(name.0, ""@) {
                Some(key) => {
                    let colon = unspaced(name.1);
                    if !led_by(colon, ':') {
                        None
                    } else {
                        match json_front(colon.skip(1)) {
                            Some(value) => {
                                let all = seen.push((key, value.0));
                                let end = unspaced(value.1);
                                if led_by(end, '}') {
                                    Some((all, end.skip(1)))
                                } else if led_by(end, ',') && end.len() <= text.len() {
                                    members_after(all, end.skip(1))
                                } else {
                                    None
                                }
                            },
                            None => None,
                        }
                    }
                },
                None => None,
            },
            None => None,
        }
    }
}

/// The items that stand from `text` on in an array, behind `seen`; and what stands
/// behind the array.
pub open spec fn items_after(seen: Seq<Seq<char>>, text: Seq<char>) -> Option<
    (Seq<Seq<char>>, Seq<char>),
>
    decreases text.len(),
{
    match json_front(text) {
        Some(value) => {
            let all = seen.push(value.0);
            let end = unspaced(value.1);
            if led_by(end, ']') {
                Some((all, end.skip(1)))
            } else if led_by(end, ',') && end.len() <= text.len() {
                items_after(all, end.skip(1))
            } else {
                None
            }
        },
        None => None,
    }
}

/// The members of the object that a text writes; none where it writes no object. A name
/// may come more than once.
pub open spec fn object_in(text: Seq<char>) -> Option<Seq<(Seq<char>, Seq<char>)>> {
    let start = unspaced(text);
    if !led_by(start, '{') {
        None
    } else {
        let inside = start.skip(1);
        let read = if led_by(unspaced(inside), '}') {
            Some((Seq::empty(), unspaced(inside).skip(1)))
        } else {
            members_after(Seq::empty(), inside)
        };
        match read {
            Some(r) => if unspaced(r.1).len() == 0 {
                Some(r.0)
            } else {
                None
            },
            None => None,
        }
    }
}

/// The items of the array that a text writes; none where it writes no array.
pub open spec fn array_in(text: Seq<char>) -> Option<Seq<Seq<char>>> {
    let start = unspaced(text);
    if !led_by(start, '[') {
        None
    } else {
        let inside = start.skip(1);
        let read = if led_by(unspaced(inside), ']') {
            Some((Seq::empty(), unspaced(inside).skip(1)))
        } else {
            items_after(Seq::empty(), inside)
        };
        match read {
            Some(r) => if unspaced(r.1).len() == 0 {
                Some(r.0)
            } else {
                None
            },
            None => None,
        }
    }
}

/// The views of a row of members.
pub open spec fn member_texts(members: Seq<(String, &str)>) -> Seq<(Seq<char>, Seq<char>)> {
    Seq::new(members.len(), |i: int| (members[i].0@, members[i].1@))
}

fn rest_is_space(text: &str) -> (r: bool)
    ensures
        r == (unspaced(text@).len() == 0),
{
    skip_space(text).unicode_len() == 0
}

/// Reads the members of an object.
pub fn read_object<'a>(text: &'a str) -> (r: Option<Vec<(String, &'a str)>>)
    ensures
        match r {
            Some(members) => object_in(text@) == Some(member_texts(members@)),
            None => object_in(text@) is None,
        },
{
    let mut members: Vec<(String, &'a str)> = Vec::new();
    proof {
        assert(member_texts(members@) =~= Seq::empty());
    }
    let inside = match strip(skip_space(text), '{') {
        Some(rest) => rest,
        None => {
            return None;
        },
    };
    proof {
        assert(unspaced(text@).skip(1) =~= inside@);
    }
    let ghost start = inside@;
    match strip(skip_space(inside), '}') {
        Some(rest) => {
            proof {
                assert(unspaced(inside@).skip(1) =~= rest@);
            }
            return if rest_is_space(rest) {
                Some(members)
            } else {
                None
            };
        },
        None => {},
    }
    let mut at: &'a str = inside;
    loop
        invariant
            start == unspaced(text@).skip(1),
            led_by(unspaced(text@), '{'),
            !led_by(unspaced(start), '}'),
            members_after(Seq::empty(), start) == members_after(member_texts(members@), at@),
        decreases at@.len(),
    {
        let ghost before = members@;
        let key_start = skip_space(at);
        if strip(key_start, '"').is_none() {
            return None;
        }
        let (name, behind) = match front(key_start) {
            Some(p) => p,
            None => {
                return None;
            },
        };
        let key = match read_string(name, "") {
            Some(key) => key,
            None => {
                return None;
            },
        };
        let value_start = match strip(skip_space(behind), ':') {
            Some(rest) => rest,
            None => {
                return None;
            },
        };
        proof {
            assert(unspaced(behind@).skip(1) =~= value_start@);
        }
        let (value, behind_value) = match front(value_start) {
            Some(p) => p,
            None => {
                return None;
            },
        };
        let end = skip_space(behind_value);
        members.push((key, value));
        proof {
            assert(member_texts(members@) =~= member_texts(before).push((key@, value@)));
        }
        match strip(end, '}') {
            Some(rest) => {
                proof {
                    assert(end@.skip(1) =~= rest@);
                }
                return if rest_is_space(rest) {
                    Some(members)
                } else {
                    None
                };
            },
            None => {},
        }
        match strip(end, ',') {
            Some(rest) => {
                proof {
                    assert(end@.skip(1) =~= rest@);
                }
                at = rest;
            },
            None => {
                return None;
            },
        }
    }
}

/// Reads the items of an array.
pub fn read_array<'a>(text: &'a str) -> (r: Option<Vec<&'a str>>)
    ensures
        match r {
            Some(items) => array_in(text@) == Some(views(items@)),
            None => array_in(text@) is None,
        },
{
    let mut items: Vec<&'a str> = Vec::new();
    proof {
        assert(views(items@) =~= Seq::empty());
    }
    let inside = match strip(skip_space(text), '[') {
        Some(rest) => rest,
        None => {
            return None;
        },
    };
    proof {
        assert(unspaced(text@).skip(1) =~= inside@);
    }
    let ghost start = inside@;
    match strip(skip_space(inside), ']') {
        Some(rest) => {
            proof {
                assert(unspaced(inside@).skip(1) =~= rest@);
            }
            return if rest_is_space(rest) {
                Some(items)
            } else {
                None
            };
        },
        None => {},
    }
    let mut at: &'a str = inside;
    loop
        invariant
            start == unspaced(text@).skip(1),
            led_by(unspaced(text@), '['),
            !led_by(unspaced(start), ']'),
            items_after(Seq::empty(), start) == items_after(views(items@), at@),
        decreases at@.len(),
    {
        let ghost before = items@;
        let (value, behind) = match front(at) {
            Some(p) => p,
            None => {
                return None;
            },
        };
        let end = skip_space(behind);
        items.push(value);
        proof {
            assert(views(items@) =~= views(before).push(value@));
        }
        match strip(end, ']') {
            Some(rest) => {
                proof {
                    assert(end@.skip(1) =~= rest@);
                }
                return if rest_is_space(rest) {
                    Some(items)
                } else {
                    None
                };
            },
            None => {},
        }
        match strip(end, ',') {
            Some(rest) => {
                proof {
                    assert(end@.skip(1) =~= rest@);
                }
                at = rest;
            },
            None => {
                return None;
            },
        }
    }
}

/// A text writes one JSON value and nothing else.
pub open spec fn is_json(text: Seq<char>) -> bool {
    match json_front(text) {
        Some(value) => unspaced(value.1).len() == 0,
        None => false,
    }
}

/// The error for a text in which what was looked for could not be read.
pub open spec fn read_error(text: Seq<char>) -> ReadError {
    if is_json(text) {
        ReadError::Unexpected
    } else {
        ReadError::NotJson
    }
}

/// The error for a text in which what was looked for could not be read.
pub fn explain(text: &str) -> (r: ReadError)
    ensures
        r == read_error(text@),
{
    match front(text) {
        Some(p) => if rest_is_space(p.1) {
            ReadError::Unexpected
        } else {
            ReadError::NotJson
        },
        None => ReadError::NotJson,
    }
}

// ---------------------------------------------------------------------------
// Records
// ---------------------------------------------------------------------------

/// How often a name comes among some members.
pub open spec fn times(members: Seq<(Seq<char>, Seq<char>)>, name: Seq<char>) -> nat
    decreases members.len(),
{
    if members.len() == 0 {
        0
    } else {
        times(members.drop_last(), name) + if members.last().0 == name {
            1nat
        } else {
            0nat
        }
    }
}

/// The value of the last member of that name.
pub open spec fn value_of(members: Seq<(Seq<char>, Seq<char>)>, name: Seq<char>) -> Option<
    Seq<char>,
>
    decreases members.len(),
{
    if members.len() == 0 {
        None
    } else if members.last().0 == name {
        Some(members.last().1)
    } else {
        value_of(members.drop_last(), name)
    }
}

/// The fields of the record that a text writes, in the order of `names`, each by the text
/// of its value where it is there; none where the text writes no such record.
///
/// A record is an object in which no field comes twice, or an array of the fields in
/// their order, of which the first `least` must be there. Other members of the object
/// are passed over.
pub open spec fn fields_in(text: Seq<char>, names: Seq<Seq<char>>, least: nat) -> Option<
    Seq<Option<Seq<char>>>,
> {
    match object_in(text) {
        Some(members) => if forall|i: int|
            0 <= i < names.len() ==> times(members, #[trigger] names[i]) <= 1 {
            Some(names.map_values(|name: Seq<char>| value_of(members, name)))
        } else {
            None
        },
        None => match array_in(text) {
            Some(items) => if least <= items.len() <= names.len() {
                Some(
                    Seq::new(
                        names.len(),
                        |i: int|
                            if i < items.len() {
                                Some(items[i])
                            } else {
                                None
                            },
                    ),
                )
            } else {
                None
            },
            None => None,
        },
    }
}

/// The views of a row of optional texts.
pub open spec fn opt_texts(fields: Seq<Option<&str>>) -> Seq<Option<Seq<char>>> {
    Seq::new(fields.len(), |i: int| opt_text(fields[i]))
}

/// The value of the one member of that name. None where the name comes more than once.
fn find_member<'a>(members: &Vec<(String, &'a str)>, name: &str) -> (r: Option<Option<&'a str>>)
    ensures
        match r {
            Some(value) => times(member_texts(members@), name@) <= 1 && opt_text(value)
                == value_of(member_texts(members@), name@),
            None => times(member_texts(members@), name@) > 1,
        },
{
    let ghost all = member_texts(members@);
    let mut found: Option<&'a str> = None;
    let mut count: usize = 0;
    let mut i: usize = 0;
    while i < members.len()
        invariant
            i <= members.len(),
            all == member_texts(members@),
            count <= i,
            count == times(all.take(i as int), name@),
            opt_text(found) == value_of(all.take(i as int), name@),
        decreases members.len() - i,
    {
        proof {
            assert(all.take(i + 1).drop_last() =~= all.take(i as int));
            assert(all.take(i + 1).last() == all[i as int]);
        }
        if same_text(members[i].0.as_str(), name) {
            found = Some(members[i].1);
            count = count + 1;
        }
        i = i + 1;
    }
    proof {
        assert(all.take(all.len() as int) =~= all);
    }
    if count > 1 {
        None
    } else {
        Some(found)
    }
}

/// Reads the fields of a record.
pub fn read_fields<'a>(text: &'a str, names: &Vec<&str>, least: usize) -> (r: Option<
    Vec<Option<&'a str>>,
>)
    ensures
        match r {
            Some(fields) => fields@.len() == names@.len() && fields_in(
                text@,
                views(names@),
                least as nat,
            ) == Some(opt_texts(fields@)),
            None => fields_in(text@, views(names@), least as nat) is None,
        },
{
    let ghost wanted = views(names@);
    let mut fields: Vec<Option<&'a str>> = Vec::new();
    let mut i: usize = 0;
    match read_object(text) {
        Some(members) => {
            let ghost all = member_texts(members@);
            while i < names.len()
                invariant
                    i <= names.len(),
                    wanted == views(names@),
                    all == member_texts(members@),
                    forall|j: int| 0 <= j < i ==> times(all, #[trigger] wanted[j]) <= 1,
                    fields@.len() == i,
                    forall|j: int|
                        0 <= j < i ==> opt_text(#[trigger] fields@[j]) == value_of(all, wanted[j]),
                    object_in(text@) == Some(all),
                decreases names.len() - i,
            {
                proof {
                    assert(wanted[i as int] == names@[i as int]@);
                }
                match find_member(&members, names[i]) {
                    Some(value) => {
                        fields.push(value);
                    },
                    None => {
                        return None;
                    },
                }
                i = i + 1;
            }
            proof {
                assert(opt_texts(fields@) =~= wanted.map_values(
                    |name: Seq<char>| value_of(all, name),
                ));
            }
            Some(fields)
        },
        None => {
            let items = match read_array(text) {
                Some(items) => items,
                None => {
                    return None;
                },
            };
            if items.len() < least || items.len() > names.len() {
                return None;
            }
            let ghost all = views(items@);
            while i < names.len()
                invariant
                    i <= names.len(),
                    all == views(items@),
                    fields@.len() == i,
                    forall|j: int|
                        0 <= j < i ==> opt_text(#[trigger] fields@[j]) == (if j < all.len() {
                            Some(all[j])
                        } else {
                            None
                        }),
                decreases names.len() - i,
            {
                if i < items.len() {
                    fields.push(Some(items[i]));
                } else {
                    fields.push(None);
                }
                i = i + 1;
            }
            proof {
                assert(opt_texts(fields@) =~= fields_in(text@, wanted, least as nat)->0);
            }
            Some(fields)
        },
    }
}

// ---------------------------------------------------------------------------
// Values
// ---------------------------------------------------------------------------

/// The string at `pointer`; none where there is no string.
pub open spec fn string_at(text: Seq<char>, pointer: Seq<char>) -> Option<Seq<char>> {
    match json_at(text, pointer) {
        Some(node) => match node.shape {
            ShapeView::Text(s) => Some(s),
            _ => None,
        },
        None => None,
    }
}

/// The field is left out, or it is `null`.
pub open spec fn is_absent(field: Option<Seq<char>>) -> bool {
    match field {
        Some(text) => match json_at(text, ""@) {
            Some(node) => node.shape is Null,
            None => false,
        },
        None => true,
    }
}

/// The string of a field; none where it has no string.
pub open spec fn string_in(field: Option<Seq<char>>) -> Option<Seq<char>> {
    match field {
        Some(text) => string_at(text, ""@),
        None => None,
    }
}

/// The string of a field that may be left out; none where it holds something else.
pub open spec fn optional_string_in(field: Option<Seq<char>>) -> Option<Option<Seq<char>>> {
    if is_absent(field) {
        Some(None)
    } else {
        match string_in(field) {
            Some(s) => Some(Some(s)),
            None => None,
        }
    }
}

/// The string of a field that is empty where it is left out; none where it holds
/// something else.
pub open spec fn string_or_empty_in(field: Option<Seq<char>>) -> Option<Seq<char>> {
    if field is None {
        Some(Seq::empty())
    } else {
        string_in(field)
    }
}

/// The number of a field that may be left out; none where it holds something else.
pub open spec fn optional_number_in(field: Option<Seq<char>>) -> Option<Option<u64>> {
    match field {
        Some(text) => match json_at(text, ""@) {
            Some(node) => match node.shape {
                ShapeView::Null => Some(None),
                ShapeView::Number(Some(n)) => Some(Some(n)),
                _ => None,
            },
            None => None,
        },
        None => Some(None),
    }
}

/// The truth value of a field that may be left out; none where it holds something else.
pub open spec fn optional_bool_in(field: Option<Seq<char>>) -> Option<Option<bool>> {
    match field {
        Some(text) => match json_at(text, ""@) {
            Some(node) => match node.shape {
                ShapeView::Null => Some(None),
                ShapeView::Bool(b) => Some(Some(b)),
                _ => None,
            },
            None => None,
        },
        None => Some(None),
    }
}

/// The items of a field that has none where it is left out; none where it holds
/// something else.
pub open spec fn items_in(field: Option<Seq<char>>) -> Option<Seq<Seq<char>>> {
    match field {
        Some(text) => array_in(text),
        None => Some(Seq::empty()),
    }
}

/// The view of an optional string that may have failed to be read.
pub open spec fn read_view(r: Option<Option<String>>) -> Option<Option<Seq<char>>> {
    match r {
        Some(o) => Some(opt_view(o)),
        None => None,
    }
}

/// Reads a string.
pub fn read_string(text: &str, pointer: &str) -> (r: Option<String>)
    ensures
        opt_view(r) == string_at(text@, pointer@),
{
    match read_json(text, pointer) {
        Some(node) => match node.shape {
            Shape::Text(s) => Some(s),
            _ => None,
        },
        None => None,
    }
}

/// Whether a field is left out, or `null`.
pub fn field_absent(field: Option<&str>) -> (r: bool)
    ensures
        r == is_absent(opt_text(field)),
{
    match field {
        Some(text) => match read_json(text, "") {
            Some(node) => match node.shape {
                Shape::Null => true,
                _ => false,
            },
            None => false,
        },
        None => true,
    }
}

/// Reads a field that holds a string.
pub fn field_string(field: Option<&str>) -> (r: Option<String>)
    ensures
        opt_view(r) == string_in(opt_text(field)),
{
    match field {
        Some(text) => read_string(text, ""),
        None => None,
    }
}

/// Reads a field that holds a string and may be left out.
pub fn field_optional_string(field: Option<&str>) -> (r: Option<Option<String>>)
    ensures
        read_view(r) == optional_string_in(opt_text(field)),
{
    match field {
        Some(text) => match read_json(text, "") {
            Some(node) => match node.shape {
                Shape::Null => Some(None),
                Shape::Text(s) => Some(Some(s)),
                _ => None,
            },
            None => None,
        },
        None => Some(None),
    }
}

/// Reads a field that holds a string, empty where it is left out.
pub fn field_string_or_empty(field: Option<&str>) -> (r: Option<String>)
    ensures
        opt_view(r) == string_or_empty_in(opt_text(field)),
{
    match field {
        Some(text) => read_string(text, ""),
        None => Some(String::new()),
    }
}

/// Reads a field that holds a number and may be left out.
pub fn field_optional_number(field: Option<&str>) -> (r: Option<Option<u64>>)
    ensures
        r == optional_number_in(opt_text(field)),
{
    match field {
        Some(text) => match read_json(text, "") {
            Some(node) => match node.shape {
                Shape::Null => Some(None),
                Shape::Number(Some(n)) => Some(Some(n)),
                _ => None,
            },
            None => None,
        },
        None => Some(None),
    }
}

/// Reads a field that holds a truth value and may be left out.
pub fn field_optional_bool(field: Option<&str>) -> (r: Option<Option<bool>>)
    ensures
        r == optional_bool_in(opt_text(field)),
{
    match field {
        Some(text) => match read_json(text, "") {
            Some(node) => match node.shape {
                Shape::Null => Some(None),
                Shape::Bool(b) => Some(Some(b)),
                _ => None,
            },
            None => None,
        },
        None => Some(None),
    }
}

/// Reads a field that holds an array, without items where it is left out.
pub fn field_items<'a>(field: Option<&'a str>) -> (r: Option<Vec<&'a str>>)
    ensures
        match r {
            Some(items) => items_in(opt_text(field)) == Some(views(items@)),
            None => items_in(opt_text(field)) is None,
        },
{
    match field {
        Some(text) => read_array(text),
        None => {
            let items: Vec<&'a str> = Vec::new();
            proof {
                assert(views(items@) =~= Seq::<Seq<char>>::empty());
            }
            Some(items)
        },
    }
}

// ---------------------------------------------------------------------------
// Lists of values
// ---------------------------------------------------------------------------

/// What `read` makes of each of `texts`, one behind the other; none where it makes
/// nothing of one of them.
pub open spec fn read_each<A>(
    texts: Seq<Seq<char>>,
    read: spec_fn(Seq<char>) -> Option<Seq<A>>,
) -> Option<Seq<A>>
    decreases texts.len(),
{
    if texts.len() == 0 {
        Some(Seq::empty())
    } else {
        match (read_each(texts.drop_last(), read), read(texts.last())) {
            (Some(before), Some(last)) => Some(before + last),
            _ => None,
        }
    }
}

proof fn lemma_read_fails<A>(
    texts: Seq<Seq<char>>,
    read: spec_fn(Seq<char>) -> Option<Seq<A>>,
    i: int,
)
    requires
        0 <= i < texts.len(),
        read(texts[i]) is None,
    ensures
        read_each(texts, read) is None,
    decreases texts.len(),
{
    if i < texts.len() - 1 {
        assert(texts.drop_last()[i] == texts[i]);
        lemma_read_fails(texts.drop_last(), read, i);
    }
}

/// A way to read values from a JSON text.
pub trait Reader {
    type Item: View;

    /// The values in a text; none where it does not hold such values.
    spec fn values(text: Seq<char>) -> Option<Seq<<Self::Item as View>::V>>;

    /// Reads the values in a text.
    fn read(text: &str) -> (r: Option<Vec<Self::Item>>)
        ensures
            match r {
                Some(items) => Self::values(text@) == Some(views(items@)),
                None => Self::values(text@) is None,
            },
    ;
}

/// The values of a reader, as a function.
pub open spec fn reading<R: Reader>() -> spec_fn(Seq<char>) -> Option<
    Seq<<R::Item as View>::V>,
> {
    |text: Seq<char>| R::values(text)
}

/// Reads the values of several texts, one behind the other.
pub fn read_texts<R: Reader>(texts: &Vec<&str>) -> (r: Option<Vec<R::Item>>)
    ensures
        match r {
            Some(items) => read_each(views(texts@), reading::<R>()) == Some(views(items@)),
            None => read_each(views(texts@), reading::<R>()) is None,
        },
{
    let ghost all = views(texts@);
    let ghost read = reading::<R>();
    let mut out: Vec<R::Item> = Vec::new();
    let mut i: usize = 0;
    proof {
        assert(views(out@) =~= Seq::empty());
    }
    while i < texts.len()
        invariant
            i <= texts.len(),
            all == views(texts@),
            read == reading::<R>(),
            read_each(all.take(i as int), read) == Some(views(out@)),
        decreases texts.len() - i,
    {
        let ghost before = out@;
        proof {
            assert(all.take(i + 1).drop_last() =~= all.take(i as int));
            assert(all.take(i + 1).last() == texts@[i as int]@);
        }
        match R::read(texts[i]) {
            Some(items) => {
                let mut items = items;
                let ghost more = items@;
                out.append(&mut items);
                proof {
                    assert(views(before + more) =~= views(before) + views(more));
                }
            },
            None => {
                proof {
                    lemma_read_fails(all, read, i as int);
                }
                return None;
            },
        }
        i = i + 1;
    }
    proof {
        assert(all.take(all.len() as int) =~= all);
    }
    Some(out)
}

/// The values in the items of a field.
pub open spec fn values_in<R: Reader>(field: Option<Seq<char>>) -> Option<
    Seq<<R::Item as View>::V>,
> {
    match items_in(field) {
        Some(items) => read_each(items, reading::<R>()),
        None => None,
    }
}

/// Reads the values in the items of a field.
pub fn field_values<R: Reader>(field: Option<&str>) -> (r: Option<Vec<R::Item>>)
    ensures
        match r {
            Some(items) => values_in::<R>(opt_text(field)) == Some(views(items@)),
            None => values_in::<R>(opt_text(field)) is None,
        },
{
    match field_items(field) {
        Some(items) => read_texts::<R>(&items),
        None => None,
    }
}

} // verus!
