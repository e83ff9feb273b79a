//! JSON documents: a tree of plain values, and how a text is read into one.

use crate::text::same_str;
use vstd::prelude::*;

verus! {

/// A JSON document as a mathematical value. A number is kept as far as it is an unsigned
/// integer of 64 bits.
pub enum JsonView {
    Null,
    Bool(bool),
    Number(Option<u64>),
    Text(Seq<char>),
    Array(Seq<JsonView>),
    Object(Seq<(Seq<char>, JsonView)>),
}

/// A JSON document.
pub enum Json {
    Null,
    Bool(bool),
    Number(Option<u64>),
    Text(String),
    Array(Vec<Json>),
    Object(Vec<(String, Json)>),
}

impl View for Json {
    type V = JsonView;

    open spec fn view(&self) -> JsonView
        decreases *self,
    {
        match *self {
            Json::Null => JsonView::Null,
            Json::Bool(b) => JsonView::Bool(b),
            Json::Number(n) => JsonView::Number(n),
            Json::Text(s) => JsonView::Text(s@),
            Json::Array(items) => JsonView::Array(
                Seq::new(
                    items@.len(),
                    |i: int|
                        if 0 <= i < items@.len() {
                            items@[i].view()
                        } else {
                            JsonView::Null
                        },
                ),
            ),
            Json::Object(fields) => JsonView::Object(
                Seq::new(
                    fields@.len(),
                    |i: int|
                        if 0 <= i < fields@.len() {
                            (fields@[i].0@, fields@[i].1.view())
                        } else {
                            (Seq::empty(), JsonView::Null)
                        },
                ),
            ),
        }
    }
}

/// The outside type of a JSON document that `serde_json` has read.
#[verifier::external_type_specification]
#[verifier::external_body]
pub struct ExValue(serde_json::Value);

/// The tree that a `serde_json::Value` holds.
pub uninterp spec fn tree_of(value: serde_json::Value) -> JsonView;

/// What `serde_json::from_str` reads a text as, where it is a JSON document.
pub uninterp spec fn document(s: Seq<char>) -> Option<JsonView>;

/// One level of a `serde_json::Value`.
pub enum Shape {
    Null,
    Bool(bool),
    Number(Option<u64>),
    Text(String),
    Items(Vec<serde_json::Value>),
    Fields(Vec<(String, serde_json::Value)>),
}

/// Reads a text as a JSON document. Trusted: `serde_json::from_str` with `serde_json::Value` as
/// its target, whose result depends on the text alone.
#[verifier::external_body]
fn read_value(s: &str) -> (r: Option<serde_json::Value>)
    ensures
        match r {
            Some(value) => document(s@) == Some(tree_of(value)),
            None => document(s@) is None,
        },
{
    serde_json::from_str::<serde_json::Value>(s).ok()
}

/// Takes one level off a document. Trusted: the variants of `serde_json::Value`, of which each
/// holds what the variant of that name in the result holds; a number is kept as what
/// `Number::as_u64` gives, and the fields of an object come in the order of its `Map`.
#[verifier::external_body]
fn open_value(value: serde_json::Value) -> (r: Shape)
    ensures
        match r {
            Shape::Null => tree_of(value) == JsonView::Null,
            Shape::Bool(b) => tree_of(value) == JsonView::Bool(b),
            Shape::Number(n) => tree_of(value) == JsonView::Number(n),
            Shape::Text(t) => tree_of(value) == JsonView::Text(t@),
            Shape::Items(items) => tree_of(value) == JsonView::Array(
                Seq::new(items@.len(), |i: int| tree_of(items@[i])),
            ),
            Shape::Fields(fields) => tree_of(value) == JsonView::Object(
                Seq::new(fields@.len(), |i: int| (fields@[i].0@, tree_of(fields@[i].1))),
            ),
        },
{
    match value {
        serde_json::Value::Null => Shape::Null,
        serde_json::Value::Bool(b) => Shape::Bool(b),
        serde_json::Value::Number(n) => Shape::Number(n.as_u64()),
        serde_json::Value::String(s) => Shape::Text(s),
        serde_json::Value::Array(items) => Shape::Items(items),
        serde_json::Value::Object(fields) => Shape::Fields(fields.into_iter().collect()),
    }
}

/// The document that `value` holds.
fn json_of(value: serde_json::Value) -> (r: Json)
    ensures
        r@ == tree_of(value),
    decreases tree_of(value),
{
    let ghost tree = tree_of(value);
    match open_value(value) {
        Shape::Null => Json::Null,
        Shape::Bool(b) => Json::Bool(b),
        Shape::Number(n) => Json::Number(n),
        Shape::Text(s) => Json::Text(s),
        Shape::Items(items) => {
            let ghost all = items@;
            let mut out: Vec<Json> = Vec::new();
            for item in it: items
                invariant
                    it.seq() == all,
                    tree == tree_of(value),
                    tree == JsonView::Array(Seq::new(all.len(), |i: int| tree_of(all[i]))),
                    out@.len() == it.index(),
                    forall|i: int| 0 <= i < out@.len() ==> (#[trigger] out@[i])@ == tree_of(all[i]),
            {
                proof {
                    let n = it.index() as int;
                    assert(tree->Array_0[n] == tree_of(item));
                    assert(decreases_to!(tree => tree_of(item)));
                }
                out.push(json_of(item));
            }
            let r = Json::Array(out);
            proof {
                assert(r@->Array_0 =~= tree->Array_0);
            }
            r
        },
        Shape::Fields(fields) => {
            let ghost all = fields@;
            let mut out: Vec<(String, Json)> = Vec::new();
            for field in it: fields
                invariant
                    it.seq() == all,
                    tree == tree_of(value),
                    tree == JsonView::Object(
                        Seq::new(all.len(), |i: int| (all[i].0@, tree_of(all[i].1))),
                    ),
                    out@.len() == it.index(),
                    forall|i: int|
                        0 <= i < out@.len() ==> (#[trigger] out@[i]).0@ == all[i].0@
                            && out@[i].1@ == tree_of(all[i].1),
            {
                proof {
                    let n = it.index() as int;
                    assert(tree->Object_0[n].1 == tree_of(field.1));
                    assert(decreases_to!(tree => tree_of(field.1)));
                }
                let (name, inner) = field;
                out.push((name, json_of(inner)));
            }
            let r = Json::Object(out);
            proof {
                assert(r@->Object_0 =~= tree->Object_0);
            }
            r
        },
    }
}

/// The value of the first field called `name`.
pub open spec fn lookup(fields: Seq<(Seq<char>, JsonView)>, name: Seq<char>) -> Option<JsonView>
    decreases fields.len(),
{
    if fields.len() == 0 {
        None
    } else if fields[0].0 == name {
        Some(fields[0].1)
    } else {
        lookup(fields.drop_first(), name)
    }
}

/// More than one field is called `name`.
pub open spec fn repeated(fields: Seq<(Seq<char>, JsonView)>, name: Seq<char>) -> bool {
    exists|i: int, j: int|
        0 <= i < j < fields.len() && (#[trigger] fields[i]).0 == name && (#[trigger] fields[j]).0
            == name
}

impl JsonView {
    /// More than one field of an object is called `name`.
    pub open spec fn repeats(self, name: Seq<char>) -> bool {
        match self {
            JsonView::Object(fields) => repeated(fields, name),
            _ => false,
        }
    }

    /// The field called `name` of an object.
    pub open spec fn field(self, name: Seq<char>) -> Option<JsonView> {
        match self {
            JsonView::Object(fields) => lookup(fields, name),
            _ => None,
        }
    }

    /// The text of the field called `name` of an object, where it is one.
    pub open spec fn text_field(self, name: Seq<char>) -> Option<Seq<char>> {
        match self.field(name) {
            Some(JsonView::Text(t)) => Some(t),
            _ => None,
        }
    }
}

/// The view of an object is made of the views of its fields.
pub proof fn object_parts(json: Json)
    requires
        json is Object,
    ensures
        json@ is Object,
        json@->Object_0.len() == json->Object_0@.len(),
        forall|k: int|
            0 <= k < json->Object_0@.len() ==> #[trigger] json@->Object_0[k] == (
                json->Object_0@[k].0@,
                json->Object_0@[k].1@,
            ),
{
    reveal_with_fuel(<Json as View>::view, 2);
}

/// The view of an array is made of the views of its items.
pub proof fn array_parts(json: Json)
    requires
        json is Array,
    ensures
        json@ is Array,
        json@->Array_0.len() == json->Array_0@.len(),
        forall|k: int|
            0 <= k < json->Array_0@.len() ==> #[trigger] json@->Array_0[k] == json->Array_0@[k]@,
{
    reveal_with_fuel(<Json as View>::view, 2);
}

impl Json {
    /// Whether more than one field of an object is called `name`.
    pub fn has_repeated(&self, name: &str) -> (r: bool)
        ensures
            r == self@.repeats(name@),
    {
        match self {
            Json::Object(fields) => {
                let ghost all = self@->Object_0;
                proof {
                    object_parts(*self);
                }
                let mut found: Option<usize> = None;
                let mut i: usize = 0;
                while i < fields.len()
                    invariant
                        i <= fields.len(),
                        self@ == JsonView::Object(all),
                        all.len() == fields@.len(),
                        forall|k: int|
                            0 <= k < fields@.len() ==> #[trigger] all[k] == (
                                fields@[k].0@,
                                fields@[k].1@,
                            ),
                        match found {
                            Some(at) => at < i && all[at as int].0 == name@ && forall|k: int|
                                0 <= k < i && k != at ==> (#[trigger] all[k]).0 != name@,
                            None => forall|k: int| 0 <= k < i ==> (#[trigger] all[k]).0 != name@,
                        },
                    decreases fields.len() - i,
                {
                    proof {
                        assert(all[i as int].0 == fields@[i as int].0@);
                    }
                    if same_str(fields[i].0.as_str(), name) {
                        if found.is_some() {
                            return true;
                        }
                        found = Some(i);
                    }
                    i += 1;
                }
                false
            },
            _ => false,
        }
    }

    /// The field called `name` of an object.
    pub fn get(&self, name: &str) -> (r: Option<&Json>)
        ensures
            match r {
                Some(json) => self@.field(name@) == Some(json@),
                None => self@.field(name@) is None,
            },
    {
        match self {
            Json::Object(fields) => {
                let ghost all = self@->Object_0;
                let mut i: usize = 0;
                proof {
                    object_parts(*self);
                    assert(all.skip(0) =~= all);
                }
                while i < fields.len()
                    invariant
                        i <= fields.len(),
                        self@ == JsonView::Object(all),
                        all.len() == fields@.len(),
                        forall|k: int|
                            0 <= k < fields@.len() ==> #[trigger] all[k] == (
                                fields@[k].0@,
                                fields@[k].1@,
                            ),
                        lookup(all, name@) == lookup(all.skip(i as int), name@),
                    decreases fields.len() - i,
                {
                    proof {
                        assert(all.skip(i as int)[0] == all[i as int]);
                        assert(all.skip(i as int).drop_first() =~= all.skip(i + 1));
                    }
                    if same_str(fields[i].0.as_str(), name) {
                        return Some(&fields[i].1);
                    }
                    i += 1;
                }
                None
            },
            _ => None,
        }
    }

    /// The text of the field called `name` of an object, where it is one.
    pub fn get_text(&self, name: &str) -> (r: Option<&String>)
        ensures
            match r {
                Some(t) => self@.text_field(name@) == Some(t@),
                None => self@.text_field(name@) is None,
            },
    {
        match self.get(name) {
            Some(Json::Text(t)) => Some(t),
            _ => None,
        }
    }
}

/// Reads a text as a JSON document.
pub fn parse(s: &str) -> (r: Option<Json>)
    ensures
        match r {
            Some(json) => document(s@) == Some(json@),
            None => document(s@) is None,
        },
{
    match read_value(s) {
        Some(value) => Some(json_of(value)),
        None => None,
    }
}

/// What `serde_json::StreamDeserializer` reads first from a row of bytes, and how many of them
/// that takes.
pub uninterp spec fn leading(bytes: Seq<u8>) -> Option<(JsonView, nat)>;

/// Reads the document that a row of bytes begins with, and tells how many bytes it takes. Trusted:
/// `serde_json::StreamDeserializer` with `serde_json::Value` as its target, whose first item and
/// whose offset after it depend on the bytes alone; a document takes at least one byte, and no more
/// than there are.
#[verifier::external_body]
fn read_leading(bytes: &[u8]) -> (r: Option<(serde_json::Value, usize)>)
    ensures
        match r {
            Some((value, n)) => leading(bytes@) == Some((tree_of(value), n as nat)) && 0 < n
                <= bytes@.len(),
            None => leading(bytes@) is None,
        },
{
    let mut values = serde_json::Deserializer::from_slice(bytes).into_iter::<serde_json::Value>();
    match values.next() {
        Some(Ok(value)) => Some((value, values.byte_offset())),
        _ => None,
    }
}

/// White space between the parts of a document.
pub open spec fn is_space(b: u8) -> bool {
    b == 0x20 || b == 0x9 || b == 0xa || b == 0xd
}

/// The first position from `i` on at which there is no white space.
pub open spec fn past_space(s: Seq<u8>, i: int) -> int
    decreases s.len() - i,
{
    if 0 <= i < s.len() && is_space(s[i]) {
        past_space(s, i + 1)
    } else {
        i
    }
}

/// The first position from `from` on at which there is no white space.
fn skip_space(s: &[u8], from: usize) -> (r: usize)
    requires
        from <= s@.len(),
    ensures
        from <= r <= s@.len(),
        r == past_space(s@, from as int),
{
    let mut i: usize = from;
    while i < s.len() && (s[i] == 0x20 || s[i] == 0x9 || s[i] == 0xa || s[i] == 0xd)
        invariant
            from <= i <= s@.len(),
            past_space(s@, from as int) == past_space(s@, i as int),
        decreases s.len() - i,
    {
        i += 1;
    }
    i
}

/// The document that stands in `s`, with every field that an object is written with, also where a
/// name comes again.
pub open spec fn as_written(s: Seq<u8>) -> Option<JsonView>
    decreases s.len(), s.len() + 1,
{
    let open = past_space(s, 0);
    if 0 <= open < s.len() && s[open] == 0x7b {
        let first = past_space(s, open + 1);
        if 0 <= first < s.len() && s[first] == 0x7d {
            Some(JsonView::Object(Seq::empty()))
        } else {
            match written_fields(s, open + 1) {
                Some(fields) => Some(JsonView::Object(fields)),
                None => None,
            }
        }
    } else if 0 <= open < s.len() && s[open] == 0x5b {
        let first = past_space(s, open + 1);
        if 0 <= first < s.len() && s[first] == 0x5d {
            Some(JsonView::Array(Seq::empty()))
        } else {
            match written_items(s, open + 1) {
                Some(items) => Some(JsonView::Array(items)),
                None => None,
            }
        }
    } else {
        match leading(s) {
            Some((value, _)) => Some(value),
            None => None,
        }
    }
}

/// The fields of the object in `s` from position `i` on, where a name begins.
pub open spec fn written_fields(s: Seq<u8>, i: int) -> Option<Seq<(Seq<char>, JsonView)>>
    decreases s.len(), s.len() - i,
{
    match leading(s.skip(i)) {
        Some((JsonView::Text(name), n)) => {
            let colon = past_space(s, i + n);
            let at = colon + 1;
            match leading(s.skip(at)) {
                Some((_, m)) => {
                    let end = at + m;
                    let next = past_space(s, end);
                    if 0 < i < at <= end <= next < s.len() && s[colon] == 0x3a {
                        match as_written(s.subrange(at, end)) {
                            Some(value) => if s[next] == 0x7d {
                                Some(seq![(name, value)])
                            } else if s[next] == 0x2c {
                                match written_fields(s, next + 1) {
                                    Some(rest) => Some(seq![(name, value)] + rest),
                                    None => None,
                                }
                            } else {
                                None
                            },
                            None => None,
                        }
                    } else {
                        None
                    }
                },
                None => None,
            }
        },
        _ => None,
    }
}

/// The items of the array in `s` from position `i` on.
pub open spec fn written_items(s: Seq<u8>, i: int) -> Option<Seq<JsonView>>
    decreases s.len(), s.len() - i,
{
    match leading(s.skip(i)) {
        Some((_, n)) => {
            let end = i + n;
            let next = past_space(s, end);
            if 0 < i <= end <= next < s.len() {
                match as_written(s.subrange(i, end)) {
                    Some(value) => if s[next] == 0x5d {
                        Some(seq![value])
                    } else if s[next] == 0x2c {
                        match written_items(s, next + 1) {
                            Some(rest) => Some(seq![value] + rest),
                            None => None,
                        }
                    } else {
                        None
                    },
                    None => None,
                }
            } else {
                None
            }
        },
        None => None,
    }
}

/// The document that stands in `s`, with every field that an object is written with, also where a
/// name comes again; what `serde_json::Value` keeps of such fields is the last.
pub fn parse_as_written(s: &[u8]) -> (r: Option<Json>)
    ensures
        match r {
            Some(json) => as_written(s@) == Some(json@),
            None => as_written(s@) is None,
        },
    decreases s@.len(), s@.len() + 1,
{
    let open: usize = skip_space(s, 0);
    if open < s.len() && s[open] == 0x7b {
        let first: usize = skip_space(s, open + 1);
        if first < s.len() && s[first] == 0x7d {
            let r = Json::Object(Vec::new());
            proof {
                object_parts(r);
                assert(r@->Object_0 =~= Seq::empty());
            }
            return Some(r);
        }
        match read_fields(s, open + 1) {
            Some(fields) => {
                let r = Json::Object(fields);
                proof {
                    object_parts(r);
                    assert(r@->Object_0 =~= fields_of(fields@));
                }
                Some(r)
            },
            None => None,
        }
    } else if open < s.len() && s[open] == 0x5b {
        let first: usize = skip_space(s, open + 1);
        if first < s.len() && s[first] == 0x5d {
            let r = Json::Array(Vec::new());
            proof {
                array_parts(r);
                assert(r@->Array_0 =~= Seq::empty());
            }
            return Some(r);
        }
        match read_items(s, open + 1) {
            Some(items) => {
                let r = Json::Array(items);
                proof {
                    array_parts(r);
                    assert(r@->Array_0 =~= items_of(items@));
                }
                Some(r)
            },
            None => None,
        }
    } else {
        match read_leading(s) {
            Some((value, _)) => Some(json_of(value)),
            None => None,
        }
    }
}

/// The views of fields.
pub open spec fn fields_of(fields: Seq<(String, Json)>) -> Seq<(Seq<char>, JsonView)> {
    Seq::new(fields.len(), |i: int| (fields[i].0@, fields[i].1@))
}

/// The views of items.
pub open spec fn items_of(items: Seq<Json>) -> Seq<JsonView> {
    Seq::new(items.len(), |i: int| items[i]@)
}

/// The fields of the object in `s` from position `from` on.
fn read_fields(s: &[u8], from: usize) -> (r: Option<Vec<(String, Json)>>)
    requires
        0 < from <= s@.len(),
    ensures
        match r {
            Some(fields) => written_fields(s@, from as int) == Some(fields_of(fields@)),
            None => written_fields(s@, from as int) is None,
        },
    decreases s@.len(), s@.len() - from,
{
    let mut out: Vec<(String, Json)> = Vec::new();
    let mut i: usize = from;
    loop
        invariant
            0 < from <= i <= s@.len(),
            match written_fields(s@, i as int) {
                Some(rest) => written_fields(s@, from as int) == Some(fields_of(out@) + rest),
                None => written_fields(s@, from as int) is None,
            },
        decreases s@.len() - i,
    {
        let ghost done = out@;
        proof {
            assert(s@.subrange(i as int, s@.len() as int) =~= s@.skip(i as int));
        }
        let (name, n) = match read_leading(vstd::slice::slice_subrange(s, i, s.len())) {
            Some((value, n)) => match json_of(value) {
                Json::Text(name) => (name, n),
                _ => {
                    return None;
                },
            },
            None => {
                return None;
            },
        };
        let colon: usize = skip_space(s, i + n);
        if colon >= s.len() || s[colon] != 0x3a {
            return None;
        }
        let at: usize = colon + 1;
        proof {
            assert(s@.subrange(at as int, s@.len() as int) =~= s@.skip(at as int));
        }
        let end: usize = match read_leading(vstd::slice::slice_subrange(s, at, s.len())) {
            Some((_, m)) => at + m,
            None => {
                return None;
            },
        };
        let next: usize = skip_space(s, end);
        if next >= s.len() {
            return None;
        }
        let value = match parse_as_written(vstd::slice::slice_subrange(s, at, end)) {
            Some(value) => value,
            None => {
                return None;
            },
        };
        out.push((name, value));
        proof {
            assert(fields_of(out@) =~= fields_of(done) + seq![(name@, value@)]);
        }
        if s[next] == 0x7d {
            return Some(out);
        }
        if s[next] != 0x2c {
            return None;
        }
        proof {
            if let Some(rest) = written_fields(s@, next + 1) {
                assert(fields_of(done) + (seq![(name@, value@)] + rest) =~= fields_of(out@) + rest);
            }
        }
        i = next + 1;
    }
}

/// The items of the array in `s` from position `from` on.
fn read_items(s: &[u8], from: usize) -> (r: Option<Vec<Json>>)
    requires
        0 < from <= s@.len(),
    ensures
        match r {
            Some(items) => written_items(s@, from as int) == Some(items_of(items@)),
            None => written_items(s@, from as int) is None,
        },
    decreases s@.len(), s@.len() - from,
{
    let mut out: Vec<Json> = Vec::new();
    let mut i: usize = from;
    loop
        invariant
            0 < from <= i <= s@.len(),
            match written_items(s@, i as int) {
                Some(rest) => written_items(s@, from as int) == Some(items_of(out@) + rest),
                None => written_items(s@, from as int) is None,
            },
        decreases s@.len() - i,
    {
        let ghost done = out@;
        proof {
            assert(s@.subrange(i as int, s@.len() as int) =~= s@.skip(i as int));
        }
        let end: usize = match read_leading(vstd::slice::slice_subrange(s, i, s.len())) {
            Some((_, n)) => i + n,
            None => {
                return None;
            },
        };
        let next: usize = skip_space(s, end);
        if next >= s.len() {
            return None;
        }
        let value = match parse_as_written(vstd::slice::slice_subrange(s, i, end)) {
            Some(value) => value,
            None => {
                return None;
            },
        };
        out.push(value);
        proof {
            assert(items_of(out@) =~= items_of(done) + seq![value@]);
        }
        if s[next] == 0x5d {
            return Some(out);
        }
        if s[next] != 0x2c {
            return None;
        }
        proof {
            if let Some(rest) = written_items(s@, next + 1) {
                assert(items_of(done) + (seq![value@] + rest) =~= items_of(out@) + rest);
            }
        }
        i = next + 1;
    }
}

/// A field is looked up by its whole name: what is found is the value of the first field called
/// so, and nothing is found where no field is.
pub proof fn fields_are_found_by_name(fields: Seq<(Seq<char>, JsonView)>, name: Seq<char>)
    ensures
        match JsonView::Object(fields).field(name) {
            Some(value) => exists|k: int|
                0 <= k < fields.len() && #[trigger] fields[k] == (name, value) && forall|j: int|
                    0 <= j < k ==> (#[trigger] fields[j]).0 != name,
            None => forall|k: int| 0 <= k < fields.len() ==> (#[trigger] fields[k]).0 != name,
        },
    decreases fields.len(),
{
    if fields.len() > 0 {
        let rest = fields.drop_first();
        fields_are_found_by_name(rest, name);
        if fields[0].0 == name {
            assert(fields[0] == (name, fields[0].1));
        } else {
            match lookup(fields, name) {
                Some(value) => {
                    let k = choose|k: int|
                        0 <= k < rest.len() && #[trigger] rest[k] == (name, value) && forall|
                            j: int,
                        |
                            0 <= j < k ==> (#[trigger] rest[j]).0 != name;
                    assert(fields[k + 1] == (name, value));
                    assert forall|j: int| 0 <= j < k + 1 implies (#[trigger] fields[j]).0
                        != name by {
                        if j > 0 {
                            assert(rest[j - 1].0 != name);
                        }
                    }
                },
                None => {
                    assert forall|k: int| 0 <= k < fields.len() implies (#[trigger] fields[k]).0
                        != name by {
                        if k > 0 {
                            assert(rest[k - 1].0 != name);
                        }
                    }
                },
            }
        }
    }
}

/// Only an object has fields; and the text of a field is there just where the field is a text.
pub proof fn only_objects_have_fields(value: JsonView, name: Seq<char>, t: Seq<char>)
    ensures
        !(value is Object) ==> value.field(name) is None && !value.repeats(name),
        value.text_field(name) == Some(t) <==> value.field(name) == Some(JsonView::Text(t)),
{
}

/// A name comes again in an object just where two of its fields are called so.
pub proof fn repeated_names_stand_twice(
    before: Seq<(Seq<char>, JsonView)>,
    between: Seq<(Seq<char>, JsonView)>,
    after: Seq<(Seq<char>, JsonView)>,
    name: Seq<char>,
    a: JsonView,
    b: JsonView,
)
    ensures
        JsonView::Object(before + seq![(name, a)] + between + seq![(name, b)] + after).repeats(
            name,
        ),
        (forall|k: int| 0 <= k < before.len() ==> (#[trigger] before[k]).0 != name) && (forall|
            k: int,
        |
            0 <= k < after.len() ==> (#[trigger] after[k]).0 != name) ==> !JsonView::Object(
            before + seq![(name, a)] + after,
        ).repeats(name),
{
    let all = before + seq![(name, a)] + between + seq![(name, b)] + after;
    assert(all[before.len() as int].0 == name);
    assert(all[(before.len() + 1 + between.len()) as int].0 == name);
    if (forall|k: int| 0 <= k < before.len() ==> (#[trigger] before[k]).0 != name) && (forall|
        k: int,
    |
        0 <= k < after.len() ==> (#[trigger] after[k]).0 != name) {
        let once = before + seq![(name, a)] + after;
        assert forall|k: int| 0 <= k < once.len() && k != before.len() implies (
        #[trigger] once[k]).0 != name by {
            if k < before.len() {
                assert(once[k] == before[k]);
            } else {
                assert(once[k] == after[k - before.len() - 1]);
            }
        }
    }
}

} // verus!
