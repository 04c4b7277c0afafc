//! JSON, as the library reads and writes it.
//!
//! `serde_json` turns bytes into values and values into bytes. What the
//! library decides on is its own [`Json`], whose model is [`JsonView`]: a plain
//! tree, with the fields of an object in the order they were written in.

use vstd::prelude::*;
use vstd::string::*;

use crate::strings;

verus! {

pub enum Json {
    Null,
    Bool(bool),
    /// A whole number that is not negative.
    Unsigned(u64),
    /// A whole number below zero.
    Negative(i64),
    /// Any other number, by its shortest decimal text.
    Decimal(String),
    Text(String),
    Array(Vec<Json>),
    Object(Vec<(String, Json)>),
}

pub enum JsonView {
    Null,
    Bool(bool),
    Unsigned(u64),
    Negative(i64),
    Decimal(Seq<char>),
    Text(Seq<char>),
    Array(Seq<JsonView>),
    Object(Seq<(Seq<char>, JsonView)>),
}

impl View for Json {
    type V = JsonView;

    open spec fn view(&self) -> JsonView {
        self.model()
    }
}

impl Json {
    pub open spec fn model(self) -> JsonView
        decreases self,
    {
        match self {
            Json::Null => JsonView::Null,
            Json::Bool(b) => JsonView::Bool(b),
            Json::Unsigned(n) => JsonView::Unsigned(n),
            Json::Negative(n) => JsonView::Negative(n),
            Json::Decimal(s) => JsonView::Decimal(s@),
            Json::Text(s) => JsonView::Text(s@),
            Json::Array(v) => JsonView::Array(
                Seq::new(
                    v@.len(),
                    |i: int|
                        if 0 <= i < v@.len() {
                            v@[i].model()
                        } else {
                            JsonView::Null
                        },
                ),
            ),
            Json::Object(v) => JsonView::Object(
                Seq::new(
                    v@.len(),
                    |i: int|
                        if 0 <= i < v@.len() {
                            (v@[i].0@, v@[i].1.model())
                        } else {
                            (seq![], JsonView::Null)
                        },
                ),
            ),
        }
    }
}

/// The value of the first field of that name.
pub open spec fn lookup(fields: Seq<(Seq<char>, JsonView)>, key: Seq<char>) -> Option<JsonView>
    decreases fields.len(),
{
    if fields.len() == 0 {
        None
    } else if fields[0].0 == key {
        Some(fields[0].1)
    } else {
        lookup(fields.skip(1), key)
    }
}

pub open spec fn opt_json(j: Option<&Json>) -> Option<JsonView> {
    match j {
        Some(v) => Some(v@),
        None => None,
    }
}

impl JsonView {
    /// The field of that name, of an object that has one.
    pub open spec fn get(self, key: Seq<char>) -> Option<JsonView> {
        match self {
            JsonView::Object(fields) => lookup(fields, key),
            _ => None,
        }
    }

    /// The field of that name, or null.
    pub open spec fn field(self, key: Seq<char>) -> JsonView {
        match self.get(key) {
            Some(j) => j,
            None => JsonView::Null,
        }
    }

    pub open spec fn str(self) -> Option<Seq<char>> {
        match self {
            JsonView::Text(s) => Some(s),
            _ => None,
        }
    }

    pub open spec fn uint(self) -> Option<u64> {
        match self {
            JsonView::Unsigned(n) => Some(n),
            _ => None,
        }
    }

    pub open spec fn boolean(self) -> Option<bool> {
        match self {
            JsonView::Bool(b) => Some(b),
            _ => None,
        }
    }

    pub open spec fn list(self) -> Option<Seq<JsonView>> {
        match self {
            JsonView::Array(items) => Some(items),
            _ => None,
        }
    }

    /// The text in the field of that name.
    pub open spec fn text_at(self, key: Seq<char>) -> Option<Seq<char>> {
        self.field(key).str()
    }
}

pub open spec fn list_view(items: Seq<Json>) -> Seq<JsonView> {
    items.map_values(|j: Json| j@)
}

pub open spec fn fields_view(fields: Seq<(String, Json)>) -> Seq<(Seq<char>, JsonView)> {
    fields.map_values(|f: (String, Json)| (f.0@, f.1@))
}

/// The view of an array is the views of its items, and that of an object the
/// views of its fields.
pub broadcast proof fn lemma_view(j: Json)
    ensures
        #[trigger] j@ == (match j {
            Json::Array(v) => JsonView::Array(list_view(v@)),
            Json::Object(v) => JsonView::Object(fields_view(v@)),
            _ => j@,
        }),
{
    match j {
        Json::Array(v) => {
            assert(j@->Array_0 =~= list_view(v@));
        },
        Json::Object(v) => {
            assert(j@->Object_0 =~= fields_view(v@));
        },
        _ => {},
    }
}

impl Json {
    /// Whether two values are equal as JSON.
    pub fn same(&self, other: &Json) -> (r: bool)
        ensures
            r == alike(self@, other@),
        decreases self,
    {
        broadcast use lemma_view;

        match (self, other) {
            (Json::Null, Json::Null) => true,
            (Json::Bool(x), Json::Bool(y)) => *x == *y,
            (Json::Unsigned(x), Json::Unsigned(y)) => *x == *y,
            (Json::Negative(x), Json::Negative(y)) => *x == *y,
            (Json::Decimal(x), Json::Decimal(y)) => {
                let zero_x = strings::same(x.as_str(), "0.0") || strings::same(
                    x.as_str(),
                    "-0.0",
                );
                let zero_y = strings::same(y.as_str(), "0.0") || strings::same(
                    y.as_str(),
                    "-0.0",
                );
                strings::same(x.as_str(), y.as_str()) || (zero_x && zero_y)
            },
            (Json::Text(x), Json::Text(y)) => strings::same(x.as_str(), y.as_str()),
            (Json::Array(v), Json::Array(w)) => {
                let ghost a = list_view(v@);
                let ghost b = list_view(w@);
                assert(a.len() == v@.len() && b.len() == w@.len());
                if v.len() != w.len() {
                    return false;
                }
                let mut i: usize = 0;
                while i < v.len()
                    invariant
                        i <= v@.len() == w@.len(),
                        *self == Json::Array(*v),
                        *other == Json::Array(*w),
                        self@ == JsonView::Array(a),
                        other@ == JsonView::Array(b),
                        a == list_view(v@),
                        b == list_view(w@),
                        forall|j: int| 0 <= j < i ==> alike(#[trigger] a[j], b[j]),
                    decreases v@.len() - i,
                {
                    assert(decreases_to!(*self => self->Array_0));
                    assert(decreases_to!(self->Array_0 => v@));
                    assert(decreases_to!(v@ => v@[i as int]));
                    if !v[i].same(&w[i]) {
                        assert(!alike(a[i as int], b[i as int]));
                        return false;
                    }
                    i = i + 1;
                }
                true
            },
            (Json::Object(v), Json::Object(w)) => {
                let ghost a = fields_view(v@);
                let ghost b = fields_view(w@);
                assert(a.len() == v@.len() && b.len() == w@.len());
                if v.len() != w.len() {
                    return false;
                }
                let mut i: usize = 0;
                while i < v.len()
                    invariant
                        i <= v@.len() == w@.len(),
                        *self == Json::Object(*v),
                        *other == Json::Object(*w),
                        self@ == JsonView::Object(a),
                        other@ == JsonView::Object(b),
                        a == fields_view(v@),
                        b == fields_view(w@),
                        forall|j: int|
                            0 <= j < i ==> alike_field(#[trigger] a[j].0, a[j].1, b),
                    decreases v@.len() - i,
                {
                    assert(decreases_to!(*self => self->Object_0));
                    assert(decreases_to!(self->Object_0 => v@));
                    assert(decreases_to!(v@ => v@[i as int]));
                    assert(decreases_to!(v@[i as int] => v@[i as int].1));
                    assert(a[i as int] == (v@[i as int].0@, v@[i as int].1@));
                    let found = match other.get(v[i].0.as_str()) {
                        Some(value) => v[i].1.same(value),
                        None => false,
                    };
                    if !found {
                        assert(!alike_field(a[i as int].0, a[i as int].1, b));
                        return false;
                    }
                    i = i + 1;
                }
                true
            },
            _ => false,
        }
    }

    pub fn get(&self, key: &str) -> (r: Option<&Json>)
        ensures
            opt_json(r) == self@.get(key@),
    {
        broadcast use lemma_view;

        match self {
            Json::Object(v) => {
                let ghost all = fields_view(v@);
                let mut i: usize = 0;
                assert(all.skip(0) =~= all);
                while i < v.len()
                    invariant
                        i <= v@.len(),
                        all == fields_view(v@),
                        self@.get(key@) == lookup(all, key@),
                        lookup(all, key@) == lookup(all.skip(i as int), key@),
                    decreases v@.len() - i,
                {
                    assert(all.skip(i as int)[0] == (v@[i as int].0@, v@[i as int].1@));
                    assert(all.skip(i as int).skip(1) =~= all.skip(i + 1));
                    if strings::same(v[i].0.as_str(), key) {
                        return Some(&v[i].1);
                    }
                    i = i + 1;
                }
                None
            },
            _ => None,
        }
    }

    pub fn as_str(&self) -> (r: Option<&str>)
        ensures
            strings::opt_str(r) == self@.str(),
    {
        match self {
            Json::Text(s) => Some(s.as_str()),
            _ => None,
        }
    }

    pub fn as_u64(&self) -> (r: Option<u64>)
        ensures
            r == self@.uint(),
    {
        match self {
            Json::Unsigned(n) => Some(*n),
            _ => None,
        }
    }

    pub fn as_bool(&self) -> (r: Option<bool>)
        ensures
            r == self@.boolean(),
    {
        match self {
            Json::Bool(b) => Some(*b),
            _ => None,
        }
    }

    pub fn as_array(&self) -> (r: Option<&Vec<Json>>)
        ensures
            match r {
                Some(v) => self@ == JsonView::Array(list_view(v@)),
                None => self@ !is Array,
            },
    {
        broadcast use lemma_view;

        match self {
            Json::Array(v) => Some(v),
            _ => None,
        }
    }

    pub fn is_object(&self) -> (r: bool)
        ensures
            r == (self@ is Object),
    {
        match self {
            Json::Object(_) => true,
            _ => false,
        }
    }

    /// The text in the field of that name.
    pub fn text_at(&self, key: &str) -> (r: Option<&str>)
        ensures
            strings::opt_str(r) == self@.text_at(key@),
    {
        match self.get(key) {
            Some(j) => j.as_str(),
            None => None,
        }
    }

    /// A value of its own with the same contents.
    pub fn copy(&self) -> (r: Json)
        ensures
            r@ == self@,
        decreases self,
    {
        broadcast use lemma_view;

        match self {
            Json::Null => Json::Null,
            Json::Bool(b) => Json::Bool(*b),
            Json::Unsigned(n) => Json::Unsigned(*n),
            Json::Negative(n) => Json::Negative(*n),
            Json::Decimal(s) => Json::Decimal(s.clone()),
            Json::Text(s) => Json::Text(s.clone()),
            Json::Array(v) => {
                let mut out: Vec<Json> = Vec::new();
                let mut i: usize = 0;
                while i < v.len()
                    invariant
                        i <= v@.len(),
                        self == Json::Array(*v),
                        out@.len() == i,
                        forall|j: int| 0 <= j < i ==> (#[trigger] out@[j])@ == v@[j]@,
                    decreases v@.len() - i,
                {
                    assert(decreases_to!(*self => self->Array_0));
                    assert(decreases_to!(self->Array_0 => v@));
                    assert(decreases_to!(v@ => v@[i as int]));
                    out.push(v[i].copy());
                    i = i + 1;
                }
                assert(list_view(out@) =~= list_view(v@));
                Json::Array(out)
            },
            Json::Object(v) => {
                let mut out: Vec<(String, Json)> = Vec::new();
                let mut i: usize = 0;
                while i < v.len()
                    invariant
                        i <= v@.len(),
                        self == Json::Object(*v),
                        out@.len() == i,
                        forall|j: int|
                            0 <= j < i ==> (#[trigger] out@[j]).0@ == v@[j].0@ && out@[j].1@
                                == v@[j].1@,
                    decreases v@.len() - i,
                {
                    assert(decreases_to!(*self => self->Object_0));
                    assert(decreases_to!(self->Object_0 => v@));
                    assert(decreases_to!(v@ => v@[i as int]));
                    assert(decreases_to!(v@[i as int] => v@[i as int].1));
                    out.push((v[i].0.clone(), v[i].1.copy()));
                    i = i + 1;
                }
                assert(fields_view(out@) =~= fields_view(v@));
                Json::Object(out)
            },
        }
    }
}

// --- fields ----------------------------------------------------------------
/// The fields with that one set: in its old place, or behind the others.
pub open spec fn with_field(
    fields: Seq<(Seq<char>, JsonView)>,
    key: Seq<char>,
    value: JsonView,
) -> Seq<(Seq<char>, JsonView)>
    decreases fields.len(),
{
    if fields.len() == 0 {
        seq![(key, value)]
    } else if fields[0].0 == key {
        fields.update(0, (key, value))
    } else {
        seq![fields[0]] + with_field(fields.skip(1), key, value)
    }
}

/// The fields without the first of that name.
pub open spec fn without_field(fields: Seq<(Seq<char>, JsonView)>, key: Seq<char>) -> Seq<
    (Seq<char>, JsonView),
>
    decreases fields.len(),
{
    if fields.len() == 0 {
        seq![]
    } else if fields[0].0 == key {
        fields.skip(1)
    } else {
        seq![fields[0]] + without_field(fields.skip(1), key)
    }
}

/// Where a field is found.
pub open spec fn field_place(fields: Seq<(Seq<char>, JsonView)>, key: Seq<char>) -> Option<int>
    decreases fields.len(),
{
    if fields.len() == 0 {
        None
    } else if fields[0].0 == key {
        Some(0)
    } else {
        match field_place(fields.skip(1), key) {
            Some(i) => Some(i + 1),
            None => None,
        }
    }
}

/// Setting and dropping a field, by the place it is found at.
pub proof fn lemma_field_place(
    fields: Seq<(Seq<char>, JsonView)>,
    key: Seq<char>,
    value: JsonView,
)
    ensures
        match field_place(fields, key) {
            Some(i) => {
                &&& 0 <= i < fields.len()
                &&& fields[i].0 == key
                &&& lookup(fields, key) == Some(fields[i].1)
                &&& with_field(fields, key, value) == fields.update(i, (key, value))
                &&& without_field(fields, key) == fields.remove(i)
                &&& forall|j: int| 0 <= j < i ==> (#[trigger] fields[j]).0 != key
            },
            None => {
                &&& lookup(fields, key) is None
                &&& with_field(fields, key, value) == fields.push((key, value))
                &&& without_field(fields, key) == fields
                &&& forall|j: int| 0 <= j < fields.len() ==> (#[trigger] fields[j]).0 != key
            },
        },
    decreases fields.len(),
{
    if fields.len() > 0 && fields[0].0 != key {
        let rest = fields.skip(1);
        lemma_field_place(rest, key, value);
        match field_place(rest, key) {
            Some(i) => {
                assert(rest[i] == fields[i + 1]);
                assert(seq![fields[0]] + rest.update(i, (key, value)) =~= fields.update(
                    i + 1,
                    (key, value),
                ));
                assert(seq![fields[0]] + rest.remove(i) =~= fields.remove(i + 1));
                assert forall|j: int| 0 <= j < i + 1 implies (#[trigger] fields[j]).0 != key by {
                    if j > 0 {
                        assert(rest[j - 1] == fields[j]);
                    }
                }
            },
            None => {
                assert(seq![fields[0]] + rest.push((key, value)) =~= fields.push((key, value)));
                assert(seq![fields[0]] + rest =~= fields);
                assert forall|j: int| 0 <= j < fields.len() implies (#[trigger] fields[j]).0
                    != key by {
                    if j > 0 {
                        assert(rest[j - 1] == fields[j]);
                    }
                }
            },
        }
    } else if fields.len() > 0 {
        assert(fields.skip(1) =~= fields.remove(0));
    } else {
        assert(with_field(fields, key, value) =~= fields.push((key, value)));
        assert(without_field(fields, key) =~= fields);
    }
}

fn find_field(fields: &Vec<(String, Json)>, key: &str) -> (r: Option<usize>)
    ensures
        match r {
            Some(i) => field_place(fields_view(fields@), key@) == Some(i as int),
            None => field_place(fields_view(fields@), key@) is None,
        },
{
    let ghost all = fields_view(fields@);
    let mut i: usize = 0;
    assert(all.skip(0) =~= all);
    while i < fields.len()
        invariant
            i <= fields@.len(),
            all == fields_view(fields@),
            match field_place(all.skip(i as int), key@) {
                Some(k) => field_place(all, key@) == Some(k + i),
                None => field_place(all, key@) is None,
            },
        decreases fields@.len() - i,
    {
        assert(all.skip(i as int)[0] == (fields@[i as int].0@, fields@[i as int].1@));
        assert(all.skip(i as int).skip(1) =~= all.skip(i + 1));
        if strings::same(fields[i].0.as_str(), key) {
            return Some(i);
        }
        i = i + 1;
    }
    None
}

pub fn set_field(fields: Vec<(String, Json)>, key: &str, value: Json) -> (r: Vec<(String, Json)>)
    ensures
        fields_view(r@) == with_field(fields_view(fields@), key@, value@),
{
    let mut fields = fields;
    let ghost before = fields_view(fields@);
    proof {
        lemma_field_place(before, key@, value@);
    }
    match find_field(&fields, key) {
        Some(i) => {
            let ghost held = value@;
            fields.set(i, (key.to_owned(), value));
            assert(fields_view(fields@) =~= before.update(i as int, (key@, held)));
        },
        None => {
            let ghost held = value@;
            fields.push((key.to_owned(), value));
            assert(fields_view(fields@) =~= before.push((key@, held)));
        },
    }
    fields
}

pub fn drop_field(fields: Vec<(String, Json)>, key: &str) -> (r: Vec<(String, Json)>)
    ensures
        fields_view(r@) == without_field(fields_view(fields@), key@),
{
    let mut fields = fields;
    let ghost before = fields_view(fields@);
    proof {
        lemma_field_place(before, key@, JsonView::Null);
    }
    if let Some(i) = find_field(&fields, key) {
        let _ = fields.remove(i);
        assert(fields_view(fields@) =~= before.remove(i as int));
    }
    fields
}

pub fn copy_list(items: &Vec<Json>) -> (r: Vec<Json>)
    ensures
        list_view(r@) == list_view(items@),
{
    let mut out: Vec<Json> = Vec::new();
    let mut i: usize = 0;
    while i < items.len()
        invariant
            i <= items@.len(),
            out@.len() == i,
            forall|j: int| 0 <= j < i ==> (#[trigger] out@[j])@ == items@[j]@,
        decreases items@.len() - i,
    {
        out.push(items[i].copy());
        i = i + 1;
    }
    assert(list_view(out@) =~= list_view(items@));
    out
}

pub fn copy_fields(fields: &Vec<(String, Json)>) -> (r: Vec<(String, Json)>)
    ensures
        fields_view(r@) == fields_view(fields@),
{
    let mut out: Vec<(String, Json)> = Vec::new();
    let mut i: usize = 0;
    while i < fields.len()
        invariant
            i <= fields@.len(),
            out@.len() == i,
            forall|j: int|
                0 <= j < i ==> (#[trigger] out@[j]).0@ == fields@[j].0@ && out@[j].1@
                    == fields@[j].1@,
        decreases fields@.len() - i,
    {
        out.push((fields[i].0.clone(), fields[i].1.copy()));
        i = i + 1;
    }
    assert(fields_view(out@) =~= fields_view(fields@));
    out
}

// --- sameness --------------------------------------------------------------
pub open spec fn is_zero(s: Seq<char>) -> bool {
    s == "0.0"@ || s == "-0.0"@
}

/// Whether two values are equal as JSON: the order of an object's fields does
/// not matter, and the two float zeros are one.
pub open spec fn alike(a: JsonView, b: JsonView) -> bool
    decreases a, 0int,
{
    match (a, b) {
        (JsonView::Null, JsonView::Null) => true,
        (JsonView::Bool(x), JsonView::Bool(y)) => x == y,
        (JsonView::Unsigned(x), JsonView::Unsigned(y)) => x == y,
        (JsonView::Negative(x), JsonView::Negative(y)) => x == y,
        (JsonView::Decimal(x), JsonView::Decimal(y)) => x == y || (is_zero(x) && is_zero(y)),
        (JsonView::Text(x), JsonView::Text(y)) => x == y,
        (JsonView::Array(x), JsonView::Array(y)) => x.len() == y.len() && forall|i: int|
            0 <= i < x.len() ==> alike(#[trigger] x[i], y[i]),
        (JsonView::Object(x), JsonView::Object(y)) => x.len() == y.len() && forall|i: int|
            0 <= i < x.len() ==> alike_field(#[trigger] x[i].0, x[i].1, y),
        _ => false,
    }
}

/// Whether a value is the one an object has under a name.
pub open spec fn alike_field(
    key: Seq<char>,
    value: JsonView,
    fields: Seq<(Seq<char>, JsonView)>,
) -> bool
    decreases value, 1int,
{
    match lookup(fields, key) {
        Some(other) => alike(value, other),
        None => false,
    }
}

// --- bytes -----------------------------------------------------------------
#[verifier::external_type_specification]
#[verifier::external_body]
pub struct ExValue(serde_json::Value);

/// The tree that a `serde_json::Value` holds.
pub uninterp spec fn document(v: serde_json::Value) -> JsonView;

/// What `serde_json::from_slice` reads into a `serde_json::Value`.
pub uninterp spec fn parsed(bytes: Seq<u8>) -> Option<JsonView>;

/// What the `serde_json::Error` says of bytes that cannot be read.
pub uninterp spec fn complaint(bytes: Seq<u8>) -> Seq<char>;

/// What `serde_json::to_vec` writes for a value.
pub uninterp spec fn rendered(j: JsonView) -> Seq<u8>;

/// What `serde_json::to_vec_pretty` writes for a value.
pub uninterp spec fn rendered_pretty(j: JsonView) -> Seq<u8>;

/// What `serde_json` reads from a text.
pub open spec fn parsed_text(s: Seq<char>) -> Option<JsonView> {
    parsed(vstd::utf8::encode_utf8(s))
}

pub open spec fn distinct(fields: Seq<(Seq<char>, JsonView)>) -> bool {
    forall|i: int, j: int|
        0 <= i < j < fields.len() ==> (#[trigger] fields[i]).0 != (#[trigger] fields[j]).0
}

/// Whether a tree is one that `serde_json` can hold: no object has a field
/// twice, a number below zero is below zero, and a decimal text is one that it
/// reads and writes.
pub open spec fn storable(j: JsonView) -> bool
    decreases j,
{
    match j {
        JsonView::Negative(n) => n < 0,
        JsonView::Decimal(s) => parsed_text(s) == Some(j),
        JsonView::Array(items) => forall|i: int|
            0 <= i < items.len() ==> storable(#[trigger] items[i]),
        JsonView::Object(fields) => distinct(fields) && forall|i: int|
            0 <= i < fields.len() ==> storable((#[trigger] fields[i]).1),
        _ => true,
    }
}

/// The name that `serde_json` gives to a text that it holds unread. An object
/// that begins with it is read as the value which that text stands for.
pub open spec fn raw_key() -> Seq<char> {
    "$serde_json::private::RawValue"@
}

/// Whether a tree is read as it is written: no more than `n` arrays and objects
/// are nested in one another, and no object begins with the name of an unread
/// text.
pub open spec fn legible(j: JsonView, n: nat) -> bool
    decreases j,
{
    match j {
        JsonView::Array(items) => n > 0 && forall|i: int|
            0 <= i < items.len() ==> legible(#[trigger] items[i], (n - 1) as nat),
        JsonView::Object(fields) => {
            &&& n > 0
            &&& fields.len() > 0 ==> fields[0].0 != raw_key()
            &&& forall|i: int|
                0 <= i < fields.len() ==> legible((#[trigger] fields[i]).1, (n - 1) as nat)
        },
        _ => true,
    }
}

/// A name that does not begin with a dollar is a name like any other.
pub proof fn lemma_plain_key(key: Seq<char>)
    requires
        key.len() > 0,
        key[0] != '$',
    ensures
        key != raw_key(),
{
    reveal_strlit("$serde_json::private::RawValue");
    assert(raw_key()[0] == '$');
}

/// How deep `serde_json` reads: an array or object inside that many others is
/// refused.
pub const MAX_NESTING: u64 = 127;

/// `serde_json::from_slice` into a `serde_json::Value`: the value that JSON
/// bytes stand for, and where they are not JSON, what the error that comes
/// instead says of them as text. Both are named.
#[verifier::external_body]
fn decode(bytes: &[u8]) -> (r: Result<serde_json::Value, String>)
    ensures
        match r {
            Ok(v) => parsed(bytes@) == Some(document(v)),
            Err(e) => parsed(bytes@) is None && complaint(bytes@) == e@,
        },
{
    serde_json::from_slice(bytes).map_err(|e: serde_json::Error| e.to_string())
}

/// Unpacks a `serde_json::Value`, variant by variant. A `Value` never holds an
/// object with a field twice, and its numbers are a `u64`, an `i64` below zero,
/// or a finite float, which is kept by the text `serde_json` writes for it and
/// reads back.
#[verifier::external_body]
fn adopt(value: serde_json::Value) -> (r: Json)
    ensures
        r@ == document(value),
        storable(r@),
{
    match value {
        serde_json::Value::Null => Json::Null,
        serde_json::Value::Bool(b) => Json::Bool(b),
        serde_json::Value::Number(n) => match (n.as_u64(), n.as_i64()) {
            (Some(u), _) => Json::Unsigned(u),
            (None, Some(i)) => Json::Negative(i),
            (None, None) => Json::Decimal(n.to_string()),
        },
        serde_json::Value::String(s) => Json::Text(s),
        serde_json::Value::Array(v) => Json::Array(v.into_iter().map(adopt).collect()),
        serde_json::Value::Object(m) => {
            Json::Object(m.into_iter().map(|(k, v)| (k, adopt(v))).collect())
        },
    }
}

/// Packs a value into a `serde_json::Value`, variant by variant. A decimal is
/// read back from its text by `serde_json::from_str`. How deep a value may be
/// nested for this is left to the stack.
#[verifier::external_body]
fn release(j: &Json) -> (r: serde_json::Value)
    requires
        storable(j@),
    ensures
        document(r) == j@,
{
    match j {
        Json::Null => serde_json::Value::Null,
        Json::Bool(b) => serde_json::Value::Bool(*b),
        Json::Unsigned(n) => serde_json::Value::from(*n),
        Json::Negative(n) => serde_json::Value::from(*n),
        Json::Decimal(s) => serde_json::from_str(s).unwrap_or_default(),
        Json::Text(s) => serde_json::Value::String(s.clone()),
        Json::Array(v) => serde_json::Value::Array(v.iter().map(release).collect()),
        Json::Object(v) => {
            serde_json::Value::Object(v.iter().map(|f| (f.0.clone(), release(&f.1))).collect())
        },
    }
}

/// `serde_json::to_vec`. Its result is named; what it writes is read back as
/// the value it was written for, as long as the value is not nested deeper than
/// the reader goes and none of its objects begins with the name by which the
/// reader knows an unread text. Writing a `serde_json::Value` to memory does not fail.
#[verifier::external_body]
fn encode(value: &serde_json::Value) -> (r: Vec<u8>)
    ensures
        r@ == rendered(document(*value)),
        legible(document(*value), MAX_NESTING as nat) ==> parsed(r@) == Some(
            document(*value),
        ),
{
    serde_json::to_vec(value).unwrap_or_default()
}

/// `serde_json::to_vec_pretty`, of which the same holds.
#[verifier::external_body]
fn encode_pretty(value: &serde_json::Value) -> (r: Vec<u8>)
    ensures
        r@ == rendered_pretty(document(*value)),
        legible(document(*value), MAX_NESTING as nat) ==> parsed(r@) == Some(
            document(*value),
        ),
{
    serde_json::to_vec_pretty(value).unwrap_or_default()
}

/// The value that JSON bytes stand for.
pub fn from_bytes(bytes: &[u8]) -> (r: Option<Json>)
    ensures
        parsed(bytes@) == (match r {
            Some(j) => Some(j@),
            None => None,
        }),
        r matches Some(j) ==> storable(j@),
{
    match decode(bytes) {
        Ok(v) => Some(adopt(v)),
        Err(_) => None,
    }
}

/// The value that a JSON text stands for.
pub fn parse(text: &str) -> (r: Option<Json>)
    ensures
        parsed_text(text@) == (match r {
            Some(j) => Some(j@),
            None => None,
        }),
        r matches Some(j) ==> storable(j@),
{
    from_bytes(text.as_bytes())
}

/// The value that a JSON text stands for, or what is wrong with the text.
pub open spec fn read_spec(text: Seq<char>) -> Result<JsonView, Seq<char>> {
    match parsed_text(text) {
        Some(j) => Ok(j),
        None => Err(complaint(vstd::utf8::encode_utf8(text))),
    }
}

pub fn read(text: &str) -> (r: Result<Json, String>)
    ensures
        read_spec(text@) == (match r {
            Ok(j) => Ok(j@),
            Err(e) => Err(e@),
        }),
        r matches Ok(j) ==> storable(j@),
{
    match decode(text.as_bytes()) {
        Ok(v) => Ok(adopt(v)),
        Err(e) => Err(e),
    }
}

impl Json {
    /// Whether the value is one that can be written and is read back.
    pub fn is_storable(&self) -> (r: bool)
        ensures
            r == storable(self@),
        decreases self,
    {
        broadcast use lemma_view;

        match self {
            Json::Negative(n) => *n < 0,
            Json::Decimal(s) => match parse(s.as_str()) {
                Some(Json::Decimal(t)) => strings::same(t.as_str(), s.as_str()),
                _ => false,
            },
            Json::Array(v) => {
                let ghost a = list_view(v@);
                assert(a.len() == v@.len());
                let mut i: usize = 0;
                while i < v.len()
                    invariant
                        i <= v@.len(),
                        *self == Json::Array(*v),
                        self@ == JsonView::Array(a),
                        a == list_view(v@),
                        forall|j: int| 0 <= j < i ==> storable(#[trigger] a[j]),
                    decreases v@.len() - i,
                {
                    assert(decreases_to!(*self => self->Array_0));
                    assert(decreases_to!(self->Array_0 => v@));
                    assert(decreases_to!(v@ => v@[i as int]));
                    if !v[i].is_storable() {
                        assert(!storable(a[i as int]));
                        assert(self@->Array_0 == a);
                        return false;
                    }
                    i = i + 1;
                }
                true
            },
            Json::Object(v) => {
                let ghost a = fields_view(v@);
                assert(a.len() == v@.len());
                let mut i: usize = 0;
                while i < v.len()
                    invariant
                        i <= v@.len(),
                        *self == Json::Object(*v),
                        self@ == JsonView::Object(a),
                        a == fields_view(v@),
                        forall|j: int| 0 <= j < i ==> storable((#[trigger] a[j]).1),
                        forall|j: int, k: int|
                            0 <= j < k < i ==> (#[trigger] a[j]).0 != (#[trigger] a[k]).0,
                    decreases v@.len() - i,
                {
                    assert(decreases_to!(*self => self->Object_0));
                    assert(decreases_to!(self->Object_0 => v@));
                    assert(decreases_to!(v@ => v@[i as int]));
                    if !v[i].1.is_storable() {
                        assert(!storable(a[i as int].1));
                        assert(self@->Object_0 == a);
                        return false;
                    }
                    let mut j: usize = 0;
                    while j < i
                        invariant
                            j <= i < v@.len(),
                            self@ == JsonView::Object(a),
                            a == fields_view(v@),
                            forall|k: int|
                                0 <= k < j ==> (#[trigger] a[k]).0 != a[i as int].0,
                        decreases i - j,
                    {
                        if strings::same(v[j].0.as_str(), v[i].0.as_str()) {
                            assert(a[j as int].0 == a[i as int].0);
                            assert(!distinct(a));
                            return false;
                        }
                        j = j + 1;
                    }
                    i = i + 1;
                }
                true
            },
            _ => true,
        }
    }
}

/// The bytes of a value.
pub(crate) fn to_bytes(j: &Json) -> (r: Vec<u8>)
    requires
        storable(j@),
    ensures
        r@ == rendered(j@),
        legible(j@, MAX_NESTING as nat) ==> parsed(r@) == Some(j@),
{
    encode(&release(j))
}

/// The bytes of a value, laid out over lines.
pub(crate) fn to_pretty_bytes(j: &Json) -> (r: Vec<u8>)
    requires
        storable(j@),
    ensures
        r@ == rendered_pretty(j@),
        legible(j@, MAX_NESTING as nat) ==> parsed(r@) == Some(j@),
{
    encode_pretty(&release(j))
}

} // verus!
