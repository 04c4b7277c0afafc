//! What is found in a document, and what a change to it leaves alone.

use vstd::prelude::*;
use vstd::string::*;

use crate::json;
use crate::json::JsonView;

verus! {

/// A field is found by its name, the first of them where there are several; what is
/// not there is null, and only an object has fields.
pub proof fn a_field_is_found_by_its_name(
    first: (Seq<char>, JsonView),
    rest: Seq<(Seq<char>, JsonView)>,
    key: Seq<char>,
    other: JsonView,
)
    ensures
        JsonView::Object(seq![first] + rest).field(key) == (if first.0 == key {
            first.1
        } else {
            JsonView::Object(rest).field(key)
        }),
        JsonView::Object(Seq::empty()).field(key) == JsonView::Null,
        JsonView::Object(Seq::empty()).get(key) is None,
        !(other is Object) ==> other.field(key) == JsonView::Null && other.get(key) is None,
{
    assert((seq![first] + rest).skip(1) =~= rest);
}

/// A value is read as what it is and as nothing else.
pub proof fn a_value_is_read_as_what_it_is(v: JsonView, key: Seq<char>)
    ensures
        v.str() is Some <==> v is Text,
        v.uint() is Some <==> v is Unsigned,
        v.boolean() is Some <==> v is Bool,
        v.list() is Some <==> v is Array,
        v matches JsonView::Text(s) ==> v.str() == Some(s),
        v matches JsonView::Unsigned(n) ==> v.uint() == Some(n),
        v matches JsonView::Bool(b) ==> v.boolean() == Some(b),
        v matches JsonView::Array(items) ==> v.list() == Some(items),
        v.text_at(key) == v.field(key).str(),
{
}

/// A field that was set is found, in its old place where it had one and behind the
/// others where it had none; no other field is touched.
pub proof fn a_field_that_was_set_is_found(
    fields: Seq<(Seq<char>, JsonView)>,
    key: Seq<char>,
    value: JsonView,
    other: Seq<char>,
)
    requires
        other != key,
    ensures
        ({
            let after = json::with_field(fields, key, value);
            &&& json::lookup(after, key) == Some(value)
            &&& json::lookup(after, other) == json::lookup(fields, other)
            &&& json::lookup(fields, key) is None ==> after == fields.push((key, value))
            &&& json::lookup(fields, key) is Some ==> after.len() == fields.len()
            &&& forall|i: int|
                0 <= i < fields.len() ==> (#[trigger] after[i]).0 == fields[i].0
        }),
    decreases fields.len(),
{
    let after = json::with_field(fields, key, value);
    if fields.len() == 0 {
        assert(after =~= fields.push((key, value)));
        assert(after.skip(1) =~= Seq::<(Seq<char>, JsonView)>::empty());
        reveal_with_fuel(json::lookup, 2);
    } else if fields[0].0 == key {
        assert(after.skip(1) =~= fields.skip(1));
    } else {
        let rest = fields.skip(1);
        a_field_that_was_set_is_found(rest, key, value, other);
        let less = json::with_field(rest, key, value);
        assert(after.skip(1) =~= less);
        if json::lookup(rest, key) is None {
            assert(after =~= fields.push((key, value)));
        }
        assert forall|i: int| 0 <= i < fields.len() implies (#[trigger] after[i]).0
            == fields[i].0 by {
            if i > 0 {
                assert(after[i] == less[i - 1]);
                assert(rest[i - 1] == fields[i]);
            }
        }
    }
}

/// A field that was removed is gone, once, and no other is.
pub proof fn a_field_that_was_removed_is_gone(
    fields: Seq<(Seq<char>, JsonView)>,
    key: Seq<char>,
    other: Seq<char>,
)
    requires
        other != key,
    ensures
        ({
            let after = json::without_field(fields, key);
            &&& json::lookup(after, other) == json::lookup(fields, other)
            &&& json::lookup(fields, key) is None ==> after == fields
            &&& json::lookup(fields, key) is Some ==> after.len() == fields.len() - 1
            &&& (forall|i: int, j: int|
                0 <= i < j < fields.len() ==> (#[trigger] fields[i]).0 != (
                #[trigger] fields[j]).0) ==> json::lookup(after, key) is None
        }),
    decreases fields.len(),
{
    let after = json::without_field(fields, key);
    if fields.len() > 0 {
        let rest = fields.skip(1);
        if fields[0].0 == key {
            if forall|i: int, j: int|
                0 <= i < j < fields.len() ==> (#[trigger] fields[i]).0 != (
                #[trigger] fields[j]).0 {
                assert forall|i: int| 0 <= i < rest.len() implies (#[trigger] rest[i]).0 != key by {
                    assert(rest[i] == fields[i + 1]);
                    assert(fields[0].0 != fields[i + 1].0);
                }
                lemma_nowhere(rest, key);
            }
        } else {
            a_field_that_was_removed_is_gone(rest, key, other);
            let less = json::without_field(rest, key);
            assert(after.skip(1) =~= less);
            if json::lookup(rest, key) is None {
                assert(after =~= fields);
            }
            if forall|i: int, j: int|
                0 <= i < j < fields.len() ==> (#[trigger] fields[i]).0 != (
                #[trigger] fields[j]).0 {
                assert forall|i: int, j: int| 0 <= i < j < rest.len() implies (
                #[trigger] rest[i]).0 != (#[trigger] rest[j]).0 by {
                    assert(rest[i] == fields[i + 1] && rest[j] == fields[j + 1]);
                }
            }
        }
    }
}

proof fn lemma_nowhere(fields: Seq<(Seq<char>, JsonView)>, key: Seq<char>)
    requires
        forall|i: int| 0 <= i < fields.len() ==> (#[trigger] fields[i]).0 != key,
    ensures
        json::lookup(fields, key) is None,
    decreases fields.len(),
{
    if fields.len() > 0 {
        let rest = fields.skip(1);
        assert(fields[0].0 != key);
        assert forall|i: int| 0 <= i < rest.len() implies (#[trigger] rest[i]).0 != key by {
            assert(rest[i] == fields[i + 1]);
        }
        lemma_nowhere(rest, key);
    }
}

/// Two values are alike that say the same; a list says it in order, and an object in
/// any.
pub proof fn alike_is_what_says_the_same(
    a: Seq<char>,
    b: Seq<char>,
    m: u64,
    n: u64,
    items: Seq<JsonView>,
    others: Seq<JsonView>,
    x: (Seq<char>, JsonView),
    y: (Seq<char>, JsonView),
)
    ensures
        json::alike(JsonView::Text(a), JsonView::Text(b)) <==> a == b,
        json::alike(JsonView::Unsigned(m), JsonView::Unsigned(n)) <==> m == n,
        json::alike(JsonView::Bool(true), JsonView::Bool(false)) == false,
        json::alike(JsonView::Null, JsonView::Text(a)) == false,
        json::alike(JsonView::Array(items), JsonView::Array(others)) ==> items.len() == others.len(),
        x.0 != y.0 && json::alike(x.1, x.1) && json::alike(y.1, y.1) ==> json::alike(
            JsonView::Object(seq![x, y]),
            JsonView::Object(seq![y, x]),
        ),
        json::alike(JsonView::Object(seq![x]), JsonView::Object(seq![x, y])) == false,
{
    let p = seq![x, y];
    let q = seq![y, x];
    assert(q.skip(1)[0] == x);
    reveal_with_fuel(json::lookup, 3);
    if x.0 != y.0 && json::alike(x.1, x.1) && json::alike(y.1, y.1) {
        assert forall|i: int| 0 <= i < p.len() implies json::alike_field(
            #[trigger] p[i].0,
            p[i].1,
            q,
        ) by {
            assert(i == 0 || i == 1);
        }
    }
}

} // verus!
