//! What installing and removing our hooks promises.

use vstd::prelude::*;
use vstd::string::*;

use crate::cli;
use crate::install;
use crate::install::RefusalView;
use crate::json;
use crate::json::JsonView;
use crate::strings;

verus! {

/// Stripping twice is stripping once.
pub proof fn stripping_is_final(groups: Seq<JsonView>)
    ensures
        install::stripped(install::stripped(groups)) == install::stripped(groups),
    decreases groups.len(),
{
    if groups.len() > 0 {
        stripping_is_final(groups.drop_last());
        let before = install::stripped(groups.drop_last());
        let last = groups.last();
        if !install::hollow(last) {
            let after = install::stripped(groups);
            assert(after.drop_last() =~= before);
            assert(after.last() == install::cleared(last));
            lemma_cleared(last);
        }
    }
}

proof fn lemma_cleared(group: JsonView)
    ensures
        install::cleared(install::cleared(group)) == install::cleared(group),
        install::hollow(install::cleared(group)) == install::hollow(group),
{
    if let JsonView::Object(fields) = group {
        if let Some(entries) = install::entries_of(group) {
            let list = JsonView::Array(install::others(entries));
            lemma_set_then_get(fields, "hooks"@, list);
            lemma_set_twice(fields, "hooks"@, list);
            install::lemma_others(entries);
        }
    }
}

proof fn lemma_set_then_get(fields: Seq<(Seq<char>, JsonView)>, key: Seq<char>, value: JsonView)
    ensures
        json::lookup(json::with_field(fields, key, value), key) == Some(value),
        forall|other: Seq<char>|
            other != key ==> #[trigger] json::lookup(
                json::with_field(fields, key, value),
                other,
            ) == json::lookup(fields, other),
    decreases fields.len(),
{
    let after = json::with_field(fields, key, value);
    if fields.len() == 0 {
        assert(after.skip(1) =~= fields);
    } else if fields[0].0 == key {
        assert(after.skip(1) =~= fields.skip(1));
    } else {
        lemma_set_then_get(fields.skip(1), key, value);
        assert(after.skip(1) =~= json::with_field(fields.skip(1), key, value));
        assert(after[0] == fields[0]);
    }
    assert forall|other: Seq<char>| other != key implies #[trigger] json::lookup(after, other)
        == json::lookup(fields, other) by {
        assert(after.len() > 0);
        if after[0].0 != other {
            assert(json::lookup(after, other) == json::lookup(after.skip(1), other));
            if fields.len() > 0 {
                assert(json::lookup(fields, other) == json::lookup(fields.skip(1), other));
            }
        }
    }
}

proof fn lemma_set_twice(fields: Seq<(Seq<char>, JsonView)>, key: Seq<char>, value: JsonView)
    ensures
        json::with_field(json::with_field(fields, key, value), key, value) == json::with_field(
            fields,
            key,
            value,
        ),
    decreases fields.len(),
{
    let after = json::with_field(fields, key, value);
    if fields.len() == 0 || fields[0].0 == key {
        assert(json::with_field(after, key, value) =~= after);
    } else {
        lemma_set_twice(fields.skip(1), key, value);
        assert(after.skip(1) =~= json::with_field(fields.skip(1), key, value));
        assert(after[0] == fields[0]);
    }
}

proof fn lemma_our_group(exe: Seq<char>, event: Seq<char>)
    requires
        install::marked(exe),
    ensures
        install::hollow(install::our_group_spec(exe, event)),
        install::group_has(install::our_group_spec(exe, event)),
{
    reveal_strlit("matcher");
    reveal_strlit("hooks");
    reveal_strlit("type");
    reveal_strlit("command");
    assert("matcher"@.len() == 7 && "hooks"@.len() == 5 && "type"@.len() == 4
        && "command"@.len() == 7);
    let group = install::our_group_spec(exe, event);
    let fields = group->Object_0;
    let entries = fields[1].1->Array_0;
    let entry = entries[0]->Object_0;
    reveal_with_fuel(json::lookup, 3);
    assert(fields.skip(1)[0] == fields[1]);
    assert(json::lookup(fields, "hooks"@) == Some(fields[1].1));
    assert(entry.skip(1)[0] == entry[1]);
    assert(json::lookup(entry, "command"@) == Some(JsonView::Text(exe)));
    assert(install::ours(entries[0]));
    assert(install::entries_of(group) == Some(entries));
    assert(install::ours((install::entries_of(group)->0)[0]));
    reveal_with_fuel(install::others, 2);
    assert(entries.drop_last() =~= seq![]);
    assert(install::others(entries) =~= seq![]);
}

/// An event's groups with ours added behind them strip to what they stripped to
/// before.
proof fn lemma_strip_added(groups: Seq<JsonView>, exe: Seq<char>, event: Seq<char>)
    requires
        install::marked(exe),
    ensures
        install::stripped(groups.push(install::our_group_spec(exe, event))) == install::stripped(groups),
{
    lemma_our_group(exe, event);
    assert(groups.push(install::our_group_spec(exe, event)).drop_last() =~= groups);
}

// --- which events there are --------------------------------------------------
proof fn lemma_names_differ()
    ensures
        forall|i: int, j: int|
            0 <= i < j < install::event_names().len() ==> (#[trigger] install::event_names()[i])
                != (#[trigger] install::event_names()[j]),
{
    reveal_strlit("SessionStart");
    reveal_strlit("UserPromptSubmit");
    reveal_strlit("PreToolUse");
    reveal_strlit("PostToolUse");
    reveal_strlit("PostToolUseFailure");
    reveal_strlit("PermissionRequest");
    reveal_strlit("PermissionDenied");
    reveal_strlit("Notification");
    reveal_strlit("Stop");
    reveal_strlit("StopFailure");
    reveal_strlit("SubagentStart");
    reveal_strlit("SubagentStop");
    reveal_strlit("PreCompact");
    reveal_strlit("PostCompact");
    reveal_strlit("SessionEnd");
    assert("SessionStart"@.len() == 12 && "SessionStart"@[1] == 'e');
    assert("UserPromptSubmit"@.len() == 16 && "UserPromptSubmit"@[1] == 's');
    assert("PreToolUse"@.len() == 10 && "PreToolUse"@[3] == 'T');
    assert("PostToolUse"@.len() == 11 && "PostToolUse"@[4] == 'T');
    assert("PostToolUseFailure"@.len() == 18);
    assert("PermissionRequest"@.len() == 17);
    assert("PermissionDenied"@.len() == 16 && "PermissionDenied"@[1] == 'e');
    assert("Notification"@.len() == 12 && "Notification"@[1] == 'o');
    assert("Stop"@.len() == 4);
    assert("StopFailure"@.len() == 11 && "StopFailure"@[4] == 'F');
    assert("SubagentStart"@.len() == 13);
    assert("SubagentStop"@.len() == 12 && "SubagentStop"@[1] == 'u');
    assert("PreCompact"@.len() == 10 && "PreCompact"@[3] == 'C');
    assert("PostCompact"@.len() == 11 && "PostCompact"@[4] == 'C');
    assert("SessionEnd"@.len() == 10 && "SessionEnd"@[3] == 's');
}

// --- looking up --------------------------------------------------------------
/// Where no name occurs twice, every field is found under its name.
proof fn lemma_found(fields: Seq<(Seq<char>, JsonView)>, i: int)
    requires
        json::distinct(fields),
        0 <= i < fields.len(),
    ensures
        json::lookup(fields, fields[i].0) == Some(fields[i].1),
{
    json::lemma_field_place(fields, fields[i].0, JsonView::Null);
}

proof fn lemma_found_at(fields: Seq<(Seq<char>, JsonView)>, key: Seq<char>)
    ensures
        match json::lookup(fields, key) {
            Some(value) => exists|i: int|
                0 <= i < fields.len() && #[trigger] fields[i] == (key, value),
            None => forall|i: int| 0 <= i < fields.len() ==> (#[trigger] fields[i]).0 != key,
        },
{
    json::lemma_field_place(fields, key, JsonView::Null);
    match json::field_place(fields, key) {
        Some(i) => {
            assert(fields[i] == (key, fields[i].1));
        },
        None => {},
    }
}

/// Of fields without a name twice, all but the last are such fields too.
proof fn lemma_fewer(fields: Seq<(Seq<char>, JsonView)>)
    requires
        json::distinct(fields),
        fields.len() > 0,
    ensures
        json::distinct(fields.drop_last()),
        forall|i: int|
            0 <= i < fields.len() - 1 ==> (#[trigger] fields[i]).0 != fields.last().0,
{
    let rest = fields.drop_last();
    assert forall|a: int, b: int| 0 <= a < b < rest.len() implies (#[trigger] rest[a]).0 != (
    #[trigger] rest[b]).0 by {
        assert(fields[a].0 != fields[b].0);
    }
    assert forall|i: int| 0 <= i < fields.len() - 1 implies (#[trigger] fields[i]).0
        != fields.last().0 by {
        assert(fields[i].0 != fields[fields.len() - 1].0);
    }
}

// --- purging -----------------------------------------------------------------
/// Nothing of ours is left in an event that was stripped.
proof fn lemma_field_clean(field: (Seq<char>, JsonView))
    ensures
        !install::event_has(install::field_after(field).1),
{
    if let JsonView::Array(groups) = field.1 {
        lemma_stripped_clean(groups);
        let value = install::field_after(field).1;
        assert(value->Array_0 == install::stripped(groups));
    }
}

/// Making room keeps the names in order, and leaves what there is to add to.
proof fn lemma_purged_part(hooks: Seq<(Seq<char>, JsonView)>)
    requires
        json::distinct(hooks),
    ensures
        json::distinct(install::purged(hooks, true)),
        forall|i: int|
            #![trigger install::purged(hooks, true)[i]]
            0 <= i < install::purged(hooks, true).len() ==> {
                let kept = install::purged(hooks, true)[i];
                &&& !install::event_has(kept.1)
                &&& install::event_names().contains(kept.0) ==> install::field_after(kept) == kept
                &&& exists|j: int|
                    0 <= j < hooks.len()
                        && Some(kept) == install::treated(#[trigger] hooks[j], true)
            },
        forall|j: int|
            #![trigger hooks[j]]
            0 <= j < hooks.len() && install::treated(hooks[j], true) is Some ==> exists|i: int|
                0 <= i < install::purged(hooks, true).len() && Some(
                    #[trigger] install::purged(hooks, true)[i],
                ) == install::treated(hooks[j], true),
    decreases hooks.len(),
{
    if hooks.len() > 0 {
        let rest = hooks.drop_last();
        let last = hooks.last();
        lemma_fewer(hooks);
        lemma_purged_part(rest);
        lemma_field_after(last);
        lemma_field_clean(last);
        let before = install::purged(rest, true);
        let after = install::purged(hooks, true);
        assert forall|i: int| #![trigger after[i]] 0 <= i < after.len() implies {
            &&& !install::event_has(after[i].1)
            &&& install::event_names().contains(after[i].0) ==> install::field_after(after[i])
                == after[i]
            &&& exists|j: int|
                0 <= j < hooks.len()
                    && Some(after[i]) == install::treated(#[trigger] hooks[j], true)
        } by {
            if i < before.len() {
                assert(after[i] == before[i]);
                let j = choose|j: int|
                    0 <= j < rest.len() && Some(before[i]) == install::treated(
                        #[trigger] rest[j],
                        true,
                    );
                assert(hooks[j] == rest[j]);
            } else {
                assert(Some(after[i]) == install::treated(hooks[hooks.len() - 1], true));
            }
        }
        assert forall|a: int, b: int| 0 <= a < b < after.len() implies (#[trigger] after[a]).0 != (
        #[trigger] after[b]).0 by {
            if b < before.len() {
                assert(before[a].0 != before[b].0);
            } else {
                let j = choose|j: int|
                    0 <= j < rest.len() && Some(before[a]) == install::treated(
                        #[trigger] rest[j],
                        true,
                    );
                lemma_field_after(rest[j]);
                assert(hooks[j].0 != last.0);
                assert(after[a] == before[a]);
            }
        }
        assert forall|j: int|
            #![trigger hooks[j]]
            0 <= j < hooks.len() && install::treated(hooks[j], true) is Some implies exists|i: int|
            0 <= i < after.len() && Some(#[trigger] after[i]) == install::treated(
                hooks[j],
                true,
            ) by {
            if j < rest.len() {
                assert(rest[j] == hooks[j]);
                let i = choose|i: int|
                    0 <= i < before.len() && Some(#[trigger] before[i]) == install::treated(
                        rest[j],
                        true,
                    );
                assert(after[i] == before[i]);
            } else {
                assert(Some(after[after.len() - 1]) == install::treated(hooks[j], true));
            }
        }
    }
}

proof fn lemma_field_after(field: (Seq<char>, JsonView))
    ensures
        install::field_after(install::field_after(field)) == install::field_after(field),
        install::emptied(install::field_after(field)) == install::emptied(field),
        install::field_after(field).0 == field.0,
{
    if let JsonView::Array(groups) = field.1 {
        stripping_is_final(groups);
    }
}

/// Whatever made room before, a removal leaves what it would have left.
proof fn lemma_purged_again(hooks: Seq<(Seq<char>, JsonView)>)
    ensures
        install::purged(install::purged(hooks, true), false) == install::purged(hooks, false),
    decreases hooks.len(),
{
    if hooks.len() > 0 {
        lemma_purged_again(hooks.drop_last());
        let last = hooks.last();
        lemma_field_after(last);
        let before = install::purged(hooks.drop_last(), true);
        let after = install::purged(hooks, true);
        if install::treated(last, true) is Some {
            assert(after.drop_last() =~= before);
        }
    }
}

/// A field may be replaced by one that purging makes the same of.
proof fn lemma_purged_update(
    hooks: Seq<(Seq<char>, JsonView)>,
    i: int,
    field: (Seq<char>, JsonView),
)
    requires
        0 <= i < hooks.len(),
        field.0 == hooks[i].0,
        install::field_after(field) == install::field_after(hooks[i]),
        install::emptied(field) == install::emptied(hooks[i]),
    ensures
        install::purged(hooks.update(i, field), false) == install::purged(hooks, false),
    decreases hooks.len(),
{
    let other = hooks.update(i, field);
    if i < hooks.len() - 1 {
        lemma_purged_update(hooks.drop_last(), i, field);
        assert(other.drop_last() =~= hooks.drop_last().update(i, field));
    } else {
        assert(other.drop_last() =~= hooks.drop_last());
    }
}

/// Every event of ours that is there holds an array.
pub open spec fn fit(hooks: Seq<(Seq<char>, JsonView)>) -> bool {
    forall|i: int|
        0 <= i < hooks.len() && install::event_names().contains((#[trigger] hooks[i]).0)
            ==> hooks[i].1 is Array
}

proof fn lemma_fit(hooks: Seq<(Seq<char>, JsonView)>)
    requires
        json::distinct(hooks),
    ensures
        fit(hooks) <==> install::misfit(hooks, install::event_names()) is None,
{
    let names = install::event_names();
    lemma_misfit(hooks, names);
    if install::misfit(hooks, names) is None {
        assert forall|i: int| 0 <= i < hooks.len() && names.contains(
            (#[trigger] hooks[i]).0,
        ) implies hooks[i].1 is Array by {
            let n = choose|n: int| 0 <= n < names.len() && names[n] == hooks[i].0;
            lemma_found(hooks, i);
            assert(json::lookup(hooks, names[n]) == Some(hooks[i].1));
        }
    } else {
        let n = choose|n: int|
            0 <= n < names.len() && (json::lookup(hooks, #[trigger] names[n]) matches Some(v) && !(
            v is Array));
        lemma_found_at(hooks, names[n]);
        let value = json::lookup(hooks, names[n])->0;
        let i = choose|i: int|
            0 <= i < hooks.len() && #[trigger] hooks[i] == (names[n], value);
        assert(names.contains(hooks[i].0));
    }
}

proof fn lemma_misfit(hooks: Seq<(Seq<char>, JsonView)>, names: Seq<Seq<char>>)
    ensures
        install::misfit(hooks, names) is None <==> forall|n: int|
            0 <= n < names.len() ==> (json::lookup(hooks, #[trigger] names[n]) matches Some(v)
                ==> v is Array),
    decreases names.len(),
{
    if names.len() > 0 {
        let rest = names.skip(1);
        lemma_misfit(hooks, rest);
        assert forall|n: int| 0 <= n < rest.len() implies #[trigger] rest[n] == names[n + 1] by {}
        if install::misfit(hooks, names) is None {
            assert forall|n: int| 0 <= n < names.len() implies (json::lookup(
                hooks,
                #[trigger] names[n],
            ) matches Some(v) ==> v is Array) by {
                if n > 0 {
                    assert(rest[n - 1] == names[n]);
                }
            }
        } else if install::misfit(hooks, rest) is Some {
            let n = choose|n: int|
                0 <= n < rest.len() && (json::lookup(hooks, #[trigger] rest[n]) matches Some(v)
                    && !(v is Array));
            assert(names[n + 1] == rest[n]);
        } else {
            assert(json::lookup(hooks, names[0]) is Some);
        }
    }
}

// --- adding ------------------------------------------------------------------
/// Whether our group stands last in the events already seen to, with nothing of
/// ours before it, and everything else holds nothing of ours.
pub open spec fn settled(
    hooks: Seq<(Seq<char>, JsonView)>,
    exe: Seq<char>,
    done: Seq<Seq<char>>,
) -> bool {
    forall|i: int| 0 <= i < hooks.len() ==> settled_field(#[trigger] hooks[i], exe, done)
}

pub open spec fn settled_field(
    field: (Seq<char>, JsonView),
    exe: Seq<char>,
    done: Seq<Seq<char>>,
) -> bool {
    if done.contains(field.0) {
        match field.1 {
            JsonView::Array(groups) => {
                &&& groups.len() > 0
                &&& groups.last() == install::our_group_spec(exe, field.0)
                &&& install::stripped(groups.drop_last()) == groups.drop_last()
            },
            _ => false,
        }
    } else {
        &&& !install::event_has(field.1)
        &&& install::event_names().contains(field.0) ==> install::field_after(field) == field
    }
}

pub open spec fn present(hooks: Seq<(Seq<char>, JsonView)>, names: Seq<Seq<char>>) -> bool {
    forall|n: int|
        0 <= n < names.len() ==> exists|i: int|
            0 <= i < hooks.len() && (#[trigger] hooks[i]).0 == #[trigger] names[n]
}

proof fn lemma_added_one(
    before: Seq<(Seq<char>, JsonView)>,
    exe: Seq<char>,
    done: Seq<Seq<char>>,
    event: Seq<char>,
)
    requires
        json::distinct(before),
        fit(before),
        settled(before, exe, done),
        present(before, done),
        install::event_names().contains(event),
        !done.contains(event),
    ensures
        ({
            let after = json::with_field(
                before,
                event,
                JsonView::Array(
                    install::groups_at(before, event).push(install::our_group_spec(exe, event)),
                ),
            );
            &&& json::distinct(after)
            &&& fit(after)
            &&& settled(after, exe, done.push(event))
            &&& present(after, done.push(event))
        }),
{
    let groups = install::groups_at(before, event);
    let longer = groups.push(install::our_group_spec(exe, event));
    let value = JsonView::Array(longer);
    let after = json::with_field(before, event, value);
    let all = done.push(event);
    json::lemma_field_place(before, event, value);
    assert(longer.drop_last() =~= groups);
    assert(all.contains(event)) by {
        assert(all[all.len() - 1] == event);
    }
    assert forall|k: Seq<char>| k != event implies all.contains(k) == done.contains(k) by {
        if done.contains(k) {
            let n = choose|n: int| 0 <= n < done.len() && done[n] == k;
            assert(all[n] == k);
        }
        if all.contains(k) {
            let n = choose|n: int| 0 <= n < all.len() && all[n] == k;
            assert(done[n] == k);
        }
    }
    match json::field_place(before, event) {
        Some(i) => {
            assert(settled_field(before[i], exe, done));
            assert(before[i].1 is Array);
            assert(install::stripped(groups) == groups);
            assert forall|a: int, b: int| 0 <= a < b < after.len() implies (#[trigger] after[a]).0
                != (#[trigger] after[b]).0 by {
                assert(before[a].0 != before[b].0);
            }
            assert forall|a: int| 0 <= a < after.len() implies settled_field(
                #[trigger] after[a],
                exe,
                all,
            ) by {
                assert(settled_field(before[a], exe, done));
                if a != i {
                    if a < i {
                        assert(before[a].0 != before[i].0);
                    } else {
                        assert(before[i].0 != before[a].0);
                    }
                }
            }
            assert forall|a: int| 0 <= a < after.len() && install::event_names().contains(
                (#[trigger] after[a]).0,
            ) implies after[a].1 is Array by {
                assert(before[a].0 == after[a].0);
            }
            assert forall|n: int| 0 <= n < all.len() implies exists|x: int|
                0 <= x < after.len() && (#[trigger] after[x]).0 == #[trigger] all[n] by {
                if n < done.len() {
                    assert(all[n] == done[n]);
                    let x = choose|x: int|
                        0 <= x < before.len() && (#[trigger] before[x]).0 == done[n];
                    assert(after[x].0 == all[n]);
                } else {
                    assert(after[i].0 == all[n]);
                }
            }
        },
        None => {
            assert(groups =~= seq![]);
            assert(install::stripped(groups) =~= groups);
            let last = before.len() as int;
            assert(after[last] == (event, value));
            assert forall|a: int, b: int| 0 <= a < b < after.len() implies (#[trigger] after[a]).0
                != (#[trigger] after[b]).0 by {
                assert(after[a] == before[a]);
                if b < last {
                    assert(after[b] == before[b]);
                    assert(before[a].0 != before[b].0);
                }
            }
            assert forall|a: int| 0 <= a < after.len() implies settled_field(
                #[trigger] after[a],
                exe,
                all,
            ) by {
                if a < last {
                    assert(after[a] == before[a]);
                    assert(settled_field(before[a], exe, done));
                }
            }
            assert forall|a: int| 0 <= a < after.len() && install::event_names().contains(
                (#[trigger] after[a]).0,
            ) implies after[a].1 is Array by {
                if a < last {
                    assert(before[a].0 == after[a].0);
                }
            }
            assert forall|n: int| 0 <= n < all.len() implies exists|x: int|
                0 <= x < after.len() && (#[trigger] after[x]).0 == #[trigger] all[n] by {
                if n < done.len() {
                    assert(all[n] == done[n]);
                    let x = choose|x: int|
                        0 <= x < before.len() && (#[trigger] before[x]).0 == done[n];
                    assert(after[x].0 == all[n]);
                } else {
                    assert(after[last].0 == all[n]);
                }
            }
        },
    }
}

proof fn lemma_added_all(hooks: Seq<(Seq<char>, JsonView)>, exe: Seq<char>, n: nat)
    requires
        json::distinct(hooks),
        fit(hooks),
        settled(hooks, exe, seq![]),
        n <= install::event_names().len(),
    ensures
        ({
            let done = install::event_names().take(n as int);
            let after = install::added(hooks, exe, done);
            &&& json::distinct(after)
            &&& fit(after)
            &&& settled(after, exe, done)
            &&& present(after, done)
        }),
    decreases n,
{
    let names = install::event_names();
    let done = names.take(n as int);
    if n == 0 {
        assert(done =~= seq![]);
    } else {
        let less = names.take(n - 1);
        let event = names[n - 1];
        lemma_added_all(hooks, exe, (n - 1) as nat);
        lemma_names_differ();
        assert(done.drop_last() =~= less);
        assert(less.push(event) =~= done);
        assert(!less.contains(event)) by {
            if less.contains(event) {
                let m = choose|m: int| 0 <= m < less.len() && less[m] == event;
                assert(names[m] == names[n - 1]);
            }
        }
        lemma_added_one(install::added(hooks, exe, less), exe, less, event);
    }
}

/// What holds of the events once our hooks are in.
proof fn lemma_installed(hooks: Seq<(Seq<char>, JsonView)>, exe: Seq<char>)
    requires
        json::distinct(hooks),
        fit(hooks),
    ensures
        json::distinct(install::installed_hooks(hooks, exe)),
        fit(install::installed_hooks(hooks, exe)),
        settled(install::installed_hooks(hooks, exe), exe, install::event_names()),
        present(install::installed_hooks(hooks, exe), install::event_names()),
{
    let names = install::event_names();
    let rest = install::purged(hooks, true);
    lemma_purged_part(hooks);
    assert forall|i: int| 0 <= i < rest.len() implies settled_field(
        #[trigger] rest[i],
        exe,
        seq![],
    ) by {}
    assert forall|i: int| 0 <= i < rest.len() && names.contains(
        (#[trigger] rest[i]).0,
    ) implies rest[i].1 is Array by {
        let j = choose|j: int|
            0 <= j < hooks.len() && Some(rest[i]) == install::treated(#[trigger] hooks[j], true);
        assert(names.contains(hooks[j].0));
    }
    lemma_added_all(rest, exe, names.len());
    assert(names.take(names.len() as int) =~= names);
}

/// Making room drops nothing where nothing is to be dropped.
proof fn lemma_purged_whole(hooks: Seq<(Seq<char>, JsonView)>)
    requires
        forall|i: int|
            0 <= i < hooks.len() ==> install::treated(#[trigger] hooks[i], true) is Some,
    ensures
        install::purged(hooks, true).len() == hooks.len(),
        forall|i: int|
            0 <= i < hooks.len() ==> Some(#[trigger] install::purged(hooks, true)[i])
                == install::treated(hooks[i], true),
    decreases hooks.len(),
{
    if hooks.len() > 0 {
        let rest = hooks.drop_last();
        assert forall|i: int| 0 <= i < rest.len() implies install::treated(
            #[trigger] rest[i],
            true,
        ) is Some by {
            assert(rest[i] == hooks[i]);
        }
        lemma_purged_whole(rest);
        assert(hooks[hooks.len() - 1] == hooks.last());
        assert forall|i: int| 0 <= i < hooks.len() implies Some(
            #[trigger] install::purged(hooks, true)[i],
        ) == install::treated(hooks[i], true) by {
            if i < rest.len() {
                assert(install::purged(hooks, true)[i] == install::purged(rest, true)[i]);
                assert(rest[i] == hooks[i]);
            }
        }
    }
}

/// Where every event is there already, adding ours changes it in place.
proof fn lemma_added_in_place(
    hooks: Seq<(Seq<char>, JsonView)>,
    exe: Seq<char>,
    names: Seq<Seq<char>>,
)
    requires
        json::distinct(hooks),
        present(hooks, names),
        forall|a: int, b: int|
            0 <= a < b < names.len() ==> (#[trigger] names[a]) != (#[trigger] names[b]),
        forall|i: int|
            0 <= i < hooks.len() && names.contains((#[trigger] hooks[i]).0) ==> hooks[i].1
                is Array,
    ensures
        install::added(hooks, exe, names).len() == hooks.len(),
        forall|i: int|
            0 <= i < hooks.len() ==> #[trigger] install::added(hooks, exe, names)[i] == (
            if names.contains(hooks[i].0) {
                (
                    hooks[i].0,
                    JsonView::Array(
                        (hooks[i].1->Array_0).push(install::our_group_spec(exe, hooks[i].0)),
                    ),
                )
            } else {
                hooks[i]
            }),
    decreases names.len(),
{
    if names.len() > 0 {
        let less = names.drop_last();
        let event = names.last();
        assert forall|a: int, b: int| 0 <= a < b < less.len() implies (#[trigger] less[a]) != (
        #[trigger] less[b]) by {
            assert(names[a] != names[b]);
        }
        assert forall|k: Seq<char>| less.contains(k) implies names.contains(k) && k != event by {
            let n = choose|n: int| 0 <= n < less.len() && less[n] == k;
            assert(names[n] == k);
            assert(names[n] != names[names.len() - 1]);
        }
        assert forall|k: Seq<char>| names.contains(k) && k != event implies less.contains(k) by {
            let n = choose|n: int| 0 <= n < names.len() && names[n] == k;
            assert(less[n] == k);
        }
        assert(names.contains(event)) by {
            assert(names[names.len() - 1] == event);
        }
        assert forall|n: int| 0 <= n < less.len() implies exists|i: int|
            0 <= i < hooks.len() && (#[trigger] hooks[i]).0 == #[trigger] less[n] by {
            assert(names[n] == less[n]);
        }
        lemma_added_in_place(hooks, exe, less);
        let before = install::added(hooks, exe, less);
        let at = choose|i: int|
            0 <= i < hooks.len() && (#[trigger] hooks[i]).0 == names[names.len() - 1];
        assert(before[at] == hooks[at]);
        assert(before[at].0 == event);
        let groups = install::groups_at(before, event);
        let value = JsonView::Array(groups.push(install::our_group_spec(exe, event)));
        json::lemma_field_place(before, event, value);
        let place = json::field_place(before, event)->0;
        assert(before[place].0 == hooks[place].0);
        assert(place == at) by {
            if place < at {
                assert(hooks[place].0 != hooks[at].0);
            } else if at < place {
                assert(hooks[at].0 != hooks[place].0);
            }
        }
        let after = install::added(hooks, exe, names);
        assert(after == before.update(at, (event, value)));
        assert forall|i: int| 0 <= i < hooks.len() implies #[trigger] after[i] == (
        if names.contains(hooks[i].0) {
            (
                hooks[i].0,
                JsonView::Array(
                    (hooks[i].1->Array_0).push(install::our_group_spec(exe, hooks[i].0)),
                ),
            )
        } else {
            hooks[i]
        }) by {
            assert(before[i].0 == hooks[i].0);
            if i != at {
                if i < at {
                    assert(hooks[i].0 != hooks[at].0);
                } else {
                    assert(hooks[at].0 != hooks[i].0);
                }
            }
        }
    }
}

// --- the laws ----------------------------------------------------------------
/// Installing over an install changes nothing: the hooks of the same program
/// are replaced by themselves.
pub proof fn installing_again_changes_nothing(root: JsonView, exe: Seq<char>)
    requires
        json::storable(root),
        install::marked(exe),
    ensures
        install::installed_spec(root, exe) matches Ok(after) ==> install::installed_spec(after, exe)
            == Ok::<JsonView, install::RefusalView>(after),
{
    if let Ok(after) = install::installed_spec(root, exe) {
        let fields = root->Object_0;
        let hooks = install::hooks_spec(root)->Ok_0;
        lemma_distinct_hooks(root);
        lemma_fit(hooks);
        lemma_installed(hooks, exe);
        let first = install::installed_hooks(hooks, exe);
        let names = install::event_names();
        lemma_set_then_get(fields, "hooks"@, JsonView::Object(first));
        lemma_set_twice(fields, "hooks"@, JsonView::Object(first));
        lemma_fit(first);
        assert(install::hooks_spec(after) == Ok::<
            Seq<(Seq<char>, JsonView)>,
            install::RefusalView,
        >(first));
        assert forall|i: int| 0 <= i < first.len() implies install::treated(
            #[trigger] first[i],
            true,
        ) is Some by {
            assert(settled_field(first[i], exe, names));
        }
        lemma_purged_whole(first);
        let rest = install::purged(first, true);
        assert forall|a: int, b: int| 0 <= a < b < rest.len() implies (#[trigger] rest[a]).0 != (
        #[trigger] rest[b]).0 by {
            lemma_field_after(first[a]);
            lemma_field_after(first[b]);
            assert(first[a].0 != first[b].0);
        }
        assert forall|n: int| 0 <= n < names.len() implies exists|i: int|
            0 <= i < rest.len() && (#[trigger] rest[i]).0 == #[trigger] names[n] by {
            let i = choose|i: int| 0 <= i < first.len() && (#[trigger] first[i]).0 == names[n];
            assert(rest[i].0 == names[n]);
        }
        lemma_names_differ();
        lemma_added_in_place(rest, exe, names);
        let second = install::installed_hooks(first, exe);
        assert forall|i: int| 0 <= i < first.len() implies #[trigger] second[i] == first[i] by {
            assert(settled_field(first[i], exe, names));
            assert(Some(rest[i]) == install::treated(first[i], true));
            if names.contains(first[i].0) {
                let groups = first[i].1->Array_0;
                lemma_strip_added(groups.drop_last(), exe, first[i].0);
                assert(groups.drop_last().push(groups.last()) =~= groups);
            }
        }
        assert(second =~= first);
    }
}

/// The hooks of an object that can be stored have no event twice.
proof fn lemma_distinct_hooks(root: JsonView)
    requires
        json::storable(root),
    ensures
        install::hooks_spec(root) matches Ok(hooks) ==> json::distinct(hooks),
{
    if let JsonView::Object(fields) = root {
        lemma_found_at(fields, "hooks"@);
        if let Some(value) = json::lookup(fields, "hooks"@) {
            let i = choose|i: int|
                0 <= i < fields.len() && #[trigger] fields[i] == ("hooks"@, value);
            assert(json::storable(fields[i].1));
        }
    }
}

/// After an install no event of ours is missing.
pub proof fn an_install_leaves_nothing_missing(root: JsonView, exe: Seq<char>)
    requires
        json::storable(root),
        install::marked(exe),
    ensures
        install::installed_spec(root, exe) matches Ok(after) ==> install::missing_spec(
            after,
            install::event_names(),
        ).len() == 0,
{
    if let Ok(after) = install::installed_spec(root, exe) {
        let fields = root->Object_0;
        let hooks = install::hooks_spec(root)->Ok_0;
        lemma_distinct_hooks(root);
        lemma_fit(hooks);
        lemma_installed(hooks, exe);
        let first = install::installed_hooks(hooks, exe);
        let names = install::event_names();
        lemma_set_then_get(fields, "hooks"@, JsonView::Object(first));
        assert forall|n: int| 0 <= n < names.len() implies install::event_ours(
            after,
            #[trigger] names[n],
        ) by {
            let i = choose|i: int| 0 <= i < first.len() && (#[trigger] first[i]).0 == names[n];
            assert(settled_field(first[i], exe, names));
            lemma_found(first, i);
            lemma_last_is_ours(first[i].1, exe, names[n]);
            assert(after.field("hooks"@).field(names[n]) == first[i].1);
        }
        lemma_none_missing(after, names);
    }
}

proof fn lemma_last_is_ours(value: JsonView, exe: Seq<char>, event: Seq<char>)
    requires
        value is Array,
        (value->Array_0).len() > 0,
        (value->Array_0).last() == install::our_group_spec(exe, event),
        install::marked(exe),
    ensures
        install::event_has(value),
{
    lemma_our_group(exe, event);
    let groups = value->Array_0;
    assert(install::group_has(groups[groups.len() - 1]));
}

proof fn lemma_none_missing(root: JsonView, names: Seq<Seq<char>>)
    requires
        forall|n: int| 0 <= n < names.len() ==> install::event_ours(root, #[trigger] names[n]),
    ensures
        install::missing_spec(root, names).len() == 0,
    decreases names.len(),
{
    if names.len() > 0 {
        let less = names.drop_last();
        assert forall|n: int| 0 <= n < less.len() implies install::event_ours(
            root,
            #[trigger] less[n],
        ) by {
            assert(less[n] == names[n]);
        }
        lemma_none_missing(root, less);
        assert(names.last() == names[names.len() - 1]);
    }
}

/// Removing our hooks after an install leaves the events that removing them
/// before it would have left.
pub proof fn uninstalling_undoes_an_install(hooks: Seq<(Seq<char>, JsonView)>, exe: Seq<char>)
    requires
        json::distinct(hooks),
        install::misfit(hooks, install::event_names()) is None,
        install::marked(exe),
    ensures
        install::purged(install::installed_hooks(hooks, exe), false) == install::purged(
            hooks,
            false,
        ),
{
    let names = install::event_names();
    let rest = install::purged(hooks, true);
    lemma_fit(hooks);
    lemma_purged_part(hooks);
    lemma_purged_again(hooks);
    assert forall|i: int| 0 <= i < rest.len() && names.contains(
        (#[trigger] rest[i]).0,
    ) implies rest[i].1 is Array by {
        let j = choose|j: int|
            0 <= j < hooks.len() && Some(rest[i]) == install::treated(#[trigger] hooks[j], true);
        assert(names.contains(hooks[j].0));
    }
    assert forall|i: int| 0 <= i < rest.len() implies settled_field(
        #[trigger] rest[i],
        exe,
        seq![],
    ) by {}
    lemma_added_then_purged(rest, exe, names.len());
    assert(names.take(names.len() as int) =~= names);
}

proof fn lemma_added_then_purged(hooks: Seq<(Seq<char>, JsonView)>, exe: Seq<char>, n: nat)
    requires
        json::distinct(hooks),
        fit(hooks),
        settled(hooks, exe, seq![]),
        install::marked(exe),
        n <= install::event_names().len(),
    ensures
        install::purged(
            install::added(hooks, exe, install::event_names().take(n as int)),
            false,
        ) == install::purged(hooks, false),
    decreases n,
{
    let names = install::event_names();
    let done = names.take(n as int);
    if n > 0 {
        let less = names.take(n - 1);
        let event = names[n - 1];
        assert(done.drop_last() =~= less);
        assert(names.contains(event));
        lemma_added_then_purged(hooks, exe, (n - 1) as nat);
        lemma_added_all(hooks, exe, (n - 1) as nat);
        let before = install::added(hooks, exe, less);
        let groups = install::groups_at(before, event);
        let value = JsonView::Array(groups.push(install::our_group_spec(exe, event)));
        json::lemma_field_place(before, event, value);
        lemma_strip_added(groups, exe, event);
        match json::field_place(before, event) {
            Some(i) => {
                assert(before[i].1 is Array);
                lemma_purged_update(before, i, (event, value));
            },
            None => {
                let after = before.push((event, value));
                assert(groups =~= seq![]);
                assert(install::stripped(groups) =~= seq![]);
                assert(after.drop_last() =~= before);
                assert(after.last() == (event, value));
            },
        }
    }
}

/// Whatever the settings were, removing our hooks leaves none.
pub proof fn nothing_of_ours_is_left(root: JsonView)
    requires
        json::storable(root),
    ensures
        install::uninstalled_spec(root) matches Ok((after, _)) ==> !install::any_ours(after),
{
    if let Ok((after, _)) = install::uninstalled_spec(root) {
        let fields = root->Object_0;
        let hooks = install::hooks_spec(root)->Ok_0;
        let rest = install::purged(hooks, false);
        lemma_set_then_get(fields, "hooks"@, JsonView::Object(rest));
        lemma_without(fields, "hooks"@);
        lemma_purged_clean(hooks);
    }
}

proof fn lemma_without(fields: Seq<(Seq<char>, JsonView)>, key: Seq<char>)
    requires
        json::distinct(fields),
    ensures
        json::lookup(json::without_field(fields, key), key) is None,
{
    json::lemma_field_place(fields, key, JsonView::Null);
    let after = json::without_field(fields, key);
    lemma_found_at(after, key);
    match json::field_place(fields, key) {
        Some(i) => {
            assert forall|j: int| 0 <= j < after.len() implies (#[trigger] after[j]).0 != key by {
                if j < i {
                    assert(fields[j].0 != fields[i].0);
                } else {
                    assert(after[j] == fields[j + 1]);
                    assert(fields[i].0 != fields[j + 1].0);
                }
            }
        },
        None => {},
    }
}

proof fn lemma_stripped_clean(groups: Seq<JsonView>)
    ensures
        forall|i: int|
            0 <= i < install::stripped(groups).len() ==> !install::group_has(
                #[trigger] install::stripped(groups)[i],
            ),
    decreases groups.len(),
{
    if groups.len() > 0 {
        lemma_stripped_clean(groups.drop_last());
        let last = groups.last();
        if let JsonView::Object(fields) = last {
            if let Some(entries) = install::entries_of(last) {
                install::lemma_others(entries);
                lemma_set_then_get(fields, "hooks"@, JsonView::Array(install::others(entries)));
                assert(install::entries_of(install::cleared(last)) == Some(
                    install::others(entries),
                ));
            }
        }
        assert(!install::group_has(install::cleared(last)));
        let before = install::stripped(groups.drop_last());
        let after = install::stripped(groups);
        assert forall|i: int| 0 <= i < after.len() implies !install::group_has(
            #[trigger] after[i],
        ) by {
            if i < before.len() {
                assert(after[i] == before[i]);
            } else {
                assert(after[i] == install::cleared(last));
            }
        }
    }
}

proof fn lemma_purged_clean(hooks: Seq<(Seq<char>, JsonView)>)
    ensures
        forall|i: int|
            0 <= i < install::purged(hooks, false).len() ==> !install::event_has(
                (#[trigger] install::purged(hooks, false)[i]).1,
            ),
    decreases hooks.len(),
{
    if hooks.len() > 0 {
        lemma_purged_clean(hooks.drop_last());
        let last = hooks.last();
        lemma_field_clean(last);
        let before = install::purged(hooks.drop_last(), false);
        let after = install::purged(hooks, false);
        assert forall|i: int| 0 <= i < after.len() implies !install::event_has(
            (#[trigger] after[i]).1,
        ) by {
            if i < before.len() {
                assert(after[i] == before[i]);
            } else {
                assert(after[i] == install::field_after(last));
            }
        }
    }
}

/// The hooks of others in the groups of an event, in order.
pub open spec fn survivors(groups: Seq<JsonView>) -> Seq<JsonView>
    decreases groups.len(),
{
    if groups.len() == 0 {
        seq![]
    } else {
        survivors(groups.drop_last()) + (match install::entries_of(groups.last()) {
            Some(entries) => install::others(entries),
            None => seq![],
        })
    }
}

/// Taking ours out of an event keeps every hook of anyone else, in order.
pub proof fn other_hooks_survive(groups: Seq<JsonView>)
    ensures
        survivors(install::stripped(groups)) == survivors(groups),
    decreases groups.len(),
{
    if groups.len() > 0 {
        other_hooks_survive(groups.drop_last());
        let before = install::stripped(groups.drop_last());
        let last = groups.last();
        if install::hollow(last) {
            assert(survivors(groups) =~= survivors(groups.drop_last()));
        } else {
            let after = install::stripped(groups);
            assert(after.drop_last() =~= before);
            if let JsonView::Object(fields) = last {
                if let Some(entries) = install::entries_of(last) {
                    install::lemma_others(entries);
                    lemma_set_then_get(
                        fields,
                        "hooks"@,
                        JsonView::Array(install::others(entries)),
                    );
                }
            }
        }
    }
}

/// An event that is not ours and has nothing of ours is left as it is, even one
/// without a hook.
pub proof fn foreign_events_are_untouched(
    hooks: Seq<(Seq<char>, JsonView)>,
    exe: Seq<char>,
    i: int,
)
    requires
        json::distinct(hooks),
        0 <= i < hooks.len(),
        !install::event_names().contains(hooks[i].0),
        !install::event_has(hooks[i].1),
    ensures
        json::lookup(install::installed_hooks(hooks, exe), hooks[i].0) == Some(hooks[i].1),
{
    let rest = install::purged(hooks, true);
    lemma_purged_part(hooks);
    assert(install::treated(hooks[i], true) == Some(hooks[i]));
    let k = choose|k: int|
        0 <= k < rest.len() && Some(#[trigger] rest[k]) == install::treated(hooks[i], true);
    lemma_found(rest, k);
    lemma_added_apart(rest, exe, install::event_names(), hooks[i].0);
}

proof fn lemma_added_apart(
    hooks: Seq<(Seq<char>, JsonView)>,
    exe: Seq<char>,
    names: Seq<Seq<char>>,
    event: Seq<char>,
)
    requires
        !names.contains(event),
    ensures
        json::lookup(install::added(hooks, exe, names), event) == json::lookup(hooks, event),
    decreases names.len(),
{
    if names.len() > 0 {
        let less = names.drop_last();
        assert(names.last() == names[names.len() - 1]);
        assert(!less.contains(event)) by {
            if less.contains(event) {
                let n = choose|n: int| 0 <= n < less.len() && less[n] == event;
                assert(names[n] == event);
            }
        }
        lemma_added_apart(hooks, exe, less, event);
        let before = install::added(hooks, exe, less);
        lemma_set_then_get(
            before,
            names.last(),
            JsonView::Array(
                install::groups_at(before, names.last()).push(
                    install::our_group_spec(exe, names.last()),
                ),
            ),
        );
    }
}

/// Installing touches no other part of the settings.
pub proof fn other_settings_are_untouched(root: JsonView, exe: Seq<char>, key: Seq<char>)
    requires
        key != "hooks"@,
    ensures
        install::installed_spec(root, exe) matches Ok(after) ==> after.get(key) == root.get(key),
        install::uninstalled_spec(root) matches Ok((after, _)) ==> after.get(key) == root.get(key),
{
    if let JsonView::Object(fields) = root {
        if let Ok(hooks) = install::hooks_spec(root) {
            lemma_set_then_get(
                fields,
                "hooks"@,
                JsonView::Object(install::installed_hooks(hooks, exe)),
            );
            lemma_set_then_get(
                fields,
                "hooks"@,
                JsonView::Object(install::purged(hooks, false)),
            );
            lemma_drop_keeps(fields, "hooks"@, key);
        }
    }
}

proof fn lemma_drop_keeps(fields: Seq<(Seq<char>, JsonView)>, key: Seq<char>, other: Seq<char>)
    requires
        key != other,
    ensures
        json::lookup(json::without_field(fields, key), other) == json::lookup(fields, other),
    decreases fields.len(),
{
    if fields.len() > 0 && fields[0].0 != key {
        lemma_drop_keeps(fields.skip(1), key, other);
        let after = json::without_field(fields, key);
        assert(after[0] == fields[0]);
        assert(after.skip(1) =~= json::without_field(fields.skip(1), key));
    }
}

// --- what is written, word by word ----------------------------------------------
/// The events that reach the pet are these, and no others.
pub proof fn these_events_are_registered(event: Seq<char>)
    ensures
        install::event_names().contains(event) <==> event == "SessionStart"@
            || event == "UserPromptSubmit"@ || event == "PreToolUse"@ || event == "PostToolUse"@
            || event == "PostToolUseFailure"@ || event == "PermissionRequest"@
            || event == "PermissionDenied"@ || event == "Notification"@ || event == "Stop"@
            || event == "StopFailure"@ || event == "SubagentStart"@ || event == "SubagentStop"@
            || event == "PreCompact"@ || event == "PostCompact"@ || event == "SessionEnd"@,
{
    let names = install::event_names();
    assert(names[0] == "SessionStart"@);
    assert(names[1] == "UserPromptSubmit"@);
    assert(names[2] == "PreToolUse"@);
    assert(names[3] == "PostToolUse"@);
    assert(names[4] == "PostToolUseFailure"@);
    assert(names[5] == "PermissionRequest"@);
    assert(names[6] == "PermissionDenied"@);
    assert(names[7] == "Notification"@);
    assert(names[8] == "Stop"@);
    assert(names[9] == "StopFailure"@);
    assert(names[10] == "SubagentStart"@);
    assert(names[11] == "SubagentStop"@);
    assert(names[12] == "PreCompact"@);
    assert(names[13] == "PostCompact"@);
    assert(names[14] == "SessionEnd"@);
    if names.contains(event) {
        let n = choose|n: int| 0 <= n < names.len() && names[n] == event;
        assert(n == 0 || n == 1 || n == 2 || n == 3 || n == 4 || n == 5 || n == 6 || n == 7
            || n == 8 || n == 9 || n == 10 || n == 11 || n == 12 || n == 13 || n == 14);
    }
}

/// Whether a group matches everything and holds one hook, which runs a program
/// as the command line of this one takes a hook for an event.
pub open spec fn runs_the_hook(group: JsonView, exe: Seq<char>, event: Seq<char>) -> bool {
    let entries = group.field("hooks"@).list();
    let entry = entries->0[0];
    let args = entry.field("args"@).list();
    &&& group.text_at("matcher"@) == Some("*"@)
    &&& entries is Some && entries->0.len() == 1
    &&& entry.text_at("type"@) == Some("command"@)
    &&& entry.text_at("command"@) == Some(exe)
    &&& args is Some && args->0.len() == 2
    &&& args->0[0] == JsonView::Text("hook"@)
    &&& cli::invocation_spec(args->0[0].str()) == cli::Invocation::Hook
    &&& args->0[1] == JsonView::Text(event)
    &&& entry.field("timeout"@) == JsonView::Unsigned(5)
    &&& entry.field("async"@) == JsonView::Bool(true)
}

/// The group that is added to an event runs this program's hook command for it.
pub proof fn our_group_runs_the_hook(exe: Seq<char>, event: Seq<char>)
    ensures
        runs_the_hook(install::our_group_spec(exe, event), exe, event),
{
    lemma_group_words();
    reveal_with_fuel(json::lookup, 6);
    let group = install::our_group_spec(exe, event);
    let a = group->Object_0;
    assert(a.skip(1)[0] == a[1]);
    let entry = a[1].1->Array_0[0];
    let b = entry->Object_0;
    assert(b.skip(1)[0] == b[1]);
    assert(b.skip(1).skip(1)[0] == b[2]);
    assert(b.skip(1).skip(1).skip(1)[0] == b[3]);
    assert(b.skip(1).skip(1).skip(1).skip(1)[0] == b[4]);
}

/// After an install every event of ours ends with the hook command for it.
pub proof fn an_install_runs_the_hook_command(root: JsonView, exe: Seq<char>, event: Seq<char>)
    requires
        json::storable(root),
        event == "SessionStart"@ || event == "UserPromptSubmit"@ || event == "PreToolUse"@
            || event == "PostToolUse"@ || event == "PostToolUseFailure"@
            || event == "PermissionRequest"@ || event == "PermissionDenied"@
            || event == "Notification"@ || event == "Stop"@ || event == "StopFailure"@
            || event == "SubagentStart"@ || event == "SubagentStop"@ || event == "PreCompact"@
            || event == "PostCompact"@ || event == "SessionEnd"@,
    ensures
        install::installed_spec(root, exe) matches Ok(after) ==> {
            let groups = after.field("hooks"@).field(event).list();
            &&& groups is Some && groups->0.len() > 0
            &&& runs_the_hook(groups->0.last(), exe, event)
        },
{
    if let Ok(after) = install::installed_spec(root, exe) {
        let fields = root->Object_0;
        let hooks = install::hooks_spec(root)->Ok_0;
        these_events_are_registered(event);
        lemma_distinct_hooks(root);
        lemma_fit(hooks);
        lemma_installed(hooks, exe);
        let first = install::installed_hooks(hooks, exe);
        let names = install::event_names();
        lemma_set_then_get(fields, "hooks"@, JsonView::Object(first));
        let n = choose|n: int| 0 <= n < names.len() && names[n] == event;
        lemma_last_group(first, exe, names, n);
        our_group_runs_the_hook(exe, event);
    }
}

proof fn lemma_last_group(
    hooks: Seq<(Seq<char>, JsonView)>,
    exe: Seq<char>,
    names: Seq<Seq<char>>,
    n: int,
)
    requires
        json::distinct(hooks),
        settled(hooks, exe, names),
        present(hooks, names),
        0 <= n < names.len(),
    ensures
        json::lookup(hooks, names[n]) matches Some(JsonView::Array(groups)) && groups.len() > 0
            && groups.last() == install::our_group_spec(exe, names[n]),
{
    let i = choose|i: int| 0 <= i < hooks.len() && (#[trigger] hooks[i]).0 == names[n];
    assert(settled_field(hooks[i], exe, names));
    lemma_found(hooks, i);
}

/// The fields of what is written have different names.
proof fn lemma_group_words()
    ensures
        "matcher"@.len() == 7,
        "hooks"@.len() == 5,
        "type"@.len() == 4,
        "command"@.len() == 7,
        "args"@.len() == 4,
        "timeout"@.len() == 7,
        "async"@.len() == 5,
        "matcher"@ != "command"@,
        "matcher"@ != "timeout"@,
        "hooks"@ != "async"@,
        "type"@ != "args"@,
        "command"@ != "timeout"@,
{
    reveal_strlit("matcher");
    reveal_strlit("hooks");
    reveal_strlit("type");
    reveal_strlit("command");
    reveal_strlit("args");
    reveal_strlit("timeout");
    reveal_strlit("async");
    assert("matcher"@[0] != "command"@[0]);
    assert("matcher"@[0] != "timeout"@[0]);
    assert("hooks"@[0] != "async"@[0]);
    assert("type"@[0] != "args"@[0]);
    assert("command"@[0] != "timeout"@[0]);
}

/// A hook is ours when the program it runs has our name in its path, in
/// whatever case.
pub proof fn a_hook_is_ours_by_its_command(entry: JsonView)
    ensures
        install::ours(entry) <==> (entry.text_at("command"@) matches Some(command) && strings::has(
            strings::ascii_lowered(command),
            "pipsqueak"@,
        )),
{
}

/// Each hook is looked at on its own: ours go, the others stay where they are.
pub proof fn each_hook_is_looked_at_on_its_own(a: Seq<JsonView>, entry: JsonView)
    ensures
        install::others(seq![]) == Seq::<JsonView>::empty(),
        install::others(a.push(entry)) == (if entry.text_at("command"@) matches Some(command)
            && strings::has(strings::ascii_lowered(command), "pipsqueak"@) {
            install::others(a)
        } else {
            install::others(a).push(entry)
        }),
{
    assert(a.push(entry).drop_last() =~= a);
    reveal_with_fuel(install::others, 2);
}

/// Each group is looked at on its own: it keeps everything but our hooks, and
/// goes when it has no hook left. One that holds no hooks is not touched.
pub proof fn each_group_is_looked_at_on_its_own(
    a: Seq<JsonView>,
    fields: Seq<(Seq<char>, JsonView)>,
    key: Seq<char>,
)
    requires
        key != "hooks"@,
    ensures
        install::stripped(seq![]) == Seq::<JsonView>::empty(),
        ({
            let group = JsonView::Object(fields);
            let before = install::stripped(a);
            let after = install::stripped(a.push(group));
            match group.field("hooks"@) {
                JsonView::Array(entries) => {
                    let rest = install::others(entries);
                    if rest.len() == 0 {
                        after == before
                    } else {
                        &&& after.len() == before.len() + 1
                        &&& after.drop_last() == before
                        &&& after.last().field("hooks"@) == JsonView::Array(rest)
                        &&& after.last().get(key) == group.get(key)
                    }
                },
                _ => after == before.push(group),
            }
        }),
{
    let group = JsonView::Object(fields);
    assert(a.push(group).drop_last() =~= a);
    reveal_with_fuel(install::stripped, 2);
    if let Some(entries) = install::entries_of(group) {
        let list = JsonView::Array(install::others(entries));
        lemma_set_then_get(fields, "hooks"@, list);
        if install::others(entries).len() > 0 {
            assert(install::stripped(a.push(group)).drop_last() =~= install::stripped(a));
        }
    }
}

/// As many hooks are counted as removed as there were of ours.
pub proof fn what_is_removed_is_counted(a: Seq<JsonView>, group: JsonView)
    ensures
        install::count_ours(seq![]) == 0,
        install::count_ours(a.push(group)) == install::count_ours(a) + (match group.field(
            "hooks"@,
        ) {
            JsonView::Array(entries) => (entries.len() - install::others(entries).len()) as nat,
            _ => 0nat,
        }),
        ({
            let hooks = seq![("x"@, JsonView::Array(a))];
            install::total_ours(hooks) == install::count_ours(a)
        }),
{
    assert(a.push(group).drop_last() =~= a);
    let hooks = seq![("x"@, JsonView::Array(a))];
    assert(hooks.drop_last() =~= seq![]);
    reveal_with_fuel(install::total_ours, 2);
    reveal_with_fuel(install::count_ours, 2);
}

/// Settings are refused, and why: when they are no object, when their hooks are
/// none, and when an event of ours holds no list. Nothing else is refused.
pub proof fn settings_are_refused_for_these_reasons(root: JsonView, exe: Seq<char>)
    requires
        json::storable(root),
    ensures
        ({
            let hooks = root.get("hooks"@);
            let r = install::installed_spec(root, exe);
            &&& !(root is Object) ==> r == Err::<JsonView, install::RefusalView>(
                install::RefusalView::NotObject,
            )
            &&& root is Object && hooks is Some && !(hooks->0 is Object) ==> r == Err::<
                JsonView,
                install::RefusalView,
            >(install::RefusalView::HooksNotObject)
            &&& r matches Err(install::RefusalView::EventNotArray(event)) ==> (event == "SessionStart"@
                || event == "UserPromptSubmit"@ || event == "PreToolUse"@ || event == "PostToolUse"@
                || event == "PostToolUseFailure"@ || event == "PermissionRequest"@
                || event == "PermissionDenied"@ || event == "Notification"@ || event == "Stop"@
                || event == "StopFailure"@ || event == "SubagentStart"@ || event == "SubagentStop"@
                || event == "PreCompact"@ || event == "PostCompact"@ || event == "SessionEnd"@)
                && root.field("hooks"@).get(event) is Some
                && !(root.field("hooks"@).field(event) is Array)
            &&& root is Object && (hooks is None || hooks->0 is Object) && (forall|event: Seq<char>|
                #![trigger root.field("hooks"@).get(event)]
                (event == "SessionStart"@ || event == "UserPromptSubmit"@ || event == "PreToolUse"@
                    || event == "PostToolUse"@ || event == "PostToolUseFailure"@
                    || event == "PermissionRequest"@ || event == "PermissionDenied"@
                    || event == "Notification"@ || event == "Stop"@ || event == "StopFailure"@
                    || event == "SubagentStart"@ || event == "SubagentStop"@
                    || event == "PreCompact"@ || event == "PostCompact"@ || event == "SessionEnd"@)
                    && root.field("hooks"@).get(event) is Some ==> root.field("hooks"@).field(event) is Array) ==> r is Ok
        }),
{
    if let JsonView::Object(_) = root {
        if let Ok(hooks) = install::hooks_spec(root) {
            let names = install::event_names();
            lemma_misfit_named(hooks, names);
            if let Some(event) = install::misfit(hooks, names) {
                these_events_are_registered(event);
                if root.get("hooks"@) is Some {
                    assert(root.field("hooks"@).get(event) == json::lookup(hooks, event));
                }
            }
        }
    }
}

proof fn lemma_misfit_named(hooks: Seq<(Seq<char>, JsonView)>, names: Seq<Seq<char>>)
    ensures
        install::misfit(hooks, names) matches Some(event) ==> names.contains(event)
            && json::lookup(hooks, event) is Some && !(json::lookup(hooks, event)->0 is Array),
    decreases names.len(),
{
    if names.len() > 0 {
        let rest = names.skip(1);
        lemma_misfit_named(hooks, rest);
        if let Some(event) = install::misfit(hooks, names) {
            if install::misfit(hooks, rest) == Some(event) && rest.contains(event) {
                let n = choose|n: int| 0 <= n < rest.len() && rest[n] == event;
                assert(names[n + 1] == event);
            } else {
                assert(names[0] == event);
            }
        }
    }
}

/// A missing or blank file holds nothing; anything else has to be an object.
pub proof fn a_blank_file_is_an_empty_one(text: Seq<char>)
    ensures
        install::settings_spec(None) == Ok::<JsonView, install::RefusalView>(
            JsonView::Object(seq![]),
        ),
        strings::trimmed(text).len() == 0 ==> install::settings_spec(Some(text)) == Ok::<
            JsonView,
            install::RefusalView,
        >(JsonView::Object(seq![])),
        strings::trimmed(text).len() > 0 ==> match json::parsed_text(text) {
            Some(root) => if root is Object {
                install::settings_spec(Some(text)) == Ok::<JsonView, install::RefusalView>(root)
            } else {
                install::settings_spec(Some(text)) == Err::<JsonView, install::RefusalView>(
                    install::RefusalView::NotObject,
                )
            },
            None => install::settings_spec(Some(text)) is Err,
        },
{
}

/// Settings without hooks are left as they are by a removal; where ours were all
/// the hooks there were, nothing is left of them; an event that has others' hooks
/// keeps them.
pub proof fn a_removal_leaves_no_trace(root: JsonView)
    requires
        json::storable(root),
        root is Object,
    ensures
        root.get("hooks"@) is None ==> install::uninstalled_spec(root) == Ok::<
            (JsonView, nat),
            install::RefusalView,
        >((root, 0nat)),
        root.get("hooks"@) is Some && root.get("hooks"@)->0 is Object ==> {
            let hooks = root.get("hooks"@)->0->Object_0;
            let rest = install::purged(hooks, false);
            &&& install::uninstalled_spec(root) is Ok
            &&& ({
                let (after, removed) = install::uninstalled_spec(root)->Ok_0;
                &&& removed == install::total_ours(hooks)
                &&& removed > 0 && rest.len() == 0 ==> after.get("hooks"@) is None
                &&& !(removed > 0 && rest.len() == 0) ==> after.get("hooks"@) == Some(
                    JsonView::Object(rest),
                )
            })
        },
{
    let fields = root->Object_0;
    if let Ok(hooks) = install::hooks_spec(root) {
        lemma_set_then_get(fields, "hooks"@, JsonView::Object(install::purged(hooks, false)));
        lemma_without(fields, "hooks"@);
    }
}

/// What becomes of one event, whatever the others hold: a removal drops it when
/// no hook is left in it and otherwise takes ours out; an install leaves a
/// foreign one alone that has nothing of ours.
pub proof fn each_event_is_looked_at_on_its_own(
    hooks: Seq<(Seq<char>, JsonView)>,
    event: Seq<char>,
    groups: Seq<JsonView>,
)
    ensures
        ({
            let field = (event, JsonView::Array(groups));
            let rest = install::stripped(groups);
            let removed = install::purged(hooks.push(field), false);
            let before = install::purged(hooks, false);
            &&& rest.len() == 0 ==> removed == before
            &&& rest.len() > 0 ==> removed == before.push((event, JsonView::Array(rest)))
        }),
        ({
            let field = (event, JsonView::Array(groups));
            let rest = install::stripped(groups);
            let room = install::purged(hooks.push(field), true);
            let before = install::purged(hooks, true);
            let known = event == "SessionStart"@ || event == "UserPromptSubmit"@
                || event == "PreToolUse"@ || event == "PostToolUse"@
                || event == "PostToolUseFailure"@ || event == "PermissionRequest"@
                || event == "PermissionDenied"@ || event == "Notification"@ || event == "Stop"@
                || event == "StopFailure"@ || event == "SubagentStart"@ || event == "SubagentStop"@
                || event == "PreCompact"@ || event == "PostCompact"@ || event == "SessionEnd"@;
            &&& known ==> room == before.push((event, JsonView::Array(rest)))
            &&& !known
                && !install::event_has(JsonView::Array(groups)) ==> room == before.push(field)
            &&& !known && install::event_has(JsonView::Array(groups)) && rest.len() == 0 ==> room
                == before
            &&& !known && install::event_has(JsonView::Array(groups)) && rest.len() > 0 ==> room
                == before.push((event, JsonView::Array(rest)))
        }),
{
    let field = (event, JsonView::Array(groups));
    assert(hooks.push(field).drop_last() =~= hooks);
    these_events_are_registered(event);
}

/// An event runs this program when one hook of one of its groups does.
pub proof fn an_event_is_ours_by_one_hook(groups: Seq<JsonView>)
    ensures
        install::event_has(JsonView::Array(groups)) <==> exists|i: int, j: int|
            #![trigger groups[i].field("hooks"@)->Array_0[j]]
            0 <= i < groups.len() && groups[i].field("hooks"@) is Array
                && 0 <= j < (groups[i].field(
                "hooks"@,
            )->Array_0).len() && install::ours(groups[i].field("hooks"@)->Array_0[j]),
{
    let value = JsonView::Array(groups);
    assert(value->Array_0 == groups);
    if install::event_has(value) {
        let i = choose|i: int| 0 <= i < groups.len() && install::group_has(#[trigger] groups[i]);
        let entries = install::entries_of(groups[i])->0;
        let j = choose|j: int| 0 <= j < entries.len() && install::ours(#[trigger] entries[j]);
        assert(install::ours(groups[i].field("hooks"@)->Array_0[j]));
    }
    if exists|i: int, j: int|
        #![trigger groups[i].field("hooks"@)->Array_0[j]]
        0 <= i < groups.len() && groups[i].field("hooks"@) is Array && 0 <= j < (groups[i].field(
            "hooks"@,
        )->Array_0).len() && install::ours(groups[i].field("hooks"@)->Array_0[j]) {
        let (i, j) = choose|i: int, j: int|
            #![trigger groups[i].field("hooks"@)->Array_0[j]]
            0 <= i < groups.len() && groups[i].field("hooks"@) is Array && 0 <= j < (
            groups[i].field("hooks"@)->Array_0).len() && install::ours(
                groups[i].field("hooks"@)->Array_0[j],
            );
        let entries = install::entries_of(groups[i])->0;
        assert(install::ours(entries[j]));
        assert(install::group_has(value->Array_0[i]));
    }
}

/// An event is missing when it is one of ours and does not run this program.
pub proof fn an_event_is_missing_when_it_does_not_run_us(root: JsonView, event: Seq<char>)
    ensures
        install::missing_spec(root, install::event_names()).contains(event) <==> (event == "SessionStart"@
            || event == "UserPromptSubmit"@ || event == "PreToolUse"@ || event == "PostToolUse"@
            || event == "PostToolUseFailure"@ || event == "PermissionRequest"@
            || event == "PermissionDenied"@ || event == "Notification"@ || event == "Stop"@
            || event == "StopFailure"@ || event == "SubagentStart"@ || event == "SubagentStop"@
            || event == "PreCompact"@ || event == "PostCompact"@ || event == "SessionEnd"@)
            && !install::event_has(root.field("hooks"@).field(event)),
{
    these_events_are_registered(event);
    lemma_missing(root, install::event_names(), event);
}

proof fn lemma_missing(root: JsonView, names: Seq<Seq<char>>, event: Seq<char>)
    ensures
        install::missing_spec(root, names).contains(event) <==> names.contains(event)
            && !install::event_has(root.field("hooks"@).field(event)),
    decreases names.len(),
{
    let out = install::missing_spec(root, names);
    if names.len() > 0 {
        let less = names.drop_last();
        lemma_missing(root, less, event);
        let before = install::missing_spec(root, less);
        if names.contains(event) {
            let n = choose|n: int| 0 <= n < names.len() && names[n] == event;
            if n < less.len() {
                assert(less[n] == event);
            }
        }
        if less.contains(event) {
            let n = choose|n: int| 0 <= n < less.len() && less[n] == event;
            assert(names[n] == event);
        }
        if out.contains(event) {
            let k = choose|k: int| 0 <= k < out.len() && out[k] == event;
            if k < before.len() {
                assert(before[k] == event);
            } else {
                assert(names[names.len() - 1] == event);
            }
        }
        if before.contains(event) {
            let k = choose|k: int| 0 <= k < before.len() && before[k] == event;
            assert(out[k] == event);
        }
        if event == names.last() && !install::event_ours(root, event) {
            assert(out[out.len() - 1] == event);
        }
    } else {
        assert(out.len() == 0);
    }
}

/// The program that is registered is the first of ours, in the order of the
/// file.
pub proof fn the_first_of_ours_is_registered(
    entries: Seq<JsonView>,
    groups: Seq<JsonView>,
    hooks: Seq<(Seq<char>, JsonView)>,
    name: Seq<char>,
    command: Seq<char>,
)
    requires
        entries.len() > 0,
        entries[0].text_at("command"@) == Some(command),
        strings::has(strings::ascii_lowered(command), "pipsqueak"@),
        groups.len() > 0,
        groups[0].field("hooks"@) == JsonView::Array(entries),
        hooks.len() > 0,
        hooks[0] == (name, JsonView::Array(groups)),
    ensures
        install::first_in_entries(entries) == Some(command),
        install::first_in_groups(groups) == Some(command),
        install::first_in_hooks(hooks) == Some(command),
        forall|other: JsonView|
            !install::ours(other) ==> install::first_in_entries(seq![other] + entries) == Some(
                command,
            ),
{
    assert forall|other: JsonView| !install::ours(other) implies install::first_in_entries(
        seq![other] + entries,
    ) == Some(command) by {
        assert((seq![other] + entries).skip(1) =~= entries);
    }
}

/// A backup is known by its name, and nothing else is one.
pub proof fn a_backup_is_known_by_its_name(now: u64, name: Seq<char>)
    ensures
        install::backup_time("settings.json.pipsqueak-backup-"@ + strings::decimal_spec(now as nat))
            == Some(now),
        strings::begins(name, "settings.json.pipsqueak-backup-"@) == false ==> install::backup_time(
            name,
        ) is None,
{
    let mark = "settings.json.pipsqueak-backup-"@;
    let whole = mark + strings::decimal_spec(now as nat);
    assert(whole.take(mark.len() as int) =~= mark);
    assert(whole.skip(mark.len() as int) =~= strings::decimal_spec(now as nat));
    strings::decimals_are_read_back(now);
}

/// The five newest backups are kept, and no more: one that five others are newer
/// than is dropped, one that only four or fewer are newer than is not, and what
/// is no backup never is.
pub proof fn the_five_newest_backups_are_kept(names: Seq<Seq<char>>, i: int)
    requires
        0 <= i < names.len(),
        names.no_duplicates(),
    ensures
        install::stale_spec(names, names.len()).contains(names[i]) <==> Set::new(
            |j: int| 0 <= j < names.len() && is_newer_backup(names, j, i),
        ).len() >= 5,
{
    lemma_stale(names, names.len(), i);
    lemma_newer_set(names, i, names.len());
}

/// Whether one file is a backup and newer than another that is one.
pub open spec fn is_newer_backup(names: Seq<Seq<char>>, j: int, i: int) -> bool {
    match (install::backup_time(names[j]), install::backup_time(names[i])) {
        (Some(a), Some(b)) => a > b || (a == b && j < i),
        _ => false,
    }
}

proof fn lemma_newer_set(names: Seq<Seq<char>>, i: int, n: nat)
    requires
        n <= names.len(),
    ensures
        ({
            let found = Set::new(|j: int| 0 <= j < n && is_newer_backup(names, j, i));
            &&& found.finite()
            &&& found.len() == install::newer_count(names, i, n)
        }),
    decreases n,
{
    let found = Set::new(|j: int| 0 <= j < n && is_newer_backup(names, j, i));
    if n == 0 {
        assert(found =~= Set::empty());
    } else {
        let less = Set::new(|j: int| 0 <= j < n - 1 && is_newer_backup(names, j, i));
        lemma_newer_set(names, i, (n - 1) as nat);
        let m = (n - 1) as nat;
        assert(less =~= Set::new(|j: int| 0 <= j < m && is_newer_backup(names, j, i)));
        if is_newer_backup(names, n - 1, i) {
            assert(found =~= less.insert(n - 1));
        } else {
            assert(found =~= less);
        }
    }
}

proof fn lemma_stale(names: Seq<Seq<char>>, n: nat, i: int)
    requires
        n <= names.len(),
        0 <= i < names.len(),
        names.no_duplicates(),
    ensures
        install::stale_spec(names, n).contains(names[i]) <==> i < n && install::newer_count(
            names,
            i,
            names.len(),
        ) >= 5,
    decreases n,
{
    let out = install::stale_spec(names, n);
    if n > 0 {
        lemma_stale(names, (n - 1) as nat, i);
        let before = install::stale_spec(names, (n - 1) as nat);
        if out.contains(names[i]) {
            let k = choose|k: int| 0 <= k < out.len() && out[k] == names[i];
            if k < before.len() {
                assert(before[k] == names[i]);
            } else {
                assert(names[n - 1] == names[i]);
            }
        }
        if before.contains(names[i]) {
            let k = choose|k: int| 0 <= k < before.len() && before[k] == names[i];
            assert(out[k] == names[i]);
        }
        if i == n - 1 && install::newer_count(names, i, names.len()) >= 5 {
            assert(out[out.len() - 1] == names[i]);
        }
    } else {
        assert(out.len() == 0);
    }
}

/// A refusal names the file, or what is wrong in it.
pub proof fn a_refusal_names_what_is_wrong(
    reason: Seq<char>,
    event: Seq<char>,
    path: Seq<char>,
)
    ensures
        install::refusal_text(RefusalView::Invalid(reason), path) == path + " is not valid JSON ("@
            + reason + ") — refusing to touch it"@,
        install::refusal_text(RefusalView::NotObject, path) == path + " is not a JSON object"@,
        install::refusal_text(RefusalView::HooksNotObject, path)
            == "settings.hooks is not an object"@,
        install::refusal_text(RefusalView::EventNotArray(event), path) == "settings.hooks."@ + event
            + " is not an array"@,
{
}

/// The hooks are installed when some event runs us, and the program that they run is
/// that of the first that does.
pub proof fn hooks_are_installed_when_some_event_runs_us(
    root: JsonView,
    hooks: Seq<(Seq<char>, JsonView)>,
    first: (Seq<char>, JsonView),
    group: JsonView,
    groups: Seq<JsonView>,
)
    ensures
        root.field("hooks"@) == JsonView::Object(hooks) ==> {
            &&& install::any_ours(root) <==> exists|i: int|
                0 <= i < hooks.len() && install::event_has((#[trigger] hooks[i]).1)
            &&& install::registered_spec(root) == install::first_in_hooks(hooks)
        },
        !(root.field("hooks"@) is Object) ==> !install::any_ours(root) && install::registered_spec(
            root,
        ) is None,
        !(first.1 is Array) ==> install::first_in_hooks(seq![first] + hooks)
            == install::first_in_hooks(hooks),
        !(group.field("hooks"@) is Array) ==> install::first_in_groups(seq![group] + groups)
            == install::first_in_groups(groups),
{
    assert((seq![first] + hooks).skip(1) =~= hooks);
    assert((seq![group] + groups).skip(1) =~= groups);
}

} // verus!
