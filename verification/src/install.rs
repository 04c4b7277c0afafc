//! Registers (and removes) the hooks that feed the pet.
//!
//! The agent's `settings.json` is usually hand-tuned and load-bearing, so this
//! module is deliberately conservative: it only ever touches entries it can
//! prove are its own, keeps the order of everything else, and refuses to do
//! anything at all if the file is not valid JSON.

use vstd::prelude::*;
use vstd::string::*;

use crate::json;
use crate::json::{Json, JsonView};
use crate::strings;

verus! {

/// Every event the pet reacts to. Ordering is cosmetic.
pub open spec fn event_names() -> Seq<Seq<char>> {
    seq![
        "SessionStart"@,
        "UserPromptSubmit"@,
        "PreToolUse"@,
        "PostToolUse"@,
        "PostToolUseFailure"@,
        "PermissionRequest"@,
        "PermissionDenied"@,
        "Notification"@,
        "Stop"@,
        "StopFailure"@,
        "SubagentStart"@,
        "SubagentStop"@,
        "PreCompact"@,
        "PostCompact"@,
        "SessionEnd"@,
    ]
}

pub fn events() -> (r: Vec<String>)
    ensures
        strings::views(r@) == event_names(),
{
    let r: Vec<String> = vec![
        "SessionStart".to_owned(),
        "UserPromptSubmit".to_owned(),
        "PreToolUse".to_owned(),
        "PostToolUse".to_owned(),
        "PostToolUseFailure".to_owned(),
        "PermissionRequest".to_owned(),
        "PermissionDenied".to_owned(),
        "Notification".to_owned(),
        "Stop".to_owned(),
        "StopFailure".to_owned(),
        "SubagentStart".to_owned(),
        "SubagentStop".to_owned(),
        "PreCompact".to_owned(),
        "PostCompact".to_owned(),
        "SessionEnd".to_owned(),
    ];
    assert(strings::views(r@) =~= event_names());
    r
}

// --- what is ours ----------------------------------------------------------
/// Whether a program is this one, by its path.
pub open spec fn marked(command: Seq<char>) -> bool {
    strings::has(strings::ascii_lowered(command), "pipsqueak"@)
}

/// Whether a hook runs this program.
pub open spec fn ours(entry: JsonView) -> bool {
    match entry.text_at("command"@) {
        Some(command) => marked(command),
        None => false,
    }
}

pub fn is_ours(entry: &Json) -> (r: bool)
    ensures
        r == ours(entry@),
{
    match entry.text_at("command") {
        Some(command) => strings::contains(strings::lower_ascii(command).as_str(), "pipsqueak"),
        None => false,
    }
}

/// The hooks that are not ours, in order.
pub open spec fn others(entries: Seq<JsonView>) -> Seq<JsonView>
    decreases entries.len(),
{
    if entries.len() == 0 {
        seq![]
    } else if ours(entries.last()) {
        others(entries.drop_last())
    } else {
        others(entries.drop_last()).push(entries.last())
    }
}

/// The hooks of a group.
pub open spec fn entries_of(group: JsonView) -> Option<Seq<JsonView>> {
    group.field("hooks"@).list()
}

fn hook_entries(group: &Json) -> (r: Option<&Vec<Json>>)
    ensures
        match r {
            Some(entries) => entries_of(group@) == Some(json::list_view(entries@)),
            None => entries_of(group@) is None,
        },
{
    match group.get("hooks") {
        Some(list) => list.as_array(),
        None => None,
    }
}

/// A group of hooks without ours.
pub open spec fn cleared(group: JsonView) -> JsonView {
    match (group, entries_of(group)) {
        (JsonView::Object(fields), Some(entries)) => JsonView::Object(
            json::with_field(fields, "hooks"@, JsonView::Array(others(entries))),
        ),
        _ => group,
    }
}

/// Whether nothing is left of a group once ours are gone.
pub open spec fn hollow(group: JsonView) -> bool {
    match entries_of(group) {
        Some(entries) => others(entries).len() == 0,
        None => false,
    }
}

/// The groups of an event without our hooks, and without the groups of which
/// nothing is left.
pub open spec fn stripped(groups: Seq<JsonView>) -> Seq<JsonView>
    decreases groups.len(),
{
    if groups.len() == 0 {
        seq![]
    } else if hollow(groups.last()) {
        stripped(groups.drop_last())
    } else {
        stripped(groups.drop_last()).push(cleared(groups.last()))
    }
}

/// How many of the hooks of an event are ours.
pub open spec fn count_ours(groups: Seq<JsonView>) -> nat
    decreases groups.len(),
{
    if groups.len() == 0 {
        0
    } else {
        count_ours(groups.drop_last()) + group_ours(groups.last())
    }
}

/// A count as far as a machine word can hold it.
pub open spec fn capped(n: nat) -> nat {
    if n <= usize::MAX {
        n
    } else {
        usize::MAX as nat
    }
}

pub open spec fn group_ours(group: JsonView) -> nat {
    match entries_of(group) {
        Some(entries) => (entries.len() - others(entries).len()) as nat,
        None => 0,
    }
}

pub proof fn lemma_others(entries: Seq<JsonView>)
    ensures
        others(entries).len() <= entries.len(),
        forall|i: int| 0 <= i < others(entries).len() ==> !ours(#[trigger] others(entries)[i]),
        others(others(entries)) == others(entries),
        (forall|i: int| 0 <= i < entries.len() ==> !ours(#[trigger] entries[i])) ==> others(
            entries,
        ) == entries,
    decreases entries.len(),
{
    if entries.len() > 0 {
        let rest = entries.drop_last();
        lemma_others(rest);
        let before = others(rest);
        if !ours(entries.last()) {
            let after = others(entries);
            assert(after.drop_last() =~= before);
            if forall|i: int| 0 <= i < entries.len() ==> !ours(#[trigger] entries[i]) {
                assert forall|i: int| 0 <= i < rest.len() implies !ours(#[trigger] rest[i]) by {
                    assert(rest[i] == entries[i]);
                }
                assert(after =~= entries);
            }
        } else {
            assert(ours(entries[entries.len() - 1]));
        }
    } else {
        assert(others(entries) =~= entries);
    }
}

fn others_of(entries: &Vec<Json>) -> (r: Vec<Json>)
    ensures
        json::list_view(r@) == others(json::list_view(entries@)),
{
    let ghost all = json::list_view(entries@);
    let mut out: Vec<Json> = Vec::new();
    let mut i: usize = 0;
    assert(all.take(0) =~= seq![]);
    assert(json::list_view(out@) =~= seq![]);
    while i < entries.len()
        invariant
            i <= entries@.len(),
            all == json::list_view(entries@),
            json::list_view(out@) == others(all.take(i as int)),
        decreases entries@.len() - i,
    {
        let ghost before = json::list_view(out@);
        assert(all.take(i + 1).drop_last() =~= all.take(i as int));
        assert(all.take(i + 1).last() == entries@[i as int]@);
        if !is_ours(&entries[i]) {
            let kept = entries[i].copy();
            let ghost held = kept@;
            out.push(kept);
            assert(json::list_view(out@) =~= before.push(held));
        }
        i = i + 1;
    }
    assert(all.take(i as int) =~= all);
    out
}

/// Remove only our own command hooks, leaving every other hook untouched.
/// Returns how many were removed.
pub fn strip_ours(groups: &mut Vec<Json>) -> (r: usize)
    ensures
        json::list_view(final(groups)@) == stripped(json::list_view(old(groups)@)),
        r == capped(count_ours(json::list_view(old(groups)@))),
{
    broadcast use json::lemma_view;

    let ghost all = json::list_view(groups@);
    let mut out: Vec<Json> = Vec::new();
    let mut removed: usize = 0;
    let mut i: usize = 0;
    assert(all.take(0) =~= seq![]);
    assert(json::list_view(out@) =~= seq![]);
    while i < groups.len()
        invariant
            i <= groups@.len(),
            groups@ == old(groups)@,
            all == json::list_view(groups@),
            removed == capped(count_ours(all.take(i as int))),
            json::list_view(out@) == stripped(all.take(i as int)),
        decreases groups@.len() - i,
    {
        let ghost before = json::list_view(out@);
        let ghost group = groups@[i as int]@;
        proof {
            assert(all.take(i + 1).drop_last() =~= all.take(i as int));
            assert(all.take(i + 1).last() == group);
        }
        match (&groups[i], hook_entries(&groups[i])) {
            (Json::Object(fields), Some(entries)) => {
                let ghost listed = json::list_view(entries@);
                proof {
                    lemma_others(listed);
                    assert(listed.len() == entries@.len());
                }
                let kept = others_of(entries);
                assert(json::list_view(kept@).len() == kept@.len());
                removed = removed.saturating_add(entries.len() - kept.len());
                if kept.len() > 0 {
                    let list = Json::Array(kept);
                    proof {
                        json::lemma_view(list);
                    }
                    let smaller = Json::Object(
                        json::set_field(json::copy_fields(fields), "hooks", list),
                    );
                    let ghost held = smaller@;
                    proof {
                        json::lemma_view(groups@[i as int]);
                        json::lemma_view(smaller);
                        assert(held == cleared(group));
                    }
                    out.push(smaller);
                    assert(json::list_view(out@) =~= before.push(held));
                }
            },
            _ => {
                let kept = groups[i].copy();
                let ghost held = kept@;
                out.push(kept);
                assert(json::list_view(out@) =~= before.push(held));
            },
        }
        i = i + 1;
    }
    assert(all.take(i as int) =~= all);
    *groups = out;
    removed
}

// --- adding ours -----------------------------------------------------------
/// The group that runs this program for an event.
pub open spec fn our_group_spec(exe: Seq<char>, event: Seq<char>) -> JsonView {
    JsonView::Object(
        seq![
            ("matcher"@, JsonView::Text("*"@)),
            (
                "hooks"@,
                JsonView::Array(
                    seq![
                        JsonView::Object(
                            seq![
                                ("type"@, JsonView::Text("command"@)),
                                ("command"@, JsonView::Text(exe)),
                                (
                                    "args"@,
                                    JsonView::Array(
                                        seq![JsonView::Text("hook"@), JsonView::Text(event)],
                                    ),
                                ),
                                ("timeout"@, JsonView::Unsigned(5)),
                                ("async"@, JsonView::Bool(true)),
                            ],
                        ),
                    ],
                ),
            ),
        ],
    )
}

fn named(key: &str, value: Json) -> (r: (String, Json))
    ensures
        r.0@ == key@,
        r.1@ == value@,
{
    (key.to_owned(), value)
}

fn quoted(s: &str) -> (r: Json)
    ensures
        r@ == JsonView::Text(s@),
{
    Json::Text(s.to_owned())
}

pub fn our_group(exe: &str, event: &str) -> (r: Json)
    ensures
        r@ == our_group_spec(exe@, event@),
{
    broadcast use json::lemma_view;

    let ghost goal = our_group_spec(exe@, event@)->Object_0;
    let ghost entry_goal = goal[1].1->Array_0[0]->Object_0;
    let args: Vec<Json> = vec![quoted("hook"), quoted(event)];
    assert(json::list_view(args@) =~= entry_goal[2].1->Array_0);
    let entry: Vec<(String, Json)> = vec![
        named("type", quoted("command")),
        named("command", quoted(exe)),
        named("args", Json::Array(args)),
        named("timeout", Json::Unsigned(5)),
        named("async", Json::Bool(true)),
    ];
    assert(json::fields_view(entry@) =~= entry_goal);
    let hooks: Vec<Json> = vec![Json::Object(entry)];
    assert(json::list_view(hooks@) =~= goal[1].1->Array_0);
    let group: Vec<(String, Json)> = vec![
        named("matcher", quoted("*")),
        named("hooks", Json::Array(hooks)),
    ];
    assert(json::fields_view(group@) =~= goal);
    Json::Object(group)
}

// --- the hooks of every event -----------------------------------------------
/// An event without our hooks.
pub open spec fn field_after(field: (Seq<char>, JsonView)) -> (Seq<char>, JsonView) {
    match field.1 {
        JsonView::Array(groups) => (field.0, JsonView::Array(stripped(groups))),
        _ => field,
    }
}

/// Whether an event has no hook left once ours are gone.
pub open spec fn emptied(field: (Seq<char>, JsonView)) -> bool {
    match field.1 {
        JsonView::Array(groups) => stripped(groups).len() == 0,
        _ => false,
    }
}

/// What becomes of an event, `None` where it goes.
///
/// On an install an event of ours gives up what it has of ours to make room, and
/// any other event is left as it is unless it has something of ours, which goes,
/// and the event with it where it had nothing else. A removal leaves no event
/// without a hook.
pub open spec fn treated(field: (Seq<char>, JsonView), installing: bool) -> Option<
    (Seq<char>, JsonView),
> {
    if installing && event_names().contains(field.0) {
        Some(field_after(field))
    } else if installing && !event_has(field.1) {
        Some(field)
    } else if emptied(field) {
        None
    } else {
        Some(field_after(field))
    }
}

/// All events, so treated.
pub open spec fn purged(hooks: Seq<(Seq<char>, JsonView)>, installing: bool) -> Seq<
    (Seq<char>, JsonView),
>
    decreases hooks.len(),
{
    if hooks.len() == 0 {
        seq![]
    } else {
        let before = purged(hooks.drop_last(), installing);
        match treated(hooks.last(), installing) {
            Some(field) => before.push(field),
            None => before,
        }
    }
}

/// How many hooks of ours there are over all events.
pub open spec fn total_ours(hooks: Seq<(Seq<char>, JsonView)>) -> nat
    decreases hooks.len(),
{
    if hooks.len() == 0 {
        0
    } else {
        total_ours(hooks.drop_last()) + (match hooks.last().1 {
            JsonView::Array(groups) => count_ours(groups),
            _ => 0nat,
        })
    }
}

/// The events as they are before ours are added.
fn make_room(hooks: &Vec<(String, Json)>, names: &Vec<String>) -> (r: Vec<(String, Json)>)
    requires
        strings::views(names@) == event_names(),
    ensures
        json::fields_view(r@) == purged(json::fields_view(hooks@), true),
{
    let ghost all = json::fields_view(hooks@);
    let mut out: Vec<(String, Json)> = Vec::new();
    let mut i: usize = 0;
    assert(all.take(0) =~= seq![]);
    assert(json::fields_view(out@) =~= seq![]);
    while i < hooks.len()
        invariant
            i <= hooks@.len(),
            all == json::fields_view(hooks@),
            strings::views(names@) == event_names(),
            json::fields_view(out@) == purged(all.take(i as int), true),
        decreases hooks@.len() - i,
    {
        let ghost before = json::fields_view(out@);
        let ghost field = all[i as int];
        proof {
            assert(all.take(i + 1).drop_last() =~= all.take(i as int));
            assert(all.take(i + 1).last() == field);
            json::lemma_view(hooks@[i as int].1);
        }
        let ours = strings::holds(names, hooks[i].0.as_str());
        let touched = ours || event_has_ours(&hooks[i].1);
        match &hooks[i].1 {
            Json::Array(groups) => {
                if touched {
                    let mut rest = json::copy_list(groups);
                    strip_ours(&mut rest);
                    assert(json::list_view(rest@).len() == rest@.len());
                    if ours || rest.len() > 0 {
                        let list = Json::Array(rest);
                        proof {
                            json::lemma_view(list);
                        }
                        let ghost held = (hooks@[i as int].0@, list@);
                        out.push(named(hooks[i].0.as_str(), list));
                        assert(json::fields_view(out@) =~= before.push(held));
                    }
                } else {
                    out.push(named(hooks[i].0.as_str(), hooks[i].1.copy()));
                    assert(json::fields_view(out@) =~= before.push(field));
                }
            },
            _ => {
                out.push(named(hooks[i].0.as_str(), hooks[i].1.copy()));
                assert(json::fields_view(out@) =~= before.push(field));
            },
        }
        i = i + 1;
    }
    assert(all.take(i as int) =~= all);
    out
}

/// The events without our hooks, and how many there were.
fn purge(hooks: &Vec<(String, Json)>) -> (r: (Vec<(String, Json)>, usize))
    ensures
        json::fields_view(r.0@) == purged(json::fields_view(hooks@), false),
        r.1 == capped(total_ours(json::fields_view(hooks@))),
{
    let ghost all = json::fields_view(hooks@);
    let mut out: Vec<(String, Json)> = Vec::new();
    let mut removed: usize = 0;
    let mut i: usize = 0;
    assert(all.take(0) =~= seq![]);
    assert(json::fields_view(out@) =~= seq![]);
    while i < hooks.len()
        invariant
            i <= hooks@.len(),
            all == json::fields_view(hooks@),
            removed == capped(total_ours(all.take(i as int))),
            json::fields_view(out@) == purged(all.take(i as int), false),
        decreases hooks@.len() - i,
    {
        let ghost before = json::fields_view(out@);
        let ghost field = all[i as int];
        proof {
            assert(all.take(i + 1).drop_last() =~= all.take(i as int));
            assert(all.take(i + 1).last() == field);
            json::lemma_view(hooks@[i as int].1);
        }
        match &hooks[i].1 {
            Json::Array(groups) => {
                let mut rest = json::copy_list(groups);
                let n: usize = strip_ours(&mut rest);
                removed = removed.saturating_add(n);
                assert(json::list_view(rest@).len() == rest@.len());
                if rest.len() > 0 {
                    let list = Json::Array(rest);
                    proof {
                        json::lemma_view(list);
                    }
                    let ghost held = (hooks@[i as int].0@, list@);
                    out.push(named(hooks[i].0.as_str(), list));
                    assert(json::fields_view(out@) =~= before.push(held));
                }
            },
            _ => {
                out.push(named(hooks[i].0.as_str(), hooks[i].1.copy()));
                assert(json::fields_view(out@) =~= before.push(field));
            },
        }
        i = i + 1;
    }
    assert(all.take(i as int) =~= all);
    (out, removed)
}

/// The groups of an event.
pub open spec fn groups_at(hooks: Seq<(Seq<char>, JsonView)>, event: Seq<char>) -> Seq<JsonView> {
    match json::lookup(hooks, event) {
        Some(JsonView::Array(groups)) => groups,
        _ => seq![],
    }
}

/// The hooks with ours added to each of the events.
pub open spec fn added(
    hooks: Seq<(Seq<char>, JsonView)>,
    exe: Seq<char>,
    names: Seq<Seq<char>>,
) -> Seq<(Seq<char>, JsonView)>
    decreases names.len(),
{
    if names.len() == 0 {
        hooks
    } else {
        let before = added(hooks, exe, names.drop_last());
        let event = names.last();
        json::with_field(
            before,
            event,
            JsonView::Array(groups_at(before, event).push(our_group_spec(exe, event))),
        )
    }
}

fn add_all(hooks: Vec<(String, Json)>, exe: &str, names: &Vec<String>) -> (r: Vec<(String, Json)>)
    ensures
        json::fields_view(r@) == added(
            json::fields_view(hooks@),
            exe@,
            strings::views(names@),
        ),
{
    let ghost start = json::fields_view(hooks@);
    let ghost all = strings::views(names@);
    let mut out = hooks;
    let mut i: usize = 0;
    assert(all.take(0) =~= seq![]);
    while i < names.len()
        invariant
            i <= names@.len(),
            all == strings::views(names@),
            json::fields_view(out@) == added(start, exe@, all.take(i as int)),
        decreases names@.len() - i,
    {
        let event = names[i].as_str();
        proof {
            assert(all.take(i + 1).drop_last() =~= all.take(i as int));
            assert(all.take(i + 1).last() == event@);
        }
        let mut groups = groups_of(&out, event);
        let ghost before = json::list_view(groups@);
        let ours = our_group(exe, event);
        let ghost held = ours@;
        groups.push(ours);
        assert(json::list_view(groups@) =~= before.push(held));
        let list = Json::Array(groups);
        proof {
            json::lemma_view(list);
        }
        out = json::set_field(out, event, list);
        i = i + 1;
    }
    assert(all.take(i as int) =~= all);
    out
}

fn groups_of(hooks: &Vec<(String, Json)>, event: &str) -> (r: Vec<Json>)
    ensures
        json::list_view(r@) == groups_at(json::fields_view(hooks@), event@),
{
    match field_of(hooks, event) {
        Some(Json::Array(groups)) => json::copy_list(groups),
        _ => {
            let none: Vec<Json> = Vec::new();
            assert(json::list_view(none@) =~= seq![]);
            none
        },
    }
}

fn field_of<'a>(fields: &'a Vec<(String, Json)>, key: &str) -> (r: Option<&'a Json>)
    ensures
        json::opt_json(r) == json::lookup(json::fields_view(fields@), key@),
        match r {
            Some(Json::Array(items)) => json::lookup(json::fields_view(fields@), key@) == Some(
                JsonView::Array(json::list_view(items@)),
            ),
            _ => !(json::lookup(json::fields_view(fields@), key@) matches Some(JsonView::Array(_))),
        },
{
    let ghost all = json::fields_view(fields@);
    let mut i: usize = 0;
    assert(all.skip(0) =~= all);
    while i < fields.len()
        invariant
            i <= fields@.len(),
            all == json::fields_view(fields@),
            json::lookup(all, key@) == json::lookup(all.skip(i as int), key@),
        decreases fields@.len() - i,
    {
        assert(all.skip(i as int)[0] == all[i as int]);
        assert(all.skip(i as int).skip(1) =~= all.skip(i + 1));
        if strings::same(fields[i].0.as_str(), key) {
            proof {
                json::lemma_view(fields@[i as int].1);
            }
            return Some(&fields[i].1);
        }
        i = i + 1;
    }
    None
}

// --- the settings as a whole -------------------------------------------------
/// Why the settings are left alone.
pub enum Refusal {
    /// The file is not JSON, for the reason given.
    Invalid(String),
    /// The file holds JSON, but no object.
    NotObject,
    /// `hooks` is there, but no object.
    HooksNotObject,
    /// An event of ours is there, but holds no array.
    EventNotArray(String),
}

#[verifier::ext_equal]
pub enum RefusalView {
    Invalid(Seq<char>),
    NotObject,
    HooksNotObject,
    EventNotArray(Seq<char>),
}

impl View for Refusal {
    type V = RefusalView;

    open spec fn view(&self) -> RefusalView {
        match self {
            Refusal::Invalid(reason) => RefusalView::Invalid(reason@),
            Refusal::NotObject => RefusalView::NotObject,
            Refusal::HooksNotObject => RefusalView::HooksNotObject,
            Refusal::EventNotArray(event) => RefusalView::EventNotArray(event@),
        }
    }
}

pub open spec fn refusal_text(why: RefusalView, path: Seq<char>) -> Seq<char> {
    match why {
        RefusalView::Invalid(reason) => path + " is not valid JSON ("@ + reason
            + ") — refusing to touch it"@,
        RefusalView::NotObject => path + " is not a JSON object"@,
        RefusalView::HooksNotObject => "settings.hooks is not an object"@,
        RefusalView::EventNotArray(event) => "settings.hooks."@ + event + " is not an array"@,
    }
}

impl Refusal {
    /// The refusal in words, for the settings at a path.
    pub fn message(&self, path: &str) -> (r: String)
        ensures
            r@ == refusal_text(self@, path@),
    {
        match self {
            Refusal::Invalid(reason) => strings::concat3(
                strings::concat2(path, " is not valid JSON (").as_str(),
                reason.as_str(),
                ") — refusing to touch it",
            ),
            Refusal::NotObject => strings::concat2(path, " is not a JSON object"),
            Refusal::HooksNotObject => "settings.hooks is not an object".to_owned(),
            Refusal::EventNotArray(event) => strings::concat3(
                "settings.hooks.",
                event.as_str(),
                " is not an array",
            ),
        }
    }
}

/// What a settings file holds: a file that is missing or blank holds an empty
/// object, and one that is not a JSON object is not to be touched.
pub open spec fn settings_spec(raw: Option<Seq<char>>) -> Result<JsonView, RefusalView> {
    match raw {
        None => Ok(JsonView::Object(seq![])),
        Some(text) => if strings::trimmed(text).len() == 0 {
            Ok(JsonView::Object(seq![]))
        } else {
            judged(json::read_spec(text))
        },
    }
}

pub open spec fn judged(parsed: Result<JsonView, Seq<char>>) -> Result<JsonView, RefusalView> {
    match parsed {
        Err(reason) => Err(RefusalView::Invalid(reason)),
        Ok(JsonView::Object(fields)) => Ok(JsonView::Object(fields)),
        Ok(_) => Err(RefusalView::NotObject),
    }
}

pub open spec fn result_view(r: Result<Json, Refusal>) -> Result<JsonView, RefusalView> {
    match r {
        Ok(j) => Ok(j@),
        Err(e) => Err(e@),
    }
}

fn nothing() -> (r: Json)
    ensures
        r@ == JsonView::Object(seq![]),
{
    let none: Vec<(String, Json)> = Vec::new();
    let r = Json::Object(none);
    proof {
        json::lemma_view(r);
        assert(json::fields_view(none@) =~= seq![]);
    }
    r
}

/// Settings as they were parsed, unless they are no object.
pub fn judge_settings(parsed: Result<Json, String>) -> (r: Result<Json, Refusal>)
    ensures
        result_view(r) == judged(
            match parsed {
                Ok(j) => Ok(j@),
                Err(reason) => Err(reason@),
            },
        ),
{
    match parsed {
        Err(reason) => Err(Refusal::Invalid(reason)),
        Ok(j) => if j.is_object() {
            Ok(j)
        } else {
            Err(Refusal::NotObject)
        },
    }
}

/// The settings in the text of their file, `None` where there is no file.
pub fn read_settings(raw: Option<&str>) -> (r: Result<Json, Refusal>)
    ensures
        result_view(r) == settings_spec(strings::opt_str(raw)),
        r matches Ok(j) ==> json::storable(j@),
{
    match raw {
        None => Ok(nothing()),
        Some(text) => {
            if strings::trim(text).as_str().is_empty() {
                Ok(nothing())
            } else {
                judge_settings(json::read(text))
            }
        },
    }
}

/// The events in a settings object: none where it has no `hooks`.
pub open spec fn hooks_spec(root: JsonView) -> Result<Seq<(Seq<char>, JsonView)>, RefusalView> {
    match root {
        JsonView::Object(_) => match root.get("hooks"@) {
            None => Ok(seq![]),
            Some(JsonView::Object(hooks)) => Ok(hooks),
            Some(_) => Err(RefusalView::HooksNotObject),
        },
        _ => Err(RefusalView::NotObject),
    }
}

/// The first event of ours that holds no array.
pub open spec fn misfit(
    hooks: Seq<(Seq<char>, JsonView)>,
    names: Seq<Seq<char>>,
) -> Option<Seq<char>>
    decreases names.len(),
{
    if names.len() == 0 {
        None
    } else {
        match json::lookup(hooks, names[0]) {
            Some(JsonView::Array(_)) => misfit(hooks, names.skip(1)),
            Some(_) => Some(names[0]),
            None => misfit(hooks, names.skip(1)),
        }
    }
}

fn find_misfit(hooks: &Vec<(String, Json)>, names: &Vec<String>) -> (r: Option<String>)
    ensures
        strings::opt_view(r) == misfit(json::fields_view(hooks@), strings::views(names@)),
{
    let ghost all = strings::views(names@);
    let ghost fields = json::fields_view(hooks@);
    let mut i: usize = 0;
    assert(all.skip(0) =~= all);
    while i < names.len()
        invariant
            i <= names@.len(),
            all == strings::views(names@),
            fields == json::fields_view(hooks@),
            misfit(fields, all) == misfit(fields, all.skip(i as int)),
        decreases names@.len() - i,
    {
        assert(all.skip(i as int)[0] == names@[i as int]@);
        assert(all.skip(i as int).skip(1) =~= all.skip(i + 1));
        match field_of(hooks, names[i].as_str()) {
            Some(Json::Array(_)) => {},
            Some(_) => {
                return Some(names[i].as_str().to_owned());
            },
            None => {},
        }
        i = i + 1;
    }
    None
}

/// The events with our hooks in each of ours, and in no other.
pub open spec fn installed_hooks(hooks: Seq<(Seq<char>, JsonView)>, exe: Seq<char>) -> Seq<
    (Seq<char>, JsonView),
> {
    added(purged(hooks, true), exe, event_names())
}

/// The settings with our hooks.
pub open spec fn installed_spec(root: JsonView, exe: Seq<char>) -> Result<JsonView, RefusalView> {
    match hooks_spec(root) {
        Err(why) => Err(why),
        Ok(hooks) => match misfit(hooks, event_names()) {
            Some(event) => Err(RefusalView::EventNotArray(event)),
            None => Ok(
                JsonView::Object(
                    json::with_field(
                        root->Object_0,
                        "hooks"@,
                        JsonView::Object(installed_hooks(hooks, exe)),
                    ),
                ),
            ),
        },
    }
}

/// The settings without our hooks, and how many there were. An object that held
/// nothing else goes with them.
pub open spec fn uninstalled_spec(root: JsonView) -> Result<(JsonView, nat), RefusalView> {
    match hooks_spec(root) {
        Err(why) => Err(why),
        Ok(hooks) => {
            let rest = purged(hooks, false);
            let removed = total_ours(hooks);
            if root.get("hooks"@) is None {
                Ok((root, 0))
            } else if rest.len() == 0 && removed > 0 {
                Ok((JsonView::Object(json::without_field(root->Object_0, "hooks"@)), removed))
            } else {
                Ok(
                    (
                        JsonView::Object(
                            json::with_field(root->Object_0, "hooks"@, JsonView::Object(rest)),
                        ),
                        removed,
                    ),
                )
            }
        },
    }
}

/// The `hooks` of settings, and the fields they stand among.
fn parts(root: &Json) -> (r: Result<(&Vec<(String, Json)>, Option<&Vec<(String, Json)>>), Refusal>)
    ensures
        match r {
            Err(why) => hooks_spec(root@) == Err::<Seq<(Seq<char>, JsonView)>, RefusalView>(why@),
            Ok((fields, hooks)) => {
                &&& root@ == JsonView::Object(json::fields_view(fields@))
                &&& hooks_spec(root@) == Ok::<Seq<(Seq<char>, JsonView)>, RefusalView>(
                    match hooks {
                        Some(h) => json::fields_view(h@),
                        None => seq![],
                    },
                )
                &&& hooks is None <==> root@.get("hooks"@) is None
            },
        },
{
    proof {
        json::lemma_view(*root);
    }
    match root {
        Json::Object(fields) => {
            let found = root.get("hooks");
            match found {
                None => Ok((fields, None)),
                Some(value) => {
                    proof {
                        json::lemma_view(*value);
                    }
                    match value {
                        Json::Object(hooks) => Ok((fields, Some(hooks))),
                        _ => Err(Refusal::HooksNotObject),
                    }
                },
            }
        },
        _ => Err(Refusal::NotObject),
    }
}

/// Settings with our hooks in place of whatever was ours before.
pub fn install_into(root: &Json, exe: &str) -> (r: Result<Json, Refusal>)
    ensures
        result_view(r) == installed_spec(root@, exe@),
{
    let names = events();
    let (fields, hooks) = match parts(root) {
        Err(why) => {
            return Err(why);
        },
        Ok(found) => found,
    };
    let none: Vec<(String, Json)> = Vec::new();
    assert(json::fields_view(none@) =~= seq![]);
    let hooks = match hooks {
        Some(h) => h,
        None => &none,
    };
    match find_misfit(hooks, &names) {
        Some(event) => Err(Refusal::EventNotArray(event)),
        None => {
            let rest = make_room(hooks, &names);
            let value = Json::Object(add_all(rest, exe, &names));
            proof {
                json::lemma_view(value);
            }
            let r = Json::Object(json::set_field(json::copy_fields(fields), "hooks", value));
            proof {
                json::lemma_view(r);
            }
            Ok(r)
        },
    }
}

/// Settings without our hooks, and how many there were.
pub fn uninstall_from(root: &Json) -> (r: Result<(Json, usize), Refusal>)
    ensures
        match r {
            Ok((rest, removed)) => uninstalled_spec(root@) matches Ok((j, n)) && rest@ == j
                && removed == capped(n),
            Err(why) => uninstalled_spec(root@) == Err::<(JsonView, nat), RefusalView>(why@),
        },
{
    let (fields, hooks) = match parts(root) {
        Err(why) => {
            return Err(why);
        },
        Ok(found) => found,
    };
    let hooks = match hooks {
        Some(h) => h,
        None => {
            return Ok((root.copy(), 0));
        },
    };
    let (rest, removed) = purge(hooks);
    assert(json::fields_view(rest@).len() == rest@.len());
    if rest.len() == 0 && removed > 0 {
        let r = Json::Object(json::drop_field(json::copy_fields(fields), "hooks"));
        proof {
            json::lemma_view(r);
        }
        Ok((r, removed))
    } else {
        let value = Json::Object(rest);
        proof {
            json::lemma_view(value);
        }
        let r = Json::Object(json::set_field(json::copy_fields(fields), "hooks", value));
        proof {
            json::lemma_view(r);
        }
        Ok((r, removed))
    }
}

// --- what can be written -------------------------------------------------------
proof fn lemma_fits_with(fields: Seq<(Seq<char>, JsonView)>, key: Seq<char>, value: JsonView)
    requires
        json::storable(JsonView::Object(fields)),
        json::storable(value),
    ensures
        json::storable(JsonView::Object(json::with_field(fields, key, value))),
{
    json::lemma_field_place(fields, key, value);
    let after = json::with_field(fields, key, value);
    match json::field_place(fields, key) {
        Some(i) => {
            assert forall|a: int, b: int| 0 <= a < b < after.len() implies (#[trigger] after[a]).0
                != (#[trigger] after[b]).0 by {
                assert(after[a].0 == fields[a].0);
                assert(after[b].0 == fields[b].0);
            }
        },
        None => {
            assert forall|a: int, b: int| 0 <= a < b < after.len() implies (#[trigger] after[a]).0
                != (#[trigger] after[b]).0 by {
                assert(fields[a].0 == after[a].0);
                if b < fields.len() {
                    assert(fields[b].0 == after[b].0);
                }
            }
        },
    }
    assert forall|a: int| 0 <= a < after.len() implies json::storable(
        (#[trigger] after[a]).1,
    ) by {
        if a < fields.len() {
            assert(json::storable(fields[a].1));
        }
    }
}

proof fn lemma_fits_without(fields: Seq<(Seq<char>, JsonView)>, key: Seq<char>)
    requires
        json::storable(JsonView::Object(fields)),
    ensures
        json::storable(JsonView::Object(json::without_field(fields, key))),
{
    json::lemma_field_place(fields, key, JsonView::Null);
    let after = json::without_field(fields, key);
    match json::field_place(fields, key) {
        Some(i) => {
            assert forall|a: int, b: int| 0 <= a < b < after.len() implies (#[trigger] after[a]).0
                != (#[trigger] after[b]).0 by {
                let x = if a < i { a } else { a + 1 };
                let y = if b < i { b } else { b + 1 };
                assert(after[a] == fields[x]);
                assert(after[b] == fields[y]);
            }
            assert forall|a: int| 0 <= a < after.len() implies json::storable(
                (#[trigger] after[a]).1,
            ) by {
                let x = if a < i { a } else { a + 1 };
                assert(after[a] == fields[x]);
            }
        },
        None => {},
    }
}

proof fn lemma_fits_list(items: Seq<JsonView>)
    ensures
        json::storable(JsonView::Array(items)) <==> forall|i: int|
            0 <= i < items.len() ==> json::storable(#[trigger] items[i]),
{
    let j = JsonView::Array(items);
    assert(j->Array_0 == items);
    if json::storable(j) {
        assert forall|i: int| 0 <= i < items.len() implies json::storable(#[trigger] items[i]) by {
            assert(j->Array_0[i] == items[i]);
        }
    }
    if forall|i: int| 0 <= i < items.len() ==> json::storable(#[trigger] items[i]) {
        assert forall|i: int| 0 <= i < items.len() implies json::storable(
            #[trigger] j->Array_0[i],
        ) by {
            assert(json::storable(items[i]));
        }
        assert(json::storable(j));
    }
}

proof fn lemma_fits_others(entries: Seq<JsonView>)
    requires
        json::storable(JsonView::Array(entries)),
    ensures
        json::storable(JsonView::Array(others(entries))),
    decreases entries.len(),
{
    lemma_fits_list(entries);
    lemma_fits_list(others(entries));
    if entries.len() > 0 {
        let rest = entries.drop_last();
        lemma_fits_list(rest);
        lemma_fits_list(others(rest));
        assert forall|i: int| 0 <= i < rest.len() implies json::storable(#[trigger] rest[i]) by {
            assert(rest[i] == entries[i]);
        }
        lemma_fits_others(rest);
        assert(json::storable(entries[entries.len() - 1]));
    }
}

proof fn lemma_fits_looked_up(fields: Seq<(Seq<char>, JsonView)>, key: Seq<char>)
    requires
        json::storable(JsonView::Object(fields)),
    ensures
        json::lookup(fields, key) matches Some(value) ==> json::storable(value),
{
    json::lemma_field_place(fields, key, JsonView::Null);
}

proof fn lemma_fits_stripped(groups: Seq<JsonView>)
    requires
        json::storable(JsonView::Array(groups)),
    ensures
        json::storable(JsonView::Array(stripped(groups))),
    decreases groups.len(),
{
    lemma_fits_list(groups);
    lemma_fits_list(stripped(groups));
    if groups.len() > 0 {
        let rest = groups.drop_last();
        lemma_fits_list(rest);
        lemma_fits_list(stripped(rest));
        assert forall|i: int| 0 <= i < rest.len() implies json::storable(#[trigger] rest[i]) by {
            assert(rest[i] == groups[i]);
        }
        lemma_fits_stripped(rest);
        let last = groups.last();
        assert(last == groups[groups.len() - 1]);
        if let JsonView::Object(fields) = last {
            lemma_fits_looked_up(fields, "hooks"@);
            if let Some(entries) = entries_of(last) {
                lemma_fits_others(entries);
                lemma_fits_with(fields, "hooks"@, JsonView::Array(others(entries)));
            }
        }
        assert(json::storable(cleared(last)));
    }
}

/// Purging leaves a part of the fields, in order and under the same names.
proof fn lemma_purged(hooks: Seq<(Seq<char>, JsonView)>, installing: bool)
    requires
        json::storable(JsonView::Object(hooks)),
    ensures
        json::storable(JsonView::Object(purged(hooks, installing))),
        forall|i: int|
            0 <= i < purged(hooks, installing).len() ==> exists|j: int|
                0 <= j < hooks.len() && (#[trigger] hooks[j]).0 == (#[trigger] purged(
                    hooks,
                    installing,
                )[i]).0,
    decreases hooks.len(),
{
    if hooks.len() > 0 {
        let rest = hooks.drop_last();
        let last = hooks.last();
        assert(last == hooks[hooks.len() - 1]);
        assert forall|i: int| 0 <= i < rest.len() implies json::storable(
            (#[trigger] rest[i]).1,
        ) by {
            assert(rest[i] == hooks[i]);
        }
        assert forall|a: int, b: int| 0 <= a < b < rest.len() implies (#[trigger] rest[a]).0 != (
        #[trigger] rest[b]).0 by {
            assert(hooks[a].0 != hooks[b].0);
        }
        lemma_purged(rest, installing);
        let before = purged(rest, installing);
        let after = purged(hooks, installing);
        if let JsonView::Array(groups) = last.1 {
            lemma_fits_stripped(groups);
        }
        assert forall|i: int| 0 <= i < after.len() implies exists|j: int|
            0 <= j < hooks.len() && (#[trigger] hooks[j]).0 == (#[trigger] after[i]).0 by {
            if i < before.len() {
                let j = choose|j: int|
                    0 <= j < rest.len() && (#[trigger] rest[j]).0 == before[i].0;
                assert(hooks[j].0 == after[i].0);
            } else {
                assert(hooks[hooks.len() - 1].0 == after[i].0);
            }
        }
        assert forall|a: int, b: int| 0 <= a < b < after.len() implies (#[trigger] after[a]).0 != (
        #[trigger] after[b]).0 by {
            if b < before.len() {
                assert(before[a].0 != before[b].0);
            } else {
                let j = choose|j: int|
                    0 <= j < rest.len() && (#[trigger] rest[j]).0 == before[a].0;
                assert(hooks[j].0 != hooks[hooks.len() - 1].0);
            }
        }
        assert forall|a: int| 0 <= a < after.len() implies json::storable(
            (#[trigger] after[a]).1,
        ) by {
            if a < before.len() {
                assert(json::storable(before[a].1));
            } else {
                assert(Some(after[a]) == treated(last, installing));
            }
        }
    }
}

proof fn lemma_fits_our_group(exe: Seq<char>, event: Seq<char>)
    ensures
        json::storable(our_group_spec(exe, event)),
{
    reveal_strlit("matcher");
    reveal_strlit("hooks");
    reveal_strlit("type");
    reveal_strlit("command");
    reveal_strlit("args");
    reveal_strlit("timeout");
    reveal_strlit("async");
    assert("matcher"@.len() == 7 && "hooks"@.len() == 5 && "type"@.len() == 4
        && "command"@.len() == 7 && "args"@.len() == 4 && "timeout"@.len() == 7
        && "async"@.len() == 5);
    assert("type"@[0] == 't' && "args"@[0] == 'a' && "command"@[0] == 'c' && "timeout"@[0] == 't');
    let fields = our_group_spec(exe, event)->Object_0;
    let list = fields[1].1;
    let entry = list->Array_0[0];
    let args = (entry->Object_0)[2].1;
    lemma_fits_list(args->Array_0);
    lemma_fits_list(list->Array_0);
    assert(json::storable(args));
    let inner = entry->Object_0;
    assert(json::distinct(inner));
    assert forall|i: int| 0 <= i < inner.len() implies json::storable((#[trigger] inner[i]).1) by {}
    assert(json::storable(entry));
    assert(json::storable(list));
    assert(json::distinct(fields));
    assert forall|i: int| 0 <= i < fields.len() implies json::storable(
        (#[trigger] fields[i]).1,
    ) by {}
}

proof fn lemma_added(
    hooks: Seq<(Seq<char>, JsonView)>,
    exe: Seq<char>,
    names: Seq<Seq<char>>,
)
    requires
        json::storable(JsonView::Object(hooks)),
    ensures
        json::storable(JsonView::Object(added(hooks, exe, names))),
    decreases names.len(),
{
    if names.len() > 0 {
        lemma_added(hooks, exe, names.drop_last());
        let before = added(hooks, exe, names.drop_last());
        let event = names.last();
        let ours = our_group_spec(exe, event);
        let groups = groups_at(before, event);
        lemma_fits_looked_up(before, event);
        lemma_fits_our_group(exe, event);
        let longer = groups.push(ours);
        lemma_fits_list(groups);
        lemma_fits_list(longer);
        assert forall|i: int| 0 <= i < longer.len() implies json::storable(
            #[trigger] longer[i],
        ) by {
            if i < groups.len() {
                assert(json::storable(groups[i]));
            }
        }
        lemma_fits_with(before, event, JsonView::Array(longer));
    }
}

/// What is made of settings that can be written can be written too.
pub proof fn settings_stay_writable(root: JsonView, exe: Seq<char>)
    requires
        json::storable(root),
    ensures
        installed_spec(root, exe) matches Ok(after) ==> json::storable(after),
        uninstalled_spec(root) matches Ok((after, _)) ==> json::storable(after),
{
    if let JsonView::Object(fields) = root {
        lemma_fits_looked_up(fields, "hooks"@);
        if let Ok(hooks) = hooks_spec(root) {
            assert(json::storable(JsonView::Object(hooks)));
            lemma_purged(hooks, true);
            lemma_purged(hooks, false);
            lemma_added(purged(hooks, true), exe, event_names());
            lemma_fits_with(fields, "hooks"@, JsonView::Object(installed_hooks(hooks, exe)));
            lemma_fits_with(fields, "hooks"@, JsonView::Object(purged(hooks, false)));
            lemma_fits_without(fields, "hooks"@);
        }
    }
}

// --- installing and removing ---------------------------------------------------
/// What is to be done to the settings file.
pub struct Plan {
    /// Whether the file is copied before anything else happens to it.
    pub backup: bool,
    /// What to write, `None` where the settings say so already.
    pub write: Option<Vec<u8>>,
    /// How many of our hooks are taken out.
    pub removed: usize,
}

/// Whether settings are written out as they should be: not at all where nothing
/// changed, and so that they are read back as what they became.
pub open spec fn written(before: JsonView, after: JsonView, write: Option<Vec<u8>>) -> bool {
    match write {
        None => json::alike(before, after),
        Some(bytes) => {
            &&& !json::alike(before, after)
            &&& bytes@ == json::rendered_pretty(after)
            &&& json::legible(after, json::MAX_NESTING as nat) ==> json::parsed(bytes@)
                == Some(after)
        },
    }
}

fn write_settings(before: &Json, after: &Json) -> (r: Option<Vec<u8>>)
    requires
        json::storable(after@),
    ensures
        written(before@, after@, r),
{
    if before.same(after) {
        None
    } else {
        Some(json::to_pretty_bytes(after))
    }
}

/// Registers our hooks in the settings that a file holds.
pub fn install(raw: Option<&str>, exe: &str) -> (r: Result<Plan, Refusal>)
    ensures
        match settings_spec(strings::opt_str(raw)) {
            Err(why) => r matches Err(e) && e@ == why,
            Ok(root) => match installed_spec(root, exe@) {
                Err(why) => r matches Err(e) && e@ == why,
                Ok(after) => {
                    &&& r matches Ok(plan)
                    &&& plan.backup == (raw matches Some(text) && text@.len() > 0)
                    &&& written(root, after, plan.write)
                    &&& plan.removed == 0
                },
            },
        },
{
    let root = match read_settings(raw) {
        Err(why) => {
            return Err(why);
        },
        Ok(root) => root,
    };
    match install_into(&root, exe) {
        Err(why) => Err(why),
        Ok(after) => {
            proof {
                settings_stay_writable(root@, exe@);
            }
            let backup = match raw {
                Some(text) => !text.is_empty(),
                None => false,
            };
            Ok(Plan { backup, write: write_settings(&root, &after), removed: 0 })
        },
    }
}

/// Takes our hooks out of the settings that a file holds. Without a file there
/// is nothing to remove.
pub fn uninstall(raw: Option<&str>) -> (r: Result<Option<Plan>, Refusal>)
    ensures
        raw is None ==> r matches Ok(None),
        raw is Some ==> match settings_spec(strings::opt_str(raw)) {
            Err(why) => r matches Err(e) && e@ == why,
            Ok(root) => match uninstalled_spec(root) {
                Err(why) => r matches Err(e) && e@ == why,
                Ok((after, removed)) => {
                    &&& r matches Ok(Some(plan))
                    &&& plan.backup
                    &&& written(root, after, plan.write)
                    &&& plan.removed == capped(removed)
                },
            },
        },
{
    if raw.is_none() {
        return Ok(None);
    }
    let root = match read_settings(raw) {
        Err(why) => {
            return Err(why);
        },
        Ok(root) => root,
    };
    match uninstall_from(&root) {
        Err(why) => Err(why),
        Ok((after, removed)) => {
            proof {
                settings_stay_writable(root@, seq![]);
            }
            Ok(Some(Plan { backup: true, write: write_settings(&root, &after), removed }))
        },
    }
}

/// What is said of an install.
pub fn install_message(path: &str, backup: Option<&str>) -> (r: String)
    ensures
        r@ == "Installed 15 hooks into "@ + path@ + (match backup {
            Some(copy) => ". Backup: "@ + copy@,
            None => " (new file)."@,
        }),
{
    let head = strings::concat2("Installed 15 hooks into ", path);
    match backup {
        Some(copy) => {
            let r = strings::concat3(head.as_str(), ". Backup: ", copy);
            assert(r@ =~= "Installed 15 hooks into "@ + path@ + (". Backup: "@ + copy@));
            r
        },
        None => strings::concat2(head.as_str(), " (new file)."),
    }
}

/// What is said of an uninstall.
pub fn uninstall_message(removed: usize, backup: &str) -> (r: String)
    ensures
        r@ == "Removed "@ + strings::decimal_spec(removed as nat) + " Pipsqueak hooks. Backup: "@
            + backup@,
{
    let head = strings::concat2("Removed ", strings::decimal(removed as u64).as_str());
    strings::concat3(head.as_str(), " Pipsqueak hooks. Backup: ", backup)
}

// --- looking -------------------------------------------------------------------
/// Whether one of the hooks of a group is ours.
pub open spec fn group_has(group: JsonView) -> bool {
    match entries_of(group) {
        Some(entries) => exists|i: int| 0 <= i < entries.len() && ours(#[trigger] entries[i]),
        None => false,
    }
}

fn group_has_ours(group: &Json) -> (r: bool)
    ensures
        r == group_has(group@),
{
    match hook_entries(group) {
        None => false,
        Some(entries) => {
            let ghost all = json::list_view(entries@);
            let mut i: usize = 0;
            while i < entries.len()
                invariant
                    i <= entries@.len(),
                    all == json::list_view(entries@),
                    entries_of(group@) == Some(all),
                    forall|j: int| 0 <= j < i ==> !ours(#[trigger] all[j]),
                decreases entries@.len() - i,
            {
                assert(all[i as int] == entries@[i as int]@);
                if is_ours(&entries[i]) {
                    assert(ours((entries_of(group@)->0)[i as int]));
                    return true;
                }
                i = i + 1;
            }
            false
        },
    }
}

/// Whether an event runs this program.
pub open spec fn event_has(value: JsonView) -> bool {
    match value {
        JsonView::Array(groups) => exists|i: int|
            0 <= i < groups.len() && group_has(#[trigger] groups[i]),
        _ => false,
    }
}

fn event_has_ours(value: &Json) -> (r: bool)
    ensures
        r == event_has(value@),
{
    match value.as_array() {
        None => false,
        Some(groups) => {
            let ghost all = json::list_view(groups@);
            let mut i: usize = 0;
            while i < groups.len()
                invariant
                    i <= groups@.len(),
                    all == json::list_view(groups@),
                    value@ == JsonView::Array(all),
                    forall|j: int| 0 <= j < i ==> !group_has(#[trigger] all[j]),
                decreases groups@.len() - i,
            {
                assert(all[i as int] == groups@[i as int]@);
                if group_has_ours(&groups[i]) {
                    assert(group_has((value@->Array_0)[i as int]));
                    return true;
                }
                i = i + 1;
            }
            false
        },
    }
}

/// Whether an event of some settings runs this program.
pub open spec fn event_ours(root: JsonView, event: Seq<char>) -> bool {
    event_has(root.field("hooks"@).field(event))
}

pub fn event_is_ours(root: &Json, event: &str) -> (r: bool)
    ensures
        r == event_ours(root@, event@),
{
    match root.get("hooks") {
        None => false,
        Some(hooks) => match hooks.get(event) {
            None => false,
            Some(value) => event_has_ours(value),
        },
    }
}

/// The events of ours that settings do not have, in order.
pub open spec fn missing_spec(root: JsonView, names: Seq<Seq<char>>) -> Seq<Seq<char>>
    decreases names.len(),
{
    if names.len() == 0 {
        seq![]
    } else {
        let before = missing_spec(root, names.drop_last());
        if event_ours(root, names.last()) {
            before
        } else {
            before.push(names.last())
        }
    }
}

pub fn missing_in(root: &Json) -> (r: Vec<String>)
    ensures
        strings::views(r@) == missing_spec(root@, event_names()),
{
    let names = events();
    let ghost all = event_names();
    let mut out: Vec<String> = Vec::new();
    let mut i: usize = 0;
    assert(all.take(0) =~= seq![]);
    assert(strings::views(out@) =~= seq![]);
    while i < names.len()
        invariant
            i <= names@.len(),
            all == strings::views(names@),
            strings::views(out@) == missing_spec(root@, all.take(i as int)),
        decreases names@.len() - i,
    {
        let ghost before = strings::views(out@);
        let event = names[i].as_str();
        proof {
            assert(all.take(i + 1).drop_last() =~= all.take(i as int));
            assert(all.take(i + 1).last() == event@);
        }
        if !event_is_ours(root, event) {
            out.push(event.to_owned());
            assert(strings::views(out@) =~= before.push(event@));
        }
        i = i + 1;
    }
    assert(all.take(i as int) =~= all);
    out
}

/// Events we expect to own but no longer do.
///
/// A partial answer is the interesting one: it means something else rewrote
/// the settings and kept only some of our entries, which from the outside looks
/// exactly like working software that has quietly gone half-deaf.
pub fn missing_events(raw: Option<&str>) -> (r: Vec<String>)
    ensures
        strings::views(r@) == (match settings_spec(strings::opt_str(raw)) {
            Ok(root) => missing_spec(root, event_names()),
            Err(_) => event_names(),
        }),
{
    match read_settings(raw) {
        Ok(root) => missing_in(&root),
        Err(_) => events(),
    }
}

/// The program that the first of our hooks among these runs.
pub open spec fn first_in_entries(entries: Seq<JsonView>) -> Option<Seq<char>>
    decreases entries.len(),
{
    if entries.len() == 0 {
        None
    } else if ours(entries[0]) {
        entries[0].text_at("command"@)
    } else {
        first_in_entries(entries.skip(1))
    }
}

pub open spec fn first_in_groups(groups: Seq<JsonView>) -> Option<Seq<char>>
    decreases groups.len(),
{
    if groups.len() == 0 {
        None
    } else {
        match (match entries_of(groups[0]) {
            Some(entries) => first_in_entries(entries),
            None => None,
        }) {
            Some(command) => Some(command),
            None => first_in_groups(groups.skip(1)),
        }
    }
}

pub open spec fn first_in_hooks(hooks: Seq<(Seq<char>, JsonView)>) -> Option<Seq<char>>
    decreases hooks.len(),
{
    if hooks.len() == 0 {
        None
    } else {
        match (match hooks[0].1 {
            JsonView::Array(groups) => first_in_groups(groups),
            _ => None,
        }) {
            Some(command) => Some(command),
            None => first_in_hooks(hooks.skip(1)),
        }
    }
}

pub open spec fn registered_spec(root: JsonView) -> Option<Seq<char>> {
    match root.field("hooks"@) {
        JsonView::Object(hooks) => first_in_hooks(hooks),
        _ => None,
    }
}

fn entries_command(entries: &Vec<Json>) -> (r: Option<String>)
    ensures
        strings::opt_view(r) == first_in_entries(json::list_view(entries@)),
{
    let ghost all = json::list_view(entries@);
    let mut i: usize = 0;
    assert(all.skip(0) =~= all);
    while i < entries.len()
        invariant
            i <= entries@.len(),
            all == json::list_view(entries@),
            first_in_entries(all) == first_in_entries(all.skip(i as int)),
        decreases entries@.len() - i,
    {
        assert(all.skip(i as int)[0] == entries@[i as int]@);
        assert(all.skip(i as int).skip(1) =~= all.skip(i + 1));
        if is_ours(&entries[i]) {
            return match entries[i].text_at("command") {
                Some(command) => Some(command.to_owned()),
                None => None,
            };
        }
        i = i + 1;
    }
    None
}

fn groups_command(groups: &Vec<Json>) -> (r: Option<String>)
    ensures
        strings::opt_view(r) == first_in_groups(json::list_view(groups@)),
{
    let ghost all = json::list_view(groups@);
    let mut i: usize = 0;
    assert(all.skip(0) =~= all);
    while i < groups.len()
        invariant
            i <= groups@.len(),
            all == json::list_view(groups@),
            first_in_groups(all) == first_in_groups(all.skip(i as int)),
        decreases groups@.len() - i,
    {
        assert(all.skip(i as int)[0] == groups@[i as int]@);
        assert(all.skip(i as int).skip(1) =~= all.skip(i + 1));
        if let Some(entries) = hook_entries(&groups[i]) {
            let found = entries_command(entries);
            if found.is_some() {
                return found;
            }
        }
        i = i + 1;
    }
    None
}

/// The program path the registered hooks actually run, if any.
///
/// Worth checking separately from "are they registered": an entry left over
/// from an install that has since been moved or uninstalled is present, valid
/// looking, and completely inert.
pub fn registered_in(root: &Json) -> (r: Option<String>)
    ensures
        strings::opt_view(r) == registered_spec(root@),
{
    let found = root.get("hooks");
    if let Some(value) = found {
        proof {
            json::lemma_view(*value);
        }
        if let Json::Object(hooks) = value {
            let ghost all = json::fields_view(hooks@);
            let mut i: usize = 0;
            assert(all.skip(0) =~= all);
            while i < hooks.len()
                invariant
                    i <= hooks@.len(),
                    all == json::fields_view(hooks@),
                    registered_spec(root@) == first_in_hooks(all),
                    first_in_hooks(all) == first_in_hooks(all.skip(i as int)),
                decreases hooks@.len() - i,
            {
                assert(all.skip(i as int)[0] == all[i as int]);
                assert(all.skip(i as int).skip(1) =~= all.skip(i + 1));
                if let Some(groups) = hooks[i].1.as_array() {
                    let found = groups_command(groups);
                    if found.is_some() {
                        return found;
                    }
                }
                i = i + 1;
            }
        }
    }
    None
}

pub fn registered_command(raw: Option<&str>) -> (r: Option<String>)
    ensures
        strings::opt_view(r) == (match settings_spec(strings::opt_str(raw)) {
            Ok(root) => registered_spec(root),
            Err(_) => None,
        }),
{
    match read_settings(raw) {
        Ok(root) => registered_in(&root),
        Err(_) => None,
    }
}

/// Whether any event of the settings runs this program.
pub open spec fn any_ours(root: JsonView) -> bool {
    match root.field("hooks"@) {
        JsonView::Object(hooks) => exists|i: int|
            0 <= i < hooks.len() && event_has((#[trigger] hooks[i]).1),
        _ => false,
    }
}

pub fn installed_in(root: &Json) -> (r: bool)
    ensures
        r == any_ours(root@),
{
    let found = root.get("hooks");
    if let Some(value) = found {
        proof {
            json::lemma_view(*value);
        }
        if let Json::Object(hooks) = value {
            let ghost all = json::fields_view(hooks@);
            let mut i: usize = 0;
            while i < hooks.len()
                invariant
                    i <= hooks@.len(),
                    all == json::fields_view(hooks@),
                    root@.field("hooks"@) == JsonView::Object(all),
                    forall|j: int| 0 <= j < i ==> !event_has((#[trigger] all[j]).1),
                decreases hooks@.len() - i,
            {
                assert(all[i as int].1 == hooks@[i as int].1@);
                if event_has_ours(&hooks[i].1) {
                    assert(event_has((root@.field("hooks"@)->Object_0)[i as int].1));
                    return true;
                }
                i = i + 1;
            }
        }
    }
    false
}

pub fn installed(raw: Option<&str>) -> (r: bool)
    ensures
        r == (settings_spec(strings::opt_str(raw)) matches Ok(root) && any_ours(root)),
{
    match read_settings(raw) {
        Ok(root) => installed_in(&root),
        Err(_) => false,
    }
}

// --- backups -------------------------------------------------------------------
/// How many backups of the settings are kept.
pub const BACKUPS: usize = 5;

/// The name of the backup made at a time.
pub open spec fn backup_name_spec(now: u64) -> Seq<char> {
    "settings.json.pipsqueak-backup-"@ + strings::decimal_spec(now as nat)
}

pub fn backup_name(now: u64) -> (r: String)
    ensures
        r@ == backup_name_spec(now),
{
    strings::concat2("settings.json.pipsqueak-backup-", strings::decimal(now).as_str())
}

/// When a file was made as a backup, `None` where it is none.
pub open spec fn backup_time(name: Seq<char>) -> Option<u64> {
    match strings::behind(name, "settings.json.pipsqueak-backup-"@) {
        Some(digits) => strings::number_spec(digits),
        None => None,
    }
}

fn time_of(name: &str) -> (r: Option<u64>)
    ensures
        r == backup_time(name@),
{
    match strings::strip_prefix(name, "settings.json.pipsqueak-backup-") {
        Some(digits) => strings::number(digits.as_str()),
        None => None,
    }
}

/// Whether the backup `j` is newer than the backup `i`; of two made at once the
/// earlier in the list counts as the newer.
pub open spec fn newer(names: Seq<Seq<char>>, j: int, i: int) -> bool {
    match (backup_time(names[j]), backup_time(names[i])) {
        (Some(a), Some(b)) => a > b || (a == b && j < i),
        _ => false,
    }
}

/// How many of the first `n` files are backups newer than the file `i`.
pub open spec fn newer_count(names: Seq<Seq<char>>, i: int, n: nat) -> nat
    decreases n,
{
    if n == 0 {
        0
    } else {
        newer_count(names, i, (n - 1) as nat) + (if newer(names, n - 1, i) {
            1nat
        } else {
            0nat
        })
    }
}

/// The backups among the first `n` files that enough newer ones make needless.
pub open spec fn stale_spec(names: Seq<Seq<char>>, n: nat) -> Seq<Seq<char>>
    decreases n,
{
    if n == 0 {
        seq![]
    } else {
        let before = stale_spec(names, (n - 1) as nat);
        if newer_count(names, n - 1, names.len()) >= BACKUPS {
            before.push(names[n - 1])
        } else {
            before
        }
    }
}

fn count_newer(names: &Vec<String>, i: usize) -> (r: usize)
    requires
        i < names@.len(),
    ensures
        r == newer_count(strings::views(names@), i as int, names@.len()),
{
    let ghost all = strings::views(names@);
    let own = time_of(names[i].as_str());
    let mut n: usize = 0;
    let mut j: usize = 0;
    while j < names.len()
        invariant
            i < names@.len(),
            j <= names@.len(),
            all == strings::views(names@),
            own == backup_time(all[i as int]),
            n == newer_count(all, i as int, j as nat),
            n <= j,
        decreases names@.len() - j,
    {
        assert(all[j as int] == names@[j as int]@);
        let ahead = match (time_of(names[j].as_str()), own) {
            (Some(a), Some(b)) => a > b || (a == b && j < i),
            _ => false,
        };
        assert(ahead == newer(all, j as int, i as int));
        if ahead {
            n = n + 1;
        }
        j = j + 1;
    }
    n
}

/// Which files of a directory are backups that are no longer kept.
pub fn stale_backups(names: &Vec<String>) -> (r: Vec<String>)
    ensures
        strings::views(r@) == stale_spec(strings::views(names@), names@.len()),
{
    let ghost all = strings::views(names@);
    let mut out: Vec<String> = Vec::new();
    let mut i: usize = 0;
    assert(strings::views(out@) =~= seq![]);
    while i < names.len()
        invariant
            i <= names@.len(),
            all == strings::views(names@),
            strings::views(out@) == stale_spec(all, i as nat),
        decreases names@.len() - i,
    {
        let ghost before = strings::views(out@);
        if count_newer(names, i) >= BACKUPS {
            out.push(names[i].as_str().to_owned());
            assert(strings::views(out@) =~= before.push(all[i as int]));
        }
        i = i + 1;
    }
    out
}

} // verus!
