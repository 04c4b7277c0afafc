//! Passive follower of Codex Desktop's local task stream. This is an internal,
//! versioned protocol: unknown versions, revision gaps and disconnects discard
//! the projection and leave the rollout adapter in charge. Never sends task,
//! tool, approval or ownership requests. Conversation content is not retained.

use vstd::prelude::*;
use vstd::string::*;

use crate::json;
use crate::json::{Json, JsonView};
use crate::state;
use crate::state::{Session, SessionView};
use crate::strings;
use crate::table;
use crate::table::Table;

verus! {

/// How many tasks are followed at most.
pub const MAX_DESIRED: usize = 32;

/// The version of the stream that is understood.
pub const STREAM_VERSION: u64 = 11;

// --- what is known of one task ---------------------------------------------
pub struct Projection {
    pub owner: String,
    pub revision: u64,
    pub status: Json,
    pub changed_ms: u64,
}

pub struct ProjectionView {
    pub owner: Seq<char>,
    pub revision: u64,
    pub status: JsonView,
    pub changed_ms: u64,
}

impl View for Projection {
    type V = ProjectionView;

    open spec fn view(&self) -> ProjectionView {
        ProjectionView {
            owner: self.owner@,
            revision: self.revision,
            status: self.status@,
            changed_ms: self.changed_ms,
        }
    }
}

/// Whether a status raises a flag.
pub open spec fn flagged(status: JsonView, flag: Seq<char>) -> bool {
    match status.field("activeFlags"@).list() {
        Some(flags) => exists|i: int|
            0 <= i < flags.len() && #[trigger] flags[i] == JsonView::Text(flag),
        None => false,
    }
}

/// What a task's status says a person has to do; nothing when nobody has to.
pub open spec fn wait_reason(status: JsonView) -> Seq<char> {
    if flagged(status, "waitingOnApproval"@) {
        "Approval needed in Codex"@
    } else if flagged(status, "waitingOnUserInput"@) {
        "Codex has a question for you"@
    } else {
        seq![]
    }
}

/// A session with its task's status on it. Idle proves that work stopped, not
/// that it succeeded: the outcome is left to the rollout.
pub open spec fn projected(s: SessionView, p: ProjectionView) -> SessionView {
    let kind = p.status.text_at("type"@);
    let settled = SessionView {
        waiting_since: 0,
        waiting_reason: seq![],
        pending_since: 0,
        pending_tool: seq![],
        pending_detail: seq![],
        pending_risk: seq![],
        pending_agent: seq![],
        stalled: false,
        ..s
    };
    if kind == Some("active"@) {
        let reason = wait_reason(p.status);
        SessionView {
            state: "running"@,
            outcome: seq![],
            outcome_ms: 0,
            waiting_since: if reason.len() > 0 {
                p.changed_ms
            } else {
                0
            },
            waiting_reason: reason,
            ..settled
        }
    } else if kind == Some("idle"@) {
        SessionView { state: "idle"@, ..settled }
    } else {
        s
    }
}

fn has_flag(status: &Json, flag: &str) -> (r: bool)
    ensures
        r == flagged(status@, flag@),
{
    let flags = match status.get("activeFlags") {
        Some(j) => match j.as_array() {
            Some(v) => v,
            None => {
                return false;
            },
        },
        None => {
            return false;
        },
    };
    let ghost all = json::list_view(flags@);
    let mut i: usize = 0;
    while i < flags.len()
        invariant
            i <= flags@.len(),
            all == json::list_view(flags@),
            status@.field("activeFlags"@) == JsonView::Array(all),
            forall|j: int| 0 <= j < i ==> #[trigger] all[j] != JsonView::Text(flag@),
        decreases flags@.len() - i,
    {
        assert(all[i as int] == flags@[i as int]@);
        if let Some(s) = flags[i].as_str() {
            if strings::same(s, flag) {
                return true;
            }
        }
        i = i + 1;
    }
    false
}

impl Projection {
    pub fn decorate(&self, s: &mut Session)
        ensures
            final(s)@ == projected(old(s)@, self@),
    {
        let (active, idle) = match self.status.text_at("type") {
            Some(kind) => (strings::same(kind, "active"), strings::same(kind, "idle")),
            None => (false, false),
        };
        if !active && !idle {
            return ;
        }
        s.waiting_since = 0;
        s.waiting_reason = String::new();
        s.pending_since = 0;
        s.pending_tool = String::new();
        s.pending_detail = String::new();
        s.pending_risk = String::new();
        s.pending_agent = String::new();
        s.stalled = false;
        if active {
            s.state = "running".to_owned();
            s.outcome = String::new();
            s.outcome_ms = 0;
            let reason = if has_flag(&self.status, "waitingOnApproval") {
                "Approval needed in Codex"
            } else if has_flag(&self.status, "waitingOnUserInput") {
                "Codex has a question for you"
            } else {
                ""
            };
            proof {
                reveal_strlit("");
                reveal_strlit("Approval needed in Codex");
                reveal_strlit("Codex has a question for you");
                assert(""@ =~= seq![]);
            }
            if !reason.is_empty() {
                s.waiting_since = self.changed_ms;
                s.waiting_reason = reason.to_owned();
            }
        } else {
            s.state = "idle".to_owned();
        }
        assert(s@ =~= projected(old(s)@, self@));
    }
}

// --- patches ---------------------------------------------------------------
pub open spec fn replaceable(op: Seq<char>) -> bool {
    op == "replace"@ || op == "add"@
}

/// The status with one field set or dropped.
pub open spec fn patched_field(
    status: JsonView,
    op: Seq<char>,
    key: JsonView,
    value: JsonView,
) -> Option<JsonView> {
    match (key, status) {
        (JsonView::Text(name), JsonView::Object(fields)) => if op == "remove"@ {
            Some(JsonView::Object(json::without_field(fields, name)))
        } else if replaceable(op) {
            Some(JsonView::Object(json::with_field(fields, name, value)))
        } else {
            None
        },
        _ => None,
    }
}

/// The flags with one of them added, replaced or dropped.
pub open spec fn patched_flags(
    flags: Seq<JsonView>,
    op: Seq<char>,
    index: u64,
    value: JsonView,
) -> Option<Seq<JsonView>> {
    if op == "add"@ && index <= flags.len() {
        Some(flags.insert(index as int, value))
    } else if op == "replace"@ && index < flags.len() {
        Some(flags.update(index as int, value))
    } else if op == "remove"@ && index < flags.len() {
        Some(flags.remove(index as int))
    } else {
        None
    }
}

/// The status with one of its flags patched.
pub open spec fn patched_flag(
    status: JsonView,
    op: Seq<char>,
    index: JsonView,
    value: JsonView,
) -> Option<JsonView> {
    match (status, index, status.field("activeFlags"@)) {
        (
            JsonView::Object(fields),
            JsonView::Unsigned(n),
            JsonView::Array(flags),
        ) => match patched_flags(flags, op, n, value) {
            Some(after) => Some(
                JsonView::Object(json::with_field(fields, "activeFlags"@, JsonView::Array(after))),
            ),
            None => None,
        },
        _ => None,
    }
}

/// The status after one patch; `None` when the patch is not one that can be
/// followed. A patch to any other part of the task leaves the status alone.
pub open spec fn patched(status: JsonView, patch: JsonView) -> Option<JsonView> {
    let value = patch.field("value"@);
    match (patch.field("path"@), patch.field("op"@)) {
        (JsonView::Array(path), JsonView::Text(op)) => if path.len() == 0 {
            if op == "replace"@ {
                Some(value.field("threadRuntimeStatus"@))
            } else {
                None
            }
        } else if path[0] != JsonView::Text("threadRuntimeStatus"@) {
            Some(status)
        } else if path.len() == 1 {
            if op == "remove"@ {
                Some(JsonView::Null)
            } else {
                Some(value)
            }
        } else if path.len() == 2 {
            patched_field(status, op, path[1], value)
        } else if path.len() == 3 && path[1] == JsonView::Text("activeFlags"@) {
            patched_flag(status, op, path[2], value)
        } else {
            None
        },
        _ => None,
    }
}

pub open spec fn opt_own(j: Option<Json>) -> Option<JsonView> {
    match j {
        Some(v) => Some(v@),
        None => None,
    }
}

fn value_of(patch: &Json, key: &str) -> (r: Json)
    ensures
        r@ == patch@.field(key@),
{
    match patch.get(key) {
        Some(v) => v.copy(),
        None => Json::Null,
    }
}

fn is_text(j: &Json, s: &str) -> (r: bool)
    ensures
        r == (j@ == JsonView::Text(s@)),
{
    match j.as_str() {
        Some(t) => strings::same(t, s),
        None => false,
    }
}

fn patch_field(status: &Json, op: &str, key: &Json, value: Json) -> (r: Option<Json>)
    ensures
        opt_own(r) == patched_field(status@, op@, key@, value@),
{
    broadcast use json::lemma_view;

    match (key, status) {
        (Json::Text(name), Json::Object(fields)) => {
            if strings::same(op, "remove") {
                Some(
                    Json::Object(json::drop_field(json::copy_fields(fields), name.as_str())),
                )
            } else if strings::same(op, "replace") || strings::same(op, "add") {
                Some(
                    Json::Object(
                        json::set_field(json::copy_fields(fields), name.as_str(), value),
                    ),
                )
            } else {
                None
            }
        },
        _ => None,
    }
}

fn patch_flags(flags: Vec<Json>, op: &str, index: u64, value: Json) -> (r: Option<Vec<Json>>)
    ensures
        (match r {
            Some(v) => Some(json::list_view(v@)),
            None => None,
        }) == patched_flags(json::list_view(flags@), op@, index, value@),
{
    let mut flags = flags;
    let ghost before = json::list_view(flags@);
    assert(before.len() == flags@.len());
    let n: u64 = flags.len() as u64;
    if strings::same(op, "add") && index <= n {
        let ghost held = value@;
        flags.insert(index as usize, value);
        assert(json::list_view(flags@) =~= before.insert(index as int, held));
        Some(flags)
    } else if strings::same(op, "replace") && index < n {
        let ghost held = value@;
        flags.set(index as usize, value);
        assert(json::list_view(flags@) =~= before.update(index as int, held));
        Some(flags)
    } else if strings::same(op, "remove") && index < n {
        let _ = flags.remove(index as usize);
        assert(json::list_view(flags@) =~= before.remove(index as int));
        Some(flags)
    } else {
        None
    }
}

fn patch_flag(status: &Json, op: &str, index: &Json, value: Json) -> (r: Option<Json>)
    ensures
        opt_own(r) == patched_flag(status@, op@, index@, value@),
{
    broadcast use json::lemma_view;

    match (status, index, status.get("activeFlags")) {
        (
            Json::Object(fields),
            Json::Unsigned(n),
            Some(Json::Array(flags)),
        ) => match patch_flags(json::copy_list(flags), op, *n, value) {
            Some(after) => {
                let after = Json::Array(after);
                Some(Json::Object(json::set_field(json::copy_fields(fields), "activeFlags", after)))
            },
            None => None,
        },
        _ => None,
    }
}

/// Apply only the tiny runtime-status subtree. Still follow every revision:
/// skipping an unrelated patch must not look like a lost status update.
pub fn patch_status(status: &Json, patch: &Json) -> (r: Option<Json>)
    ensures
        opt_own(r) == patched(status@, patch@),
{
    broadcast use json::lemma_view;

    match (patch.get("path"), patch.get("op")) {
        (Some(Json::Array(path)), Some(Json::Text(op))) => {
            let ghost steps = json::list_view(path@);
            assert(steps.len() == path@.len());
            assert(forall|i: int| 0 <= i < path@.len() ==> steps[i] == (#[trigger] path@[i])@);
            let value = value_of(patch, "value");
            if path.len() == 0 {
                if strings::same(op.as_str(), "replace") {
                    Some(value_of(&value, "threadRuntimeStatus"))
                } else {
                    None
                }
            } else if !is_text(&path[0], "threadRuntimeStatus") {
                Some(status.copy())
            } else if path.len() == 1 {
                if strings::same(op.as_str(), "remove") {
                    Some(Json::Null)
                } else {
                    Some(value)
                }
            } else if path.len() == 2 {
                patch_field(status, op.as_str(), &path[1], value)
            } else if path.len() == 3 && is_text(&path[1], "activeFlags") {
                patch_flag(status, op.as_str(), &path[2], value)
            } else {
                None
            }
        },
        _ => None,
    }
}

/// A status that says something, and in full.
pub open spec fn telling(status: JsonView) -> bool {
    let kind = status.text_at("type"@);
    ||| kind == Some("active"@) && status.field("activeFlags"@) is Array
    ||| kind == Some("idle"@)
    ||| kind == Some("notLoaded"@)
    ||| kind == Some("systemError"@)
}

pub fn valid_status(status: &Json) -> (r: bool)
    ensures
        r == telling(status@),
{
    proof {
        reveal_strlit("active");
        reveal_strlit("idle");
        reveal_strlit("notLoaded");
        reveal_strlit("systemError");
        assert("active"@.len() == 6 && "idle"@.len() == 4 && "notLoaded"@.len() == 9
            && "systemError"@.len() == 11);
    }
    match status.text_at("type") {
        Some(kind) => if strings::same(kind, "active") {
            match status.get("activeFlags") {
                Some(j) => j.as_array().is_some(),
                None => false,
            }
        } else {
            strings::same(kind, "idle") || strings::same(kind, "notLoaded") || strings::same(
                kind,
                "systemError",
            )
        },
        None => false,
    }
}

/// The status after all the patches, in order.
pub open spec fn patched_all(status: JsonView, patches: Seq<JsonView>) -> Option<JsonView>
    decreases patches.len(),
{
    if patches.len() == 0 {
        Some(status)
    } else {
        match patched(status, patches[0]) {
            Some(next) => patched_all(next, patches.skip(1)),
            None => None,
        }
    }
}

fn patch_all(status: &Json, patches: &Vec<Json>) -> (r: Option<Json>)
    ensures
        opt_own(r) == patched_all(status@, json::list_view(patches@)),
{
    let ghost all = json::list_view(patches@);
    let mut current = status.copy();
    let mut i: usize = 0;
    assert(all.skip(0) =~= all);
    while i < patches.len()
        invariant
            i <= patches@.len(),
            all == json::list_view(patches@),
            patched_all(status@, all) == patched_all(current@, all.skip(i as int)),
        decreases patches@.len() - i,
    {
        assert(all.skip(i as int)[0] == patches@[i as int]@);
        assert(all.skip(i as int).skip(1) =~= all.skip(i + 1));
        match patch_status(&current, &patches[i]) {
            Some(next) => {
                current = next;
            },
            None => {
                return None;
            },
        }
        i = i + 1;
    }
    Some(current)
}

// --- the bridge ------------------------------------------------------------
/// What the stream has told so far.
pub struct Bridge {
    pub connected: bool,
    /// The tasks worth following.
    pub desired: Vec<String>,
    pub tasks: Table<Projection>,
}

#[verifier::ext_equal]
pub struct BridgeView {
    pub connected: bool,
    pub desired: Seq<Seq<char>>,
    pub tasks: Map<Seq<char>, ProjectionView>,
}

/// The tasks by their views.
pub open spec fn tasks_view(tasks: Map<Seq<char>, Projection>) -> Map<Seq<char>, ProjectionView> {
    tasks.map_values(|p: Projection| p@)
}

impl View for Bridge {
    type V = BridgeView;

    open spec fn view(&self) -> BridgeView {
        BridgeView {
            connected: self.connected,
            desired: strings::views(self.desired@),
            tasks: tasks_view(self.tasks@),
        }
    }
}

/// The status a change leads to: a snapshot's own, or the old one with the
/// change's patches, when they were made by the same owner on the very revision
/// that is held.
pub open spec fn next_status(
    old: Option<ProjectionView>,
    owner: Seq<char>,
    change: JsonView,
    revision: u64,
) -> Option<JsonView> {
    let kind = change.text_at("type"@);
    if kind == Some("snapshot"@) {
        Some(change.field("conversationState"@).field("threadRuntimeStatus"@))
    } else if kind == Some("patches"@) {
        match (old, change.field("patches"@)) {
            (Some(p), JsonView::Array(patches)) => if p.owner == owner && change.field(
                "baseRevision"@,
            ).uint() == Some(p.revision) && revision > p.revision {
                patched_all(p.status, patches)
            } else {
                None
            },
            _ => None,
        }
    } else {
        None
    }
}

/// What a message makes of a task, `None` when it cannot be followed: another
/// version of the stream, a revision missing, a status that says nothing. The
/// age of a status is that of the last change to it.
pub open spec fn next_projection(
    old: Option<ProjectionView>,
    message: JsonView,
    now: u64,
) -> Option<ProjectionView> {
    let change = message.field("params"@).field("change"@);
    let owner = match message.text_at("sourceClientId"@) {
        Some(s) => s,
        None => seq![],
    };
    match (message.field("version"@), change.field("revision"@)) {
        (JsonView::Unsigned(version), JsonView::Unsigned(revision)) => if version
            == STREAM_VERSION {
            match next_status(old, owner, change, revision) {
                Some(status) => if telling(status) {
                    Some(
                        ProjectionView {
                            owner,
                            revision,
                            status,
                            changed_ms: match old {
                                Some(p) => if json::alike(p.status, status) {
                                    p.changed_ms
                                } else {
                                    now
                                },
                                None => now,
                            },
                        },
                    )
                } else {
                    None
                },
                None => None,
            }
        } else {
            None
        },
        _ => None,
    }
}

/// Whether a message says that one of the clients is gone.
pub open spec fn disconnects(message: JsonView) -> bool {
    message.text_at("method"@) == Some("client-status-changed"@) && message.field(
        "params"@,
    ).text_at("status"@) == Some("disconnected"@)
}

/// The task a message is about, when it tells of a task on this machine.
pub open spec fn changed_task(message: JsonView) -> Option<Seq<char>> {
    let params = message.field("params"@);
    if message.text_at("method"@) == Some("thread-stream-state-changed"@) && params.text_at(
        "hostId"@,
    ) == Some("local"@) {
        params.text_at("conversationId"@)
    } else {
        None
    }
}

/// The bridge after a message, and the task that needs a fresh snapshot because
/// the message could not be followed.
pub open spec fn received(b: BridgeView, message: JsonView, now: u64) -> (
    BridgeView,
    Option<Seq<char>>,
) {
    if disconnects(message) {
        let gone = message.field("params"@).field("clientId"@);
        let kept = Set::new(
            |id: Seq<char>| b.tasks.dom().contains(id) && JsonView::Text(b.tasks[id].owner) != gone,
        );
        (BridgeView { tasks: b.tasks.restrict(kept), ..b }, None)
    } else {
        match changed_task(message) {
            Some(id) => if b.desired.contains(id) {
                match next_projection(table::at(b.tasks, id), message, now) {
                    Some(p) => (BridgeView { tasks: b.tasks.insert(id, p), ..b }, None),
                    None => (BridgeView { tasks: b.tasks.remove(id), ..b }, Some(id)),
                }
            } else {
                (b, None)
            },
            None => (b, None),
        }
    }
}

pub open spec fn opt_projection(p: Option<&Projection>) -> Option<ProjectionView> {
    match p {
        Some(x) => Some(x@),
        None => None,
    }
}

fn status_after(old: Option<&Projection>, owner: &str, change: &Json, revision: u64) -> (r: Option<
    Json,
>)
    ensures
        opt_own(r) == next_status(opt_projection(old), owner@, change@, revision),
{
    broadcast use json::lemma_view;

    let (snapshot, patches) = match change.text_at("type") {
        Some(kind) => (strings::same(kind, "snapshot"), strings::same(kind, "patches")),
        None => (false, false),
    };
    if snapshot {
        let state = value_of(change, "conversationState");
        Some(value_of(&state, "threadRuntimeStatus"))
    } else if patches {
        match (old, change.get("patches")) {
            (Some(p), Some(Json::Array(list))) => {
                let base = match change.get("baseRevision") {
                    Some(j) => j.as_u64(),
                    None => None,
                };
                let based = match base {
                    Some(n) => n == p.revision,
                    None => false,
                };
                if strings::same(p.owner.as_str(), owner) && based && revision > p.revision {
                    patch_all(&p.status, list)
                } else {
                    None
                }
            },
            _ => None,
        }
    } else {
        None
    }
}

fn projection_after(old: Option<&Projection>, message: &Json, now: u64) -> (r: Option<Projection>)
    ensures
        (match r {
            Some(p) => Some(p@),
            None => None,
        }) == next_projection(opt_projection(old), message@, now),
{
    let params = value_of(message, "params");
    let change = value_of(&params, "change");
    let owner = match message.text_at("sourceClientId") {
        Some(s) => s.to_owned(),
        None => String::new(),
    };
    let version = match message.get("version") {
        Some(j) => j.as_u64(),
        None => None,
    };
    let revision = match change.get("revision") {
        Some(j) => j.as_u64(),
        None => None,
    };
    match (version, revision) {
        (Some(version), Some(revision)) => {
            if version != STREAM_VERSION {
                return None;
            }
            match status_after(old, owner.as_str(), &change, revision) {
                Some(status) => {
                    if !valid_status(&status) {
                        return None;
                    }
                    let changed_ms: u64 = match old {
                        Some(p) => if p.status.same(&status) {
                            p.changed_ms
                        } else {
                            now
                        },
                        None => now,
                    };
                    Some(Projection { owner, revision, status, changed_ms })
                },
                None => None,
            }
        },
        _ => None,
    }
}

fn field_is(j: &Json, key: &str, s: &str) -> (r: bool)
    ensures
        r == (j@.text_at(key@) == Some(s@)),
{
    match j.text_at(key) {
        Some(t) => strings::same(t, s),
        None => false,
    }
}

proof fn lemma_tasks_at(tasks: Map<Seq<char>, Projection>, id: Seq<char>)
    ensures
        table::at(tasks_view(tasks), id) == (match table::at(tasks, id) {
            Some(p) => Some(p@),
            None => None,
        }),
{
}

impl Bridge {
    pub fn new() -> (r: Bridge)
        ensures
            r@ == (BridgeView {
                connected: false,
                desired: seq![],
                tasks: Map::<Seq<char>, ProjectionView>::empty(),
            }),
    {
        let r = Bridge { connected: false, desired: Vec::new(), tasks: Table::new() };
        assert(r@.desired =~= seq![]);
        assert(r@.tasks =~= Map::<Seq<char>, ProjectionView>::empty());
        r
    }

    /// Drops the tasks of a client that is gone.
    fn forget(&mut self, gone: &Json)
        ensures
            final(self)@ == (BridgeView {
                tasks: old(self)@.tasks.restrict(
                    Set::new(
                        |id: Seq<char>|
                            old(self)@.tasks.dom().contains(id) && JsonView::Text(
                                old(self)@.tasks[id].owner,
                            ) != gone@,
                    ),
                ),
                ..old(self)@
            }),
    {
        let names = self.tasks.keys();
        let ghost all = strings::views(names@);
        let ghost before = self@.tasks;
        let ghost held = self.tasks@;
        let mut kept: Vec<String> = Vec::new();
        let mut i: usize = 0;
        while i < names.len()
            invariant
                i <= names@.len(),
                all == strings::views(names@),
                held == self.tasks@,
                self@ == old(self)@,
                before == tasks_view(held),
                forall|k: Seq<char>| #[trigger] all.contains(k) <==> held.dom().contains(k),
                forall|k: Seq<char>|
                    #[trigger] strings::views(kept@).contains(k) <==> all.take(i as int).contains(k)
                        && JsonView::Text(before[k].owner) != gone@,
            decreases names@.len() - i,
        {
            let ghost name = names@[i as int]@;
            let ghost so_far = strings::views(kept@);
            proof {
                assert(all[i as int] == name);
                assert(all.contains(name));
                assert(all.take(i + 1) =~= all.take(i as int).push(name));
                lemma_pushed(all.take(i as int), name);
            }
            let stays = match self.tasks.get(names[i].as_str()) {
                Some(p) => !is_text(gone, p.owner.as_str()),
                None => false,
            };
            if stays {
                let kept_name = names[i].clone();
                kept.push(kept_name);
                proof {
                    assert(strings::views(kept@) =~= so_far.push(name));
                    lemma_pushed(so_far, name);
                }
            }
            assert forall|k: Seq<char>|
                #[trigger] strings::views(kept@).contains(k) <==> all.take(i + 1).contains(k)
                    && JsonView::Text(before[k].owner) != gone@ by {
                assert(so_far.contains(k) <==> all.take(i as int).contains(k) && JsonView::Text(
                    before[k].owner,
                ) != gone@);
            }
            i = i + 1;
        }
        assert(all.take(i as int) =~= all);
        self.tasks.retain_keys(&kept);
        proof {
            let left = before.restrict(
                Set::new(
                    |id: Seq<char>|
                        before.dom().contains(id) && JsonView::Text(before[id].owner) != gone@,
                ),
            );
            assert forall|k: Seq<char>| self@.tasks.dom().contains(k) == left.dom().contains(k) by {
                assert(strings::views(kept@).contains(k) <==> all.contains(k) && JsonView::Text(
                    before[k].owner,
                ) != gone@);
                assert(all.contains(k) <==> held.dom().contains(k));
            }
            assert(self@.tasks =~= left);
        }
        assert(self@ =~= (BridgeView {
            tasks: before.restrict(
                Set::new(
                    |id: Seq<char>|
                        before.dom().contains(id) && JsonView::Text(before[id].owner) != gone@,
                ),
            ),
            ..old(self)@
        }));
    }

    /// Returns an ID needing a fresh snapshot after an incompatible change.
    pub fn receive(&mut self, message: &Json, now: u64) -> (r: Option<String>)
        ensures
            (final(self)@, strings::opt_view(r)) == received(old(self)@, message@, now),
    {
        let params = value_of(message, "params");
        if field_is(message, "method", "client-status-changed") && field_is(
            &params,
            "status",
            "disconnected",
        ) {
            self.forget(&value_of(&params, "clientId"));
            return None;
        }
        if !field_is(message, "method", "thread-stream-state-changed") || !field_is(
            &params,
            "hostId",
            "local",
        ) {
            return None;
        }
        let id = match params.text_at("conversationId") {
            Some(id) => id.to_owned(),
            None => {
                return None;
            },
        };
        if !strings::holds(&self.desired, id.as_str()) {
            return None;
        }
        let ghost before = self.tasks@;
        proof {
            lemma_tasks_at(before, id@);
        }
        let next = projection_after(self.tasks.get(id.as_str()), message, now);
        match next {
            Some(p) => {
                let ghost held = p@;
                self.tasks.insert(id.as_str(), p);
                assert(self@.tasks =~= tasks_view(before).insert(id@, held));
                assert(self@ =~= received(old(self)@, message@, now).0);
                None
            },
            None => {
                let _ = self.tasks.remove(id.as_str());
                assert(self@.tasks =~= tasks_view(before).remove(id@));
                assert(self@ =~= received(old(self)@, message@, now).0);
                Some(id)
            },
        }
    }

    pub fn disconnected(&mut self)
        ensures
            final(self)@ == (BridgeView {
                connected: false,
                tasks: Map::<Seq<char>, ProjectionView>::empty(),
                ..old(self)@
            }),
    {
        self.connected = false;
        self.tasks = Table::new();
        assert(self@.tasks =~= Map::<Seq<char>, ProjectionView>::empty());
        assert(self@ =~= (BridgeView {
            connected: false,
            tasks: Map::<Seq<char>, ProjectionView>::empty(),
            ..old(self)@
        }));
    }
}

proof fn lemma_pushed(s: Seq<Seq<char>>, x: Seq<char>)
    ensures
        forall|k: Seq<char>| #[trigger] s.push(x).contains(k) <==> s.contains(k) || k == x,
{
    assert forall|k: Seq<char>| #[trigger] s.push(x).contains(k) <==> s.contains(k) || k == x by {
        if s.contains(k) {
            let i = choose|i: int| 0 <= i < s.len() && s[i] == k;
            assert(s.push(x)[i] == k);
        }
        if s.push(x).contains(k) && k != x {
            let i = choose|i: int| 0 <= i < s.push(x).len() && s.push(x)[i] == k;
            assert(s[i] == k);
        }
        assert(s.push(x)[s.len() as int] == x);
    }
}

// --- sessions --------------------------------------------------------------
/// The sessions' chats, those left out that have none.
pub open spec fn chat_ids(sessions: Seq<SessionView>) -> Seq<Seq<char>>
    decreases sessions.len(),
{
    if sessions.len() == 0 {
        seq![]
    } else if sessions.last().chat_id.len() > 0 {
        chat_ids(sessions.drop_last()).push(sessions.last().chat_id)
    } else {
        chat_ids(sessions.drop_last())
    }
}

/// The first of each.
pub open spec fn once_each(ids: Seq<Seq<char>>) -> Seq<Seq<char>>
    decreases ids.len(),
{
    if ids.len() == 0 {
        seq![]
    } else {
        let before = once_each(ids.drop_last());
        if before.contains(ids.last()) {
            before
        } else {
            before.push(ids.last())
        }
    }
}

/// The tasks worth following: the chats of the first sessions that have one.
pub open spec fn desired_of(sessions: Seq<SessionView>) -> Seq<Seq<char>> {
    let ids = chat_ids(sessions);
    once_each(
        if ids.len() <= MAX_DESIRED {
            ids
        } else {
            ids.take(MAX_DESIRED as int)
        },
    )
}

/// A session with its task's status on it, if its task is followed.
pub open spec fn decorated(tasks: Map<Seq<char>, ProjectionView>, s: SessionView) -> SessionView {
    match table::at(tasks, s.chat_id) {
        Some(p) => projected(s, p),
        None => s,
    }
}

fn desired_ids(sessions: &Vec<Session>) -> (r: Vec<String>)
    ensures
        strings::views(r@) == desired_of(state::session_views(sessions@)),
{
    let ghost all = state::session_views(sessions@);
    let mut ids: Vec<String> = Vec::new();
    let mut i: usize = 0;
    assert(all.take(0) =~= seq![]);
    assert(strings::views(ids@) =~= seq![]);
    while i < sessions.len()
        invariant
            i <= sessions@.len(),
            all == state::session_views(sessions@),
            strings::views(ids@) == chat_ids(all.take(i as int)),
        decreases sessions@.len() - i,
    {
        let ghost before = ids@;
        assert(all.take(i + 1).drop_last() =~= all.take(i as int));
        assert(all.take(i + 1).last() == sessions@[i as int]@);
        if !sessions[i].chat_id.as_str().is_empty() {
            let id = sessions[i].chat_id.clone();
            ids.push(id);
            assert(strings::views(ids@) =~= strings::views(before).push(id@));
        }
        i = i + 1;
    }
    assert(all.take(i as int) =~= all);
    let ghost found = strings::views(ids@);
    let limit: usize = if ids.len() <= MAX_DESIRED {
        ids.len()
    } else {
        MAX_DESIRED
    };
    let mut out: Vec<String> = Vec::new();
    let mut k: usize = 0;
    assert(found.take(0) =~= seq![]);
    assert(strings::views(out@) =~= seq![]);
    while k < limit
        invariant
            k <= limit <= ids@.len(),
            found == strings::views(ids@),
            strings::views(out@) == once_each(found.take(k as int)),
        decreases limit - k,
    {
        let ghost before = out@;
        assert(found.take(k + 1).drop_last() =~= found.take(k as int));
        assert(found.take(k + 1).last() == ids@[k as int]@);
        if !strings::holds(&out, ids[k].as_str()) {
            let id = ids[k].clone();
            out.push(id);
            assert(strings::views(out@) =~= strings::views(before).push(id@));
        }
        k = k + 1;
    }
    if limit == ids.len() {
        assert(found.take(limit as int) =~= found);
    }
    out
}

/// Puts what the stream says onto the sessions, and notes which tasks are worth
/// following.
pub fn decorate(bridge: &mut Bridge, sessions: &mut Vec<Session>)
    ensures
        final(bridge)@ == (BridgeView {
            desired: desired_of(state::session_views(old(sessions)@)),
            ..old(bridge)@
        }),
        final(sessions)@.len() == old(sessions)@.len(),
        forall|i: int|
            0 <= i < old(sessions)@.len() ==> (#[trigger] final(sessions)@[i])@ == decorated(
                old(bridge)@.tasks,
                old(sessions)@[i]@,
            ),
{
    bridge.desired = desired_ids(sessions);
    assert(bridge@ =~= (BridgeView {
        desired: desired_of(state::session_views(old(sessions)@)),
        ..old(bridge)@
    }));
    let ghost tasks = bridge@.tasks;
    let mut out: Vec<Session> = Vec::new();
    let mut i: usize = 0;
    while i < sessions.len()
        invariant
            i <= sessions@.len(),
            sessions@ == old(sessions)@,
            tasks == tasks_view(bridge.tasks@),
            out@.len() == i,
            forall|j: int|
                0 <= j < i ==> (#[trigger] out@[j])@ == decorated(tasks, sessions@[j]@),
        decreases sessions@.len() - i,
    {
        let mut s = sessions[i].copy();
        proof {
            lemma_tasks_at(bridge.tasks@, s@.chat_id);
        }
        if let Some(p) = bridge.tasks.get(s.chat_id.clone().as_str()) {
            p.decorate(&mut s);
        }
        out.push(s);
        i = i + 1;
    }
    *sessions = out;
}

pub struct Summary {
    pub connected: bool,
    pub desired_tasks: usize,
    /// Tasks that are known to be at work or idle.
    pub observed_tasks: usize,
    pub active_tasks: usize,
}

pub open spec fn of_kind(tasks: Map<Seq<char>, ProjectionView>, id: Seq<char>, kind: Seq<char>) -> bool {
    tasks.dom().contains(id) && tasks[id].status.text_at("type"@) == Some(kind)
}

pub open spec fn ids_of_kind(tasks: Map<Seq<char>, ProjectionView>, kind: Seq<char>) -> Set<
    Seq<char>,
> {
    Set::new(|id: Seq<char>| of_kind(tasks, id, kind))
}

impl Bridge {
    fn count_kind(&self, kind: &str) -> (r: usize)
        ensures
            ids_of_kind(self@.tasks, kind@).finite(),
            r == ids_of_kind(self@.tasks, kind@).len(),
    {
        let names = self.tasks.keys();
        let ghost all = strings::views(names@);
        let ghost tasks = self@.tasks;
        let ghost mut found: Seq<Seq<char>> = seq![];
        let mut n: usize = 0;
        let mut i: usize = 0;
        while i < names.len()
            invariant
                i <= names@.len(),
                n <= i,
                n == found.len(),
                all == strings::views(names@),
                all.no_duplicates(),
                tasks == self@.tasks,
                tasks == tasks_view(self.tasks@),
                forall|k: Seq<char>| #[trigger] all.contains(k) <==> tasks.dom().contains(k),
                found.no_duplicates(),
                forall|k: Seq<char>|
                    #[trigger] found.contains(k) <==> all.take(i as int).contains(k) && of_kind(
                        tasks,
                        k,
                        kind@,
                    ),
            decreases names@.len() - i,
        {
            let ghost name = names@[i as int]@;
            let ghost so_far = found;
            proof {
                assert(all[i as int] == name);
                assert(all.contains(name));
                assert(all.take(i + 1) =~= all.take(i as int).push(name));
                lemma_pushed(all.take(i as int), name);
                lemma_tasks_at(self.tasks@, name);
                assert(!all.take(i as int).contains(name)) by {
                    if all.take(i as int).contains(name) {
                        let j = choose|j: int| 0 <= j < i && all.take(i as int)[j] == name;
                        assert(all[j] == all[i as int]);
                    }
                }
            }
            let matches = match self.tasks.get(names[i].as_str()) {
                Some(p) => field_is(&p.status, "type", kind),
                None => false,
            };
            if matches {
                n = n + 1;
                proof {
                    found = found.push(name);
                    lemma_pushed(so_far, name);
                    assert(!so_far.contains(name));
                    assert forall|a: int, b: int|
                        0 <= a < found.len() && 0 <= b < found.len() && a != b implies found[a]
                        != found[b] by {
                        if a == so_far.len() {
                            assert(so_far.contains(so_far[b]));
                        } else if b == so_far.len() {
                            assert(so_far.contains(so_far[a]));
                        }
                    }
                }
            }
            assert forall|k: Seq<char>|
                #[trigger] found.contains(k) <==> all.take(i + 1).contains(k) && of_kind(
                    tasks,
                    k,
                    kind@,
                ) by {
                assert(so_far.contains(k) <==> all.take(i as int).contains(k) && of_kind(
                    tasks,
                    k,
                    kind@,
                ));
            }
            i = i + 1;
        }
        proof {
            assert(all.take(i as int) =~= all);
            assert forall|k: Seq<char>| found.to_set().contains(k) <==> ids_of_kind(
                tasks,
                kind@,
            ).contains(k) by {
                assert(found.contains(k) <==> all.contains(k) && of_kind(tasks, k, kind@));
                assert(all.contains(k) <==> tasks.dom().contains(k));
            }
            assert(found.to_set() =~= ids_of_kind(tasks, kind@));
            found.unique_seq_to_set();
        }
        n
    }

    /// What there is to say about the stream.
    pub fn summary(&self) -> (r: Summary)
        ensures
            r.connected == self@.connected,
            r.desired_tasks == self@.desired.len(),
            r.active_tasks == ids_of_kind(self@.tasks, "active"@).len(),
            r.observed_tasks == ids_of_kind(self@.tasks, "active"@).union(
                ids_of_kind(self@.tasks, "idle"@),
            ).len(),
    {
        let active: usize = self.count_kind("active");
        let idle: usize = self.count_kind("idle");
        let names = self.tasks.keys();
        assert(strings::views(self.desired@).len() == self.desired@.len());
        proof {
            reveal_strlit("active");
            reveal_strlit("idle");
            assert("active"@.len() == 6 && "idle"@.len() == 4);
            let a = ids_of_kind(self@.tasks, "active"@);
            let b = ids_of_kind(self@.tasks, "idle"@);
            assert(a.disjoint(b));
            vstd::set_lib::lemma_set_disjoint_lens(a, b);
            assert(a + b =~= a.union(b));
            let all = strings::views(names@);
            all.unique_seq_to_set();
            assert forall|k: Seq<char>| a.union(b).contains(k) implies all.to_set().contains(k) by {
                assert(all.contains(k) <==> self.tasks@.dom().contains(k));
            }
            vstd::set_lib::lemma_len_subset(a.union(b), all.to_set());
            assert(names.len() == all.len());
        }
        Summary {
            connected: self.connected,
            desired_tasks: self.desired.len(),
            observed_tasks: active + idle,
            active_tasks: active,
        }
    }
}

// --- messages --------------------------------------------------------------
pub open spec fn follow_spec(client: Seq<char>, id: Seq<char>, following: bool) -> JsonView {
    JsonView::Object(
        seq![
            ("type"@, JsonView::Text("broadcast"@)),
            ("method"@, JsonView::Text("thread-stream-following-changed"@)),
            ("sourceClientId"@, JsonView::Text(client)),
            ("version"@, JsonView::Unsigned(1)),
            (
                "params"@,
                JsonView::Object(
                    seq![
                        ("conversationId"@, JsonView::Text(id)),
                        ("hostId"@, JsonView::Text("local"@)),
                        ("following"@, JsonView::Bool(following)),
                    ],
                ),
            ),
        ],
    )
}

pub open spec fn initialize_spec(request: Seq<char>, client: Seq<char>) -> JsonView {
    JsonView::Object(
        seq![
            ("type"@, JsonView::Text("request"@)),
            ("requestId"@, JsonView::Text(request)),
            ("sourceClientId"@, JsonView::Text(client)),
            ("version"@, JsonView::Unsigned(1)),
            ("method"@, JsonView::Text("initialize"@)),
            (
                "params"@,
                JsonView::Object(seq![("clientType"@, JsonView::Text("pipsqueak"@))]),
            ),
        ],
    )
}

/// The one answer ever given to a request: that it cannot be handled here.
pub open spec fn refusal_spec(request: JsonView) -> JsonView {
    JsonView::Object(
        seq![
            ("type"@, JsonView::Text("client-discovery-response"@)),
            ("requestId"@, request),
            ("response"@, JsonView::Object(seq![("canHandle"@, JsonView::Bool(false))])),
        ],
    )
}

fn entry(key: &str, value: Json) -> (r: (String, Json))
    ensures
        r.0@ == key@,
        r.1@ == value@,
{
    (key.to_owned(), value)
}

fn entry_text(key: &str, value: &str) -> (r: (String, Json))
    ensures
        r.0@ == key@,
        r.1@ == JsonView::Text(value@),
{
    (key.to_owned(), Json::Text(value.to_owned()))
}

pub fn follow(client: &str, id: &str, following: bool) -> (r: Json)
    ensures
        r@ == follow_spec(client@, id@, following),
        json::storable(r@),
        json::legible(r@, json::MAX_NESTING as nat),
{
    broadcast use json::lemma_view;

    let params: Vec<(String, Json)> = vec![
        entry_text("conversationId", id),
        entry_text("hostId", "local"),
        entry("following", Json::Bool(following)),
    ];
    let ghost inner = follow_spec(client@, id@, following)->Object_0[4].1->Object_0;
    assert(json::fields_view(params@) =~= inner);
    let fields: Vec<(String, Json)> = vec![
        entry_text("type", "broadcast"),
        entry_text("method", "thread-stream-following-changed"),
        entry_text("sourceClientId", client),
        entry("version", Json::Unsigned(1)),
        entry("params", Json::Object(params)),
    ];
    let ghost outer = follow_spec(client@, id@, following)->Object_0;
    assert(json::fields_view(fields@) =~= outer);
    proof {
        lemma_follow_storable(client@, id@, following);
    }
    Json::Object(fields)
}

pub fn initialize(request: &str, client: &str) -> (r: Json)
    ensures
        r@ == initialize_spec(request@, client@),
        json::storable(r@),
        json::legible(r@, json::MAX_NESTING as nat),
{
    broadcast use json::lemma_view;

    let params: Vec<(String, Json)> = vec![entry_text("clientType", "pipsqueak")];
    let ghost inner = initialize_spec(request@, client@)->Object_0[5].1->Object_0;
    assert(json::fields_view(params@) =~= inner);
    let fields: Vec<(String, Json)> = vec![
        entry_text("type", "request"),
        entry_text("requestId", request),
        entry_text("sourceClientId", client),
        entry("version", Json::Unsigned(1)),
        entry_text("method", "initialize"),
        entry("params", Json::Object(params)),
    ];
    let ghost outer = initialize_spec(request@, client@)->Object_0;
    assert(json::fields_view(fields@) =~= outer);
    proof {
        lemma_initialize_storable(request@, client@);
    }
    Json::Object(fields)
}

pub fn refuse(request: &Json) -> (r: Json)
    ensures
        r@ == refusal_spec(request@),
        json::storable(request@) ==> json::storable(r@),
{
    broadcast use json::lemma_view;

    let response: Vec<(String, Json)> = vec![entry("canHandle", Json::Bool(false))];
    let ghost inner = refusal_spec(request@)->Object_0[2].1->Object_0;
    assert(json::fields_view(response@) =~= inner);
    let fields: Vec<(String, Json)> = vec![
        entry_text("type", "client-discovery-response"),
        entry("requestId", request.copy()),
        entry("response", Json::Object(response)),
    ];
    let ghost outer = refusal_spec(request@)->Object_0;
    assert(json::fields_view(fields@) =~= outer);
    proof {
        if json::storable(request@) {
            lemma_refusal_storable(request@);
        }
    }
    Json::Object(fields)
}

proof fn lemma_keys()
    ensures
        "type"@.len() == 4,
        "method"@.len() == 6,
        "params"@.len() == 6,
        "method"@ != "params"@,
        "version"@.len() == 7,
        "sourceClientId"@.len() == 14,
        "conversationId"@.len() == 14,
        "hostId"@.len() == 6,
        "following"@.len() == 9,
        "requestId"@.len() == 9,
        "response"@.len() == 8,
{
    reveal_strlit("type");
    reveal_strlit("method");
    reveal_strlit("params");
    reveal_strlit("version");
    reveal_strlit("sourceClientId");
    reveal_strlit("conversationId");
    reveal_strlit("hostId");
    reveal_strlit("following");
    reveal_strlit("requestId");
    reveal_strlit("response");
    assert("method"@[0] != "params"@[0]);
}

proof fn lemma_follow_storable(client: Seq<char>, id: Seq<char>, following: bool)
    ensures
        json::storable(follow_spec(client, id, following)),
        json::legible(follow_spec(client, id, following), json::MAX_NESTING as nat),
{
    lemma_keys();
    reveal_with_fuel(json::storable, 3);
    reveal_with_fuel(json::legible, 3);
    let outer = follow_spec(client, id, following)->Object_0;
    let inner = outer[4].1->Object_0;
    reveal_strlit("type");
    reveal_strlit("conversationId");
    json::lemma_plain_key(outer[0].0);
    json::lemma_plain_key(inner[0].0);
    assert(json::distinct(inner));
    assert(json::distinct(outer));
    assert(json::storable(outer[4].1));
    assert(json::legible(outer[4].1, (json::MAX_NESTING - 1) as nat));
}

proof fn lemma_initialize_storable(request: Seq<char>, client: Seq<char>)
    ensures
        json::storable(initialize_spec(request, client)),
        json::legible(initialize_spec(request, client), json::MAX_NESTING as nat),
{
    lemma_keys();
    reveal_with_fuel(json::storable, 3);
    reveal_with_fuel(json::legible, 3);
    let outer = initialize_spec(request, client)->Object_0;
    let inner = outer[5].1->Object_0;
    reveal_strlit("type");
    reveal_strlit("clientType");
    json::lemma_plain_key(outer[0].0);
    json::lemma_plain_key(inner[0].0);
    assert(json::distinct(inner));
    assert(json::distinct(outer));
    assert(json::storable(outer[5].1));
    assert(json::legible(outer[5].1, (json::MAX_NESTING - 1) as nat));
}

proof fn lemma_refusal_storable(request: JsonView)
    requires
        json::storable(request),
    ensures
        json::storable(refusal_spec(request)),
{
    lemma_keys();
    reveal_with_fuel(json::storable, 3);
    let outer = refusal_spec(request)->Object_0;
    let inner = outer[2].1->Object_0;
    assert(json::distinct(inner));
    assert(json::distinct(outer));
    assert(json::storable(outer[2].1));
}

// --- frames ----------------------------------------------------------------
/// The longest message that is read.
pub const MAX_FRAME: usize = 16_777_216;

/// Four bytes, the lowest first.
pub open spec fn le4(n: nat) -> Seq<u8> {
    seq![
        (n % 256) as u8,
        ((n / 256) % 256) as u8,
        ((n / 65536) % 256) as u8,
        ((n / 16777216) % 256) as u8,
    ]
}

pub open spec fn le_value(b: Seq<u8>) -> nat {
    b[0] as nat + b[1] as nat * 256 + b[2] as nat * 65536 + b[3] as nat * 16777216
}

pub proof fn lemma_le(n: nat)
    requires
        n < 0x1_0000_0000,
    ensures
        le4(n).len() == 4,
        le_value(le4(n)) == n,
{
}

/// What stands at the front of a buffer.
pub enum Front {
    /// Not a whole message yet.
    Partial,
    TooLarge,
    Invalid,
    /// A message, and what comes behind it.
    Message(JsonView, Seq<u8>),
}

pub open spec fn front(b: Seq<u8>) -> Front {
    let n = le_value(b);
    if b.len() < 4 {
        Front::Partial
    } else if n > MAX_FRAME {
        Front::TooLarge
    } else if b.len() < n + 4 {
        Front::Partial
    } else {
        match json::parsed(b.subrange(4, n + 4int)) {
            Some(j) => Front::Message(j, b.skip(n + 4int)),
            None => Front::Invalid,
        }
    }
}

#[derive(Clone, Copy, PartialEq, Eq, Structural, Debug)]
pub enum FrameError {
    TooLarge,
    Invalid,
}

impl FrameError {
    pub fn message(&self) -> (r: &'static str)
        ensures
            self == FrameError::TooLarge ==> r@ == "task snapshot exceeds limit"@,
            self == FrameError::Invalid ==> r@ == "invalid task frame"@,
    {
        match self {
            FrameError::TooLarge => "task snapshot exceeds limit",
            FrameError::Invalid => "invalid task frame",
        }
    }
}

/// A message on the wire: its length in four bytes, then its JSON. What was
/// framed is what the other end reads, whatever follows it.
pub fn frame(message: &Json) -> (r: Vec<u8>)
    requires
        json::storable(message@),
    ensures
        r@ == le4((json::rendered(message@).len() as u32) as nat) + json::rendered(message@),
        json::legible(message@, json::MAX_NESTING as nat) && json::rendered(
            message@,
        ).len() <= MAX_FRAME ==> forall|rest: Seq<u8>| #[trigger]
            front(r@ + rest) == Front::Message(message@, rest),
{
    let bytes = json::to_bytes(message);
    let n: u32 = bytes.len() as u32;
    let mut out: Vec<u8> = Vec::new();
    out.push((n % 256) as u8);
    out.push(((n / 256) % 256) as u8);
    out.push(((n / 65536) % 256) as u8);
    out.push(((n / 16777216) % 256) as u8);
    assert(out@ =~= le4(n as nat));
    let mut i: usize = 0;
    while i < bytes.len()
        invariant
            i <= bytes@.len(),
            out@ == le4(n as nat) + bytes@.take(i as int),
        decreases bytes@.len() - i,
    {
        out.push(bytes[i]);
        assert(bytes@.take(i + 1) =~= bytes@.take(i as int).push(bytes@[i as int]));
        i = i + 1;
    }
    assert(bytes@.take(i as int) =~= bytes@);
    proof {
        if json::legible(message@, json::MAX_NESTING as nat) && bytes@.len() <= MAX_FRAME {
            lemma_le(bytes@.len());
            assert forall|rest: Seq<u8>| #[trigger]
                front(out@ + rest) == Front::Message(message@, rest) by {
                let b = out@ + rest;
                assert(b[0] == out@[0] && b[1] == out@[1] && b[2] == out@[2] && b[3] == out@[3]);
                assert(le_value(b) == bytes@.len());
                assert(b.subrange(4, bytes@.len() + 4int) =~= bytes@);
                assert(b.skip(bytes@.len() + 4int) =~= rest);
            }
        }
    }
    out
}

fn bytes_from(buffer: &Vec<u8>, from: usize) -> (r: Vec<u8>)
    requires
        from <= buffer@.len(),
    ensures
        r@ == buffer@.skip(from as int),
{
    let mut out: Vec<u8> = Vec::new();
    let mut i: usize = from;
    while i < buffer.len()
        invariant
            from <= i <= buffer@.len(),
            out@ == buffer@.subrange(from as int, i as int),
        decreases buffer@.len() - i,
    {
        out.push(buffer[i]);
        i = i + 1;
    }
    assert(out@ =~= buffer@.skip(from as int));
    out
}

/// A message in its frame, `None` for one that could not be read back.
pub fn try_frame(message: &Json) -> (r: Option<Vec<u8>>)
    ensures
        match r {
            Some(bytes) => {
                &&& json::storable(message@)
                &&& bytes@ == le4((json::rendered(message@).len() as u32) as nat)
                    + json::rendered(message@)
            },
            None => !json::storable(message@),
        },
{
    if message.is_storable() {
        Some(frame(message))
    } else {
        None
    }
}

/// Takes the message off the front of the buffer, if a whole one is there.
/// Nothing is taken off otherwise.
pub fn next_frame(buffer: &mut Vec<u8>) -> (r: Result<Option<Json>, FrameError>)
    ensures
        match front(old(buffer)@) {
            Front::Partial => r == Ok::<Option<Json>, FrameError>(None) && final(buffer)@
                == old(buffer)@,
            Front::TooLarge => r == Err::<Option<Json>, FrameError>(FrameError::TooLarge)
                && final(buffer)@ == old(buffer)@,
            Front::Invalid => r == Err::<Option<Json>, FrameError>(FrameError::Invalid)
                && final(buffer)@ == old(buffer)@,
            Front::Message(j, rest) => {
                &&& r matches Ok(Some(m)) && m@ == j && json::storable(m@)
                &&& final(buffer)@ == rest
            },
        },
{
    if buffer.len() < 4 {
        return Ok(None);
    }
    let n: u64 = buffer[0] as u64 + buffer[1] as u64 * 256 + buffer[2] as u64 * 65536
        + buffer[3] as u64 * 16777216;
    if n > MAX_FRAME as u64 {
        return Err(FrameError::TooLarge);
    }
    let end: usize = n as usize + 4;
    if buffer.len() < end {
        return Ok(None);
    }
    let body = vstd::slice::slice_subrange(buffer.as_slice(), 4, end);
    match json::from_bytes(body) {
        Some(j) => {
            let rest = bytes_from(buffer, end);
            *buffer = rest;
            Ok(Some(j))
        },
        None => Err(FrameError::Invalid),
    }
}

/// A buffer that does not hold a whole message is left for more to arrive: a
/// part of a message is never taken for one.
pub proof fn half_a_message_is_not_one(whole: Seq<u8>, k: int)
    requires
        4 <= whole.len() == le_value(whole) + 4,
        le_value(whole) <= MAX_FRAME,
        0 <= k < whole.len(),
    ensures
        front(whole.take(k)) == Front::Partial,
{
    if k >= 4 {
        let b = whole.take(k);
        assert(b[0] == whole[0] && b[1] == whole[1] && b[2] == whole[2] && b[3] == whole[3]);
    }
}

// --- what holds of every task ----------------------------------------------
/// The stream never invents a completion: an outcome on a session is the one
/// that was there, or none.
pub proof fn the_stream_never_invents_done(s: SessionView, p: ProjectionView)
    ensures
        projected(s, p).outcome == s.outcome || projected(s, p).outcome.len() == 0,
        projected(s, p).headline == s.headline,
        projected(s, p).detail == s.detail,
{
}

/// What is held stays within what is wanted.
pub proof fn receiving_keeps_to_the_wanted(b: BridgeView, message: JsonView, now: u64)
    requires
        forall|id: Seq<char>| #[trigger] b.tasks.dom().contains(id) ==> b.desired.contains(id),
    ensures
        forall|id: Seq<char>| #[trigger]
            received(b, message, now).0.tasks.dom().contains(id) ==> b.desired.contains(id),
        received(b, message, now).0.desired == b.desired,
        received(b, message, now).0.connected == b.connected,
{
}

/// A patch that does not fit what is held, because a revision is missing or
/// someone else sent it, drops the task and asks for it anew.
pub proof fn a_gap_drops_the_task(b: BridgeView, message: JsonView, now: u64, id: Seq<char>)
    requires
        !disconnects(message),
        changed_task(message) == Some(id),
        b.desired.contains(id),
        ({
            let change = message.field("params"@).field("change"@);
            &&& change.text_at("type"@) == Some("patches"@)
            &&& match table::at(b.tasks, id) {
                Some(p) => change.field("baseRevision"@).uint() != Some(p.revision)
                    || message.text_at("sourceClientId"@) != Some(p.owner) && !(message.text_at(
                    "sourceClientId"@,
                ) is None && p.owner.len() == 0),
                None => true,
            }
        }),
    ensures
        received(b, message, now) == (
            (BridgeView { tasks: b.tasks.remove(id), ..b }),
            Some(id),
        ),
{
    reveal_strlit("snapshot");
    reveal_strlit("patches");
    assert("snapshot"@.len() == 8 && "patches"@.len() == 7);
}

/// A value is like itself.
pub proof fn lemma_alike_itself(j: JsonView)
    requires
        json::storable(j),
    ensures
        json::alike(j, j),
    decreases j,
{
    match j {
        JsonView::Array(items) => {
            assert forall|i: int| 0 <= i < items.len() implies json::alike(
                #[trigger] items[i],
                items[i],
            ) by {
                lemma_alike_itself(items[i]);
            }
        },
        JsonView::Object(fields) => {
            assert forall|i: int| 0 <= i < fields.len() implies json::alike_field(
                #[trigger] fields[i].0,
                fields[i].1,
                fields,
            ) by {
                lemma_alike_itself(fields[i].1);
                json::lemma_field_place(fields, fields[i].0, JsonView::Null);
                let k = json::field_place(fields, fields[i].0)->0;
                assert(fields[k].0 == fields[i].0);
                if k < i {
                    assert(fields[k].0 != fields[i].0);
                } else if i < k {
                    assert(fields[i].0 != fields[k].0);
                }
            }
        },
        _ => {},
    }
}

/// Whether a patch is to some other part of a task than its status.
pub open spec fn elsewhere(patch: JsonView) -> bool {
    match (patch.field("path"@), patch.field("op"@)) {
        (JsonView::Array(path), JsonView::Text(_)) => path.len() > 0 && path[0]
            != JsonView::Text("threadRuntimeStatus"@),
        _ => false,
    }
}

proof fn lemma_elsewhere(status: JsonView, patches: Seq<JsonView>)
    requires
        forall|i: int| 0 <= i < patches.len() ==> elsewhere(#[trigger] patches[i]),
    ensures
        patched_all(status, patches) == Some(status),
    decreases patches.len(),
{
    if patches.len() > 0 {
        assert(elsewhere(patches[0]));
        let rest = patches.skip(1);
        assert forall|i: int| 0 <= i < rest.len() implies elsewhere(#[trigger] rest[i]) by {
            assert(rest[i] == patches[i + 1]);
        }
        lemma_elsewhere(status, rest);
    }
}

/// Changes elsewhere in a task move its revision on but leave its status, and
/// the age of a wait, as they were.
pub proof fn unrelated_patches_keep_the_wait(
    old: ProjectionView,
    message: JsonView,
    patches: Seq<JsonView>,
    revision: u64,
    now: u64,
)
    requires
        json::storable(old.status),
        telling(old.status),
        message.field("version"@) == JsonView::Unsigned(STREAM_VERSION),
        message.text_at("sourceClientId"@) == Some(old.owner),
        ({
            let change = message.field("params"@).field("change"@);
            &&& change.text_at("type"@) == Some("patches"@)
            &&& change.field("revision"@) == JsonView::Unsigned(revision)
            &&& change.field("baseRevision"@) == JsonView::Unsigned(old.revision)
            &&& change.field("patches"@) == JsonView::Array(patches)
        }),
        revision > old.revision,
        forall|i: int| 0 <= i < patches.len() ==> elsewhere(#[trigger] patches[i]),
    ensures
        next_projection(Some(old), message, now) == Some((ProjectionView { revision, ..old })),
{
    reveal_strlit("snapshot");
    reveal_strlit("patches");
    assert("snapshot"@.len() == 8 && "patches"@.len() == 7);
    lemma_elsewhere(old.status, patches);
    lemma_alike_itself(old.status);
}

} // verus!
