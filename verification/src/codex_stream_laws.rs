//! What the stream of live tasks tells, and what is said in reply.

use vstd::prelude::*;
use vstd::string::*;

use crate::codex_live;
use crate::codex_live::{BridgeView, Front, ProjectionView};
use crate::codex_stream;
use crate::codex_stream::{ObserverView, Reaction, StreamError};
use crate::json;
use crate::json::JsonView;
use crate::state::SessionView;
use crate::strings;

verus! {

/// The words of the stream are different.
proof fn lemma_words()
    ensures
        "active"@.len() == 6,
        "idle"@.len() == 4,
        "notLoaded"@.len() == 9,
        "systemError"@.len() == 11,
        "replace"@.len() == 7,
        "add"@.len() == 3,
        "remove"@.len() == 6,
        "snapshot"@.len() == 8,
        "patches"@.len() == 7,
        "success"@.len() == 7,
        "response"@.len() == 8,
        "client-discovery-request"@.len() == 24,
        "broadcast"@.len() == 9,
        "ipc-connection-reset"@.len() == 20,
        "thread-stream-following-status-requested"@.len() == 40,
        "thread-stream-state-changed"@.len() == 27,
        "client-status-changed"@.len() == 21,
        "disconnected"@.len() == 12,
        "local"@.len() == 5,
        "waitingOnApproval"@.len() == 17,
        "waitingOnUserInput"@.len() == 18,
        "threadRuntimeStatus"@.len() == 19,
        "activeFlags"@.len() == 11,
        "Approval needed in Codex"@.len() == 24,
        "Codex has a question for you"@.len() == 28,
        "active"@ != "remove"@,
        "notLoaded"@ != "broadcast"@,
        "systemError"@ != "activeFlags"@,
        "replace"@ != "patches"@,
        "replace"@ != "success"@,
        "snapshot"@ != "response"@,
        "patches"@ != "success"@,
        "client-discovery-request"@ != "Approval needed in Codex"@,
{
    reveal_strlit("active");
    reveal_strlit("idle");
    reveal_strlit("notLoaded");
    reveal_strlit("systemError");
    reveal_strlit("replace");
    reveal_strlit("add");
    reveal_strlit("remove");
    reveal_strlit("snapshot");
    reveal_strlit("patches");
    reveal_strlit("success");
    reveal_strlit("response");
    reveal_strlit("client-discovery-request");
    reveal_strlit("broadcast");
    reveal_strlit("ipc-connection-reset");
    reveal_strlit("thread-stream-following-status-requested");
    reveal_strlit("thread-stream-state-changed");
    reveal_strlit("client-status-changed");
    reveal_strlit("disconnected");
    reveal_strlit("local");
    reveal_strlit("waitingOnApproval");
    reveal_strlit("waitingOnUserInput");
    reveal_strlit("threadRuntimeStatus");
    reveal_strlit("activeFlags");
    reveal_strlit("Approval needed in Codex");
    reveal_strlit("Codex has a question for you");
    assert("active"@[0] != "remove"@[0]);
    assert("notLoaded"@[0] != "broadcast"@[0]);
    assert("systemError"@[0] != "activeFlags"@[0]);
    assert("replace"@[0] != "patches"@[0]);
    assert("replace"@[0] != "success"@[0]);
    assert("snapshot"@[0] != "response"@[0]);
    assert("patches"@[0] != "success"@[0]);
    assert("client-discovery-request"@[0] != "Approval needed in Codex"@[0]);
}

/// And so are its keys.
proof fn lemma_keys()
    ensures
        "type"@.len() == 4,
        "method"@.len() == 6,
        "sourceClientId"@.len() == 14,
        "version"@.len() == 7,
        "params"@.len() == 6,
        "conversationId"@.len() == 14,
        "hostId"@.len() == 6,
        "following"@.len() == 9,
        "requestId"@.len() == 9,
        "clientType"@.len() == 10,
        "response"@.len() == 8,
        "canHandle"@.len() == 9,
        "method"@ != "params"@,
        "method"@ != "hostId"@,
        "sourceClientId"@ != "conversationId"@,
        "params"@ != "hostId"@,
        "following"@ != "requestId"@,
        "following"@ != "canHandle"@,
        "requestId"@ != "canHandle"@,
{
    reveal_strlit("type");
    reveal_strlit("method");
    reveal_strlit("sourceClientId");
    reveal_strlit("version");
    reveal_strlit("params");
    reveal_strlit("conversationId");
    reveal_strlit("hostId");
    reveal_strlit("following");
    reveal_strlit("requestId");
    reveal_strlit("clientType");
    reveal_strlit("response");
    reveal_strlit("canHandle");
    assert("method"@[0] != "params"@[0]);
    assert("method"@[0] != "hostId"@[0]);
    assert("sourceClientId"@[0] != "conversationId"@[0]);
    assert("params"@[0] != "hostId"@[0]);
    assert("following"@[0] != "requestId"@[0]);
    assert("following"@[0] != "canHandle"@[0]);
    assert("requestId"@[0] != "canHandle"@[0]);
}

// --- what is known of one task --------------------------------------------------------------
/// A flag is set when the list of flags holds its name.
pub open spec fn has_flag(status: JsonView, name: Seq<char>) -> bool {
    status.field("activeFlags"@) matches JsonView::Array(flags) && exists|i: int|
        0 <= i < flags.len() && #[trigger] flags[i] == JsonView::Text(name)
}

/// A task that is active is at work and has no outcome; it waits for a person from
/// the moment its status says so, an approval before a question.
pub proof fn an_active_task_is_at_work(s: SessionView, p: ProjectionView)
    requires
        p.status.text_at("type"@) == Some("active"@),
    ensures
        ({
            let t = codex_live::projected(s, p);
            let approval = has_flag(p.status, "waitingOnApproval"@);
            let question = has_flag(p.status, "waitingOnUserInput"@);
            &&& t.state == "running"@
            &&& t.outcome == Seq::<char>::empty() && t.outcome_ms == 0
            &&& !t.stalled
            &&& t.pending_since == 0
            &&& approval || question ==> t.waiting_since == p.changed_ms
            &&& approval ==> t.waiting_reason == "Approval needed in Codex"@
            &&& !approval && question ==> t.waiting_reason == "Codex has a question for you"@
            &&& !approval && !question ==> t.waiting_since == 0 && t.waiting_reason == Seq::<
                char,
            >::empty()
            &&& t.session_id == s.session_id && t.headline == s.headline
        }),
{
    lemma_words();
    if let JsonView::Array(flags) = p.status.field("activeFlags"@) {
        assert(p.status.field("activeFlags"@).list() == Some(flags));
    }
}

/// One that is idle waits for nobody and keeps its outcome; of any other status a
/// card shows nothing.
pub proof fn an_idle_task_waits_for_nobody(s: SessionView, p: ProjectionView)
    ensures
        ({
            let t = codex_live::projected(s, p);
            let kind = p.status.text_at("type"@);
            &&& kind == Some("idle"@) ==> {
                &&& t.state == "idle"@
                &&& t.outcome == s.outcome && t.outcome_ms == s.outcome_ms
                &&& t.waiting_since == 0 && t.waiting_reason == Seq::<char>::empty()
                &&& t.pending_since == 0
                &&& !t.stalled
            }
            &&& kind != Some("idle"@) && kind != Some("active"@) ==> t == s
        }),
{
    lemma_words();
}

/// A card is told by the task it belongs to, and by no other.
pub proof fn a_card_is_told_by_its_own_task(
    tasks: Map<Seq<char>, ProjectionView>,
    s: SessionView,
)
    ensures
        tasks.dom().contains(s.chat_id) ==> codex_live::decorated(tasks, s)
            == codex_live::projected(s, tasks[s.chat_id]),
        !tasks.dom().contains(s.chat_id) ==> codex_live::decorated(tasks, s) == s,
{
}

/// These statuses tell something.
pub proof fn these_statuses_tell(status: JsonView)
    ensures
        ({
            let kind = status.text_at("type"@);
            codex_live::telling(status) <==> (kind == Some("idle"@) || kind == Some("notLoaded"@)
                || kind == Some("systemError"@) || (kind == Some("active"@) && status.field(
                "activeFlags"@,
            ) is Array))
        }),
{
    lemma_words();
}

// --- patches ---------------------------------------------------------------------------------
/// A patch of something else leaves the status; one of everything, or of the status
/// as a whole, replaces it; without a place or an operation it makes no sense.
pub proof fn a_patch_replaces_what_it_names(
    status: JsonView,
    patch: JsonView,
    path: Seq<JsonView>,
    op: Seq<char>,
)
    requires
        patch.field("path"@) == JsonView::Array(path),
        patch.field("op"@) == JsonView::Text(op),
    ensures
        ({
            let after = codex_live::patched(status, patch);
            let value = patch.field("value"@);
            let own = JsonView::Text("threadRuntimeStatus"@);
            &&& path.len() == 0 && op == "replace"@ ==> after == Some(
                value.field("threadRuntimeStatus"@),
            )
            &&& path.len() == 0 && op != "replace"@ ==> after is None
            &&& path.len() > 0 && path[0] != own ==> after == Some(status)
            &&& path == seq![own] && op == "remove"@ ==> after == Some(JsonView::Null)
            &&& path == seq![own] && op != "remove"@ ==> after == Some(value)
            &&& path.len() == 3 && path[0] == own && path[1] != JsonView::Text("activeFlags"@)
                ==> after is None
            &&& path.len() > 3 && path[0] == own ==> after is None
        }),
{
    lemma_words();
}

/// A patch of one field sets or removes that field.
pub proof fn a_patch_sets_or_removes_a_field(
    fields: Seq<(Seq<char>, JsonView)>,
    patch: JsonView,
    name: Seq<char>,
    op: Seq<char>,
)
    requires
        patch.field("path"@) == JsonView::Array(
            seq![JsonView::Text("threadRuntimeStatus"@), JsonView::Text(name)],
        ),
        patch.field("op"@) == JsonView::Text(op),
    ensures
        ({
            let after = codex_live::patched(JsonView::Object(fields), patch);
            &&& op == "remove"@ ==> after == Some(
                JsonView::Object(json::without_field(fields, name)),
            )
            &&& op == "replace"@ || op == "add"@ ==> after == Some(
                JsonView::Object(json::with_field(fields, name, patch.field("value"@))),
            )
            &&& op != "remove"@ && op != "replace"@ && op != "add"@ ==> after is None
        }),
{
    lemma_words();
}

/// A patch of one flag puts it in, changes it or takes it out at its place; a place
/// that is not there makes no sense.
pub proof fn a_patch_moves_one_flag(
    flags: Seq<JsonView>,
    op: Seq<char>,
    index: u64,
    value: JsonView,
)
    ensures
        ({
            let after = codex_live::patched_flags(flags, op, index, value);
            let i = index as int;
            &&& op == "add"@ && i <= flags.len() ==> after == Some(
                flags.take(i) + seq![value] + flags.skip(i),
            )
            &&& op == "replace"@ && i < flags.len() ==> after == Some(
                flags.take(i) + seq![value] + flags.skip(i + 1),
            )
            &&& op == "remove"@ && i < flags.len() ==> after == Some(
                flags.take(i) + flags.skip(i + 1),
            )
            &&& i > flags.len() || (i == flags.len() && op != "add"@) ==> after is None
            &&& op != "add"@ && op != "replace"@ && op != "remove"@ ==> after is None
        }),
{
    lemma_words();
    let i = index as int;
    if i <= flags.len() {
        assert(flags.insert(i, value) =~= flags.take(i) + seq![value] + flags.skip(i));
    }
    if i < flags.len() {
        assert(flags.update(i, value) =~= flags.take(i) + seq![value] + flags.skip(i + 1));
        assert(flags.remove(i) =~= flags.take(i) + flags.skip(i + 1));
    }
}

/// And it is the flags of the status that it moves.
pub proof fn flags_are_patched_in_their_place(
    fields: Seq<(Seq<char>, JsonView)>,
    flags: Seq<JsonView>,
    patch: JsonView,
    op: Seq<char>,
    index: u64,
)
    requires
        JsonView::Object(fields).field("activeFlags"@) == JsonView::Array(flags),
        patch.field("path"@) == JsonView::Array(
            seq![
                JsonView::Text("threadRuntimeStatus"@),
                JsonView::Text("activeFlags"@),
                JsonView::Unsigned(index),
            ],
        ),
        patch.field("op"@) == JsonView::Text(op),
    ensures
        codex_live::patched(JsonView::Object(fields), patch) == (match codex_live::patched_flags(
            flags,
            op,
            index,
            patch.field("value"@),
        ) {
            Some(after) => Some(
                JsonView::Object(json::with_field(fields, "activeFlags"@, JsonView::Array(after))),
            ),
            None => None,
        }),
{
    lemma_words();
}

/// Patches are made one after the other, and one that makes no sense spoils them
/// all.
pub proof fn patches_are_made_in_order(status: JsonView, first: JsonView, rest: Seq<JsonView>)
    ensures
        codex_live::patched_all(status, seq![first] + rest) == (match codex_live::patched(
            status,
            first,
        ) {
            Some(next) => codex_live::patched_all(next, rest),
            None => None,
        }),
        codex_live::patched_all(status, Seq::empty()) == Some(status),
{
    assert((seq![first] + rest).skip(1) =~= rest);
}

// --- what a message changes ---------------------------------------------------------------------
/// A message that tells of a change to a task of this machine.
pub open spec fn tells_of(message: JsonView, id: Seq<char>) -> bool {
    let params = message.field("params"@);
    &&& message.text_at("method"@) == Some("thread-stream-state-changed"@)
    &&& params.text_at("hostId"@) == Some("local"@)
    &&& params.text_at("conversationId"@) == Some(id)
}

/// Who sent a message.
pub open spec fn sender(message: JsonView) -> Seq<char> {
    match message.text_at("sourceClientId"@) {
        Some(s) => s,
        None => Seq::empty(),
    }
}

/// A snapshot of a task that is wanted tells its status, whatever was known of it
/// before; the time of a status that has not changed stays.
pub proof fn a_snapshot_tells_the_status(
    b: BridgeView,
    message: JsonView,
    id: Seq<char>,
    revision: u64,
    now: u64,
)
    requires
        tells_of(message, id),
        b.desired.contains(id),
        message.field("version"@) == JsonView::Unsigned(11),
        ({
            let change = message.field("params"@).field("change"@);
            change.text_at("type"@) == Some("snapshot"@) && change.field("revision"@)
                == JsonView::Unsigned(revision)
        }),
    ensures
        ({
            let status = message.field("params"@).field("change"@).field(
                "conversationState"@,
            ).field("threadRuntimeStatus"@);
            let (after, again) = codex_live::received(b, message, now);
            if codex_live::telling(status) {
                &&& again is None
                &&& after.tasks.dom().contains(id)
                &&& after.tasks[id].status == status
                &&& after.tasks[id].revision == revision
                &&& after.tasks[id].owner == sender(message)
                &&& after.tasks[id].changed_ms == (if b.tasks.dom().contains(id) && json::alike(
                    b.tasks[id].status,
                    status,
                ) {
                    b.tasks[id].changed_ms
                } else {
                    now
                })
                &&& after.tasks == b.tasks.insert(id, after.tasks[id])
            } else {
                &&& again == Some(id)
                &&& after.tasks == b.tasks.remove(id)
            }
        }),
{
    lemma_words();
}

/// Patches that follow on from what is known, and come from the same sender, make
/// the next status; any others lose the task, and it is asked for again.
pub proof fn patches_follow_on_from_what_is_known(
    b: BridgeView,
    message: JsonView,
    id: Seq<char>,
    revision: u64,
    patches: Seq<JsonView>,
    now: u64,
)
    requires
        tells_of(message, id),
        b.desired.contains(id),
        message.field("version"@) == JsonView::Unsigned(11),
        ({
            let change = message.field("params"@).field("change"@);
            &&& change.text_at("type"@) == Some("patches"@)
            &&& change.field("revision"@) == JsonView::Unsigned(revision)
            &&& change.field("patches"@) == JsonView::Array(patches)
        }),
    ensures
        ({
            let base = message.field("params"@).field("change"@).field("baseRevision"@).uint();
            let (after, again) = codex_live::received(b, message, now);
            let follows = b.tasks.dom().contains(id) && b.tasks[id].owner == sender(message) && base
                == Some(b.tasks[id].revision) && revision > b.tasks[id].revision;
            let next = codex_live::patched_all(b.tasks[id].status, patches);
            if follows && next is Some && codex_live::telling(next->0) {
                &&& again is None
                &&& after.tasks == b.tasks.insert(id, after.tasks[id])
                &&& after.tasks[id].status == next->0
                &&& after.tasks[id].revision == revision
                &&& after.tasks[id].owner == b.tasks[id].owner
            } else {
                &&& again == Some(id)
                &&& after.tasks == b.tasks.remove(id)
            }
        }),
{
    lemma_words();
}

/// A change in another version of the stream loses the task.
pub proof fn another_version_is_not_understood(
    b: BridgeView,
    message: JsonView,
    id: Seq<char>,
    now: u64,
)
    requires
        tells_of(message, id),
        b.desired.contains(id),
        message.field("version"@) != JsonView::Unsigned(11),
    ensures
        codex_live::received(b, message, now) == (
            (BridgeView { tasks: b.tasks.remove(id), ..b }),
            Some(id),
        ),
{
    lemma_words();
}

/// A sender that leaves takes what it told along, and nothing else.
pub proof fn who_leaves_takes_its_tasks_along(
    b: BridgeView,
    message: JsonView,
    gone: Seq<char>,
    now: u64,
    id: Seq<char>,
)
    requires
        message.text_at("method"@) == Some("client-status-changed"@),
        message.field("params"@).text_at("status"@) == Some("disconnected"@),
        message.field("params"@).field("clientId"@) == JsonView::Text(gone),
    ensures
        ({
            let (after, again) = codex_live::received(b, message, now);
            &&& again is None
            &&& after.tasks.dom().contains(id) <==> b.tasks.dom().contains(id) && b.tasks[id].owner
                != gone
            &&& after.tasks.dom().contains(id) ==> after.tasks[id] == b.tasks[id]
            &&& after.desired == b.desired && after.connected == b.connected
        }),
{
    lemma_words();
}

/// A change to a task that nobody wants, or on another machine, is not looked at.
pub proof fn what_nobody_wants_is_not_looked_at(b: BridgeView, message: JsonView, now: u64)
    requires
        message.text_at("method"@) != Some("client-status-changed"@),
        forall|id: Seq<char>| #[trigger] b.desired.contains(id) ==> !tells_of(message, id),
    ensures
        codex_live::received(b, message, now) == (b, None::<Seq<char>>),
{
    if let Some(id) = message.field("params"@).text_at("conversationId"@) {
        if b.desired.contains(id) {
            assert(!tells_of(message, id));
        }
    }
}

/// The first thirty-two tasks that are on a card are wanted, each once.
pub proof fn thirty_two_tasks_are_wanted(sessions: Seq<SessionView>)
    ensures
        ({
            let ids = codex_live::chat_ids(sessions);
            let wanted = codex_live::desired_of(sessions);
            &&& wanted.no_duplicates()
            &&& wanted.len() <= 32
            &&& forall|id: Seq<char>| #[trigger]
                wanted.contains(id) <==> exists|i: int| 0 <= i < ids.len() && i < 32 && ids[i] == id
        }),
{
    let ids = codex_live::chat_ids(sessions);
    let some = if ids.len() <= 32 {
        ids
    } else {
        ids.take(32)
    };
    lemma_once(some);
    let wanted = codex_live::desired_of(sessions);
    assert forall|id: Seq<char>| #[trigger] wanted.contains(id) implies (exists|i: int|
        0 <= i < ids.len() && i < 32 && ids[i] == id) by {
        assert(some.contains(id));
        let i = choose|i: int| 0 <= i < some.len() && some[i] == id;
        assert(ids[i] == id);
    }
    assert forall|id: Seq<char>|
        (exists|i: int| 0 <= i < ids.len() && i < 32
            && ids[i] == id) implies #[trigger] wanted.contains(
        id,
    ) by {
        let i = choose|i: int| 0 <= i < ids.len() && i < 32 && ids[i] == id;
        assert(some[i] == id);
        assert(some.contains(id));
    }
}

/// A card's task is one that is wanted, unless the card has none.
pub proof fn a_cards_task_is_wanted(sessions: Seq<SessionView>, s: SessionView)
    ensures
        codex_live::chat_ids(sessions.push(s)) == (if s.chat_id.len() > 0 {
            codex_live::chat_ids(sessions).push(s.chat_id)
        } else {
            codex_live::chat_ids(sessions)
        }),
        codex_live::chat_ids(Seq::empty()) == Seq::<Seq<char>>::empty(),
{
    assert(sessions.push(s).drop_last() =~= sessions);
}

proof fn lemma_once(ids: Seq<Seq<char>>)
    ensures
        codex_live::once_each(ids).no_duplicates(),
        codex_live::once_each(ids).len() <= ids.len(),
        forall|id: Seq<char>| #[trigger]
            codex_live::once_each(ids).contains(id) <==> ids.contains(id),
    decreases ids.len(),
{
    if ids.len() > 0 {
        let less = ids.drop_last();
        let last = ids.last();
        lemma_once(less);
        let before = codex_live::once_each(less);
        let after = codex_live::once_each(ids);
        assert forall|id: Seq<char>| #[trigger] after.contains(id) <==> ids.contains(id) by {
            assert(ids[ids.len() - 1] == last);
            if ids.contains(id) {
                let k = choose|k: int| 0 <= k < ids.len() && ids[k] == id;
                if k < less.len() {
                    assert(less[k] == id);
                    assert(before.contains(id));
                }
            }
            if less.contains(id) {
                let k = choose|k: int| 0 <= k < less.len() && less[k] == id;
                assert(ids[k] == id);
            }
            if before.contains(id) {
                let k = choose|k: int| 0 <= k < before.len() && before[k] == id;
                assert(after[k] == id);
            }
            if !before.contains(last) {
                assert(after[before.len() as int] == last);
                if after.contains(id) && id != last {
                    let k = choose|k: int| 0 <= k < after.len() && after[k] == id;
                    assert(before[k] == id);
                }
            }
        }
    }
}

// --- frames ---------------------------------------------------------------------------------------
/// A message comes behind its length in four bytes, the lowest first, and what is
/// behind it is left; one of more than sixteen megabytes is too large.
pub proof fn a_message_comes_behind_its_length(
    a: u8,
    b: u8,
    c: u8,
    d: u8,
    body: Seq<u8>,
    rest: Seq<u8>,
)
    ensures
        ({
            let length = a + b * 0x100 + c * 0x1_0000 + d * 0x100_0000;
            let read = codex_live::front(seq![a, b, c, d] + body + rest);
            &&& length > 16 * 1024 * 1024 ==> read == Front::TooLarge
            &&& length == body.len() && length <= 16 * 1024 * 1024 ==> read == (match json::parsed(
                body,
            ) {
                Some(v) => Front::Message(v, rest),
                None => Front::Invalid,
            })
            &&& length > body.len() + rest.len() && length <= 16 * 1024 * 1024 ==> read
                == Front::Partial
        }),
{
    let bytes = seq![a, b, c, d] + body + rest;
    assert(bytes[0] == a && bytes[1] == b && bytes[2] == c && bytes[3] == d);
    let length = a + b * 0x100 + c * 0x1_0000 + d * 0x100_0000;
    assert(codex_live::le_value(bytes) == length);
    if length == body.len() {
        assert(bytes.subrange(4, length + 4) =~= body);
        assert(bytes.skip(length + 4) =~= rest);
    }
}

// --- what is said -----------------------------------------------------------------------------------
/// To follow a task, or to follow it no longer, is said of one task of this
/// machine.
pub proof fn following_is_said_of_one_task(client: Seq<char>, id: Seq<char>, following: bool)
    ensures
        ({
            let m = codex_live::follow_spec(client, id, following);
            let params = m.field("params"@);
            &&& m.field("type"@) == JsonView::Text("broadcast"@)
            &&& m.field("method"@) == JsonView::Text("thread-stream-following-changed"@)
            &&& m.field("sourceClientId"@) == JsonView::Text(client)
            &&& m.field("version"@) == JsonView::Unsigned(1)
            &&& params.field("conversationId"@) == JsonView::Text(id)
            &&& params.field("hostId"@) == JsonView::Text("local"@)
            &&& params.field("following"@) == JsonView::Bool(following)
        }),
{
    lemma_keys();
    reveal_with_fuel(json::lookup, 6);
    let m = codex_live::follow_spec(client, id, following)->Object_0;
    assert(m.skip(1)[0] == m[1] && m.skip(1).skip(1)[0] == m[2] && m.skip(1).skip(1).skip(1)[0]
        == m[3] && m.skip(1).skip(1).skip(1).skip(1)[0] == m[4]);
    let p = m[4].1->Object_0;
    assert(p.skip(1)[0] == p[1] && p.skip(1).skip(1)[0] == p[2]);
}

/// A client says who it is, under a request that can be answered.
pub proof fn a_client_says_who_it_is(request: Seq<char>, client: Seq<char>, asked: JsonView)
    ensures
        ({
            let m = codex_live::initialize_spec(request, client);
            let r = codex_live::refusal_spec(asked);
            &&& m.field("type"@) == JsonView::Text("request"@)
            &&& m.field("requestId"@) == JsonView::Text(request)
            &&& m.field("sourceClientId"@) == JsonView::Text(client)
            &&& m.field("version"@) == JsonView::Unsigned(1)
            &&& m.field("method"@) == JsonView::Text("initialize"@)
            &&& m.field("params"@).field("clientType"@) == JsonView::Text("pipsqueak"@)
            &&& r.field("type"@) == JsonView::Text("client-discovery-response"@)
            &&& r.field("requestId"@) == asked
            &&& r.field("response"@).field("canHandle"@) == JsonView::Bool(false)
        }),
{
    lemma_keys();
    reveal_with_fuel(json::lookup, 7);
    let m = codex_live::initialize_spec(request, client)->Object_0;
    assert(m.skip(1)[0] == m[1] && m.skip(1).skip(1)[0] == m[2] && m.skip(1).skip(1).skip(1)[0]
        == m[3] && m.skip(1).skip(1).skip(1).skip(1)[0] == m[4] && m.skip(1).skip(1).skip(1).skip(
        1,
    ).skip(1)[0] == m[5]);
    let r = codex_live::refusal_spec(asked)->Object_0;
    assert(r.skip(1)[0] == r[1] && r.skip(1).skip(1)[0] == r[2]);
}

/// Five seconds are given for an answer, and every fifteen the other end is asked
/// whether it is there.
pub proof fn an_answer_has_five_seconds(o: ObserverView, now: u64)
    ensures
        codex_stream::unanswered(o, now) <==> (o.pending matches Some(p) && now > p.1 + 5000),
        codex_stream::ping_due(o, now) <==> o.client.len() > 0 && o.pending is None && now
            > o.ping_at + 15000,
{
}

/// A task is asked for when it is not followed, and again every thirty seconds while
/// nothing was told of it: the second time it is let go first.
pub proof fn a_task_is_asked_for_until_it_is_told(
    o: ObserverView,
    b: BridgeView,
    id: Seq<char>,
    now: u64,
)
    ensures
        ({
            let said = codex_stream::asking(o, b, id, now);
            let on = codex_live::follow_spec(o.client, id, true);
            let off = codex_live::follow_spec(o.client, id, false);
            let silent = !b.tasks.dom().contains(id) && (o.requested.dom().contains(id) ==> now
                > o.requested[id] + 30000);
            &&& !o.subscribed.contains(id) ==> said == seq![on]
            &&& o.subscribed.contains(id) && silent ==> said == seq![off, on]
            &&& o.subscribed.contains(id) && !silent ==> said == Seq::<JsonView>::empty()
        }),
{
}

/// A task that is not wanted any more is let go, and no other.
pub proof fn what_is_not_wanted_is_let_go(
    client: Seq<char>,
    subscribed: Seq<Seq<char>>,
    id: Seq<char>,
    wanted: Seq<Seq<char>>,
)
    ensures
        codex_stream::leaving(client, subscribed.push(id), wanted) == (if wanted.contains(id) {
            codex_stream::leaving(client, subscribed, wanted)
        } else {
            codex_stream::leaving(client, subscribed, wanted).push(
                codex_live::follow_spec(client, id, false),
            )
        }),
        codex_stream::leaving(client, Seq::empty(), wanted) == Seq::<JsonView>::empty(),
{
    assert(subscribed.push(id).drop_last() =~= subscribed);
}

/// Before the other end knows who we are, nothing is said; afterwards what is due
/// is: the question, what is let go, and what is asked for.
pub proof fn nothing_is_said_to_a_stranger(o: ObserverView, b: BridgeView, now: u64)
    ensures
        ({
            let said = codex_stream::sent(o, b, now);
            let wanted = codex_live::once_each(b.desired);
            let left = codex_stream::leaving(o.client, o.subscribed, wanted);
            let asked = codex_stream::asking_all(o, b, wanted, now);
            let due = o.pending is None && now > o.ping_at + 15000;
            &&& o.client.len() == 0 ==> said == Seq::<JsonView>::empty()
            &&& o.client.len() > 0 && !due ==> said == left + asked
            &&& o.client.len() > 0 && due && o.sequence < u64::MAX ==> {
                &&& said == seq![
                    codex_live::initialize_spec(
                        "pet-"@ + strings::decimal_spec((o.sequence + 1) as nat),
                        o.client,
                    ),
                ] + left + asked
                &&& codex_stream::ticked(o, b, now).pending == Some(
                    ("pet-"@ + strings::decimal_spec((o.sequence + 1) as nat), now),
                )
                &&& codex_stream::ticked(o, b, now).sequence == o.sequence + 1
            }
            &&& o.client.len() > 0 ==> codex_stream::ticked(o, b, now).subscribed == wanted
        }),
{
    let wanted = codex_live::once_each(b.desired);
    let left = codex_stream::leaving(o.client, o.subscribed, wanted);
    assert(Seq::<JsonView>::empty() + left =~= left);
}

/// Each task that is wanted is asked for in its turn.
pub proof fn every_wanted_task_is_asked_for(
    o: ObserverView,
    b: BridgeView,
    ids: Seq<Seq<char>>,
    id: Seq<char>,
    now: u64,
)
    ensures
        codex_stream::asking_all(o, b, ids.push(id), now) == codex_stream::asking_all(
            o,
            b,
            ids,
            now,
        ) + codex_stream::asking(o, b, id, now),
        codex_stream::asking_all(o, b, Seq::empty(), now) == Seq::<JsonView>::empty(),
{
    assert(ids.push(id).drop_last() =~= ids);
}

/// The answer to our request makes us known, or ends the conversation.
pub proof fn an_answer_makes_us_known(
    o: ObserverView,
    b: BridgeView,
    message: JsonView,
    request: Seq<char>,
    since: u64,
    now: u64,
    at: u64,
)
    requires
        o.pending == Some((request, since)),
        message.text_at("type"@) == Some("response"@),
        message.text_at("requestId"@) == Some(request),
    ensures
        ({
            let r = codex_stream::reaction(o, b, message, now, at);
            let client = message.field("result"@).text_at("clientId"@);
            let success = message.text_at("resultType"@) == Some("success"@);
            &&& !success ==> r == Reaction::Fail(StreamError::Registration)
            &&& success && (client is None || client->0.len() == 0) ==> r == Reaction::Fail(
                StreamError::MissingClient,
            )
            &&& success && client is Some && client->0.len() > 0 ==> r == Reaction::Go(
                (ObserverView { client: client->0, pending: None, ping_at: now, ..o }),
                (BridgeView { connected: true, ..b }),
                None,
            )
        }),
{
    lemma_words();
}

/// Who asks what we can handle is refused; who asks what we follow is told; and
/// a reset ends the conversation.
pub proof fn questions_are_answered(
    o: ObserverView,
    b: BridgeView,
    message: JsonView,
    now: u64,
    at: u64,
)
    requires
        message.text_at("type"@) != Some("response"@),
    ensures
        ({
            let r = codex_stream::reaction(o, b, message, now, at);
            let kind = message.text_at("type"@);
            let method = message.text_at("method"@);
            let params = message.field("params"@);
            let status_asked = kind == Some("broadcast"@) && method == Some(
                "thread-stream-following-status-requested"@,
            );
            let ours = params.text_at("hostId"@) == Some("local"@) && (params.text_at(
                "conversationId"@,
            ) matches Some(id) && o.subscribed.contains(id));
            &&& kind == Some("client-discovery-request"@) ==> r == Reaction::Go(
                o,
                b,
                Some(codex_live::refusal_spec(message.field("requestId"@))),
            )
            &&& kind == Some("broadcast"@) && method == Some("ipc-connection-reset"@) ==> r
                == Reaction::Fail(StreamError::Reset)
            &&& status_asked && ours ==> r == Reaction::Go(
                o,
                b,
                Some(
                    codex_live::follow_spec(o.client, params.text_at("conversationId"@)->0, true),
                ),
            )
            &&& status_asked && !ours ==> r == Reaction::Go(o, b, None)
            &&& kind == Some("broadcast"@) && method != Some("ipc-connection-reset"@) && method
                != Some("thread-stream-following-status-requested"@) ==> r == Reaction::Go(
                o,
                codex_live::received(b, message, at).0,
                None,
            )
            &&& kind != Some("broadcast"@) && kind != Some("client-discovery-request"@) ==> r
                == Reaction::Go(o, b, None)
        }),
{
    lemma_words();
}

/// A socket is trusted that is the user's own, in a folder of the user's own that
/// nobody else may look into, and no other.
pub proof fn only_an_own_socket_is_trusted(owner: u32, user: u32, folder_owner: u32, mode: u32)
    ensures
        codex_stream::private_socket(true, user, user, user, mode) <==> mode % 0o100 == 0,
        owner != user ==> !codex_stream::private_socket(true, owner, user, folder_owner, mode),
        folder_owner != user ==> !codex_stream::private_socket(
            true,
            owner,
            user,
            folder_owner,
            mode,
        ),
        !codex_stream::private_socket(false, owner, user, folder_owner, mode),
{
}

/// When a task was asked for is kept, and is now where it is asked for again; of a
/// task that nobody wants nothing is kept, and of one that somebody wants everything.
pub proof fn what_is_wanted_is_kept(o: ObserverView, b: BridgeView, now: u64, id: Seq<char>)
    requires
        o.client.len() > 0,
    ensures
        ({
            let t = codex_stream::ticked(o, b, now);
            let held = codex_stream::pruned(o, b);
            let wanted = b.desired.contains(id);
            let silent = !b.tasks.dom().contains(id) && (o.requested.dom().contains(id) ==> now
                > o.requested[id] + 30000);
            let asked = !o.subscribed.contains(id) || silent;
            &&& !wanted ==> !t.requested.dom().contains(id) && !held.tasks.dom().contains(id)
            &&& wanted && asked ==> t.requested.dom().contains(id) && t.requested[id] == now
            &&& wanted && !asked ==> t.requested.dom().contains(id) == o.requested.dom().contains(id)
            &&& wanted && !asked && o.requested.dom().contains(id) ==> t.requested[id]
                == o.requested[id]
            &&& wanted && b.tasks.dom().contains(id) ==> held.tasks.dom().contains(id)
                && held.tasks[id] == b.tasks[id]
            &&& held.desired == b.desired && held.connected == b.connected
            &&& t.client == o.client && t.buffer == o.buffer && t.ping_at == o.ping_at
        }),
{
    lemma_once(b.desired);
    let wanted = codex_live::once_each(b.desired);
    assert(wanted.contains(id) == b.desired.contains(id));
}

} // verus!
