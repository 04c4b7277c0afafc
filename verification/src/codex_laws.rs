//! What each record of a Codex session does to its card.

use vstd::prelude::*;
use vstd::string::*;

use crate::codex;
use crate::codex::WatchView;
use crate::json;
use crate::json::JsonView;
use crate::narration::Mode;
use crate::state;
use crate::state::{EntryView, Provider, SessionView};
use crate::strings;
use crate::text;

verus! {

/// The kinds of events are different words.
proof fn lemma_kinds()
    ensures
        "task_started"@.len() == 12,
        "turn_started"@.len() == 12,
        "task_complete"@.len() == 13,
        "turn_complete"@.len() == 13,
        "turn_aborted"@.len() == 12,
        "error"@.len() == 5,
        "user_message"@.len() == 12,
        "agent_message"@.len() == 13,
        "agent_reasoning"@.len() == 15,
        "token_count"@.len() == 11,
        "item_completed"@.len() == 14,
        "exec_approval_request"@.len() == 21,
        "apply_patch_approval_request"@.len() == 28,
        "request_user_input"@.len() == 18,
        "task_started"@ != "turn_started"@,
        "task_started"@ != "turn_aborted"@,
        "task_started"@ != "user_message"@,
        "turn_started"@ != "turn_aborted"@,
        "turn_started"@ != "user_message"@,
        "task_complete"@ != "turn_complete"@,
        "task_complete"@ != "agent_message"@,
        "turn_complete"@ != "agent_message"@,
        "turn_aborted"@ != "user_message"@,
{
    reveal_strlit("task_started");
    reveal_strlit("turn_started");
    reveal_strlit("task_complete");
    reveal_strlit("turn_complete");
    reveal_strlit("turn_aborted");
    reveal_strlit("error");
    reveal_strlit("user_message");
    reveal_strlit("agent_message");
    reveal_strlit("agent_reasoning");
    reveal_strlit("token_count");
    reveal_strlit("item_completed");
    reveal_strlit("exec_approval_request");
    reveal_strlit("apply_patch_approval_request");
    reveal_strlit("request_user_input");
    assert("task_started"@[1] != "turn_started"@[1]);
    assert("task_started"@[1] != "turn_aborted"@[1]);
    assert("task_started"@[0] != "user_message"@[0]);
    assert("turn_started"@[5] != "turn_aborted"@[5]);
    assert("turn_started"@[0] != "user_message"@[0]);
    assert("task_complete"@[1] != "turn_complete"@[1]);
    assert("task_complete"@[0] != "agent_message"@[0]);
    assert("turn_complete"@[0] != "agent_message"@[0]);
    assert("turn_aborted"@[0] != "user_message"@[0]);
}

/// So are the kinds of records and items.
proof fn lemma_items()
    ensures
        "message"@.len() == 7,
        "reasoning"@.len() == 9,
        "function_call"@.len() == 13,
        "custom_tool_call"@.len() == 16,
        "function_call_output"@.len() == 20,
        "custom_tool_call_output"@.len() == 23,
        "session_meta"@.len() == 12,
        "event_msg"@.len() == 9,
        "response_item"@.len() == 13,
        "reasoning"@ != "event_msg"@,
        "function_call"@ != "response_item"@,
{
    reveal_strlit("message");
    reveal_strlit("reasoning");
    reveal_strlit("function_call");
    reveal_strlit("custom_tool_call");
    reveal_strlit("function_call_output");
    reveal_strlit("custom_tool_call_output");
    reveal_strlit("session_meta");
    reveal_strlit("event_msg");
    reveal_strlit("response_item");
    assert("reasoning"@[0] != "event_msg"@[0]);
    assert("function_call"@[0] != "response_item"@[0]);
}

/// So are the states.
proof fn lemma_states()
    ensures
        "thinking"@.len() == 8,
        "running"@.len() == 7,
        "compacting"@.len() == 10,
        "idle"@.len() == 4,
        "done"@.len() == 4,
        "failed"@.len() == 6,
        "idle"@ != "done"@,
{
    reveal_strlit("thinking");
    reveal_strlit("running");
    reveal_strlit("compacting");
    reveal_strlit("idle");
    reveal_strlit("done");
    reveal_strlit("failed");
    assert("idle"@[0] != "done"@[0]);
}

/// An event of that kind.
pub open spec fn is_event(v: JsonView, kind: Seq<char>) -> bool {
    v.text_at("type"@) == Some("event_msg"@) && v.field("payload"@).text_at("type"@) == Some(kind)
}

/// An item of that kind.
pub open spec fn is_item(v: JsonView, kind: Seq<char>) -> bool {
    v.text_at("type"@) == Some("response_item"@) && v.field("payload"@).text_at("type"@) == Some(
        kind,
    )
}

/// A turn is under way.
pub open spec fn at_work(s: SessionView) -> bool {
    s.state == "thinking"@ || s.state == "running"@ || s.state == "compacting"@
}

/// A request for approval puts the wait on the card the moment it is made, and a
/// question does the same in its own words. Where no turn is under way, neither
/// says anything.
pub proof fn a_request_waits_for_a_person(w: WatchView, v: JsonView, at: u64)
    requires
        w.accepted,
        at > 0,
        is_event(v, "exec_approval_request"@) || is_event(v, "apply_patch_approval_request"@)
            || is_event(v, "request_user_input"@),
    ensures
        ({
            let t = codex::applied(w, v, at);
            &&& at_work(w.session) ==> {
                &&& t.session.waiting_since == at
                &&& t.session.waiting_reason == (if is_event(v, "request_user_input"@) {
                    "Codex has a question for you"@
                } else {
                    "Codex needs your approval"@
                })
                &&& t.session.updated_ms == at
                &&& !t.session.stalled
                &&& is_event(v, t.session.event)
                &&& t.session.state == w.session.state
                &&& t.session.outcome == w.session.outcome
                &&& t.session.turn_tools == w.session.turn_tools
            }
            &&& !at_work(w.session) ==> t == w
        }),
{
    lemma_kinds();
    lemma_items();
    lemma_states();
    reveal(codex::asked);
    reveal(codex::progressed);
    reveal(codex::noted);
}

/// A turn that starts sets the card thinking and everything else to nothing: the
/// last turn's outcome, its waits, its counts and its words. Announced twice, it
/// starts once.
pub proof fn a_turn_starts_from_nothing(w: WatchView, v: JsonView, at: u64)
    requires
        w.accepted,
        at > 0,
        is_event(v, "task_started"@) || is_event(v, "turn_started"@),
    ensures
        ({
            let t = codex::applied(w, v, at);
            let id = codex::string_at(v.field("payload"@), "turn_id"@);
            if id.len() > 0 && id == w.session.prompt_id {
                &&& t.session.state == w.session.state
                &&& t.session.outcome == w.session.outcome
                &&& t.session.turn_tools == w.session.turn_tools
                &&& t.session.turn_started_ms == w.session.turn_started_ms
                &&& t.session.waiting_since == w.session.waiting_since
                &&& t.calls == w.calls
            } else {
                &&& t.session.state == "thinking"@
                &&& t.session.kind == "Thinking"@
                &&& t.session.activity == "Starting a turn"@
                &&& t.session.recent.len() == 0
                &&& t.session.prompt_id == id
                &&& t.session.turn_started_ms == at
                &&& t.session.turn_ended_ms == 0
                &&& t.session.turn_tools == 0
                &&& !t.session.turn_tools_partial
                &&& t.session.outcome == Seq::<char>::empty()
                &&& t.session.outcome_ms == 0 && t.session.settles_ms == 0
                &&& t.session.waiting_since == 0
                &&& t.session.waiting_reason == Seq::<char>::empty()
                &&& t.session.pending_since == 0
                &&& t.session.headline == Seq::<char>::empty()
                &&& t.session.detail == Seq::<char>::empty()
                &&& t.session.updated_ms == at && !t.session.stalled
                &&& t.session.tools == w.session.tools
                &&& t.speech == Seq::<char>::empty() && t.thought == Seq::<char>::empty()
                &&& t.calls.len() == 0 && t.waiting_call == Seq::<char>::empty()
            }
        }),
{
    lemma_kinds();
    lemma_items();
    lemma_states();
    reveal(codex::started);
    reveal(codex::noted);
}

/// A turn that completes is done, one that is aborted or ends in an error has
/// failed, each a second and a half provisional; what it waited for is no longer
/// asked. A completion of another turn changes no outcome, and an error that is
/// to be tried again changes nothing.
pub proof fn a_turn_ends_done_or_failed(w: WatchView, v: JsonView, at: u64)
    requires
        w.accepted,
        at > 0,
        at <= i64::MAX,
        is_event(v, "task_complete"@) || is_event(v, "turn_complete"@)
            || is_event(v, "turn_aborted"@) || is_event(v, "error"@),
    ensures
        ({
            let t = codex::applied(w, v, at);
            let p = v.field("payload"@);
            let other = p.text_at("turn_id"@) matches Some(id) && w.session.prompt_id.len() > 0
                && id
                != w.session.prompt_id;
            let retry = is_event(v, "error"@) && p.field("will_retry"@) == JsonView::Bool(true);
            &&& retry ==> t == w
            &&& !retry && other ==> t.session.outcome == w.session.outcome && t.session.outcome_ms
                == w.session.outcome_ms && t.session.state == w.session.state
                && t.session.waiting_since == w.session.waiting_since && t.session.turn_ended_ms
                == w.session.turn_ended_ms
            &&& !retry && !other ==> {
                &&& t.session.outcome == (if is_event(v, "task_complete"@) || is_event(
                    v,
                    "turn_complete"@,
                ) {
                    "done"@
                } else {
                    "failed"@
                })
                &&& t.session.state == "idle"@
                &&& t.session.outcome_ms == at && t.session.turn_ended_ms == at
                &&& t.session.settles_ms == at + 1500
                &&& t.session.waiting_since == 0
                &&& t.session.waiting_reason == Seq::<char>::empty()
                &&& t.session.pending_since == 0
                &&& t.waiting_call == Seq::<char>::empty()
                &&& t.session.updated_ms == at && !t.session.stalled
                &&& t.session.turn_tools == w.session.turn_tools
                &&& w.session.turn_started_ms > 0 ==> t.session.turn_started_ms
                    == w.session.turn_started_ms
            }
        }),
{
    lemma_kinds();
    lemma_items();
    lemma_states();
    let p = v.field("payload"@);
    reveal(codex::finished);
    reveal(codex::ended);
    reveal(codex::errored);
    reveal(codex::progressed);
    reveal(codex::noted);
    reveal(codex::last_words);
    reveal(codex::said);
}

/// How a turn that ended says so: complete, interrupted, or with the error.
pub proof fn an_ended_turn_says_how(w: WatchView, v: JsonView, at: u64)
    requires
        w.accepted,
        at > 0,
        v.field("payload"@).text_at("turn_id"@) is None,
        v.field("payload"@).field("will_retry"@) != JsonView::Bool(true),
    ensures
        ({
            let t = codex::applied(w, v, at);
            let p = v.field("payload"@);
            let told = text::summary_spec(codex::string_at(p, "message"@), 110);
            &&& is_event(v, "task_complete"@)
                || is_event(v, "turn_complete"@) ==> t.session.activity
                == "Turn complete"@
            &&& is_event(v, "turn_aborted"@) ==> t.session.activity == "Turn interrupted"@
            &&& is_event(v, "error"@) ==> t.session.activity == (match told {
                Some(line) => line,
                None => "Turn failed"@,
            })
            &&& (is_event(v, "task_complete"@) || is_event(v, "turn_complete"@)) && (p.text_at(
                "last_agent_message"@,
            ) matches Some(words) && words.len() > 0) ==> t.session.detail == text::truncated(
                p.text_at("last_agent_message"@)->0,
                4000,
            )
            &&& is_event(v, "turn_aborted"@) || is_event(v, "error"@) ==> t.speech == Seq::<
                char,
            >::empty() && t.thought == Seq::<char>::empty()
        }),
{
    lemma_kinds();
    lemma_items();
    lemma_states();
    reveal(codex::finished);
    reveal(codex::ended);
    reveal(codex::errored);
    reveal(codex::progressed);
    reveal(codex::noted);
    reveal(codex::last_words);
    reveal(codex::said);
}

/// A turn whose start was not seen started when its end says it did, unless that is
/// later than the end.
pub proof fn an_end_tells_a_start_that_was_not_seen(w: WatchView, v: JsonView, at: u64)
    requires
        w.accepted,
        at > 0,
        w.session.turn_started_ms == 0,
        v.field("payload"@).text_at("turn_id"@) is None,
        is_event(v, "task_complete"@) || is_event(v, "turn_complete"@)
            || is_event(v, "turn_aborted"@),
    ensures
        ({
            let t = codex::applied(w, v, at);
            match v.field("payload"@).field("started_at"@) {
                JsonView::Unsigned(seconds) => if seconds * 1000 <= at {
                    t.session.turn_started_ms == seconds * 1000
                } else {
                    t.session.turn_started_ms == 0
                },
                _ => t.session.turn_started_ms == 0,
            }
        }),
{
    lemma_kinds();
    lemma_items();
    lemma_states();
    reveal(codex::finished);
    reveal(codex::ended);
    reveal(codex::progressed);
    reveal(codex::noted);
    reveal(codex::last_words);
    reveal(codex::said);
}

/// An event that a card takes in is the last that it knows of.
pub proof fn the_last_event_is_known(w: WatchView, v: JsonView, at: u64)
    requires
        w.accepted,
        at > 0,
        at_work(w.session),
        is_event(v, "task_started"@) || is_event(v, "turn_started"@)
            || is_event(v, "task_complete"@) || is_event(v, "turn_complete"@)
            || is_event(v, "turn_aborted"@) || is_event(v, "user_message"@)
            || is_event(v, "agent_message"@) || is_event(v, "agent_reasoning"@)
            || is_event(v, "token_count"@) || is_event(v, "item_completed"@)
            || is_event(v, "exec_approval_request"@) || is_event(v, "apply_patch_approval_request"@)
            || is_event(v, "request_user_input"@),
    ensures
        is_event(v, codex::applied(w, v, at).session.event),
{
    lemma_kinds();
    lemma_items();
    lemma_states();
    reveal(codex::noted);
}

/// Words in parts are joined line by line, and a part without text is none of them.
pub proof fn words_in_parts_are_joined(parts: Seq<JsonView>, part: JsonView, lines: Seq<Seq<char>>)
    ensures
        codex::part_texts(parts.push(part)) == (match part.text_at("text"@) {
            Some(words) => codex::part_texts(parts).push(words),
            None => codex::part_texts(parts),
        }),
        codex::plain_texts(parts.push(part)) == (match part {
            JsonView::Text(words) => codex::plain_texts(parts).push(words),
            _ => codex::plain_texts(parts),
        }),
        codex::part_texts(Seq::empty()).len() == 0 && codex::plain_texts(Seq::empty()).len() == 0,
        codex::content_spec(JsonView::Array(parts)) == strings::joined(
            codex::part_texts(parts),
            '\n',
        ),
        codex::summary_text(JsonView::Array(parts)) == strings::joined(
            codex::plain_texts(parts),
            '\n',
        ),
        !(part is Array) && !(part is Text) ==> codex::content_spec(part).len() == 0,
        codex::content_spec(JsonView::Text(codex::string_at(part, "text"@))) == codex::string_at(
            part,
            "text"@,
        ),
        lines.len() > 0 ==> strings::joined(lines, '\n') == (if lines.len() == 1 {
            lines[0]
        } else {
            strings::joined(lines.drop_last(), '\n') + seq!['\n'] + lines.last()
        }),
{
    assert(parts.push(part).drop_last() =~= parts);
    if lines.len() > 1 {
        let head = strings::joined(lines.drop_last(), '\n');
        assert(head.push('\n') =~= head + seq!['\n']);
    }
}

/// What the user asked is what the turn is about.
pub proof fn a_prompt_is_what_the_turn_is_about(w: WatchView, v: JsonView, at: u64)
    requires
        w.accepted,
        at > 0,
        is_event(v, "user_message"@),
    ensures
        ({
            let t = codex::applied(w, v, at);
            let told = text::summary_spec(
                codex::string_at(v.field("payload"@), "message"@),
                110,
            );
            &&& t.session.headline == (match told {
                Some(line) => line,
                None => Seq::<char>::empty(),
            })
            &&& t.session.updated_ms == at && !t.session.stalled
            &&& t.session.state == w.session.state && t.session.outcome == w.session.outcome
            &&& t.speech == w.speech && t.thought == w.thought
        }),
{
    lemma_kinds();
    lemma_items();
    lemma_states();
    reveal(codex::prompted);
    reveal(codex::progressed);
    reveal(codex::noted);
}

/// What the agent says is speech and what it reasons is thought, each kept apart
/// with its time; words that say nothing change nothing.
pub proof fn words_are_speech_or_thought(w: WatchView, v: JsonView, at: u64)
    requires
        w.accepted,
        at > 0,
        is_event(v, "agent_message"@) || is_event(v, "agent_reasoning"@) || is_item(v, "reasoning"@)
            || (is_item(v, "message"@) && v.field("payload"@).text_at("role"@) == Some(
            "assistant"@,
        )),
    ensures
        ({
            let t = codex::applied(w, v, at);
            let p = v.field("payload"@);
            let thinking = is_event(v, "agent_reasoning"@) || is_item(v, "reasoning"@);
            let words = if is_event(v, "agent_message"@) {
                codex::string_at(p, "message"@)
            } else if is_event(v, "agent_reasoning"@) {
                codex::string_at(p, "text"@)
            } else if is_item(v, "reasoning"@) {
                codex::content_spec(p.field("summary"@))
            } else {
                codex::content_spec(p.field("content"@))
            };
            let told = text::summary_spec(words, 110);
            &&& told is Some && thinking ==> t.thought == told->0 && t.thought_ms == at && t.speech
                == w.speech && t.speech_ms == w.speech_ms
            &&& told is Some && !thinking ==> t.speech == told->0 && t.speech_ms == at && t.thought
                == w.thought && t.thought_ms == w.thought_ms
            &&& told is Some ==> t.session.updated_ms == at && !t.session.stalled
            &&& told is None ==> t.speech == w.speech && t.thought == w.thought
                && t.session.updated_ms == w.session.updated_ms
            &&& t.session.state == w.session.state && t.session.outcome == w.session.outcome
                && t.session.turn_tools == w.session.turn_tools
        }),
{
    lemma_kinds();
    lemma_items();
    lemma_states();
    reveal(codex::said);
    reveal(codex::progressed);
    reveal(codex::noted);
}

/// A final answer is kept in full, up to 4000 characters; anybody else's message
/// is not heard at all.
pub proof fn a_final_answer_is_kept(w: WatchView, v: JsonView, at: u64)
    requires
        w.accepted,
        at > 0,
        is_item(v, "message"@),
    ensures
        ({
            let t = codex::applied(w, v, at);
            let p = v.field("payload"@);
            let own = p.text_at("role"@) == Some("assistant"@);
            &&& !own ==> t == w
            &&& own && p.text_at("phase"@) == Some("final_answer"@) ==> t.session.detail
                == text::truncated(codex::content_spec(p.field("content"@)), 4000)
            &&& own && p.text_at("phase"@) != Some("final_answer"@) ==> t.session.detail
                == w.session.detail
        }),
{
    lemma_kinds();
    lemma_items();
    lemma_states();
    reveal(codex::said);
    reveal(codex::progressed);
}

/// An item that completed speaks by its kind.
pub proof fn a_completed_item_speaks_by_its_kind(w: WatchView, v: JsonView, at: u64)
    requires
        w.accepted,
        at > 0,
        is_event(v, "item_completed"@),
    ensures
        ({
            let t = codex::applied(w, v, at);
            let item = v.field("payload"@).field("item"@);
            let kind = item.text_at("type"@);
            let said = text::summary_spec(codex::content_spec(item.field("content"@)), 110);
            let thought = text::summary_spec(codex::summary_text(item.field("summary_text"@)), 110);
            &&& kind == Some("AgentMessage"@) && said is Some ==> t.speech == said->0 && t.speech_ms
                == at && t.thought == w.thought
            &&& kind == Some("Reasoning"@) && thought is Some ==> t.thought == thought->0
                && t.thought_ms == at && t.speech == w.speech
            &&& kind != Some("AgentMessage"@) && kind != Some("Reasoning"@) ==> t.speech == w.speech
                && t.thought == w.thought
        }),
{
    lemma_kinds();
    lemma_items();
    lemma_states();
    reveal_strlit("AgentMessage");
    reveal_strlit("Reasoning");
    assert("AgentMessage"@.len() == 12 && "Reasoning"@.len() == 9);
    reveal(codex::item_said);
    reveal(codex::said);
    reveal(codex::progressed);
    reveal(codex::noted);
}

/// A count of tokens only shows that a turn is alive.
pub proof fn tokens_only_show_life(w: WatchView, v: JsonView, at: u64)
    requires
        w.accepted,
        at > 0,
        is_event(v, "token_count"@),
    ensures
        ({
            let t = codex::applied(w, v, at);
            &&& at_work(w.session) ==> t.session.updated_ms == at && !t.session.stalled
            &&& !at_work(w.session) ==> t == w
            &&& t.session.state == w.session.state
            &&& t.session.outcome == w.session.outcome
            &&& t.session.waiting_since == w.session.waiting_since
            &&& t.session.turn_tools == w.session.turn_tools
        }),
{
    lemma_kinds();
    lemma_items();
    lemma_states();
    reveal(codex::progressed);
    reveal(codex::noted);
}

/// A call of a tool counts once, in the turn and over all, and the card says what
/// runs; it ends whatever wait there was. A call that asks the user a question
/// waits for the answer to that very call. Outside a turn, or seen before, it
/// changes nothing.
pub proof fn a_call_counts_and_may_ask(w: WatchView, v: JsonView, at: u64)
    requires
        w.accepted,
        at > 0,
        is_item(v, "function_call"@) || is_item(v, "custom_tool_call"@),
        w.session.tools < u64::MAX,
        w.session.turn_tools < u64::MAX,
    ensures
        ({
            let t = codex::applied(w, v, at);
            let p = v.field("payload"@);
            let id = codex::string_at(p, "call_id"@);
            let name = codex::string_at(p, "name"@);
            let asks = strings::finishes(name, "request_user_input"@);
            if !at_work(w.session) || (id.len() > 0 && w.calls.contains(id)) {
                t == w
            } else {
                &&& t.session.turn_tools == w.session.turn_tools + 1
                &&& t.session.tools == w.session.tools + 1
                &&& t.session.state == "running"@
                &&& t.session.kind == codex::tool_kind_spec(name)
                &&& t.session.activity == codex::tool_kind_spec(name) + ": "@ + text::truncated(
                    name,
                    70,
                )
                &&& t.session.recent == state::logged(
                    w.session.recent,
                    EntryView { ms: at, state: "running"@, text: t.session.activity },
                )
                &&& t.session.outcome == Seq::<char>::empty() && t.session.outcome_ms == 0
                &&& id.len() > 0 ==> t.calls.contains(id)
                &&& !asks ==> t.session.waiting_since == 0 && t.session.waiting_reason == Seq::<
                    char,
                >::empty() && t.waiting_call == Seq::<char>::empty()
                &&& asks ==> t.session.waiting_since == at && t.waiting_call == id
                    && t.session.waiting_reason == (match codex::first_question(p) {
                    Some(question) => question,
                    None => "Codex has a question for you"@,
                })
                &&& t.session.pending_since == 0
                &&& t.session.updated_ms == at && !t.session.stalled
            }
        }),
{
    lemma_kinds();
    lemma_items();
    lemma_states();
    let id = codex::string_at(v.field("payload"@), "call_id"@);
    reveal(codex::called);
    let more = w.calls.push(id);
    assert(more[more.len() - 1] == id);
}

/// The question that a call asks is the first of those it lists.
pub proof fn the_first_question_is_shown(p: JsonView, args: JsonView, questions: Seq<JsonView>)
    requires
        p.text_at("arguments"@) is Some,
        json::parsed_text(p.text_at("arguments"@)->0) == Some(args),
        args.field("questions"@) == JsonView::Array(questions),
        questions.len() > 0,
    ensures
        codex::first_question(p) == (match questions[0].text_at("question"@) {
            Some(question) => text::summary_spec(question, 180),
            None => None,
        }),
{
}

/// The answer to the call that asked ends the wait; the answer to another call
/// does not, and without a call that asked any answer does.
pub proof fn an_answer_ends_its_own_wait(w: WatchView, v: JsonView, at: u64)
    requires
        w.accepted,
        at > 0,
        is_item(v, "function_call_output"@) || is_item(v, "custom_tool_call_output"@),
    ensures
        ({
            let t = codex::applied(w, v, at);
            let own = w.waiting_call.len() == 0 || v.field("payload"@).text_at("call_id"@) == Some(
                w.waiting_call,
            );
            &&& !at_work(w.session) ==> t == w
            &&& at_work(w.session) ==> t.session.updated_ms == at && !t.session.stalled
                && t.session.state == w.session.state && t.session.turn_tools
                == w.session.turn_tools
            &&& at_work(w.session) && own ==> t.session.waiting_since == 0
                && t.session.waiting_reason == Seq::<char>::empty() && t.waiting_call == Seq::<
                char,
            >::empty()
            &&& at_work(w.session) && !own ==> t.session.waiting_since == w.session.waiting_since
                && t.session.waiting_reason == w.session.waiting_reason && t.waiting_call
                == w.waiting_call
        }),
{
    lemma_kinds();
    lemma_items();
    lemma_states();
    reveal(codex::answered);
    reveal(codex::progressed);
}

/// An id of up to 64 letters, digits, dashes and underscores.
pub open spec fn is_plain(id: Seq<char>) -> bool {
    1 <= id.len() <= 64 && forall|i: int|
        0 <= i < id.len() ==> strings::is_ascii_alnum(#[trigger] id[i]) || id[i] == '-' || id[i]
            == '_'
}

/// A session is followed that has a plain id of its own and is nobody's helper,
/// and it starts idle under that id; a task of the desktop app can be opened
/// there.
pub proof fn a_session_of_its_own_is_followed(w: WatchView, v: JsonView, at: u64)
    requires
        v.text_at("type"@) == Some("session_meta"@),
    ensures
        ({
            let t = codex::applied(w, v, at);
            let p = v.field("payload"@);
            let id = match p.text_at("id"@) {
                Some(id) => id,
                None => codex::string_at(p, "session_id"@),
            };
            let plain = is_plain(id);
            let helper = p.field("source"@) is Object || p.text_at("thread_source"@) == Some(
                "guardian_review"@,
            ) || p.text_at("thread_source"@) == Some("subagent"@);
            let desktop = p.text_at("originator"@) matches Some(o) && strings::has(
                strings::lowered(o),
                "desktop"@,
            );
            &&& t.accepted <==> plain && !helper
            &&& plain && !helper ==> {
                &&& t.session.session_id == "codex:"@ + id
                &&& t.session.provider == Provider::Codex
                &&& t.session.state == "idle"@
                &&& t.session.outcome == Seq::<char>::empty()
                &&& t.session.cwd == codex::string_at(p, "cwd"@)
                &&& t.session.chat_id == (if desktop { id } else { Seq::<char>::empty() })
                &&& t.session.started_ms == at && t.session.updated_ms == at
            }
            &&& !(plain && !helper) ==> t.session == w.session
        }),
{
    lemma_kinds();
    lemma_items();
    lemma_states();
    let id = codex::meta_id(v.field("payload"@));
    assert(codex::is_plain(id) == is_plain(id)) by {
        if codex::is_plain(id) {
            assert forall|i: int| 0 <= i < id.len() implies strings::is_ascii_alnum(
                #[trigger] id[i],
            ) || id[i] == '-' || id[i] == '_' by {
                assert(state::name_char(id[i]));
            }
        }
        if is_plain(id) {
            assert forall|i: int| 0 <= i < id.len() implies state::name_char(#[trigger] id[i]) by {}
        }
    }
    reveal(codex::introduced);
}

/// Before a session has said who it is, without a time, and of any other kind, a
/// record changes nothing.
pub proof fn other_records_change_nothing(w: WatchView, v: JsonView, at: u64)
    requires
        v.text_at("type"@) != Some("session_meta"@),
        !w.accepted || at == 0 || (v.text_at("type"@) != Some("event_msg"@) && v.text_at("type"@)
            != Some("response_item"@)),
    ensures
        codex::applied(w, v, at) == w,
{
}

/// Nor does an event or an item of a kind that nobody knows.
pub proof fn unknown_kinds_change_nothing(w: WatchView, v: JsonView, at: u64)
    requires
        v.text_at("type"@) == Some("event_msg"@) || v.text_at("type"@) == Some("response_item"@),
        ({
            let kind = codex::string_at(v.field("payload"@), "type"@);
            kind != "task_started"@ && kind != "turn_started"@ && kind != "task_complete"@
                && kind != "turn_complete"@ && kind != "turn_aborted"@ && kind != "error"@
                && kind != "user_message"@ && kind != "agent_message"@ && kind != "agent_reasoning"@
                && kind != "token_count"@ && kind != "item_completed"@
                && kind != "exec_approval_request"@ && kind != "apply_patch_approval_request"@
                && kind != "request_user_input"@ && kind != "message"@ && kind != "reasoning"@
                && kind != "function_call"@ && kind != "custom_tool_call"@
                && kind != "function_call_output"@ && kind != "custom_tool_call_output"@
        }),
    ensures
        codex::applied(w, v, at) == w,
{
    lemma_kinds();
    lemma_items();
    lemma_states();
}

/// The work of a tool is told by its name, the first of these words that is in
/// it.
pub proof fn work_is_told_by_the_tools_name(name: Seq<char>)
    ensures
        ({
            let kind = codex::tool_kind_spec(name);
            let edits = strings::has(name, "patch"@) || strings::has(name, "edit_file"@);
            let searches = strings::has(name, "search"@) || strings::has(name, "web"@);
            let reads = strings::has(name, "read"@) || strings::has(name, "view"@);
            let delegates = strings::has(name, "spawn_agent"@);
            let waits = strings::has(name, "wait"@);
            &&& edits ==> kind == "Editing"@
            &&& !edits && searches ==> kind == "Searching"@
            &&& !edits && !searches && reads ==> kind == "Reading"@
            &&& !edits && !searches && !reads && delegates ==> kind == "Delegating"@
            &&& !edits && !searches && !reads && !delegates && waits ==> kind == "Waiting"@
            &&& !edits && !searches && !reads && !delegates && !waits ==> kind == "Running"@
        }),
{
}

// --- what is shown ------------------------------------------------------------------
/// A turn that was silent for more than five minutes has stopped responding,
/// unless it waits for a person; it is no longer shown at work, and never as
/// done.
pub proof fn five_silent_minutes_are_too_many(w: WatchView, now: u64, mode: Mode)
    ensures
        ({
            let t = codex::shown(w, now, mode);
            let silent = at_work(w.session) && w.session.waiting_since == 0 && now
                > w.session.updated_ms + 5 * 60 * 1000;
            &&& silent ==> t.stalled && t.state == "idle"@ && t.activity == Seq::<char>::empty()
                && t.narration == Seq::<char>::empty()
            &&& !silent ==> t.state == w.session.state && t.stalled == w.session.stalled
                && t.activity == w.session.activity && t.narration == codex::heard(w, mode)
            &&& t.outcome == w.session.outcome
            &&& t.waiting_since == w.session.waiting_since
            &&& t.session_id == w.session.session_id
        }),
{
    lemma_states();
}

/// What is narrated is the newer of speech and thought while a turn is under way
/// and thoughts are wanted; otherwise it is speech, and nothing where narration
/// is off.
pub proof fn speech_or_the_newer_thought(w: WatchView)
    ensures
        codex::heard(w, Mode::Off) == Seq::<char>::empty(),
        codex::heard(w, Mode::Speech) == w.speech,
        codex::heard(w, Mode::Thoughts) == (if w.thought_ms > w.speech_ms && w.thought.len() > 0
            && w.session.outcome.len() == 0 {
            w.thought
        } else {
            w.speech
        }),
{
}

/// A task is shown once it was read to its end, for as long as it was active in
/// the last twelve hours.
pub proof fn twelve_hours_are_shown(w: WatchView, now: u64)
    ensures
        codex::worth_showing(w, now) <==> w.ready && w.accepted && now <= w.session.updated_ms + 12
            * 60 * 60 * 1000,
{
}

/// A task is called what the index calls it.
pub proof fn a_task_is_called_what_the_index_says(
    s: SessionView,
    id: Seq<char>,
    titles: Map<Seq<char>, String>,
)
    requires
        s.session_id == "codex:"@ + id,
    ensures
        titles.dom().contains(id) ==> codex::titled(s, titles).chat_title == titles[id]@,
        !titles.dom().contains(id) ==> codex::titled(s, titles).chat_title == s.chat_title,
        codex::titled(s, titles).session_id == s.session_id,
{
    reveal_strlit("codex:");
    assert(s.session_id.take(6) =~= "codex:"@);
    assert(s.session_id.skip(6) =~= id);
}

// --- how records are read ---------------------------------------------------------------
/// A record that is not finished waits: it changes nothing but what is pending.
pub proof fn half_a_record_waits(w: WatchView, half: Seq<u8>)
    requires
        !w.oversized,
        w.pending.len() + half.len() <= 2 * 1024 * 1024,
        forall|i: int| 0 <= i < half.len() ==> half[i] != 0x0a,
    ensures
        codex::fed(w, half) == (WatchView { pending: w.pending + half, ..w }),
    decreases half.len(),
{
    if half.len() == 0 {
        assert(w.pending + half =~= w.pending);
    } else {
        let less = half.drop_last();
        assert forall|i: int| 0 <= i < less.len() implies less[i] != 0x0a by {
            assert(less[i] == half[i]);
        }
        half_a_record_waits(w, less);
        assert((w.pending + less).push(half.last()) =~= w.pending + half);
    }
}

/// A record that is finished is taken in whole, however much of it was waiting.
pub proof fn a_whole_record_is_taken_in(w: WatchView, record: Seq<u8>)
    requires
        !w.oversized,
        w.pending.len() + record.len() < 2 * 1024 * 1024,
        forall|i: int| 0 <= i < record.len() ==> record[i] != 0x0a,
    ensures
        codex::fed(w, record.push(0x0a)) == (match json::parsed(
            (w.pending + record).push(0x0a),
        ) {
            Some(v) => codex::applied(
                WatchView { pending: seq![], ..w },
                v,
                codex::stamp_spec(v.field("timestamp"@)),
            ),
            None => WatchView { pending: seq![], ..w },
        }),
{
    half_a_record_waits(w, record);
    reveal(codex::replayed);
    assert(record.push(0x0a).drop_last() =~= record);
}

/// A record that is too large is passed over, and reading goes on behind it.
pub proof fn a_record_too_large_is_passed_over(w: WatchView, rest: Seq<u8>)
    requires
        w.oversized,
        forall|i: int| 0 <= i < rest.len() ==> rest[i] != 0x0a,
    ensures
        codex::fed(w, rest) == w,
        codex::fed(w, rest.push(0x0a)) == (WatchView { pending: seq![], oversized: false, ..w }),
    decreases rest.len(),
{
    if rest.len() > 0 {
        let less = rest.drop_last();
        assert forall|i: int| 0 <= i < less.len() implies less[i] != 0x0a by {
            assert(less[i] == rest[i]);
        }
        a_record_too_large_is_passed_over(w, less);
    }
    assert(rest.push(0x0a).drop_last() =~= rest);
    reveal_with_fuel(codex::fed, 2);
}

/// A byte more than two megabytes makes a record too large.
pub proof fn two_megabytes_are_enough(w: WatchView, byte: u8)
    requires
        !w.oversized,
        w.pending.len() == 2 * 1024 * 1024,
    ensures
        byte != 0x0a ==> codex::stepped(w, byte).oversized && codex::stepped(w, byte).pending.len()
            == 0,
        byte == 0x0a ==> codex::stepped(w, byte).session == w.session,
{
}

/// A long file is followed from its last four megabytes, and its counts are then
/// partial.
pub proof fn a_long_file_is_followed_from_its_end(w: WatchView, head: Seq<u8>, length: u64)
    requires
        codex::fed(w, head).accepted,
        head.len() <= 2 * 1024 * 1024,
    ensures
        ({
            let t = codex::headed(w, head, length);
            let read = codex::fed(w, head);
            if length > 4 * 1024 * 1024 + head.len() {
                &&& t.offset == length - 4 * 1024 * 1024
                &&& t.oversized
                &&& t.session.turn_tools_partial
                &&& t.session.state == "thinking"@
            } else {
                &&& t.offset == head.len()
                &&& t.oversized == read.oversized
                &&& t.session == read.session
            }
        }),
{
}

/// A file that is shorter than what was read of it is another file, and so is
/// one that changed without growing.
pub proof fn another_file_is_known_by_its_length(w: WatchView, length: u64, modified: Option<u64>)
    ensures
        codex::is_replaced(w, length, modified) <==> length < w.offset || (length == w.offset
            && modified != w.modified),
{
}

/// There is no more to read of a file that is not followed, or was read to its
/// end.
pub proof fn a_file_is_read_to_its_end(w: WatchView, length: u64, modified: Option<u64>)
    ensures
        !w.accepted ==> codex::settled(w, length, modified).offset == length && codex::settled(
            w,
            length,
            modified,
        ).ready,
        w.accepted && length == w.offset ==> codex::settled(w, length, modified).ready
            && codex::settled(w, length, modified).offset == w.offset,
        w.accepted && length != w.offset ==> codex::settled(w, length, modified) == w,
{
}

/// A time that was not told is none, and one before 1970 is not one.
pub proof fn a_record_is_stamped_with_its_time(text: Seq<char>, v: JsonView)
    ensures
        codex::rfc3339_ms(text) matches Some(ms) ==> codex::stamp_spec(JsonView::Text(text)) == (
        if ms >= 0 { ms as u64 } else { 0u64 }),
        codex::rfc3339_ms(text) is None ==> codex::stamp_spec(JsonView::Text(text)) == 0,
        !(v is Text) ==> codex::stamp_spec(v) == 0,
{
}

} // verus!
