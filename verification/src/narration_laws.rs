//! What a transcript is heard to say, and what work it shows running.

use vstd::prelude::*;
use vstd::string::*;

use crate::json;
use crate::json::JsonView;
use crate::narration;
use crate::narration::{Mode, WatchView};
use crate::state::SessionView;
use crate::strings;
use crate::text;

verus! {

// --- what is said --------------------------------------------------------------
/// A thought is read backwards: of the lines of a block of thinking the last one
/// that gives a sentence speaks, and the earlier ones do not.
pub proof fn the_last_usable_line_speaks(lines: Seq<Seq<char>>, k: int)
    requires
        0 <= k < lines.len(),
        strings::trimmed(lines[k]).len() > 0,
        narration::thought_of(strings::trimmed(lines[k])) is Some,
        forall|j: int|
            k < j < lines.len() ==> strings::trimmed(#[trigger] lines[j]).len() == 0
                || narration::thought_of(strings::trimmed(lines[j])) is None,
    ensures
        narration::last_usable(lines) == narration::thought_of(strings::trimmed(lines[k])),
    decreases lines.len(),
{
    let n = lines.len() - 1;
    if k < n {
        let rest = lines.drop_last();
        assert(strings::trimmed(lines[n]).len() == 0 || narration::thought_of(
            strings::trimmed(lines[n]),
        ) is None);
        assert(rest[k] == lines[k]);
        assert forall|j: int| k < j < rest.len() implies strings::trimmed(#[trigger] rest[j]).len()
            == 0 || narration::thought_of(strings::trimmed(rest[j])) is None by {
            assert(rest[j] == lines[j]);
        }
        the_last_usable_line_speaks(rest, k);
    }
}

/// A block without a usable line says nothing.
pub proof fn no_usable_line_says_nothing(lines: Seq<Seq<char>>)
    requires
        forall|j: int|
            0 <= j < lines.len() ==> strings::trimmed(#[trigger] lines[j]).len() == 0
                || narration::thought_of(strings::trimmed(lines[j])) is None,
    ensures
        narration::last_usable(lines) is None,
    decreases lines.len(),
{
    if lines.len() > 0 {
        let rest = lines.drop_last();
        let n = lines.len() - 1;
        assert(strings::trimmed(lines[n]).len() == 0 || narration::thought_of(
            strings::trimmed(lines[n]),
        ) is None);
        assert forall|j: int| 0 <= j < rest.len() implies strings::trimmed(#[trigger] rest[j]).len()
            == 0 || narration::thought_of(strings::trimmed(rest[j])) is None by {
            assert(rest[j] == lines[j]);
        }
        no_usable_line_says_nothing(rest);
    }
}

/// The last sentence of a line speaks for it.
pub proof fn the_last_sentence_speaks(head: Seq<char>, tail: Seq<char>)
    requires
        strings::has(tail, ". "@) == false,
    ensures
        narration::last_sentence(head + ". "@ + tail) == strings::trimmed(tail),
        narration::last_sentence(tail) == strings::trimmed(tail),
{
    reveal_strlit(". ");
    lemma_behind(head, tail);
    lemma_no_mark(tail);
}

proof fn lemma_behind(head: Seq<char>, tail: Seq<char>)
    requires
        strings::has(tail, ". "@) == false,
    ensures
        narration::behind_mark(head + ". "@ + tail, ". "@) == Some(tail),
    decreases tail.len(),
{
    reveal_strlit(". ");
    let mark = ". "@;
    let s = head + mark + tail;
    if tail.len() == 0 {
        assert(s.skip(s.len() - 2) =~= mark);
        assert(strings::finishes(s, mark));
        assert(tail =~= seq![]);
    } else {
        let rest = tail.drop_last();
        lemma_fewer(tail);
        lemma_behind(head, rest);
        assert(s.drop_last() =~= head + mark + rest);
        if strings::finishes(s, mark) {
            assert(s.skip(s.len() - 2)[0] == '.' && s.skip(s.len() - 2)[1] == ' ');
            assert(s[s.len() - 2] == '.' && s[s.len() - 1] == ' ');
            if tail.len() >= 2 {
                let k = tail.len() - 2;
                assert(tail[k] == '.' && tail[k + 1] == ' ');
                assert(tail.skip(k).take(2) =~= mark);
                strings::lemma_find(tail, mark);
                assert(strings::begins(tail.skip(k), mark));
            } else {
                assert(s[s.len() - 2] == mark[1]);
            }
        }
        assert(rest.push(tail.last()) =~= tail);
        assert(s.last() == tail.last());
    }
}

proof fn lemma_fewer(tail: Seq<char>)
    requires
        tail.len() > 0,
        strings::has(tail, ". "@) == false,
    ensures
        strings::has(tail.drop_last(), ". "@) == false,
{
    reveal_strlit(". ");
    let mark = ". "@;
    let rest = tail.drop_last();
    strings::lemma_find(rest, mark);
    strings::lemma_find(tail, mark);
    if let Some(i) = strings::find_spec(rest, mark) {
        assert(tail.skip(i).take(2) =~= rest.skip(i).take(2));
        assert(strings::begins(tail.skip(i), mark));
    }
}

proof fn lemma_no_mark(s: Seq<char>)
    requires
        strings::has(s, ". "@) == false,
    ensures
        narration::behind_mark(s, ". "@) is None,
    decreases s.len(),
{
    reveal_strlit(". ");
    let mark = ". "@;
    if strings::finishes(s, mark) {
        let k = s.len() - 2;
        assert(s.skip(k) =~= mark);
        assert(s.skip(k).take(2) =~= mark);
        strings::lemma_find(s, mark);
        assert(strings::begins(s.skip(k), mark));
    } else if s.len() > 0 {
        lemma_fewer(s);
        lemma_no_mark(s.drop_last());
    }
}

/// A sentence is usable when three words or more are left of it, and no other
/// is; it is shown in no more than 110 characters.
pub proof fn a_usable_sentence_has_three_words(line: Seq<char>)
    ensures
        ({
            let told = text::summary_spec(narration::last_sentence(line), 110);
            &&& narration::thought_of(line) is Some <==> told is Some && strings::words_spec(
                told->0,
            ).len() >= 3
            &&& narration::thought_of(line) matches Some(said) ==> said == text::truncated(told->0, 110)
                && said.len() <= 110
        }),
{
}

/// What one part of a message says: speech its first telling line, thinking its
/// last usable one, and that only where thoughts are wanted. Nothing else speaks.
pub proof fn a_part_speaks_by_its_kind(part: JsonView, mode: Mode, raw: Seq<char>)
    ensures
        part.text_at("type"@) == Some("text"@) && part.text_at("text"@) == Some(raw)
            ==> narration::part_said(part, mode) == text::summary_spec(raw, 110),
        part.text_at("type"@) == Some("thinking"@) && part.text_at("thinking"@) == Some(raw)
            ==> narration::part_said(part, mode) == (if mode == Mode::Thoughts {
            narration::last_usable(strings::lines_spec(raw))
        } else {
            None
        }),
        part.text_at("type"@) != Some("text"@) && part.text_at("type"@) != Some("thinking"@)
            ==> narration::part_said(part, mode) is None,
{
    lemma_kinds();
}

/// These are different texts: most by their length, the others by a letter.
proof fn lemma_kinds()
    ensures
        "text"@.len() == 4,
        "thinking"@.len() == 8,
{
    reveal_strlit("text");
    reveal_strlit("thinking");
}

/// Of the parts of a message the last one that says anything speaks.
pub proof fn the_last_telling_part_speaks(parts: Seq<JsonView>, mode: Mode, k: int)
    requires
        0 <= k < parts.len(),
        narration::part_said(parts[k], mode) is Some,
        forall|j: int|
            k < j < parts.len() ==> narration::part_said(#[trigger] parts[j], mode) is None,
    ensures
        narration::last_said(parts, mode) == narration::part_said(parts[k], mode),
    decreases parts.len(),
{
    let n = parts.len() - 1;
    if k < n {
        let rest = parts.drop_last();
        assert(narration::part_said(parts[n], mode) is None);
        assert(rest[k] == parts[k]);
        assert forall|j: int| k < j < rest.len() implies narration::part_said(
            #[trigger] rest[j],
            mode,
        ) is None by {
            assert(rest[j] == parts[j]);
        }
        the_last_telling_part_speaks(rest, mode, k);
    }
}

/// Only the agent's own messages are heard: no one else's, and no subagent's.
pub proof fn only_the_agent_is_heard(entry: JsonView, mode: Mode)
    ensures
        entry.text_at("type"@) != Some("assistant"@) ==> narration::entry_said(entry, mode) is None,
        entry.field("isSidechain"@) == JsonView::Bool(true) ==> narration::entry_said(entry, mode)
            is None,
        entry.text_at("type"@) == Some("assistant"@) && entry.field("isSidechain"@)
            != JsonView::Bool(true) ==> (entry.field("message"@).field("content"@) matches
            JsonView::Array(parts) ==> narration::entry_said(entry, mode) == narration::last_said(
            parts,
            mode,
        )),
{
}

/// A line that says something replaces what was said before; one that does not
/// leaves it, and so does every line while narration is off.
pub proof fn the_newest_line_is_shown(w: WatchView, line: Seq<char>, mode: Mode)
    ensures
        ({
            let t = narration::heard_line(w, line, mode);
            let told = match json::parsed_text(line) {
                Some(entry) => narration::entry_said(entry, mode),
                None => None,
            };
            &&& mode != Mode::Off && strings::has(line, "\"assistant\""@) && told is Some ==> t.line
                == told->0
            &&& mode == Mode::Off || told is None ==> t.line == w.line
            &&& t.offset == w.offset
        }),
{
}

/// Lines are heard one after the other, however they are read.
pub proof fn lines_are_heard_in_order(
    w: WatchView,
    a: Seq<Seq<char>>,
    b: Seq<Seq<char>>,
    mode: Mode,
)
    ensures
        narration::heard(w, a + b, mode) == narration::heard(
            narration::heard(w, a, mode),
            b,
            mode,
        ),
        narration::heard(w, seq![], mode) == w,
        b.len() == 1 ==> narration::heard(w, b, mode) == narration::heard_line(w, b[0], mode),
    decreases b.len(),
{
    reveal_with_fuel(narration::heard, 2);
    if b.len() == 0 {
        assert(a + b =~= a);
    } else {
        lines_are_heard_in_order(w, a, b.drop_last(), mode);
        assert((a + b).drop_last() =~= a + b.drop_last());
        assert((a + b).last() == b.last());
        if b.len() == 1 {
            assert(b.drop_last() =~= seq![]);
        }
    }
}

/// A card shows what was heard, unless narration is off or nothing was, and how
/// much work is running either way.
pub proof fn a_card_shows_what_was_heard(s: SessionView, w: WatchView, mode: Mode)
    ensures
        mode != Mode::Off
            && w.line.len() > 0 ==> narration::narrated(s, w, mode).narration == w.line,
        mode == Mode::Off || w.line.len() == 0 ==> narration::narrated(s, w, mode).narration
            == s.narration,
        narration::narrated(s, w, mode).outstanding == w.outstanding.len() as u64,
        narration::narrated(s, w, mode).state == s.state,
        narration::narrated(s, w, mode).outcome == s.outcome,
{
}

/// The setting is one of three words, and any other shows thoughts.
pub proof fn a_setting_is_one_of_three(value: Seq<char>)
    ensures
        narration::mode_of(value) == Mode::Off <==> value == "off"@,
        narration::mode_of(value) == Mode::Speech <==> value == "speech"@,
        narration::mode_of(value) == Mode::Thoughts <==> value != "off"@ && value != "speech"@,
{
    reveal_strlit("off");
    reveal_strlit("speech");
    assert("off"@.len() == 3 && "speech"@.len() == 6);
}

// --- how far it is read -----------------------------------------------------------
/// Reading goes on where it was left. A file that is new is read from its last
/// two megabytes, and so is one that became shorter; one that grew by more than
/// four is read from its last four.
pub proof fn reading_goes_on_where_it_was_left(offset: u64, length: u64)
    ensures
        ({
            let from = narration::read_from(offset, length);
            let tail = |n: int| if length > n { length - n } else { 0 };
            &&& from is None <==> length == offset
            &&& from is Some ==> from->0 <= length
            &&& length != offset && (offset == 0 || length < offset) ==> from->0 == tail(
                2_097_152,
            )
            &&& 0 < offset < length <= offset + 4_194_304 ==> from->0 == offset
            &&& 0 < offset && length > offset + 4_194_304 ==> from->0 == tail(
                4_194_304,
            )
        }),
{
}

/// What was read is read up to its last whole line and no further.
pub proof fn only_whole_lines_are_read(bytes: Seq<u8>)
    ensures
        0 <= narration::whole_lines(bytes) <= bytes.len(),
        narration::whole_lines(bytes) > 0 ==> bytes[narration::whole_lines(bytes) - 1] == 0x0a,
        forall|i: int| narration::whole_lines(bytes) <= i < bytes.len() ==> bytes[i] != 0x0a,
    decreases bytes.len(),
{
    if bytes.len() > 0 && bytes.last() != 0x0a {
        only_whole_lines_are_read(bytes.drop_last());
        let rest = bytes.drop_last();
        assert forall|i: int| narration::whole_lines(bytes) <= i < bytes.len() implies bytes[i]
            != 0x0a by {
            if i < rest.len() {
                assert(rest[i] == bytes[i]);
            }
        }
    }
}

/// The place that reading has reached moves on by what was read.
pub proof fn the_place_moves_on_by_what_was_read(w: WatchView, bytes: Seq<u8>, start: u64, mode: Mode)
    requires
        start + bytes.len() <= u64::MAX,
    ensures
        ({
            let n = narration::whole_lines(bytes);
            let t = narration::read_on(w, bytes, start, mode);
            &&& n > 0 ==> t.offset == start + n
            &&& n == 0 ==> t == w
            &&& n > 0 ==> t == narration::heard(
                WatchView { offset: (start + n) as u64, ..w },
                strings::lines_spec(narration::text_of_bytes(bytes.take(n))),
                mode,
            )
        }),
{
    only_whole_lines_are_read(bytes);
    let n = narration::whole_lines(bytes);
    if n > 0 {
        lemma_place_kept(
            WatchView { offset: (start + n) as u64, ..w },
            strings::lines_spec(narration::text_of_bytes(bytes.take(n))),
            mode,
        );
    }
}

proof fn lemma_place_kept(w: WatchView, lines: Seq<Seq<char>>, mode: Mode)
    ensures
        narration::heard(w, lines, mode).offset == w.offset,
    decreases lines.len(),
{
    if lines.len() > 0 {
        lemma_place_kept(w, lines.drop_last(), mode);
    }
}

// --- what is running ----------------------------------------------------------------
/// The statuses are different words.
proof fn lemma_statuses()
    ensures
        "completed"@.len() == 9,
        "failed"@.len() == 6,
        "stopped"@.len() == 7,
        "killed"@.len() == 6,
        "running"@.len() == 7,
        "async_launched"@.len() == 14,
        "failed"@ != "killed"@,
        "stopped"@ != "running"@,
{
    reveal_strlit("completed");
    reveal_strlit("failed");
    reveal_strlit("stopped");
    reveal_strlit("killed");
    reveal_strlit("running");
    reveal_strlit("async_launched");
    assert("failed"@[0] != "killed"@[0]);
    assert("stopped"@[0] != "running"@[0]);
}

/// Work is over in four ways, and in no other: a task that is running, or in a
/// state nobody knows, goes on.
pub proof fn work_is_over_in_four_ways(status: Seq<char>)
    ensures
        narration::is_over(status) <==> status == "completed"@ || status == "failed"@ || status
            == "stopped"@ || status == "killed"@,
        !narration::is_over("running"@),
        !narration::is_over("async_launched"@),
{
    lemma_statuses();
}

/// What can be the id of a task: up to 64 letters, digits, dashes and
/// underscores, and not digits alone, which number the list of things to do.
pub proof fn an_id_is_not_a_number(id: Seq<char>)
    ensures
        narration::plausible(id) <==> {
            &&& 1 <= id.len() <= 64
            &&& exists|i: int| 0 <= i < id.len() && !strings::is_digit(#[trigger] id[i])
            &&& forall|i: int|
                0 <= i < id.len() ==> strings::is_ascii_alnum(#[trigger] id[i]) || id[i] == '-'
                    || id[i] == '_'
        },
{
}

/// What launches work: a command in the background, an agent that was launched
/// and not waited for, and a monitor. A change to the list of things to do
/// launches nothing, and a task that is merely named does not either.
pub proof fn these_launch_work(result: JsonView, id: Seq<char>)
    ensures
        narration::launched_by(result).contains(id) <==> {
            &&& narration::plausible(id)
            &&& result.get("updatedFields"@) is None && result.get("statusChange"@) is None
                && result.get("tasks"@) is None
            &&& {
                ||| result.text_at("backgroundTaskId"@) == Some(id)
                ||| result.text_at("status"@) == Some("async_launched"@) && (result.text_at(
                    "agentId"@,
                ) == Some(id) || result.text_at("taskId"@) == Some(id))
                ||| (result.get("timeoutMs"@) is Some || result.get("persistent"@) is Some)
                    && result.text_at("taskId"@) == Some(id)
            }
        },
{
    lemma_statuses();
}

/// What is launched is running, and what a result says is over is not, whatever
/// was known before.
pub proof fn a_result_starts_and_ends_work(entry: JsonView, before: Set<Seq<char>>, id: Seq<char>)
    requires
        entry.field("toolUseResult"@) is Object,
        entry.field("attachment"@) !is Object,
    ensures
        ({
            let result = entry.field("toolUseResult"@);
            let status = result.text_at("status"@);
            let over = status == Some("completed"@) || status == Some("failed"@) || status == Some(
                "stopped"@,
            ) || status == Some("killed"@);
            let named = result.text_at("backgroundTaskId"@) == Some(id) || result.text_at(
                "agentId"@,
            ) == Some(id) || result.text_at("taskId"@) == Some(id);
            narration::entry_tracked(entry, before).contains(id) <==> (before.contains(id)
                || narration::launched_by(result).contains(id)) && !(over && named)
        }),
{
    lemma_statuses();
}

/// An attachment never starts work, and ends what it says is over.
pub proof fn an_attachment_only_ends_work(entry: JsonView, before: Set<Seq<char>>, id: Seq<char>)
    requires
        entry.field("toolUseResult"@) !is Object,
        entry.field("attachment"@) is Object,
    ensures
        ({
            let told = entry.field("attachment"@);
            let status = told.text_at("status"@);
            let over = status == Some("completed"@) || status == Some("failed"@) || status == Some(
                "stopped"@,
            ) || status == Some("killed"@);
            let named = told.text_at("taskId"@) == Some(id) || told.text_at("agentId"@) == Some(id);
            narration::entry_tracked(entry, before).contains(id) <==> before.contains(id) && !(over
                && named)
        }),
{
    lemma_statuses();
}

/// A line that speaks of no task, and of no end of one, changes nothing.
pub proof fn an_unrelated_line_changes_nothing(line: Seq<char>, before: Set<Seq<char>>)
    requires
        strings::has(line, "task-notification"@) == false,
        strings::has(line, "Successfully stopped task: "@) == false,
        strings::has(line, "backgroundTaskId"@) == false,
        strings::has(line, "agentId"@) == false,
        strings::has(line, "taskId"@) == false,
    ensures
        narration::line_tracked(line, before) == before,
{
    assert(before.difference(Set::empty()) =~= before);
}

/// A line that names a task and reads as an entry is taken for what the entry
/// says; one that does not read as one starts nothing.
pub proof fn a_line_is_taken_for_its_entry(line: Seq<char>, before: Set<Seq<char>>)
    requires
        strings::has(line, "task-notification"@) == false,
        strings::has(line, "Successfully stopped task: "@) == false,
        strings::has(line, "backgroundTaskId"@) || strings::has(line, "agentId"@) || strings::has(
            line,
            "taskId"@,
        ),
    ensures
        narration::line_tracked(line, before) == (match json::parsed_text(line) {
            Some(entry) => narration::entry_tracked(entry, before),
            None => before,
        }),
{
    assert(before.difference(Set::empty()) =~= before);
}

/// A notification of an end ends every task that it names, and not the marks
/// that stand for none.
pub proof fn a_notification_ends_every_task_it_names(
    line: Seq<char>,
    before: Set<Seq<char>>,
    status: Seq<char>,
    id: Seq<char>,
)
    requires
        strings::has(line, "task-notification"@),
        strings::has(line, "Successfully stopped task: "@) == false,
        json::parsed_text(line) is None || (strings::has(line, "backgroundTaskId"@) == false
            && strings::has(line, "agentId"@) == false && strings::has(line, "taskId"@) == false),
        narration::between_spec(line, "<status>"@, "</status>"@) == Some(status),
    ensures
        ({
            let over = status == "completed"@ || status == "failed"@ || status == "stopped"@
                || status == "killed"@;
            narration::line_tracked(line, before).contains(id) <==> before.contains(id) && !(over
                && narration::named_ids(line).contains(id) && strings::begins(id, "__"@) == false)
        }),
{
    lemma_statuses();
}

/// The ids that a notification names are those between its marks, each one.
pub proof fn every_id_between_marks_is_named(before: Seq<char>, id: Seq<char>, after: Seq<char>)
    requires
        strings::has(before, "<"@) == false,
        strings::has(id, "<"@) == false,
    ensures
        narration::named_ids(before + "<task-id>"@ + id + "</task-id>"@ + after) == seq![id]
            + narration::named_ids(after),
        narration::named_ids(before) == Seq::<Seq<char>>::empty(),
{
    reveal_strlit("<");
    reveal_strlit("<task-id>");
    reveal_strlit("</task-id>");
    let open = "<task-id>"@;
    let close = "</task-id>"@;
    let rest = id + close + after;
    let line = before + open + rest;
    assert(line =~= before + open + id + close + after);
    lemma_first_at(before, open, rest);
    assert(line.skip(before.len() + open.len() as int) =~= rest);
    lemma_first_at(id, close, after);
    assert(rest =~= id + close + after);
    assert(rest.skip(id.len() + close.len() as int) =~= after);
    assert(rest.take(id.len() as int) =~= id);
    narration::lemma_tags(line);
    strings::lemma_find(before, open);
    if let Some(i) = strings::find_spec(before, open) {
        assert(before.skip(i).take(open.len() as int)[0] == '<');
        assert(before.skip(i).take(1) =~= "<"@);
        strings::lemma_find(before, "<"@);
        assert(strings::begins(before.skip(i), "<"@));
    }
}

/// A mark is found behind a text that cannot hold its first character.
proof fn lemma_first_at(head: Seq<char>, mark: Seq<char>, tail: Seq<char>)
    requires
        mark.len() > 0,
        mark[0] == '<',
        strings::has(head, "<"@) == false,
    ensures
        strings::find_spec(head + mark + tail, mark) == Some(head.len() as int),
{
    let s = head + mark + tail;
    let n = head.len() as int;
    assert(s.skip(n).take(mark.len() as int) =~= mark);
    assert forall|i: int| 0 <= i < n implies !strings::begins(#[trigger] s.skip(i), mark) by {
        lemma_nowhere(head, i);
        if strings::begins(s.skip(i), mark) {
            assert(s.skip(i).take(mark.len() as int)[0] == s[i]);
        }
    }
    lemma_found_first(s, mark, n);
}

proof fn lemma_found_first(s: Seq<char>, mark: Seq<char>, n: int)
    requires
        0 <= n <= s.len(),
        strings::begins(s.skip(n), mark),
        forall|i: int| 0 <= i < n ==> !strings::begins(#[trigger] s.skip(i), mark),
    ensures
        strings::find_spec(s, mark) == Some(n),
{
    strings::lemma_find(s, mark);
}

proof fn lemma_nowhere(head: Seq<char>, i: int)
    requires
        strings::has(head, "<"@) == false,
        0 <= i < head.len(),
    ensures
        head[i] != '<',
{
    reveal_strlit("<");
    if head[i] == '<' {
        assert(head.skip(i).take(1) =~= "<"@);
        strings::lemma_find(head, "<"@);
        assert(strings::begins(head.skip(i), "<"@));
    }
}

/// What stands between two marks is what is found between them.
pub proof fn what_stands_between_marks_is_found(
    before: Seq<char>,
    inside: Seq<char>,
    after: Seq<char>,
)
    requires
        strings::has(before, "<"@) == false,
        strings::has(inside, "<"@) == false,
    ensures
        narration::between_spec(
            before + "<status>"@ + inside + "</status>"@ + after,
            "<status>"@,
            "</status>"@,
        ) == Some(inside),
{
    reveal_strlit("<status>");
    reveal_strlit("</status>");
    let open = "<status>"@;
    let close = "</status>"@;
    let rest = inside + close + after;
    let line = before + open + rest;
    assert(line =~= before + open + inside + close + after);
    lemma_first_at(before, open, rest);
    assert(line.skip(before.len() + open.len() as int) =~= rest);
    lemma_first_at(inside, close, after);
    assert(rest.take(inside.len() as int) =~= inside);
}

/// A task that was stopped by hand is over.
pub proof fn a_stopped_task_is_over(
    id: Seq<char>,
    tail: Seq<char>,
    before: Set<Seq<char>>,
)
    requires
        narration::plausible(id),
        tail.len() > 0 ==> !(strings::is_ascii_alnum(tail[0]) || tail[0] == '-' || tail[0] == '_'),
        ({
            let line = "Successfully stopped task: "@ + id + tail;
            &&& strings::has(line, "task-notification"@) == false
            &&& json::parsed_text(line) is None
        }),
    ensures
        narration::line_tracked("Successfully stopped task: "@ + id + tail, before)
            == before.remove(id),
{
    let mark = "Successfully stopped task: "@;
    let line = mark + id + tail;
    assert(line.take(mark.len() as int) =~= mark);
    assert(strings::begins(line, mark));
    assert(strings::find_spec(line, mark) == Some(0int)) by {
        strings::lemma_find(line, mark);
        assert(line.skip(0) =~= line);
    }
    assert(line.skip(0 + mark.len() as int) =~= id + tail);
    lemma_id_prefix(id, tail);
    assert(before.difference(set![id]) =~= before.remove(id));
}

proof fn lemma_id_prefix(id: Seq<char>, tail: Seq<char>)
    requires
        forall|i: int|
            0 <= i < id.len() ==> strings::is_ascii_alnum(#[trigger] id[i]) || id[i] == '-' || id[i]
                == '_',
        tail.len() > 0 ==> !(strings::is_ascii_alnum(tail[0]) || tail[0] == '-' || tail[0] == '_'),
    ensures
        narration::id_prefix(id + tail) == id,
    decreases id.len(),
{
    let s = id + tail;
    if id.len() == 0 {
        assert(s =~= tail);
        assert(id =~= seq![]);
    } else {
        let rest = id.skip(1);
        assert forall|i: int| 0 <= i < rest.len() implies strings::is_ascii_alnum(#[trigger] rest[i])
            || rest[i] == '-' || rest[i] == '_' by {
            assert(rest[i] == id[i + 1]);
        }
        lemma_id_prefix(rest, tail);
        assert(s.skip(1) =~= rest + tail);
        assert(s[0] == id[0]);
        assert(seq![id[0]] + rest =~= id);
    }
}

/// A folder's name in the place of transcripts is its path with a dash for every
/// character that is no letter or digit of ASCII.
pub proof fn a_slug_is_the_path_with_dashes(cwd: Seq<char>, i: int)
    requires
        0 <= i < cwd.len(),
    ensures
        narration::slug_spec(cwd).len() == cwd.len(),
        narration::slug_spec(cwd)[i] == (if strings::is_ascii_alnum(cwd[i]) {
            cwd[i]
        } else {
            '-'
        }),
{
}

/// A line that does not name the agent says nothing, and neither does any while
/// nothing is to be said; what it starts or ends counts all the same.
pub proof fn a_line_that_names_nobody_says_nothing(w: WatchView, line: Seq<char>, mode: Mode)
    requires
        strings::has(line, "\"assistant\""@) == false || mode == Mode::Off,
    ensures
        narration::heard_line(w, line, mode).line == w.line,
        narration::heard_line(w, line, mode).outstanding == narration::line_tracked(
            line,
            w.outstanding,
        ),
        narration::heard_line(w, line, mode).offset == w.offset,
{
}

/// What the agent itself says is running counts from the moment it says so, over
/// what was read before; what it said is taken in once, and changes nothing else.
pub proof fn the_agents_own_word_counts(w: WatchView, s: SessionView, id: Seq<char>)
    ensures
        ({
            let t = narration::synced(w, s);
            &&& s.tasks_ms > w.synced_ms ==> (t.outstanding.contains(id) <==> s.tasks.contains(id))
                && t.synced_ms == s.tasks_ms
            &&& s.tasks_ms <= w.synced_ms ==> t == w
            &&& narration::synced(t, s) == t
            &&& t.offset == w.offset && t.line == w.line && t.seen_updated_ms == w.seen_updated_ms
        }),
{
}

/// A transcript is read again unless it was read before, nothing runs, nothing is
/// outstanding and nothing has happened since.
pub proof fn a_transcript_is_read_while_something_happens(w: WatchView, s: SessionView)
    ensures
        ({
            let works = s.state == "thinking"@ || s.state == "running"@ || s.state == "compacting"@;
            narration::quiet(w, s) <==> !(works || w.offset == 0 || w.outstanding.len() > 0
                || w.seen_updated_ms != s.updated_ms)
        }),
{
}

/// A file that got shorter is another file, of which nothing is known yet.
pub proof fn a_shorter_file_is_another(w: WatchView, length: u64)
    ensures
        length < w.offset ==> ({
            let t = narration::kept(w, length);
            t.offset == 0 && t.line.len() == 0 && t.outstanding == Set::<Seq<char>>::empty()
                && t.synced_ms == 0
        }),
        length >= w.offset ==> narration::kept(w, length) == w,
{
}

} // verus!
