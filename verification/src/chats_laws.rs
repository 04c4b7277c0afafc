//! Which chat of the desktop app a session belongs to.

use vstd::prelude::*;
use vstd::string::*;

use crate::chats;
use crate::chats::RecordView;
use crate::project;
use crate::project_laws;
use crate::state::SessionView;
use crate::strings;

verus! {

// --- the string under a name --------------------------------------------------------------
/// A character stands for itself, and the quote ends the string.
pub proof fn a_character_stands_for_itself(c: char, rest: Seq<char>)
    requires
        c != '"',
        c != '\\',
    ensures
        chats::quoted_text(seq![c] + rest) == (match chats::quoted_text(rest) {
            Some(t) => Some(seq![c] + t),
            None => None,
        }),
        chats::quoted_text(seq!['"'] + rest) == Some(Seq::<char>::empty()),
{
    assert((seq![c] + rest).skip(1) =~= rest);
}

/// Behind a backslash an `n`, a `t` and an `r` are spaces, a `u` is a character by
/// its number, and anything else is itself.
pub proof fn a_backslash_takes_the_next_along(c: char, rest: Seq<char>)
    ensures
        ({
            let read = chats::quoted_text(seq!['\\', c] + rest);
            let tail = chats::quoted_text(rest);
            &&& c == 'n' || c == 't' || c == 'r' ==> read == (match tail {
                Some(t) => Some(seq![' '] + t),
                None => None,
            })
            &&& c != 'n' && c != 't' && c != 'r' && c != 'u' ==> read == (match tail {
                Some(t) => Some(seq![c] + t),
                None => None,
            })
        }),
        chats::quoted_text(seq!['\\']) is None,
{
    let s = seq!['\\', c] + rest;
    assert(s[0] == '\\' && s[1] == c);
    assert(s.skip(2) =~= rest);
}

/// Four digits name a character of the basic plane, and two halves one beyond it.
pub proof fn a_number_names_a_character(four: Seq<char>, again: Seq<char>, rest: Seq<char>)
    requires
        four.len() == 4,
        again.len() == 4,
        four[0] != '+',
        again[0] != '+',
    ensures
        ({
            let unit = chats::hex_number(four);
            let low = chats::hex_number(again);
            &&& (unit matches Some(n) && (0 <= n < 0xd800 || 0xe000 <= n <= 0xffff))
                ==> chats::escaped_char(four + rest) == Some((unit->0 as char, 4int))
            &&& unit is None ==> chats::escaped_char(four + rest) is None
            &&& (unit matches Some(n) && 0xdc00 <= n < 0xe000) ==> chats::escaped_char(four + rest)
                is None
            &&& (unit matches Some(n) && 0xd800 <= n < 0xdc00) && (low matches Some(m)
                && 0xdc00 <= m
                < 0xe000) ==> chats::escaped_char(four + seq!['\\', 'u'] + again + rest) == Some(
                ((0x10000 + (unit->0 - 0xd800) * 0x400 + (low->0 - 0xdc00)) as char, 10int),
            )
            &&& (unit matches Some(n) && 0xd800 <= n < 0xdc00) && (rest.len() > 0 ==> rest[0]
                != '\\') ==> chats::escaped_char(four + rest) is None
        }),
{
    let s = four + rest;
    assert(s[0] == four[0]);
    assert(s.take(4) =~= four);
    let pair = four + seq!['\\', 'u'] + again + rest;
    assert(pair[0] == four[0] && pair[4] == '\\' && pair[5] == 'u');
    assert(pair.take(4) =~= four);
    assert(pair.skip(6) =~= again + rest);
    assert((again + rest)[0] == again[0]);
    assert((again + rest).take(4) =~= again);
    if rest.len() > 0 {
        assert(s[4] == rest[0]);
    }
}

/// A digit counts sixteen times what is behind it.
pub proof fn hexadecimal_digits_have_their_values(s: Seq<char>, c: char)
    ensures
        '0' as u32 <= c as u32 <= '9' as u32 ==> (chats::hex_digit(c) matches Some(d)
            && d == c as u32
            - 0x30),
        'a' as u32 <= c as u32 <= 'f' as u32 ==> (chats::hex_digit(c) matches Some(d)
            && d == c as u32
            - 0x61 + 10),
        'A' as u32 <= c as u32 <= 'F' as u32 ==> (chats::hex_digit(c) matches Some(d)
            && d == c as u32
            - 0x41 + 10),
        chats::hex_digit(c) matches Some(d) ==> d < 16,
        chats::hex_number(s.push(c)) == (match (chats::hex_number(s), chats::hex_digit(c)) {
            (Some(n), Some(d)) => Some(n * 16 + d),
            _ => None,
        }),
        chats::hex_number(Seq::<char>::empty()) == Some(0int),
{
    assert(s.push(c).drop_last() =~= s);
}

/// A string under a name is found behind the first place where the name stands in
/// quotes; whatever else stands there is no string.
pub proof fn a_string_is_found_by_its_name(
    before: Seq<char>,
    key: Seq<char>,
    gap: Seq<char>,
    more: Seq<char>,
    value: Seq<char>,
)
    requires
        strings::find_spec(before + (seq!['"'] + key + seq!['"']) + gap + seq![':'] + more + value,
            seq!['"'] + key + seq!['"']) == Some(before.len() as int),
        forall|i: int| 0 <= i < gap.len() ==> strings::is_white(#[trigger] gap[i]),
        forall|i: int| 0 <= i < more.len() ==> strings::is_white(#[trigger] more[i]),
        value.len() > 0,
        !strings::is_white(value[0]),
    ensures
        chats::field_spec(
            before + (seq!['"'] + key + seq!['"']) + gap + seq![':'] + more + value,
            key,
        ) == (if value[0] == '"' {
            chats::quoted_text(value.skip(1))
        } else {
            None
        }),
{
    let needle = seq!['"'] + key + seq!['"'];
    let head = before + needle + gap + seq![':'] + more + value;
    let tail = seq![':'] + more + value;
    assert(head.skip((before.len() + needle.len()) as int) =~= gap + tail);
    lemma_blanks(gap, tail);
    assert(tail[0] == ':');
    assert(tail.skip(1) =~= more + value);
    lemma_blanks(more, value);
}

proof fn lemma_blanks(blanks: Seq<char>, s: Seq<char>)
    requires
        forall|i: int| 0 <= i < blanks.len() ==> strings::is_white(#[trigger] blanks[i]),
        s.len() > 0,
        !strings::is_white(s[0]),
    ensures
        strings::trimmed_start(blanks + s) == s,
    decreases blanks.len(),
{
    if blanks.len() == 0 {
        assert(blanks + s =~= s);
    } else {
        let all = blanks + s;
        assert(all[0] == blanks[0]);
        assert(all.skip(1) =~= blanks.skip(1) + s);
        assert forall|i: int| 0 <= i < blanks.skip(1).len() implies strings::is_white(
            #[trigger] blanks.skip(1)[i],
        ) by {
            assert(blanks.skip(1)[i] == blanks[i + 1]);
        }
        lemma_blanks(blanks.skip(1), s);
    }
}

// --- records -----------------------------------------------------------------------------
/// A record's file is named after its chat.
pub proof fn a_record_is_named_after_its_chat(folder: Seq<char>, id: Seq<char>)
    requires
        folder.len() > 0,
        folder[0] == '/',
        folder.last() == '/',
        1 <= id.len() <= 64,
        forall|i: int|
            0 <= i < id.len() ==> strings::is_ascii_alnum(#[trigger] id[i]) || id[i] == '-' || id[i]
                == '_',
    ensures
        chats::file_chat(folder + "local_"@ + id + ".json"@) == Some(id),
{
    reveal_strlit("local_");
    reveal_strlit(".json");
    reveal_strlit(".");
    reveal_strlit("..");
    let name = "local_"@ + id + ".json"@;
    assert(name.len() > 2);
    assert forall|i: int| 0 <= i < name.len() implies (#[trigger] name[i]) != '/' && name[i]
        != '\\' by {
        if 6 <= i < 6 + id.len() {
            let c = id[i - 6];
            assert(name[i] == c);
            assert(strings::is_ascii_alnum(c) || c == '-' || c == '_');
            assert(!strings::is_ascii_alnum('/') && !strings::is_ascii_alnum('\\'));
        }
    }
    assert(project_laws::is_name(name));
    let none = Seq::<char>::empty();
    project_laws::a_folder_goes_by_its_last_name(folder, name, none);
    assert(folder + name + none =~= folder + "local_"@ + id + ".json"@);
    assert(name.take(6) =~= "local_"@);
    let rest = name.skip(6);
    assert(rest =~= id + ".json"@);
    assert(rest.skip(rest.len() - 5) =~= ".json"@);
    assert(rest.take(rest.len() - 5) =~= id);
    assert forall|i: int| 0 <= i < id.len() implies crate::state::name_char(#[trigger] id[i]) by {}
}

/// Any other file is no record.
pub proof fn other_files_are_no_records(path: Seq<char>)
    ensures
        chats::file_chat(path) is Some ==> strings::begins(project::folder_spec(path), "local_"@)
            && strings::finishes(project::folder_spec(path), ".json"@),
{
    reveal_strlit("local_");
    reveal_strlit(".json");
    let name = project::folder_spec(path);
    if chats::file_chat(path) is Some {
        let rest = name.skip(6);
        assert(rest.skip(rest.len() - 5) =~= name.skip(name.len() - 5));
    }
}

/// A record says which session it is for and what its chat is called.
pub proof fn a_record_names_its_session(path: Seq<char>, modified: u64, head: Seq<char>)
    ensures
        ({
            let id = chats::file_chat(path);
            let session = chats::field_spec(head, "cliSessionId"@);
            let title = chats::field_spec(head, "title"@);
            match chats::record_spec(path, modified, head) {
                None => id is None || session is None,
                Some(r) => {
                    &&& id == Some(r.chat.id)
                    &&& session == Some(r.cli)
                    &&& r.modified == modified
                    &&& title is Some ==> r.chat.title == title->0
                    &&& title is None ==> r.chat.title.len() == 0
                },
            }
        }),
{
}

/// A record counts for two weeks.
pub proof fn a_record_counts_for_two_weeks(modified: u64, now: u64)
    ensures
        chats::written_lately(modified, now) <==> now <= modified + 14 * 24 * 60 * 60 * 1000,
{
}

/// Of the records for a session the one that was written last answers, and of two
/// written at once the one with the later id. Without one there is no answer.
pub proof fn the_last_record_written_answers(records: Seq<RecordView>, session_id: Seq<char>)
    ensures
        match chats::winner(records, session_id) {
            None => forall|i: int| 0 <= i < records.len() ==> (#[trigger] records[i]).cli != session_id,
            Some(w) => {
                &&& records.contains(w)
                &&& w.cli == session_id
                &&& forall|i: int|
                    0 <= i < records.len() && (#[trigger] records[i]).cli == session_id ==> {
                        &&& records[i].modified <= w.modified
                        &&& records[i].modified == w.modified ==> !strings::precedes(
                            w.chat.id,
                            records[i].chat.id,
                        )
                    }
            },
        },
{
    lemma_winner(records, session_id);
    assert forall|i: int| 0 <= i < records.len()
        && (#[trigger] records[i]).cli == session_id implies (
    chats::winner(records, session_id) matches Some(w) && records[i].modified <= w.modified && (
    records[i].modified == w.modified ==> !strings::precedes(w.chat.id, records[i].chat.id))) by {
        chats::the_newest_record_answers(records, session_id, i);
    }
}

proof fn lemma_winner(records: Seq<RecordView>, session_id: Seq<char>)
    ensures
        chats::winner(records, session_id) matches Some(w) ==> records.contains(w) && w.cli
            == session_id,
    decreases records.len(),
{
    if records.len() > 0 {
        let less = records.drop_last();
        lemma_winner(less, session_id);
        assert(records[records.len() - 1] == records.last());
        if let Some(w) = chats::winner(less, session_id) {
            let k = choose|k: int| 0 <= k < less.len() && less[k] == w;
            assert(records[k] == w);
        }
    }
}

/// Of two ids the one precedes whose first different character does, and a shorter
/// one its continuations.
pub proof fn ids_are_ordered_by_their_characters(
    start: Seq<char>,
    a: char,
    b: char,
    x: Seq<char>,
    y: Seq<char>,
)
    requires
        a as u32 != b as u32,
    ensures
        strings::precedes(start + seq![a] + x, start + seq![b] + y) <==> (a as u32) < (b as u32),
        strings::precedes(start, start + seq![a] + x),
    decreases start.len(),
{
    let l = start + seq![a] + x;
    let r = start + seq![b] + y;
    if start.len() == 0 {
        assert(l[0] == a && r[0] == b);
    } else {
        assert(l[0] == start[0] && r[0] == start[0]);
        assert(l.skip(1) =~= start.skip(1) + seq![a] + x);
        assert(r.skip(1) =~= start.skip(1) + seq![b] + y);
        ids_are_ordered_by_their_characters(start.skip(1), a, b, x, y);
    }
}

/// A session takes on its chat's title and id, and nothing else of it changes;
/// one without a chat stays as it is.
pub proof fn a_session_takes_on_its_chat(s: SessionView, records: Seq<RecordView>)
    ensures
        ({
            let t = chats::chatted(s, records);
            match chats::winner(records, s.session_id) {
                Some(w) => t == (SessionView {
                    chat_id: w.chat.id,
                    chat_title: w.chat.title,
                    ..s
                }),
                None => t == s,
            }
        }),
{
}

/// A chat is opened by its id, as long as that holds nothing but letters, digits,
/// dashes and underscores.
pub proof fn only_a_plain_id_is_opened(id: Seq<char>)
    ensures
        ({
            let plain = 1 <= id.len() <= 64 && forall|i: int|
                0 <= i < id.len() ==> strings::is_ascii_alnum(#[trigger] id[i]) || id[i] == '-'
                    || id[i] == '_';
            &&& plain ==> chats::link_spec(id) == Some(
                crate::agent::word_spec() + "://resume?session="@ + id,
            )
            &&& chats::link_spec(id) is Some ==> 1 <= id.len() <= 64
        }),
        forall|i: int|
            chats::link_spec(id) is Some && 0 <= i < id.len() ==> strings::is_ascii_alnum(
                #[trigger] id[i],
            ) || id[i] == '-' || id[i] == '_',
{
    if 1 <= id.len() <= 64 && (forall|i: int|
        0 <= i < id.len() ==> strings::is_ascii_alnum(#[trigger] id[i]) || id[i] == '-' || id[i]
            == '_') {
        assert forall|i: int| 0 <= i < id.len() implies crate::state::name_char(#[trigger] id[i]) by {}
        assert(crate::codex::is_plain(id));
    }
    assert forall|i: int| chats::link_spec(id) is Some && 0 <= i < id.len() implies (
    strings::is_ascii_alnum(#[trigger] id[i]) || id[i] == '-' || id[i] == '_') by {
        assert(crate::state::name_char(id[i]));
    }
}

} // verus!
