//! Where a session lives inside the agent's desktop app.
//!
//! The app keeps one JSON record per chat under its own data directory, and
//! that record holds the two things nothing else has: the chat's title, and the
//! id the app routes by. Both are keyed by `cliSessionId`, which is the same id
//! the hooks already write, so this is a join rather than a guess.
//!
//! Read-only, and best-effort by design. A different app version, a different
//! layout, or no desktop app at all costs a title and a deep link, never a
//! card.

use vstd::prelude::*;
use vstd::string::*;

use crate::agent;
use crate::codex;
use crate::project;
use crate::state;
use crate::state::{Session, SessionView};
use crate::strings;
use crate::table;
use crate::table::Table;

verus! {

/// Where the desktop app keeps its records, below the folder that the machine
/// gives its programs for such things.
pub fn store_dir() -> (r: Vec<String>)
    ensures
        strings::views(r@) == seq![agent::name_spec(), agent::word_spec() + "-code-sessions"@],
{
    let r: Vec<String> = vec![
        agent::name(),
        strings::concat2(agent::word().as_str(), "-code-sessions"),
    ];
    assert(strings::views(r@) =~= seq![
        agent::name_spec(),
        agent::word_spec() + "-code-sessions"@,
    ]);
    r
}

/// The app writes `title` near the top of the record and megabytes of MCP tool
/// schemas after it, so the head is all this needs.
pub const HEAD_BYTES: usize = 4096;

/// A record untouched for this long cannot belong to a session the pet is
/// showing, and skipping it keeps the scan proportional to real work.
pub const RECENT_MS: u64 = 1_209_600_000;

pub struct Chat {
    /// The `<uuid>` half of `local_<uuid>`, which is what the app's `resume`
    /// deep link expects.
    pub id: String,
    /// The app's own name for the chat. Empty if it has not titled it yet.
    pub title: String,
}

#[verifier::ext_equal]
pub struct ChatView {
    pub id: Seq<char>,
    pub title: Seq<char>,
}

impl View for Chat {
    type V = ChatView;

    open spec fn view(&self) -> ChatView {
        ChatView { id: self.id@, title: self.title@ }
    }
}

impl Chat {
    pub fn copy(&self) -> (r: Chat)
        ensures
            r@ == self@,
    {
        Chat { id: self.id.clone(), title: self.title.clone() }
    }
}

// --- one string out of a fragment ------------------------------------------
pub open spec fn hex_digit(c: char) -> Option<u32> {
    if '0' as u32 <= c as u32 <= '9' as u32 {
        Some((c as u32 - '0' as u32) as u32)
    } else if 'a' as u32 <= c as u32 <= 'f' as u32 {
        Some((c as u32 - 'a' as u32 + 10) as u32)
    } else if 'A' as u32 <= c as u32 <= 'F' as u32 {
        Some((c as u32 - 'A' as u32 + 10) as u32)
    } else {
        None
    }
}

/// The number that hexadecimal digits stand for.
pub open spec fn hex_number(s: Seq<char>) -> Option<int>
    decreases s.len(),
{
    if s.len() == 0 {
        Some(0)
    } else {
        match (hex_number(s.drop_last()), hex_digit(s.last())) {
            (Some(n), Some(d)) => Some(n * 16 + d),
            _ => None,
        }
    }
}

/// The number that the first four characters of `s` stand for: four
/// hexadecimal digits, or a plus sign and three.
pub open spec fn hex4_spec(s: Seq<char>) -> Option<int> {
    if s.len() < 4 {
        None
    } else if s[0] == '+' {
        hex_number(s.subrange(1, 4))
    } else {
        hex_number(s.take(4))
    }
}

pub open spec fn is_scalar(n: int) -> bool {
    0 <= n <= 0xd7ff || 0xe000 <= n <= 0x10ffff
}

pub open spec fn is_high(n: int) -> bool {
    0xd800 <= n < 0xdc00
}

pub open spec fn is_low(n: int) -> bool {
    0xdc00 <= n < 0xe000
}

/// The character that a `\u` escape stands for, what follows the `\u` being
/// `s`, and how many characters of `s` it takes up. A character beyond the
/// basic plane is escaped as a pair; half a pair is none.
pub open spec fn escaped_char(s: Seq<char>) -> Option<(char, int)> {
    match hex4_spec(s) {
        None => None,
        Some(unit) => if is_high(unit) {
            if s.len() >= 6 && s[4] == '\\' && s[5] == 'u' {
                match hex4_spec(s.skip(6)) {
                    Some(low) => if is_low(low) {
                        Some(((0x10000 + (unit - 0xd800) * 1024 + (low - 0xdc00)) as char, 10))
                    } else {
                        None
                    },
                    None => None,
                }
            } else {
                None
            }
        } else if is_scalar(unit) {
            Some((unit as char, 4))
        } else {
            None
        },
    }
}

/// The text of a JSON string whose opening quote has been read; `None` when it
/// does not end, or holds an escape that means nothing. Line ends and tabs
/// become spaces.
pub open spec fn quoted_text(s: Seq<char>) -> Option<Seq<char>>
    decreases s.len(),
{
    if s.len() == 0 {
        None
    } else if s[0] == '"' {
        Some(seq![])
    } else if s[0] != '\\' {
        prefixed(s[0], quoted_text(s.skip(1)))
    } else if s.len() < 2 {
        None
    } else if s[1] == 'n' || s[1] == 't' || s[1] == 'r' {
        prefixed(' ', quoted_text(s.skip(2)))
    } else if s[1] == 'u' {
        match escaped_char(s.skip(2)) {
            Some(e) => if e.1 >= 0 && 2 + e.1 <= s.len() {
                prefixed(e.0, quoted_text(s.skip(2 + e.1)))
            } else {
                None
            },
            None => None,
        }
    } else {
        prefixed(s[1], quoted_text(s.skip(2)))
    }
}

pub open spec fn prefixed(c: char, rest: Option<Seq<char>>) -> Option<Seq<char>> {
    match rest {
        Some(t) => Some(seq![c] + t),
        None => None,
    }
}

/// The string under a name in a fragment of JSON. Only a string counts.
pub open spec fn field_spec(head: Seq<char>, key: Seq<char>) -> Option<Seq<char>> {
    let needle = seq!['"'] + key + seq!['"'];
    match strings::find_spec(head, needle) {
        None => None,
        Some(i) => {
            let after = strings::trimmed_start(head.skip(i + needle.len()));
            if after.len() > 0 && after[0] == ':' {
                let value = strings::trimmed_start(after.skip(1));
                if value.len() > 0 && value[0] == '"' {
                    quoted_text(value.skip(1))
                } else {
                    None
                }
            } else {
                None
            }
        },
    }
}

fn hex_value(c: char) -> (r: Option<u32>)
    ensures
        r == hex_digit(c),
        r matches Some(d) ==> d < 16,
{
    let n: u32 = c as u32;
    if 0x30 <= n && n <= 0x39 {
        Some(n - 0x30)
    } else if 0x61 <= n && n <= 0x66 {
        Some(n - 0x61 + 10)
    } else if 0x41 <= n && n <= 0x46 {
        Some(n - 0x41 + 10)
    } else {
        None
    }
}

fn hex_run(v: &Vec<char>, from: usize, to: usize) -> (r: Option<u32>)
    requires
        from <= to <= v@.len(),
        to - from <= 4,
    ensures
        match r {
            Some(n) => hex_number(v@.subrange(from as int, to as int)) == Some(n as int) && n
                < 0x10000,
            None => hex_number(v@.subrange(from as int, to as int)) is None,
        },
    decreases to - from,
{
    if from == to {
        return Some(0);
    }
    let ghost whole = v@.subrange(from as int, to as int);
    assert(whole.drop_last() =~= v@.subrange(from as int, to - 1));
    assert(whole.last() == v@[to - 1]);
    match hex_run(v, from, to - 1) {
        Some(n) => match hex_value(v[to - 1]) {
            Some(d) => {
                assert(n < 0x1000) by {
                    lemma_hex_bound(v@.subrange(from as int, to - 1));
                }
                Some(n * 16 + d)
            },
            None => None,
        },
        None => None,
    }
}

proof fn lemma_hex_bound(s: Seq<char>)
    requires
        s.len() <= 4,
        hex_number(s) is Some,
    ensures
        0 <= hex_number(s)->0 < 0x10000,
        s.len() <= 3 ==> hex_number(s)->0 < 0x1000,
        s.len() <= 2 ==> hex_number(s)->0 < 0x100,
        s.len() <= 1 ==> hex_number(s)->0 < 0x10,
    decreases s.len(),
{
    if s.len() > 0 {
        lemma_hex_bound(s.drop_last());
    }
}

pub fn hex4(v: &Vec<char>, from: usize) -> (r: Option<u32>)
    requires
        from <= v@.len(),
    ensures
        match r {
            Some(n) => hex4_spec(v@.skip(from as int)) == Some(n as int) && n < 0x10000 && from + 4
                <= v@.len(),
            None => hex4_spec(v@.skip(from as int)) is None,
        },
{
    if v.len() - from < 4 {
        return None;
    }
    let ghost s = v@.skip(from as int);
    if v[from] == '+' {
        assert(s.subrange(1, 4) =~= v@.subrange(from + 1, from + 4));
        hex_run(v, from + 1, from + 4)
    } else {
        assert(s.take(4) =~= v@.subrange(from as int, from + 4));
        hex_run(v, from, from + 4)
    }
}

/// `char::from_u32`: the character with that number, if there is one.
pub assume_specification[ char::from_u32 ](n: u32) -> (r: Option<char>)
    ensures
        r == (if is_scalar(n as int) {
            Some(n as char)
        } else {
            None
        }),
;

fn escape_at(v: &Vec<char>, from: usize) -> (r: Option<(char, usize)>)
    requires
        from <= v@.len(),
    ensures
        match r {
            Some(e) => escaped_char(v@.skip(from as int)) == Some((e.0, e.1 as int)) && from + e.1
                <= v@.len(),
            None => escaped_char(v@.skip(from as int)) is None,
        },
{
    let ghost s = v@.skip(from as int);
    let unit: u32 = match hex4(v, from) {
        Some(n) => n,
        None => {
            return None;
        },
    };
    if 0xd800 <= unit && unit < 0xdc00 {
        if v.len() - from < 6 || v[from + 4] != '\\' || v[from + 5] != 'u' {
            return None;
        }
        assert(s.skip(6) =~= v@.skip(from + 6));
        let low: u32 = match hex4(v, from + 6) {
            Some(n) => n,
            None => {
                return None;
            },
        };
        if !(0xdc00 <= low && low < 0xe000) {
            return None;
        }
        let n: u32 = 0x10000 + (unit - 0xd800) * 1024 + (low - 0xdc00);
        match char::from_u32(n) {
            Some(c) => Some((c, 10)),
            None => None,
        }
    } else {
        match char::from_u32(unit) {
            Some(c) => Some((c, 4)),
            None => None,
        }
    }
}

fn read_quoted(v: &Vec<char>, from: usize) -> (r: Option<String>)
    requires
        from <= v@.len(),
    ensures
        strings::opt_view(r) == quoted_text(v@.skip(from as int)),
{
    let ghost whole = quoted_text(v@.skip(from as int));
    let mut out = String::new();
    let mut i: usize = from;
    proof {
        if let Some(t) = whole {
            assert(out@ + t =~= t);
        }
    }
    while i < v.len()
        invariant
            from <= i <= v@.len(),
            whole == quoted_text(v@.skip(from as int)),
            match quoted_text(v@.skip(i as int)) {
                Some(t) => whole == Some(out@ + t),
                None => whole is None,
            },
        decreases v@.len() - i,
    {
        let ghost s = v@.skip(i as int);
        let ghost before = out@;
        let c = v[i];
        if c == '"' {
            assert(out@ + seq![] =~= out@);
            return Some(out);
        }
        if c != '\\' {
            out.push(c);
            assert(s.skip(1) =~= v@.skip(i + 1));
            proof {
                lemma_prefixed(before, c, quoted_text(s.skip(1)), out@);
            }
            i = i + 1;
        } else {
            if i + 1 >= v.len() {
                return None;
            }
            let d = v[i + 1];
            assert(s.skip(2) =~= v@.skip(i + 2));
            if d == 'n' || d == 't' || d == 'r' {
                out.push(' ');
                proof {
                    lemma_prefixed(before, ' ', quoted_text(s.skip(2)), out@);
                }
                i = i + 2;
            } else if d == 'u' {
                match escape_at(v, i + 2) {
                    Some((decoded, width)) => {
                        out.push(decoded);
                        assert(s.skip(2 + width) =~= v@.skip(i + 2 + width));
                        proof {
                            lemma_prefixed(before, decoded, quoted_text(s.skip(2 + width)), out@);
                        }
                        i = i + 2 + width;
                    },
                    None => {
                        return None;
                    },
                }
            } else {
                out.push(d);
                proof {
                    lemma_prefixed(before, d, quoted_text(s.skip(2)), out@);
                }
                i = i + 2;
            }
        }
    }
    None
}

proof fn lemma_prefixed(before: Seq<char>, c: char, rest: Option<Seq<char>>, after: Seq<char>)
    requires
        after == before.push(c),
    ensures
        match prefixed(c, rest) {
            Some(t) => rest is Some && before + t == after + rest->0,
            None => rest is None,
        },
{
    if let Some(t) = rest {
        assert(before + (seq![c] + t) =~= after + t);
    }
}

fn skip_white(v: &Vec<char>, from: usize) -> (r: usize)
    requires
        from <= v@.len(),
    ensures
        from <= r <= v@.len(),
        v@.skip(r as int) == strings::trimmed_start(v@.skip(from as int)),
{
    let mut i: usize = from;
    while i < v.len() && strings::is_whitespace(v[i])
        invariant
            from <= i <= v@.len(),
            strings::trimmed_start(v@.skip(from as int)) == strings::trimmed_start(
                v@.skip(i as int),
            ),
        decreases v@.len() - i,
    {
        assert(v@.skip(i as int).skip(1) =~= v@.skip(i + 1));
        i = i + 1;
    }
    i
}

/// Pulls one string field out of a JSON fragment.
///
/// A fragment, not a document: this reads the first few kilobytes of a file
/// whose tail is enormous, so a real parser has nothing to parse.
pub fn field(head: &str, key: &str) -> (r: Option<String>)
    ensures
        strings::opt_view(r) == field_spec(head@, key@),
{
    let mut needle = String::new();
    needle.push('"');
    needle.append(key);
    needle.push('"');
    assert(needle@ =~= seq!['"'] + key@ + seq!['"']);
    proof {
        strings::lemma_find(head@, needle@);
    }
    let at: usize = match strings::find(head, needle.as_str()) {
        Some(i) => i,
        None => {
            return None;
        },
    };
    let v = strings::chars_of(head);
    let w = strings::chars_of(needle.as_str());
    let i: usize = skip_white(&v, at + w.len());
    if i == v.len() || v[i] != ':' {
        return None;
    }
    let ghost after = v@.skip(i as int);
    assert(after.skip(1) =~= v@.skip(i + 1));
    let j: usize = skip_white(&v, i + 1);
    if j == v.len() || v[j] != '"' {
        return None;
    }
    assert(v@.skip(j as int).skip(1) =~= v@.skip(j + 1));
    read_quoted(&v, j + 1)
}

// --- ids -------------------------------------------------------------------
/// Ids come off disk and end up in a URL handed to the shell, so anything that
/// is not the shape the app writes is refused rather than escaped.
pub fn is_plain_id(id: &str) -> (r: bool)
    ensures
        r == codex::is_plain(id@),
{
    codex::plain_id(id)
}

/// The chat that a record's file is named after: `local_<id>.json`.
pub open spec fn file_chat(path: Seq<char>) -> Option<Seq<char>> {
    let name = project::folder_spec(path);
    if strings::begins(name, "local_"@) {
        let rest = name.skip(6);
        if strings::finishes(rest, ".json"@) && codex::is_plain(rest.take(rest.len() - 5)) {
            Some(rest.take(rest.len() - 5))
        } else {
            None
        }
    } else {
        None
    }
}

pub fn local_id(path: &str) -> (r: Option<String>)
    ensures
        strings::opt_view(r) == file_chat(path@),
{
    let name = project::folder_name(path);
    proof {
        reveal_strlit("local_");
        reveal_strlit(".json");
    }
    if !strings::starts_with(name.as_str(), "local_") {
        return None;
    }
    let v = strings::chars_of(name.as_str());
    let rest = strings::slice(&v, 6, v.len());
    assert(rest@ =~= name@.skip(6));
    if !strings::ends_with(rest.as_str(), ".json") {
        return None;
    }
    let w = strings::chars_of(rest.as_str());
    let id = strings::slice(&w, 0, w.len() - 5);
    assert(id@ =~= rest@.take(rest@.len() - 5));
    if is_plain_id(id.as_str()) {
        Some(id)
    } else {
        None
    }
}

/// The address that shows a chat in the desktop app.
///
/// A resume link with an id the app already has is a navigation: it finds
/// the existing chat, opens it, and raises the window. The same link with an id
/// the app has *not* seen would import a CLI transcript instead, which is why
/// only ids read back out of the app's own records are ever passed here.
pub open spec fn link_spec(chat_id: Seq<char>) -> Option<Seq<char>> {
    if codex::is_plain(chat_id) {
        Some(agent::word_spec() + "://resume?session="@ + chat_id)
    } else {
        None
    }
}

pub fn open(chat_id: &str) -> (r: Option<String>)
    ensures
        strings::opt_view(r) == link_spec(chat_id@),
{
    if is_plain_id(chat_id) {
        Some(strings::concat3(agent::word().as_str(), "://resume?session=", chat_id))
    } else {
        None
    }
}

// --- records ---------------------------------------------------------------
/// A record: when it was written, which session it is for, and its chat.
pub struct Record {
    pub modified: u64,
    pub cli: String,
    pub chat: Chat,
}

#[verifier::ext_equal]
pub struct RecordView {
    pub modified: u64,
    pub cli: Seq<char>,
    pub chat: ChatView,
}

impl View for Record {
    type V = RecordView;

    open spec fn view(&self) -> RecordView {
        RecordView { modified: self.modified, cli: self.cli@, chat: self.chat@ }
    }
}

pub open spec fn record_spec(path: Seq<char>, modified: u64, head: Seq<char>) -> Option<
    RecordView,
> {
    match (file_chat(path), field_spec(head, "cliSessionId"@)) {
        (Some(id), Some(cli)) => Some(
            RecordView {
                modified,
                cli,
                chat: ChatView {
                    id,
                    title: match field_spec(head, "title"@) {
                        Some(t) => t,
                        None => seq![],
                    },
                },
            },
        ),
        _ => None,
    }
}

/// What a record's file says, by its head.
pub fn read_record(path: &str, modified: u64, head: &str) -> (r: Option<Record>)
    ensures
        (match r {
            Some(x) => Some(x@),
            None => None,
        }) == record_spec(path@, modified, head@),
{
    match (local_id(path), field(head, "cliSessionId")) {
        (Some(id), Some(cli)) => {
            let title = match field(head, "title") {
                Some(t) => t,
                None => String::new(),
            };
            Some(Record { modified, cli, chat: Chat { id, title } })
        },
        _ => None,
    }
}

/// Whether a record was written lately, or in a future that some clock believes in.
pub open spec fn written_lately(modified: u64, now: u64) -> bool {
    modified >= now || now - modified <= RECENT_MS
}

/// Whether a record that was written then can belong to a session on screen.
pub fn is_recent(modified: u64, now: u64) -> (r: bool)
    ensures
        r == written_lately(modified, now),
{
    modified >= now || now - modified <= RECENT_MS
}

pub open spec fn records_view(files: Seq<(String, Record)>) -> Seq<RecordView> {
    files.map_values(|f: (String, Record)| f.1@)
}

/// Whether a record answers before another: the one written later, and of two
/// written at once the one whose id comes later.
pub open spec fn outranks(a: RecordView, b: RecordView) -> bool {
    a.modified > b.modified || (a.modified == b.modified && strings::precedes(
        b.chat.id,
        a.chat.id,
    ))
}

/// The record that answers for a session.
pub open spec fn winner(records: Seq<RecordView>, session_id: Seq<char>) -> Option<RecordView>
    decreases records.len(),
{
    if records.len() == 0 {
        None
    } else {
        let before = winner(records.drop_last(), session_id);
        let last = records.last();
        if last.cli != session_id {
            before
        } else {
            match before {
                Some(incumbent) => if outranks(last, incumbent) {
                    Some(last)
                } else {
                    before
                },
                None => Some(last),
            }
        }
    }
}

/// The chat that a session belongs to.
pub open spec fn chat_of(records: Seq<RecordView>, session_id: Seq<char>) -> Option<ChatView> {
    match winner(records, session_id) {
        Some(r) => Some(r.chat),
        None => None,
    }
}

pub open spec fn opt_chat(c: Option<Chat>) -> Option<ChatView> {
    match c {
        Some(x) => Some(x@),
        None => None,
    }
}

fn winner_of(files: &Vec<(String, Record)>, session_id: &str) -> (r: Option<usize>)
    ensures
        match r {
            Some(i) => i < files@.len() && winner(records_view(files@), session_id@) == Some(
                files@[i as int].1@,
            ),
            None => winner(records_view(files@), session_id@) is None,
        },
{
    let ghost all = records_view(files@);
    let mut best: Option<usize> = None;
    let mut i: usize = 0;
    assert(all.take(0) =~= seq![]);
    while i < files.len()
        invariant
            i <= files@.len(),
            all == records_view(files@),
            match best {
                Some(k) => k < i && winner(all.take(i as int), session_id@) == Some(
                    files@[k as int].1@,
                ),
                None => winner(all.take(i as int), session_id@) is None,
            },
        decreases files@.len() - i,
    {
        assert(all.take(i + 1).drop_last() =~= all.take(i as int));
        assert(all.take(i + 1).last() == files@[i as int].1@);
        if strings::same(files[i].1.cli.as_str(), session_id) {
            match best {
                Some(k) => {
                    if files[i].1.modified > files[k].1.modified || (files[i].1.modified
                        == files[k].1.modified && strings::comes_before(
                        files[k].1.chat.id.as_str(),
                        files[i].1.chat.id.as_str(),
                    )) {
                        best = Some(i);
                    }
                },
                None => {
                    best = Some(i);
                },
            }
        }
        i = i + 1;
    }
    assert(all.take(i as int) =~= all);
    best
}

/// The chat a session belongs to, if the desktop app knows it.
pub fn lookup(files: &Vec<(String, Record)>, session_id: &str) -> (r: Option<Chat>)
    ensures
        opt_chat(r) == (if session_id@.len() == 0 {
            None
        } else {
            chat_of(records_view(files@), session_id@)
        }),
{
    if session_id.is_empty() {
        return None;
    }
    match winner_of(files, session_id) {
        Some(i) => Some(files[i].1.chat.copy()),
        None => None,
    }
}

/// One winner per session id, decided the same way everywhere.
///
/// Two records can claim the same `cliSessionId` (a resumed or branched chat).
/// The most recently modified record answers, with the id as a tiebreak so
/// equal stamps are still deterministic.
pub fn best_by_session(files: &Vec<(String, Record)>) -> (r: Table<Chat>)
    ensures
        forall|session_id: Seq<char>|
            (match table::at(r@, session_id) {
                Some(c) => Some(c@),
                None => None,
            }) == #[trigger] chat_of(records_view(files@), session_id),
{
    let ghost all = records_view(files@);
    let mut out: Table<Chat> = Table::new();
    let mut i: usize = 0;
    while i < files.len()
        invariant
            i <= files@.len(),
            all == records_view(files@),
            forall|k: Seq<char>| #[trigger] out@.dom().contains(k) ==> winner(all, k) is Some,
            forall|k: Seq<char>| #[trigger]
                out@.dom().contains(k) ==> Some(out@[k]@) == chat_of(all, k),
            forall|j: int| 0 <= j < i ==> out@.dom().contains((#[trigger] all[j]).cli),
        decreases files@.len() - i,
    {
        assert(all[i as int] == files@[i as int].1@);
        let cli = files[i].1.cli.as_str();
        if let Some(k) = winner_of(files, cli) {
            out.insert(cli, files[k].1.chat.copy());
        } else {
            proof {
                lemma_winner_exists(all, i as int);
            }
        }
        i = i + 1;
    }
    assert forall|session_id: Seq<char>|
        (match table::at(out@, session_id) {
            Some(c) => Some(c@),
            None => None,
        }) == #[trigger] chat_of(all, session_id) by {
        if !out@.dom().contains(session_id) {
            lemma_no_winner(all, session_id);
        }
    }
    out
}

proof fn lemma_winner_exists(records: Seq<RecordView>, i: int)
    requires
        0 <= i < records.len(),
    ensures
        winner(records, records[i].cli) is Some,
    decreases records.len(),
{
    if i < records.len() - 1 {
        lemma_winner_exists(records.drop_last(), i);
    }
}

proof fn lemma_no_winner(records: Seq<RecordView>, session_id: Seq<char>)
    requires
        forall|i: int| 0 <= i < records.len() ==> (#[trigger] records[i]).cli != session_id,
    ensures
        winner(records, session_id) is None,
    decreases records.len(),
{
    if records.len() > 0 {
        let rest = records.drop_last();
        assert forall|i: int| 0 <= i < rest.len() implies (#[trigger] rest[i]).cli
            != session_id by {
            assert(rest[i] == records[i]);
        }
        lemma_no_winner(rest, session_id);
    }
}

/// A session with its chat on it.
pub open spec fn chatted(s: SessionView, records: Seq<RecordView>) -> SessionView {
    match chat_of(records, s.session_id) {
        Some(c) => SessionView { chat_id: c.id, chat_title: c.title, ..s },
        None => s,
    }
}

/// Fills in the chat title and id on everything the overlay is about to show.
pub fn decorate(files: &Vec<(String, Record)>, sessions: &mut Vec<Session>)
    ensures
        final(sessions)@.len() == old(sessions)@.len(),
        forall|i: int|
            0 <= i < old(sessions)@.len() ==> (#[trigger] final(sessions)@[i])@ == chatted(
                old(sessions)@[i]@,
                records_view(files@),
            ),
{
    let by_session = best_by_session(files);
    let mut out: Vec<Session> = Vec::new();
    let mut i: usize = 0;
    while i < sessions.len()
        invariant
            i <= sessions@.len(),
            sessions@ == old(sessions)@,
            forall|session_id: Seq<char>|
                (match table::at(by_session@, session_id) {
                    Some(c) => Some(c@),
                    None => None,
                }) == #[trigger] chat_of(records_view(files@), session_id),
            out@.len() == i,
            forall|j: int|
                0 <= j < i ==> (#[trigger] out@[j])@ == chatted(
                    sessions@[j]@,
                    records_view(files@),
                ),
        decreases sessions@.len() - i,
    {
        let mut s = sessions[i].copy();
        let ghost before = s@;
        assert(chat_of(records_view(files@), s@.session_id) == (match table::at(
            by_session@,
            s@.session_id,
        ) {
            Some(c) => Some(c@),
            None => None,
        }));
        if let Some(chat) = by_session.get(s.session_id.clone().as_str()) {
            s.chat_id = chat.id.clone();
            s.chat_title = chat.title.clone();
        }
        assert(s@ =~= chatted(before, records_view(files@)));
        out.push(s);
        i = i + 1;
    }
    *sessions = out;
}

// --- what holds of every answer --------------------------------------------
/// The newest record answers: none of the others that are for the session
/// outranks it.
pub proof fn the_newest_record_answers(records: Seq<RecordView>, session_id: Seq<char>, i: int)
    requires
        0 <= i < records.len(),
        records[i].cli == session_id,
    ensures
        winner(records, session_id) is Some,
        winner(records, session_id)->0.cli == session_id,
        !outranks(records[i], winner(records, session_id)->0),
    decreases records.len(),
{
    let rest = records.drop_last();
    if i < records.len() - 1 {
        the_newest_record_answers(rest, session_id, i);
        let incumbent = winner(rest, session_id)->0;
        if records.last().cli == session_id && outranks(records.last(), incumbent) {
            if outranks(records[i], records.last()) {
                if records[i].modified == incumbent.modified {
                    strings::lemma_order_chain(
                        incumbent.chat.id,
                        records.last().chat.id,
                        records[i].chat.id,
                    );
                }
            }
        }
    } else {
        strings::lemma_order(records[i].chat.id, records[i].chat.id);
        if winner(rest, session_id) is Some {
            lemma_winner_is_for(rest, session_id);
            let incumbent = winner(rest, session_id)->0;
            strings::lemma_order(records[i].chat.id, incumbent.chat.id);
        }
    }
}

proof fn lemma_winner_is_for(records: Seq<RecordView>, session_id: Seq<char>)
    ensures
        winner(records, session_id) matches Some(r) ==> r.cli == session_id,
    decreases records.len(),
{
    if records.len() > 0 {
        lemma_winner_is_for(records.drop_last(), session_id);
    }
}

/// The chat that is opened is the one whose title is shown.
pub proof fn the_title_and_the_link_agree(s: SessionView, records: Seq<RecordView>)
    requires
        chat_of(records, s.session_id) is Some,
    ensures
        chatted(s, records).chat_id == chat_of(records, s.session_id)->0.id,
        chatted(s, records).chat_title == chat_of(records, s.session_id)->0.title,
{
}

/// Half a record gives no title: a string that does not end is none.
pub proof fn an_unfinished_string_is_none(s: Seq<char>)
    requires
        forall|i: int| 0 <= i < s.len() ==> s[i] != '"',
    ensures
        quoted_text(s) is None,
    decreases s.len(),
{
    if s.len() > 0 {
        if s[0] != '\\' {
            an_unfinished_string_is_none(s.skip(1));
        } else if s.len() >= 2 {
            an_unfinished_string_is_none(s.skip(2));
            if s[1] == 'u' {
                if let Some(e) = escaped_char(s.skip(2)) {
                    if e.1 >= 0 && 2 + e.1 <= s.len() {
                        an_unfinished_string_is_none(s.skip(2 + e.1));
                    }
                }
            }
        }
    }
}

} // verus!
