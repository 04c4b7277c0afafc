//! Which rollouts are followed, what their tasks are called, and in what order
//! their sessions are shown.

use vstd::prelude::*;
use vstd::string::*;

use crate::codex;
use crate::codex::{Watch, WatchView};
use crate::json;
use crate::json::JsonView;
use crate::narration::Mode;
use crate::state;
use crate::state::{Session, SessionView};
use crate::strings;
use crate::table;
use crate::table::Table;
use crate::text;

verus! {

// --- which files -----------------------------------------------------------
/// Whether a file's name is a rollout's.
pub open spec fn rollout_name(name: Seq<char>) -> bool {
    strings::begins(name, "rollout-"@) && strings::finishes(name, ".jsonl"@)
}

pub fn is_rollout(name: &str) -> (r: bool)
    ensures
        r == rollout_name(name@),
{
    strings::starts_with(name, "rollout-") && strings::ends_with(name, ".jsonl")
}

pub open spec fn files_view(files: Seq<(u64, String)>) -> Seq<(u64, Seq<char>)> {
    files.map_values(|f: (u64, String)| (f.0, f.1@))
}

/// The folders of a path and the name at its end. Paths are written with `/`.
pub open spec fn steps(path: Seq<char>) -> Seq<Seq<char>> {
    strings::split_spec(path, '/')
}

/// Whether `a` comes before `b` in the order of paths: folder by folder.
pub open spec fn path_precedes(a: Seq<Seq<char>>, b: Seq<Seq<char>>) -> bool
    decreases a.len(),
{
    if b.len() == 0 {
        false
    } else if a.len() == 0 {
        true
    } else if a[0] != b[0] {
        strings::precedes(a[0], b[0])
    } else {
        path_precedes(a.skip(1), b.skip(1))
    }
}

/// Of two different paths one comes first.
proof fn lemma_path_order(a: Seq<Seq<char>>, b: Seq<Seq<char>>)
    ensures
        path_precedes(a, b) || path_precedes(b, a) || a == b,
    decreases a.len(),
{
    if a.len() > 0 && b.len() > 0 {
        if a[0] == b[0] {
            lemma_path_order(a.skip(1), b.skip(1));
            if a.skip(1) == b.skip(1) {
                assert(a =~= seq![a[0]] + a.skip(1));
                assert(b =~= seq![b[0]] + b.skip(1));
            }
        } else {
            strings::lemma_order(a[0], b[0]);
        }
    } else if a.len() == 0 && b.len() == 0 {
        assert(a =~= b);
    }
}

/// And only one, if any.
proof fn lemma_path_once(a: Seq<Seq<char>>, b: Seq<Seq<char>>)
    ensures
        path_precedes(a, b) ==> a != b && !path_precedes(b, a),
    decreases a.len(),
{
    if a.len() > 0 && b.len() > 0 {
        if a[0] == b[0] {
            lemma_path_once(a.skip(1), b.skip(1));
        } else {
            strings::lemma_order(a[0], b[0]);
        }
    }
}

proof fn lemma_path_chain(a: Seq<Seq<char>>, b: Seq<Seq<char>>, c: Seq<Seq<char>>)
    requires
        path_precedes(a, b),
        path_precedes(b, c),
    ensures
        path_precedes(a, c),
    decreases a.len(),
{
    if a.len() > 0 {
        if a[0] == b[0] && b[0] == c[0] {
            lemma_path_chain(a.skip(1), b.skip(1), c.skip(1));
        } else if a[0] != b[0] && b[0] != c[0] {
            strings::lemma_order_chain(a[0], b[0], c[0]);
            strings::lemma_order(a[0], c[0]);
        }
    }
}

/// Whether the path `a` comes before the path `b`.
fn path_before(a: &str, b: &str) -> (r: bool)
    ensures
        r == path_precedes(steps(a@), steps(b@)),
{
    let v = strings::split(a, '/');
    let w = strings::split(b, '/');
    let ghost all = strings::views(v@);
    let ghost others = strings::views(w@);
    let mut i: usize = 0;
    assert(all.skip(0) =~= all);
    assert(others.skip(0) =~= others);
    while i < v.len() && i < w.len() && strings::same(v[i].as_str(), w[i].as_str())
        invariant
            i <= v@.len(),
            i <= w@.len(),
            all == strings::views(v@),
            others == strings::views(w@),
            path_precedes(all, others) == path_precedes(all.skip(i as int), others.skip(i as int)),
        decreases v@.len() - i,
    {
        assert(all.skip(i as int)[0] == v@[i as int]@);
        assert(others.skip(i as int)[0] == w@[i as int]@);
        assert(all.skip(i as int).skip(1) =~= all.skip(i + 1));
        assert(others.skip(i as int).skip(1) =~= others.skip(i + 1));
        i = i + 1;
    }
    if i == w.len() {
        false
    } else if i == v.len() {
        true
    } else {
        assert(all.skip(i as int)[0] == v@[i as int]@);
        assert(others.skip(i as int)[0] == w@[i as int]@);
        strings::comes_before(v[i].as_str(), w[i].as_str())
    }
}

/// Whether one file comes before another: the later written first, and of two
/// written at once the one whose path comes later.
pub open spec fn newer(a: (u64, Seq<char>), b: (u64, Seq<char>)) -> bool {
    a.0 > b.0 || (a.0 == b.0 && (steps(a.1) == steps(b.1) || path_precedes(
        steps(b.1),
        steps(a.1),
    )))
}

pub open spec fn newest_first(files: Seq<(u64, Seq<char>)>) -> bool {
    forall|i: int, j: int|
        0 <= i < j < files.len() ==> newer(#[trigger] files[i], #[trigger] files[j])
}

proof fn lemma_newer_chain(a: (u64, Seq<char>), b: (u64, Seq<char>), c: (u64, Seq<char>))
    requires
        newer(a, b),
        newer(b, c),
    ensures
        newer(a, c),
{
    if a.0 == b.0 && b.0 == c.0 && steps(a.1) != steps(b.1) && steps(b.1) != steps(c.1) {
        lemma_path_chain(steps(c.1), steps(b.1), steps(a.1));
    }
}

/// The files with one more among them, in its place.
pub open spec fn placed(files: Seq<(u64, Seq<char>)>, file: (u64, Seq<char>)) -> Seq<
    (u64, Seq<char>),
>
    decreases files.len(),
{
    if files.len() == 0 || !newer(file, files.last()) {
        files.push(file)
    } else {
        placed(files.drop_last(), file).push(files.last())
    }
}

/// The files, sorted.
pub open spec fn sorted(files: Seq<(u64, Seq<char>)>) -> Seq<(u64, Seq<char>)>
    decreases files.len(),
{
    if files.len() == 0 {
        seq![]
    } else {
        placed(sorted(files.drop_last()), files.last())
    }
}

proof fn lemma_placed(files: Seq<(u64, Seq<char>)>, file: (u64, Seq<char>))
    requires
        newest_first(files),
    ensures
        newest_first(placed(files, file)),
        placed(files, file).to_multiset() == files.to_multiset().insert(file),
        placed(files, file).len() == files.len() + 1,
    decreases files.len(),
{
    broadcast use vstd::seq_lib::group_to_multiset_ensures;

    if files.len() == 0 {
    } else if !newer(file, files.last()) {
        lemma_path_order(steps(file.1), steps(files.last().1));
        let after = files.push(file);
        assert(newer(files.last(), file));
        assert forall|i: int, j: int| 0 <= i < j < after.len() implies newer(
            #[trigger] after[i],
            #[trigger] after[j],
        ) by {
            if j == files.len() {
                if i < files.len() - 1 {
                    assert(newer(files[i], files[files.len() - 1]));
                    lemma_newer_chain(files[i], files.last(), file);
                }
            }
        }
    } else {
        let rest = files.drop_last();
        lemma_placed(rest, file);
        let before = placed(rest, file);
        let after = placed(files, file);
        assert(files =~= rest.push(files.last()));
        assert(after.to_multiset() =~= files.to_multiset().insert(file));
        assert forall|i: int, j: int| 0 <= i < j < after.len() implies newer(
            #[trigger] after[i],
            #[trigger] after[j],
        ) by {
            if j == before.len() {
                assert(before.to_multiset().count(before[i]) > 0) by {
                    assert(before.contains(before[i]));
                }
                if before[i] != file {
                    assert(rest.to_multiset().count(before[i]) > 0);
                    assert(rest.contains(before[i]));
                    let k = choose|k: int| 0 <= k < rest.len() && rest[k] == before[i];
                    assert(newer(files[k], files[files.len() - 1]));
                }
            } else {
                assert(newer(before[i], before[j]));
            }
        }
    }
}

/// Sorting leaves the same files, the newest first.
pub proof fn sorting_orders_the_same_files(files: Seq<(u64, Seq<char>)>)
    ensures
        newest_first(sorted(files)),
        sorted(files).to_multiset() == files.to_multiset(),
        sorted(files).len() == files.len(),
    decreases files.len(),
{
    broadcast use vstd::seq_lib::group_to_multiset_ensures;

    if files.len() > 0 {
        sorting_orders_the_same_files(files.drop_last());
        lemma_placed(sorted(files.drop_last()), files.last());
        assert(files =~= files.drop_last().push(files.last()));
    }
}

fn is_newer(a: &(u64, String), b: &(u64, String)) -> (r: bool)
    ensures
        r == newer((a.0, a.1@), (b.0, b.1@)),
{
    proof {
        lemma_path_order(steps(a.1@), steps(b.1@));
        lemma_path_once(steps(a.1@), steps(b.1@));
    }
    a.0 > b.0 || (a.0 == b.0 && !path_before(a.1.as_str(), b.1.as_str()))
}

fn put(files: &mut Vec<(u64, String)>, file: (u64, String))
    ensures
        files_view(final(files)@) == placed(files_view(old(files)@), (file.0, file.1@)),
{
    let ghost all = files_view(files@);
    let ghost f = (file.0, file.1@);
    let mut at: usize = files.len();
    let ghost mut behind: Seq<(u64, Seq<char>)> = seq![];
    assert(all.take(at as int) =~= all);
    assert(placed(all, f) + behind =~= placed(all, f));
    while at > 0 && is_newer(&file, &files[at - 1])
        invariant
            at <= files@.len(),
            all == files_view(files@),
            f == (file.0, file.1@),
            behind == all.skip(at as int),
            placed(all, f) == placed(all.take(at as int), f) + behind,
        decreases at,
    {
        proof {
            let last = all[at - 1];
            assert(last == (files@[at - 1].0, files@[at - 1].1@));
            assert(all.take(at as int).drop_last() =~= all.take(at - 1));
            assert(all.take(at as int).last() == last);
            assert(placed(all.take(at - 1), f).push(last) + behind =~= placed(
                all.take(at - 1),
                f,
            ) + (seq![last] + behind));
            assert(seq![last] + behind =~= all.skip(at - 1));
            behind = all.skip(at - 1);
        }
        at = at - 1;
    }
    proof {
        assert(placed(all.take(at as int), f) == all.take(at as int).push(f)) by {
            if at > 0 {
                assert(all.take(at as int).last() == (files@[at - 1].0, files@[at - 1].1@));
            }
        }
        assert(all.take(at as int).push(f) + behind =~= all.insert(at as int, f));
    }
    files.insert(at, file);
    assert(files_view(files@) =~= all.insert(at as int, f));
}

/// The files that are followed: the newest of those that were written to
/// lately.
pub open spec fn followed(files: Seq<(u64, Seq<char>)>, now: u64) -> Seq<(u64, Seq<char>)> {
    let recent = sorted(
        files.filter(|f: (u64, Seq<char>)| now <= f.0 || now - f.0 <= codex::RECENT_MS),
    );
    if recent.len() <= codex::MAX_SESSIONS {
        recent
    } else {
        recent.take(codex::MAX_SESSIONS as int)
    }
}

pub fn choose_files(files: &Vec<(u64, String)>, now: u64) -> (r: Vec<(u64, String)>)
    ensures
        files_view(r@) == followed(files_view(files@), now),
{
    let ghost all = files_view(files@);
    let ghost lately = |f: (u64, Seq<char>)| now <= f.0 || now - f.0 <= codex::RECENT_MS;
    let mut out: Vec<(u64, String)> = Vec::new();
    let mut i: usize = 0;
    reveal(Seq::filter);
    assert(all.take(0) =~= seq![]);
    assert(files_view(out@) =~= seq![]);
    assert(sorted(all.take(0).filter(lately)) =~= seq![]);
    while i < files.len()
        invariant
            i <= files@.len(),
            all == files_view(files@),
            lately == (|f: (u64, Seq<char>)| now <= f.0 || now - f.0 <= codex::RECENT_MS),
            files_view(out@) == sorted(all.take(i as int).filter(lately)),
        decreases files@.len() - i,
    {
        proof {
            reveal(Seq::filter);
            let f = (files@[i as int].0, files@[i as int].1@);
            assert(all.take(i + 1).drop_last() =~= all.take(i as int));
            assert(all.take(i + 1).last() == f);
            if lately(f) {
                assert(all.take(i + 1).filter(lately) =~= all.take(i as int).filter(lately).push(
                    f,
                ));
                assert(all.take(i + 1).filter(lately).drop_last() =~= all.take(i as int).filter(
                    lately,
                ));
            }
        }
        if now <= files[i].0 || now - files[i].0 <= codex::RECENT_MS {
            put(&mut out, (files[i].0, files[i].1.clone()));
        }
        i = i + 1;
    }
    assert(all.take(i as int) =~= all);
    assert(files_view(out@).len() == out@.len());
    if out.len() > codex::MAX_SESSIONS {
        let ghost before = files_view(out@);
        out.truncate(codex::MAX_SESSIONS);
        assert(files_view(out@) =~= before.take(codex::MAX_SESSIONS as int));
    }
    out
}

// --- titles ----------------------------------------------------------------
/// How much of the index is read: recent names are at its end.
pub const INDEX_TAIL: u64 = 2_097_152;

/// What a title is cut to.
pub const TITLE_LIMIT: usize = 180;

/// The place behind the next line end, or the length of the bytes when there
/// is none.
pub open spec fn line_end(bytes: Seq<u8>) -> int
    decreases bytes.len(),
{
    if bytes.len() == 0 {
        0
    } else if bytes[0] == 0x0a {
        1
    } else {
        1 + line_end(bytes.skip(1))
    }
}

pub proof fn lemma_line_end(bytes: Seq<u8>)
    ensures
        0 <= line_end(bytes) <= bytes.len(),
        bytes.len() > 0 ==> line_end(bytes) > 0,
    decreases bytes.len(),
{
    if bytes.len() > 0 && bytes[0] != 0x0a {
        lemma_line_end(bytes.skip(1));
    }
}

/// The title a line of the index gives to a task.
pub open spec fn line_title(line: Seq<u8>) -> Option<(Seq<char>, Seq<char>)> {
    if line.len() == 0 || line.last() != 0x0a {
        None
    } else {
        match json::parsed(line) {
            Some(v) => entry_title(v),
            None => None,
        }
    }
}

/// The title an entry of the index gives to a task.
pub open spec fn entry_title(v: JsonView) -> Option<(Seq<char>, Seq<char>)> {
    match (v.text_at("id"@), v.text_at("thread_name"@)) {
        (Some(id), Some(name)) => Some((id, text::truncated(name, TITLE_LIMIT as nat))),
        _ => None,
    }
}

/// The titles with those of the lines in `bytes` on top of them: the last one
/// given to a task is its title.
pub open spec fn titles_from(bytes: Seq<u8>, before: Map<Seq<char>, Seq<char>>) -> Map<
    Seq<char>,
    Seq<char>,
>
    decreases bytes.len(),
{
    proof {
        lemma_line_end(bytes);
    }
    let n = line_end(bytes);
    if bytes.len() == 0 {
        before
    } else {
        titles_from(
            bytes.skip(n),
            match line_title(bytes.take(n)) {
                Some(t) => before.insert(t.0, t.1),
                None => before,
            },
        )
    }
}

/// The titles in the end of an index that starts at `start`: the first line is
/// left out when its beginning may be missing.
pub open spec fn titles_of(bytes: Seq<u8>, start: u64) -> Map<Seq<char>, Seq<char>> {
    titles_from(
        if start > 0 {
            bytes.skip(line_end(bytes))
        } else {
            bytes
        },
        Map::empty(),
    )
}

pub open spec fn text_values(m: Map<Seq<char>, String>) -> Map<Seq<char>, Seq<char>> {
    m.map_values(|s: String| s@)
}

fn find_line_end(bytes: &Vec<u8>, from: usize) -> (r: usize)
    requires
        from <= bytes@.len(),
    ensures
        from <= r <= bytes@.len(),
        r - from == line_end(bytes@.skip(from as int)),
{
    let mut i: usize = from;
    while i < bytes.len()
        invariant
            from <= i <= bytes@.len(),
            line_end(bytes@.skip(from as int)) == i - from + line_end(bytes@.skip(i as int)),
        decreases bytes@.len() - i,
    {
        if bytes[i] == 0x0a {
            return i + 1;
        }
        assert(bytes@.skip(i as int).skip(1) =~= bytes@.skip(i + 1));
        i = i + 1;
    }
    i
}

/// The title an entry of the index gives, once it has been read.
pub fn title_of(v: &json::Json) -> (r: Option<(String, String)>)
    ensures
        (match r {
            Some(t) => Some((t.0@, t.1@)),
            None => None,
        }) == entry_title(v@),
{
    match (v.text_at("id"), v.text_at("thread_name")) {
        (Some(id), Some(name)) => Some((id.to_owned(), text::truncate(name, TITLE_LIMIT))),
        _ => None,
    }
}

/// Reads the titles in the end of the index that starts at `start`.
pub fn read_titles(bytes: &Vec<u8>, start: u64) -> (r: Table<String>)
    ensures
        text_values(r@) == titles_of(bytes@, start),
{
    let mut titles: Table<String> = Table::new();
    let mut from: usize = 0;
    assert(bytes@.skip(0) =~= bytes@);
    if start > 0 {
        from = find_line_end(bytes, 0);
    }
    assert(text_values(titles@) =~= Map::<Seq<char>, Seq<char>>::empty());
    while from < bytes.len()
        invariant
            from <= bytes@.len(),
            titles_from(bytes@.skip(from as int), text_values(titles@)) == titles_of(
                bytes@,
                start,
            ),
        decreases bytes@.len() - from,
    {
        let ghost rest = bytes@.skip(from as int);
        let ghost before = text_values(titles@);
        proof {
            lemma_line_end(rest);
        }
        let end: usize = find_line_end(bytes, from);
        let line = vstd::slice::slice_subrange(bytes.as_slice(), from, end);
        assert(line@ =~= rest.take(end - from));
        assert(rest.skip(end - from) =~= bytes@.skip(end as int));
        if line[line.len() - 1] == 0x0a {
            if let Some(v) = json::from_bytes(line) {
                if let Some((id, name)) = title_of(&v) {
                    let ghost held = name@;
                    titles.insert(id.as_str(), name);
                    assert(text_values(titles@) =~= before.insert(id@, held));
                }
            }
        }
        from = end;
    }
    assert(bytes@.skip(from as int) =~= seq![]);
    titles
}

// --- in order --------------------------------------------------------------
/// Whether one session comes no later than another, by id.
pub open spec fn no_later(a: SessionView, b: SessionView) -> bool {
    a.session_id == b.session_id || strings::precedes(a.session_id, b.session_id)
}

pub open spec fn in_order(sessions: Seq<SessionView>) -> bool {
    forall|i: int, j: int|
        0 <= i < j < sessions.len() ==> no_later(#[trigger] sessions[i], #[trigger] sessions[j])
}

/// The sessions with one more among them, behind those that come no later.
pub open spec fn slotted(sessions: Seq<SessionView>, s: SessionView) -> Seq<SessionView>
    decreases sessions.len(),
{
    if sessions.len() == 0 || no_later(sessions.last(), s) {
        sessions.push(s)
    } else {
        slotted(sessions.drop_last(), s).push(sessions.last())
    }
}

/// The sessions by their ids, those with the same id in the order they came.
pub open spec fn by_id(sessions: Seq<SessionView>) -> Seq<SessionView>
    decreases sessions.len(),
{
    if sessions.len() == 0 {
        seq![]
    } else {
        slotted(by_id(sessions.drop_last()), sessions.last())
    }
}

proof fn lemma_slotted(sessions: Seq<SessionView>, s: SessionView)
    requires
        in_order(sessions),
    ensures
        in_order(slotted(sessions, s)),
        slotted(sessions, s).to_multiset() == sessions.to_multiset().insert(s),
    decreases sessions.len(),
{
    broadcast use vstd::seq_lib::group_to_multiset_ensures;

    if sessions.len() == 0 {
    } else if no_later(sessions.last(), s) {
        let after = sessions.push(s);
        assert forall|i: int, j: int| 0 <= i < j < after.len() implies no_later(
            #[trigger] after[i],
            #[trigger] after[j],
        ) by {
            if j == sessions.len() && i < sessions.len() - 1 {
                assert(no_later(sessions[i], sessions[sessions.len() - 1]));
                if sessions[i].session_id != sessions.last().session_id
                    && sessions.last().session_id != s.session_id {
                    strings::lemma_order_chain(
                        sessions[i].session_id,
                        sessions.last().session_id,
                        s.session_id,
                    );
                }
            }
        }
    } else {
        strings::lemma_order(sessions.last().session_id, s.session_id);
        let rest = sessions.drop_last();
        lemma_slotted(rest, s);
        let before = slotted(rest, s);
        let after = slotted(sessions, s);
        assert(sessions =~= rest.push(sessions.last()));
        assert(after.to_multiset() =~= sessions.to_multiset().insert(s));
        assert forall|i: int, j: int| 0 <= i < j < after.len() implies no_later(
            #[trigger] after[i],
            #[trigger] after[j],
        ) by {
            if j == before.len() {
                assert(before.to_multiset().count(before[i]) > 0) by {
                    assert(before.contains(before[i]));
                }
                if before[i] != s {
                    assert(rest.to_multiset().count(before[i]) > 0);
                    assert(rest.contains(before[i]));
                    let k = choose|k: int| 0 <= k < rest.len() && rest[k] == before[i];
                    assert(no_later(sessions[k], sessions[sessions.len() - 1]));
                }
            } else {
                assert(no_later(before[i], before[j]));
            }
        }
    }
}

/// Ordering leaves the same sessions, in the order of their ids.
pub proof fn ordering_keeps_the_sessions(sessions: Seq<SessionView>)
    ensures
        in_order(by_id(sessions)),
        by_id(sessions).to_multiset() == sessions.to_multiset(),
    decreases sessions.len(),
{
    broadcast use vstd::seq_lib::group_to_multiset_ensures;

    if sessions.len() > 0 {
        ordering_keeps_the_sessions(sessions.drop_last());
        lemma_slotted(by_id(sessions.drop_last()), sessions.last());
        assert(sessions =~= sessions.drop_last().push(sessions.last()));
    }
}

fn slot(sessions: &mut Vec<Session>, s: Session)
    ensures
        state::session_views(final(sessions)@) == slotted(
            state::session_views(old(sessions)@),
            s@,
        ),
{
    let ghost all = state::session_views(sessions@);
    let ghost held = s@;
    let mut at: usize = sessions.len();
    let ghost mut behind: Seq<SessionView> = seq![];
    assert(all.take(at as int) =~= all);
    assert(slotted(all, held) + behind =~= slotted(all, held));
    while at > 0 && !strings::same(
        sessions[at - 1].session_id.as_str(),
        s.session_id.as_str(),
    ) && !strings::comes_before(sessions[at - 1].session_id.as_str(), s.session_id.as_str())
        invariant
            at <= sessions@.len(),
            all == state::session_views(sessions@),
            held == s@,
            behind == all.skip(at as int),
            slotted(all, held) == slotted(all.take(at as int), held) + behind,
        decreases at,
    {
        proof {
            let last = all[at - 1];
            assert(last == sessions@[at - 1]@);
            assert(all.take(at as int).drop_last() =~= all.take(at - 1));
            assert(all.take(at as int).last() == last);
            assert(slotted(all.take(at - 1), held).push(last) + behind =~= slotted(
                all.take(at - 1),
                held,
            ) + (seq![last] + behind));
            assert(seq![last] + behind =~= all.skip(at - 1));
            behind = all.skip(at - 1);
        }
        at = at - 1;
    }
    proof {
        assert(slotted(all.take(at as int), held) == all.take(at as int).push(held)) by {
            if at > 0 {
                assert(all.take(at as int).last() == sessions@[at - 1]@);
            }
        }
        assert(all.take(at as int).push(held) + behind =~= all.insert(at as int, held));
    }
    sessions.insert(at, s);
    assert(state::session_views(sessions@) =~= all.insert(at as int, held));
}

/// Puts the sessions in the order of their ids.
pub fn arrange(sessions: Vec<Session>) -> (r: Vec<Session>)
    ensures
        state::session_views(r@) == by_id(state::session_views(sessions@)),
{
    let ghost all = state::session_views(sessions@);
    let mut out: Vec<Session> = Vec::new();
    let mut i: usize = 0;
    assert(all.take(0) =~= seq![]);
    assert(state::session_views(out@) =~= seq![]);
    while i < sessions.len()
        invariant
            i <= sessions@.len(),
            all == state::session_views(sessions@),
            state::session_views(out@) == by_id(all.take(i as int)),
        decreases sessions@.len() - i,
    {
        assert(all.take(i + 1).drop_last() =~= all.take(i as int));
        assert(all.take(i + 1).last() == sessions@[i as int]@);
        slot(&mut out, sessions[i].copy());
        i = i + 1;
    }
    assert(all.take(i as int) =~= all);
    out
}

// --- the rollouts being followed -------------------------------------------
/// The rollouts being followed, by file, and the titles of their tasks.
pub struct Tracker {
    pub watches: Vec<(String, Watch)>,
    pub titles: Table<String>,
}

pub open spec fn watches_view(watches: Seq<(String, Watch)>) -> Seq<(Seq<char>, WatchView)> {
    watches.map_values(|w: (String, Watch)| (w.0@, w.1@))
}

/// What is known of a file.
pub open spec fn known(watches: Seq<(Seq<char>, WatchView)>, file: Seq<char>) -> Option<WatchView>
    decreases watches.len(),
{
    if watches.len() == 0 {
        None
    } else if watches[0].0 == file {
        Some(watches[0].1)
    } else {
        known(watches.skip(1), file)
    }
}

/// What one file is watched with: what was known of it, or nothing.
pub open spec fn watched(watches: Seq<(Seq<char>, WatchView)>, file: Seq<char>) -> (
    Seq<char>,
    WatchView,
) {
    (
        file,
        match known(watches, file) {
            Some(w) => w,
            None => codex::unread(),
        },
    )
}

/// What the rollouts show, those left out that are not worth showing.
pub open spec fn presented(
    watches: Seq<(Seq<char>, WatchView)>,
    titles: Map<Seq<char>, String>,
    now: u64,
    mode: Mode,
) -> Seq<SessionView>
    decreases watches.len(),
{
    if watches.len() == 0 {
        seq![]
    } else {
        let before = presented(watches.drop_last(), titles, now, mode);
        let w = watches.last().1;
        if codex::worth_showing(w, now) {
            before.push(codex::titled(codex::shown(w, now, mode), titles))
        } else {
            before
        }
    }
}

proof fn lemma_known_elsewhere(watches: Seq<(Seq<char>, WatchView)>, i: int, file: Seq<char>)
    requires
        0 <= i < watches.len(),
        watches[i].0 != file,
    ensures
        known(watches.remove(i), file) == known(watches, file),
    decreases watches.len(),
{
    if i == 0 {
        assert(watches.remove(0) =~= watches.skip(1));
    } else {
        let rest = watches.skip(1);
        assert(watches.remove(i).skip(1) =~= rest.remove(i - 1));
        assert(watches.remove(i)[0] == watches[0]);
        if watches[0].0 != file {
            lemma_known_elsewhere(rest, i - 1, file);
        }
    }
}

impl Tracker {
    pub fn new() -> (r: Tracker)
        ensures
            watches_view(r.watches@) == Seq::<(Seq<char>, WatchView)>::empty(),
            r.titles@ == Map::<Seq<char>, String>::empty(),
    {
        let r = Tracker { watches: Vec::new(), titles: Table::new() };
        assert(watches_view(r.watches@) =~= Seq::<(Seq<char>, WatchView)>::empty());
        r
    }

    fn take(watches: &mut Vec<(String, Watch)>, file: &str) -> (r: Watch)
        ensures
            r@ == watched(watches_view(old(watches)@), file@).1,
            forall|other: Seq<char>|
                other != file@ ==> #[trigger] known(watches_view(final(watches)@), other) == known(
                    watches_view(old(watches)@),
                    other,
                ),
    {
        let ghost all = watches_view(watches@);
        let mut i: usize = 0;
        assert(all.skip(0) =~= all);
        while i < watches.len()
            invariant
                i <= watches@.len(),
                watches@ == old(watches)@,
                all == watches_view(watches@),
                known(all, file@) == known(all.skip(i as int), file@),
            decreases watches@.len() - i,
        {
            assert(all.skip(i as int)[0] == (watches@[i as int].0@, watches@[i as int].1@));
            assert(all.skip(i as int).skip(1) =~= all.skip(i + 1));
            if strings::same(watches[i].0.as_str(), file) {
                let (_, watch) = watches.remove(i);
                proof {
                    assert(watches_view(watches@) =~= all.remove(i as int));
                    assert forall|other: Seq<char>| other != file@ implies #[trigger] known(
                        watches_view(watches@),
                        other,
                    ) == known(all, other) by {
                        lemma_known_elsewhere(all, i as int, other);
                    }
                }
                return watch;
            }
            i = i + 1;
        }
        Watch::default()
    }

    /// Follows these files and no others. What is known of a file that stays is
    /// kept.
    pub fn follow(&mut self, files: &Vec<String>)
        requires
            strings::views(files@).no_duplicates(),
        ensures
            watches_view(final(self).watches@).len() == files@.len(),
            forall|i: int|
                0 <= i < files@.len() ==> #[trigger] watches_view(final(self).watches@)[i]
                    == watched(watches_view(old(self).watches@), files@[i]@),
            final(self).titles@ == old(self).titles@,
    {
        let ghost before = watches_view(self.watches@);
        let ghost names = strings::views(files@);
        let mut held: Vec<(String, Watch)> = Vec::new();
        core::mem::swap(&mut held, &mut self.watches);
        let mut out: Vec<(String, Watch)> = Vec::new();
        let mut i: usize = 0;
        while i < files.len()
            invariant
                i <= files@.len(),
                names == strings::views(files@),
                names.no_duplicates(),
                out@.len() == i,
                forall|j: int|
                    0 <= j < i ==> #[trigger] watches_view(out@)[j] == watched(
                        before,
                        files@[j]@,
                    ),
                forall|k: Seq<char>|
                    !names.take(i as int).contains(k) ==> #[trigger] known(
                        watches_view(held@),
                        k,
                    ) == known(before, k),
            decreases files@.len() - i,
        {
            let ghost name = files@[i as int]@;
            let ghost left = watches_view(held@);
            proof {
                assert(names[i as int] == name);
                assert(!names.take(i as int).contains(name)) by {
                    if names.take(i as int).contains(name) {
                        let j = choose|j: int| 0 <= j < i && names.take(i as int)[j] == name;
                        assert(names[j] == names[i as int]);
                    }
                }
                assert(known(left, name) == known(before, name));
            }
            let watch = Self::take(&mut held, files[i].as_str());
            let ghost earlier = watches_view(out@);
            let ghost w = watch@;
            out.push((files[i].clone(), watch));
            proof {
                assert(watches_view(out@) =~= earlier.push((name, w)));
                assert forall|k: Seq<char>|
                    !names.take(i + 1).contains(k) implies #[trigger] known(
                    watches_view(held@),
                    k,
                ) == known(before, k) by {
                    assert(names.take(i + 1)[i as int] == name);
                    if names.take(i as int).contains(k) {
                        let j = choose|j: int| 0 <= j < i && names.take(i as int)[j] == k;
                        assert(names.take(i + 1)[j] == k);
                    }
                    assert(k != name);
                    assert(known(left, k) == known(before, k));
                }
            }
            i = i + 1;
        }
        self.watches = out;
    }

    /// The sessions of the rollouts that are worth showing, in order.
    pub fn sessions(&self, now: u64, mode: Mode) -> (r: Vec<Session>)
        ensures
            state::session_views(r@) == by_id(
                presented(watches_view(self.watches@), self.titles@, now, mode),
            ),
    {
        let ghost all = watches_view(self.watches@);
        let mut out: Vec<Session> = Vec::new();
        let mut i: usize = 0;
        assert(all.take(0) =~= seq![]);
        assert(state::session_views(out@) =~= seq![]);
        while i < self.watches.len()
            invariant
                i <= self.watches@.len(),
                all == watches_view(self.watches@),
                state::session_views(out@) == presented(
                    all.take(i as int),
                    self.titles@,
                    now,
                    mode,
                ),
            decreases self.watches@.len() - i,
        {
            let ghost before = state::session_views(out@);
            assert(all.take(i + 1).drop_last() =~= all.take(i as int));
            assert(all.take(i + 1).last() == (
                self.watches@[i as int].0@,
                self.watches@[i as int].1@,
            ));
            if let Some(s) = codex::present(&self.watches[i].1, &self.titles, now, mode) {
                let ghost held = s@;
                out.push(s);
                assert(state::session_views(out@) =~= before.push(held));
            }
            i = i + 1;
        }
        assert(all.take(i as int) =~= all);
        arrange(out)
    }

    /// Whether every rollout has been read to its end.
    pub fn is_caught_up(&self) -> (r: bool)
        ensures
            r == (forall|i: int|
                0 <= i < self.watches@.len() ==> (#[trigger] self.watches@[i]).1@.ready),
    {
        let mut i: usize = 0;
        while i < self.watches.len()
            invariant
                i <= self.watches@.len(),
                forall|j: int| 0 <= j < i ==> (#[trigger] self.watches@[j]).1@.ready,
            decreases self.watches@.len() - i,
        {
            if !self.watches[i].1.ready {
                assert(!self.watches@[i as int].1@.ready);
                return false;
            }
            i = i + 1;
        }
        true
    }
}

/// How many reads it takes at most to catch up with a rollout's tail.
pub const CATCH_UP_READS: u64 = 18;

/// Reading that often covers the whole tail that is read of a long rollout.
pub proof fn catching_up_covers_the_tail()
    ensures
        codex::READ_BYTES * CATCH_UP_READS >= codex::INITIAL_TAIL + codex::READ_BYTES,
{
}

// --- opening a task --------------------------------------------------------
/// The id of a task, if a session is one that can be opened.
pub open spec fn task_id(session_id: Seq<char>) -> Option<Seq<char>> {
    if strings::begins(session_id, "codex:"@) && codex::is_plain(session_id.skip(6)) {
        Some(session_id.skip(6))
    } else {
        None
    }
}

pub open spec fn has_chat(sessions: Seq<SessionView>, id: Seq<char>) -> bool {
    exists|i: int| 0 <= i < sessions.len() && (#[trigger] sessions[i]).chat_id == id
}

/// The address that opens a session's task in the desktop app: only a task that
/// is known, and only by an id that cannot mean anything else.
pub open spec fn address_spec(session_id: Seq<char>, sessions: Seq<SessionView>) -> Option<
    Seq<char>,
> {
    match task_id(session_id) {
        Some(id) => if has_chat(sessions, id) {
            Some("codex://threads/"@ + id)
        } else {
            None
        },
        None => None,
    }
}

pub fn open_address(session_id: &str, sessions: &Vec<Session>) -> (r: Option<String>)
    ensures
        strings::opt_view(r) == address_spec(session_id@, state::session_views(sessions@)),
{
    if !strings::starts_with(session_id, "codex:") {
        return None;
    }
    proof {
        reveal_strlit("codex:");
    }
    let v = strings::chars_of(session_id);
    let id = strings::slice(&v, 6, v.len());
    assert(id@ =~= session_id@.skip(6));
    if !codex::plain_id(id.as_str()) {
        return None;
    }
    let ghost all = state::session_views(sessions@);
    let mut i: usize = 0;
    while i < sessions.len()
        invariant
            i <= sessions@.len(),
            all == state::session_views(sessions@),
            task_id(session_id@) == Some(id@),
            forall|j: int| 0 <= j < i ==> (#[trigger] all[j]).chat_id != id@,
        decreases sessions@.len() - i,
    {
        assert(all[i as int] == sessions@[i as int]@);
        if strings::same(sessions[i].chat_id.as_str(), id.as_str()) {
            return Some(strings::concat2("codex://threads/", id.as_str()));
        }
        i = i + 1;
    }
    None
}

} // verus!
