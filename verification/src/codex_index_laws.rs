//! Which Codex tasks are followed, and in what order they are shown.

use vstd::prelude::*;
use vstd::string::*;

use crate::codex;
use crate::codex::WatchView;
use crate::codex_index;
use crate::json;
use crate::narration::Mode;
use crate::state::SessionView;
use crate::strings;
use crate::text;

verus! {

/// A file that was written in the last twelve hours.
pub open spec fn is_recent(file: (u64, Seq<char>), now: u64) -> bool {
    now <= file.0 + 12 * 60 * 60 * 1000
}

/// Of the files that were written in the last twelve hours the thirty-two newest
/// are followed, the newest first, and nothing else.
pub proof fn the_newest_files_are_followed(files: Seq<(u64, Seq<char>)>, now: u64)
    ensures
        ({
            let kept = codex_index::followed(files, now);
            let recent = files.filter(|f: (u64, Seq<char>)| is_recent(f, now));
            &&& kept.len() == (if recent.len() <= 32 { recent.len() } else { 32nat })
            &&& forall|i: int|
                0 <= i < kept.len() ==> is_recent(#[trigger] kept[i], now)
                    && files.contains(kept[i])
            &&& forall|i: int, j: int|
                0 <= i < j < kept.len() ==> (#[trigger] kept[i]).0 >= (#[trigger] kept[j]).0
            &&& forall|f: (u64, Seq<char>), i: int|
                #![trigger files.contains(f), kept[i]]
                files.contains(f) && is_recent(f, now) && !kept.contains(f) && 0 <= i < kept.len()
                    ==> kept[i].0 >= f.0
        }),
{
    broadcast use vstd::seq_lib::group_to_multiset_ensures;

    let pick = |f: (u64, Seq<char>)| now <= f.0 || now - f.0 <= codex::RECENT_MS;
    let same = |f: (u64, Seq<char>)| is_recent(f, now);
    let recent = files.filter(pick);
    lemma_same_filter(files, pick, same);
    let all = codex_index::sorted(recent);
    codex_index::sorting_orders_the_same_files(recent);
    let kept = codex_index::followed(files, now);
    assert forall|i: int| 0 <= i < kept.len() implies is_recent(#[trigger] kept[i], now)
        && files.contains(kept[i]) by {
        assert(kept[i] == all[i]);
        assert(all.to_multiset().count(all[i]) > 0) by {
            assert(all.contains(all[i]));
        }
        assert(recent.to_multiset().count(all[i]) > 0);
        assert(recent.contains(all[i]));
        lemma_kept(files, pick, all[i]);
        assert(pick(all[i]));
    }
    assert forall|i: int, j: int| 0 <= i < j < kept.len() implies (#[trigger] kept[i]).0 >= (
    #[trigger] kept[j]).0 by {
        assert(codex_index::newer(all[i], all[j]));
    }
    assert forall|f: (u64, Seq<char>), i: int|
        #![trigger files.contains(f), kept[i]]
        files.contains(f) && is_recent(f, now) && !kept.contains(f) && 0 <= i
            < kept.len() implies kept[i].0 >= f.0 by {
        assert(pick(f));
        lemma_kept(files, pick, f);
        assert(recent.to_multiset().count(f) > 0);
        assert(all.to_multiset().count(f) > 0);
        assert(all.contains(f));
        let n = choose|n: int| 0 <= n < all.len() && all[n] == f;
        if n < kept.len() {
            assert(kept[n] == f);
        }
        assert(codex_index::newer(all[i], all[n]));
    }
}

proof fn lemma_kept(
    files: Seq<(u64, Seq<char>)>,
    f: spec_fn((u64, Seq<char>)) -> bool,
    file: (u64, Seq<char>),
)
    ensures
        files.filter(f).contains(file) <==> files.contains(file) && f(file),
    decreases files.len(),
{
    reveal(Seq::filter);
    if files.len() > 0 {
        let less = files.drop_last();
        let last = files.last();
        lemma_kept(less, f, file);
        assert(files =~= less.push(last));
        if less.contains(file) {
            let k = choose|k: int| 0 <= k < less.len() && less[k] == file;
            assert(files[k] == file);
        }
        if files.contains(file) && file != last {
            let k = choose|k: int| 0 <= k < files.len() && files[k] == file;
            assert(less[k] == file);
        }
        assert(files[files.len() - 1] == last);
        if f(last) {
            let kept = less.filter(f).push(last);
            assert(files.filter(f) =~= kept);
            assert(kept[kept.len() - 1] == last);
            if less.filter(f).contains(file) {
                let k = choose|k: int| 0 <= k < less.filter(f).len() && less.filter(f)[k] == file;
                assert(kept[k] == file);
            }
            if kept.contains(file) && file != last {
                let k = choose|k: int| 0 <= k < kept.len() && kept[k] == file;
                assert(less.filter(f)[k] == file);
            }
        }
    }
}

proof fn lemma_same_filter(
    files: Seq<(u64, Seq<char>)>,
    f: spec_fn((u64, Seq<char>)) -> bool,
    g: spec_fn((u64, Seq<char>)) -> bool,
)
    requires
        forall|x: (u64, Seq<char>)| #[trigger] f(x) == g(x),
    ensures
        files.filter(f) == files.filter(g),
    decreases files.len(),
{
    reveal(Seq::filter);
    if files.len() > 0 {
        lemma_same_filter(files.drop_last(), f, g);
        assert(f(files.last()) == g(files.last()));
    }
}

/// A line of the index names a task, over what an earlier line said; a line that
/// says nothing, or is not finished, changes nothing.
pub proof fn the_last_line_names_a_task(
    line: Seq<u8>,
    rest: Seq<u8>,
    before: Map<Seq<char>, Seq<char>>,
)
    requires
        forall|i: int| 0 <= i < line.len() ==> line[i] != 0x0a,
    ensures
        codex_index::titles_from(line.push(0x0a) + rest, before) == codex_index::titles_from(
            rest,
            match json::parsed(line.push(0x0a)) {
                Some(v) => match (v.text_at("id"@), v.text_at("thread_name"@)) {
                    (Some(id), Some(name)) => before.insert(id, text::truncated(name, 180)),
                    _ => before,
                },
                None => before,
            },
        ),
        codex_index::titles_from(line, before) == before,
        codex_index::titles_of(line.push(0x0a) + rest, 0) == codex_index::titles_from(
            line.push(0x0a) + rest,
            Map::empty(),
        ),
        forall|start: u64|
            start > 0 ==> #[trigger] codex_index::titles_of(line.push(0x0a) + rest, start)
                == codex_index::titles_from(rest, Map::empty()),
{
    let whole = line.push(0x0a);
    let bytes = whole + rest;
    lemma_line(line, rest);
    assert(bytes.take(whole.len() as int) =~= whole);
    assert(bytes.skip(whole.len() as int) =~= rest);
    lemma_no_line(line);
    if line.len() > 0 {
        assert(line.take(line.len() as int) =~= line);
        assert(line.skip(line.len() as int) =~= Seq::<u8>::empty());
        assert(line.last() == line[line.len() - 1]);
        assert(codex_index::line_title(line) is None);
        reveal_with_fuel(codex_index::titles_from, 2);
    }
}

proof fn lemma_line(line: Seq<u8>, rest: Seq<u8>)
    requires
        forall|i: int| 0 <= i < line.len() ==> line[i] != 0x0a,
    ensures
        codex_index::line_end(line.push(0x0a) + rest) == line.len() + 1,
    decreases line.len(),
{
    let bytes = line.push(0x0a) + rest;
    if line.len() > 0 {
        assert(bytes[0] == line[0]);
        assert(bytes.skip(1) =~= line.skip(1).push(0x0a) + rest);
        lemma_line(line.skip(1), rest);
    }
}

proof fn lemma_no_line(line: Seq<u8>)
    requires
        forall|i: int| 0 <= i < line.len() ==> line[i] != 0x0a,
    ensures
        codex_index::line_end(line) == line.len(),
    decreases line.len(),
{
    if line.len() > 0 {
        lemma_no_line(line.skip(1));
    }
}

/// Tasks are listed by their ids, each of them once.
pub proof fn tasks_are_listed_by_their_ids(sessions: Seq<SessionView>)
    ensures
        ({
            let listed = codex_index::by_id(sessions);
            &&& forall|i: int, j: int|
                0 <= i < j < listed.len() ==> !strings::precedes(
                    (#[trigger] listed[j]).session_id,
                    (#[trigger] listed[i]).session_id,
                )
            &&& listed.to_multiset() == sessions.to_multiset()
        }),
{
    codex_index::ordering_keeps_the_sessions(sessions);
    let listed = codex_index::by_id(sessions);
    assert forall|i: int, j: int| 0 <= i < j < listed.len() implies !strings::precedes(
        (#[trigger] listed[j]).session_id,
        (#[trigger] listed[i]).session_id,
    ) by {
        assert(codex_index::no_later(listed[i], listed[j]));
        strings::lemma_order(listed[i].session_id, listed[j].session_id);
    }
}

/// A task that is worth showing is shown under its title, and any other is not.
pub proof fn what_is_worth_showing_is_shown(
    watches: Seq<(Seq<char>, WatchView)>,
    file: Seq<char>,
    w: WatchView,
    titles: Map<Seq<char>, String>,
    now: u64,
    mode: Mode,
)
    ensures
        ({
            let before = codex_index::presented(watches, titles, now, mode);
            let fresh = w.ready && w.accepted && now <= w.session.updated_ms + 12 * 60 * 60 * 1000;
            codex_index::presented(watches.push((file, w)), titles, now, mode) == (if fresh {
                before.push(codex::titled(codex::shown(w, now, mode), titles))
            } else {
                before
            })
        }),
        codex_index::presented(Seq::empty(), titles, now, mode) == Seq::<SessionView>::empty(),
{
    assert(watches.push((file, w)).drop_last() =~= watches);
}

/// A file that is followed already goes on from where it was; another starts
/// unread.
pub proof fn what_was_read_is_not_read_again(
    watches: Seq<(Seq<char>, WatchView)>,
    file: Seq<char>,
    k: int,
)
    requires
        0 <= k <= watches.len(),
        forall|j: int| 0 <= j < k ==> (#[trigger] watches[j]).0 != file,
        k < watches.len() ==> watches[k].0 == file,
    ensures
        codex_index::watched(watches, file) == (file, if k < watches.len() {
            watches[k].1
        } else {
            codex::unread()
        }),
        codex::unread().offset == 0 && !codex::unread().accepted && !codex::unread().ready,
        codex::unread().pending.len() == 0 && !codex::unread().oversized,
    decreases k,
{
    if k > 0 {
        let rest = watches.skip(1);
        assert forall|j: int| 0 <= j < k - 1 implies (#[trigger] rest[j]).0 != file by {
            assert(rest[j] == watches[j + 1]);
        }
        assert(watches[0].0 != file);
        what_was_read_is_not_read_again(rest, file, k - 1);
    }
}

/// A session of Codex is named after its task.
pub proof fn a_session_is_named_after_its_task(id: Seq<char>, other: Seq<char>)
    ensures
        codex::is_plain(id) ==> codex_index::task_id("codex:"@ + id) == Some(id),
        codex_index::task_id(other) matches Some(task) ==> other == "codex:"@ + task,
{
    reveal_strlit("codex:");
    assert(("codex:"@ + id).take(6) =~= "codex:"@);
    assert(("codex:"@ + id).skip(6) =~= id);
    if let Some(task) = codex_index::task_id(other) {
        assert(other =~= other.take(6) + other.skip(6));
    }
}

/// A task that is on some card is opened by its id; any other is not, nor is a
/// session of something else.
pub proof fn only_a_known_task_is_opened(id: Seq<char>, sessions: Seq<SessionView>, k: int)
    requires
        codex::is_plain(id),
        0 <= k < sessions.len(),
    ensures
        sessions[k].chat_id == id ==> codex_index::address_spec("codex:"@ + id, sessions) == Some(
            "codex://threads/"@ + id,
        ),
        (forall|i: int| 0 <= i < sessions.len() ==> (#[trigger] sessions[i]).chat_id != id)
            ==> codex_index::address_spec("codex:"@ + id, sessions) is None,
        forall|other: Seq<char>|
            !strings::begins(other, "codex:"@) ==> #[trigger] codex_index::address_spec(
                other,
                sessions,
            ) is None,
{
    a_session_is_named_after_its_task(id, id);
}

/// A rollout's file is named for what it is.
pub proof fn a_rollout_is_named_for_what_it_is(stamp: Seq<char>, name: Seq<char>)
    ensures
        codex_index::rollout_name("rollout-"@ + stamp + ".jsonl"@),
        codex_index::rollout_name(name) ==> strings::begins(name, "rollout-"@) && strings::finishes(
            name,
            ".jsonl"@,
        ),
{
    let whole = "rollout-"@ + stamp + ".jsonl"@;
    assert(whole.take("rollout-"@.len() as int) =~= "rollout-"@);
    assert(whole.skip(whole.len() - ".jsonl"@.len()) =~= ".jsonl"@);
}

} // verus!
