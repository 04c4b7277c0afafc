//! What holds of every session and of every configuration.

use vstd::prelude::*;
use vstd::string::*;

use crate::state;
use crate::state::{ConfigFile, ConfigView, EntryView, FateView, SessionView, Step};
use crate::strings;

verus! {

/// A session works while it thinks, runs something or makes room, and at no other
/// time.
pub proof fn these_states_are_work(state: Seq<char>)
    ensures
        state::running_state(state) <==> (state == "thinking"@ || state == "running"@ || state
            == "compacting"@),
{
}

/// A line is logged behind the others, unless it repeats the last one; of more
/// than twenty-four the oldest goes.
pub proof fn the_log_keeps_twenty_four_lines(recent: Seq<EntryView>, entry: EntryView)
    ensures
        ({
            let t = state::logged(recent, entry);
            let again = recent.len() > 0 && recent.last().state == entry.state && recent.last().text
                == entry.text;
            &&& again ==> t == recent
            &&& !again && recent.len() < 24 ==> t == recent.push(entry)
            &&& !again && recent.len() == 24 ==> t == recent.skip(1).push(entry)
        }),
{
    if recent.len() == 24 {
        assert(recent.push(entry).skip(1) =~= recent.skip(1).push(entry));
    }
}

/// A name keeps the letters, digits, dashes and underscores of an id and nothing
/// else, in their order.
pub proof fn a_name_keeps_what_is_plain(before: Seq<char>, c: char, behind: Seq<char>)
    requires
        before.len() + 1 + behind.len() <= 96,
    ensures
        ({
            let plain = strings::is_ascii_alnum(c) || c == '-' || c == '_';
            let left = state::name_chars(before, 96);
            let right = state::name_chars(behind, 96);
            state::name_chars(before + seq![c] + behind, 96) == (if plain {
                left + seq![c] + right
            } else {
                left + right
            })
        }),
{
    lemma_names_in_order(before, seq![c] + behind, 96);
    lemma_names_in_order(seq![c], behind, 96);
    assert(before + (seq![c] + behind) =~= before + seq![c] + behind);
    assert(seq![c].skip(1) =~= Seq::<char>::empty());
    reveal_with_fuel(state::name_chars, 2);
    lemma_roomy(Seq::<char>::empty(), 95, 96);
    let right = state::name_chars(behind, 96);
    assert(state::name_chars(before, 96) + (seq![c] + right) =~= state::name_chars(before, 96)
        + seq![c] + right);
    assert(Seq::<char>::empty() + right =~= right);
}

proof fn lemma_roomy(id: Seq<char>, n: nat, m: nat)
    requires
        id.len() <= n,
        id.len() <= m,
    ensures
        state::name_chars(id, n) == state::name_chars(id, m),
        state::name_chars(id, n).len() <= id.len(),
    decreases id.len(),
{
    if id.len() > 0 && n > 0 && m > 0 {
        if state::name_char(id[0]) {
            lemma_roomy(id.skip(1), (n - 1) as nat, (m - 1) as nat);
        } else {
            lemma_roomy(id.skip(1), n, m);
        }
    }
}

proof fn lemma_names_in_order(a: Seq<char>, b: Seq<char>, n: nat)
    requires
        a.len() + b.len() <= n,
    ensures
        state::name_chars(a + b, n) == state::name_chars(a, n) + state::name_chars(b, n),
    decreases a.len(),
{
    if a.len() == 0 {
        assert(a + b =~= b);
        assert(state::name_chars(a, n) + state::name_chars(b, n) =~= state::name_chars(b, n));
    } else {
        assert((a + b).skip(1) =~= a.skip(1) + b);
        if state::name_char(a[0]) {
            lemma_names_in_order(a.skip(1), b, (n - 1) as nat);
            lemma_roomy(b, (n - 1) as nat, n);
            let first = seq![a[0]];
            assert(first + (state::name_chars(a.skip(1), (n - 1) as nat) + state::name_chars(b, n))
                =~= first + state::name_chars(a.skip(1), (n - 1) as nat) + state::name_chars(b, n));
        } else {
            lemma_names_in_order(a.skip(1), b, n);
        }
    }
}

/// An id of nothing but other characters has a name all the same.
pub proof fn an_id_without_a_name_is_unknown(id: Seq<char>)
    ensures
        (forall|i: int|
            0 <= i < id.len() ==> !(strings::is_ascii_alnum(#[trigger] id[i]) || id[i] == '-'
                || id[i] == '_')) ==> state::sanitized(id) == "unknown"@,
        1 <= id.len() <= 96 && (forall|i: int|
            0 <= i < id.len() ==> (strings::is_ascii_alnum(#[trigger] id[i]) || id[i] == '-'
                || id[i] == '_')) ==> state::sanitized(id) == id,
{
    if forall|i: int|
        0 <= i < id.len() ==> !(strings::is_ascii_alnum(#[trigger] id[i]) || id[i] == '-' || id[i]
            == '_') {
        lemma_nothing_plain(id, 96);
    }
    if 1 <= id.len() <= 96 && (forall|i: int|
        0 <= i < id.len() ==> (strings::is_ascii_alnum(#[trigger] id[i]) || id[i] == '-' || id[i]
            == '_')) {
        lemma_all_plain(id, 96);
    }
}

proof fn lemma_nothing_plain(id: Seq<char>, n: nat)
    requires
        forall|i: int|
            0 <= i < id.len() ==> !(strings::is_ascii_alnum(#[trigger] id[i]) || id[i] == '-'
                || id[i] == '_'),
    ensures
        state::name_chars(id, n).len() == 0,
    decreases id.len(),
{
    if id.len() > 0 && n > 0 {
        let rest = id.skip(1);
        assert forall|i: int| 0 <= i < rest.len() implies !(strings::is_ascii_alnum(
            #[trigger] rest[i],
        ) || rest[i] == '-' || rest[i] == '_') by {
            assert(rest[i] == id[i + 1]);
        }
        lemma_nothing_plain(rest, n);
    }
}

proof fn lemma_all_plain(id: Seq<char>, n: nat)
    requires
        id.len() <= n,
        forall|i: int|
            0 <= i < id.len() ==> (strings::is_ascii_alnum(#[trigger] id[i]) || id[i] == '-'
                || id[i] == '_'),
    ensures
        state::name_chars(id, n) == id,
    decreases id.len(),
{
    if id.len() > 0 {
        let rest = id.skip(1);
        assert forall|i: int| 0 <= i < rest.len() implies (strings::is_ascii_alnum(
            #[trigger] rest[i],
        ) || rest[i] == '-' || rest[i] == '_') by {
            assert(rest[i] == id[i + 1]);
        }
        lemma_all_plain(rest, (n - 1) as nat);
        assert(state::name_char(id[0]));
        assert(seq![id[0]] + rest =~= id);
    }
}

/// Of two sessions the one that waits for a person is shown first, and then the
/// one that failed; otherwise the one that was active last.
pub proof fn who_waits_is_shown_first(list: Seq<SessionView>)
    ensures
        ({
            let shown = state::by_attention(list);
            forall|i: int, j: int|
                0 <= i < j < shown.len() ==> ({
                    let a = #[trigger] shown[i];
                    let b = #[trigger] shown[j];
                    let failed = a.waiting_since == 0 && a.outcome == "failed"@;
                    let failed_too = b.waiting_since == 0 && b.outcome == "failed"@;
                    &&& b.waiting_since > 0 ==> a.waiting_since > 0
                    &&& failed_too ==> a.waiting_since > 0 || failed
                    &&& (a.waiting_since > 0) == (b.waiting_since > 0) && failed == failed_too
                        ==> a.updated_ms >= b.updated_ms
                })
        }),
        state::by_attention(list).to_multiset() == list.to_multiset(),
{
    state::the_order_keeps_every_session(list);
    let shown = state::by_attention(list);
    assert forall|i: int, j: int| 0 <= i < j < shown.len() implies !state::ahead(
        #[trigger] shown[j],
        #[trigger] shown[i],
    ) by {}
}

/// Sessions that are as urgent and as old as each other stay in the order in which
/// they were found.
pub proof fn equals_stay_in_order(list: Seq<SessionView>, s: SessionView)
    requires
        state::by_attention(list).len() > 0,
        ({
            let last = state::by_attention(list).last();
            last.waiting_since == s.waiting_since && last.outcome == s.outcome && last.updated_ms
                == s.updated_ms
        }),
    ensures
        state::by_attention(list.push(s)) == state::by_attention(list).push(s),
{
    assert(list.push(s).drop_last() =~= list);
}

/// A session goes when its agent is gone or it was silent for more than twelve
/// hours; one that claims to work and was silent for more than five minutes is
/// put to rest; any other is left.
pub proof fn the_silent_are_put_to_rest(s: SessionView, now: u64, alive: bool)
    ensures
        ({
            let fate = state::swept(s, now, alive);
            let gone = (s.agent_pid != 0 && !alive) || now > s.updated_ms + 12 * 60 * 60 * 1000;
            let works = s.state == "thinking"@ || s.state == "running"@ || s.state == "compacting"@;
            let stuck = works && s.outcome.len() == 0 && s.waiting_since == 0 && s.pending_since
                == 0 && now > s.updated_ms + 5 * 60 * 1000;
            &&& fate is Remove <==> gone
            &&& fate is Write <==> !gone && stuck
            &&& fate is Leave <==> !gone && !stuck
            &&& fate matches FateView::Write(t) ==> {
                &&& t.stalled
                &&& t.state == "idle"@
                &&& t.kind == "Idle"@
                &&& t.activity == Seq::<char>::empty()
                &&& t.agents == Seq::<Seq<char>>::empty() && t.subagents == 0
                &&& t.turn_ended_ms == now
                &&& t.headline == s.headline
                &&& t.outcome == s.outcome
                &&& t.updated_ms == s.updated_ms
                &&& t.session_id == s.session_id
            }
        }),
{
}

/// A lock is waited for, and on the fortieth attempt done without. One that is two
/// seconds old is taken away, but only the first time; one whose age nobody knows is
/// not.
pub proof fn a_lock_is_waited_for_forty_times(attempts: u32, created: bool, age: Option<u64>)
    requires
        attempts < 40,
    ensures
        ({
            let step = state::lock_step(attempts, created, age);
            let old = age is Some && age->0 >= 2;
            &&& step == Step::Steal <==> !created && attempts == 0 && old
            &&& step == Step::Proceed <==> created || attempts == 39
            &&& step == Step::Wait <==> !created && attempts < 39 && !(attempts == 0 && old)
        }),
{
}

// --- the configuration ------------------------------------------------------------------
/// Without a configuration, or with one that cannot be read, these settings hold.
pub proof fn these_settings_are_usual(file: ConfigFile)
    requires
        !(file is Parsed),
    ensures
        ({
            let c = state::loaded(file);
            &&& c.version == 2
            &&& c.pet == "byte"@
            &&& c.scale == 0x4000_0000_0000_0000
            &&& c.show_bubble && c.flash_on_finish
            &&& !c.welcomed && !c.click_through && !c.show_scratch && !c.alert_on_waiting
                && !c.quiet && !c.update_check && !c.autostart_initialised
            &&& c.hotkey == "Ctrl+Alt+P"@
            &&& c.update_dismissed == Seq::<char>::empty() && c.narrate == Seq::<char>::empty()
            &&& c.x is None && c.y is None
        }),
{
}

/// A scale stays between once and six times, and what is no number above zero is
/// twice; a pet without a name is the usual one. Nothing else is touched.
pub proof fn what_is_out_of_range_is_pulled_back(c: ConfigView)
    ensures
        ({
            let t = c.clamped();
            let (one, two, six) = (
                0x3FF0_0000_0000_0000u64,
                0x4000_0000_0000_0000u64,
                0x4018_0000_0000_0000u64,
            );
            &&& one <= c.scale <= six ==> t.scale == c.scale
            &&& 0 < c.scale < one ==> t.scale == one
            &&& six < c.scale < 0x7FF0_0000_0000_0000 ==> t.scale == six
            &&& c.scale == 0 || c.scale >= 0x7FF0_0000_0000_0000 ==> t.scale == two
            &&& t.pet == (if strings::trimmed(c.pet).len() == 0 {
                "byte"@
            } else {
                c.pet
            })
            &&& t == (ConfigView { scale: t.scale, pet: t.pet, ..c })
        }),
{
}

/// An older configuration becomes one of this build's; a newer one keeps its
/// number.
pub proof fn an_older_configuration_is_brought_up_to_date(c: ConfigView)
    ensures
        c.version <= 2 ==> c.migrated().version == 2,
        c.version > 2 ==> c.migrated().version == c.version,
        c.migrated() == (ConfigView { version: c.migrated().version, ..c }),
{
}

/// A configuration of this build or an older one is written, within range and as one
/// of this build's; a newer one is not written at all.
pub proof fn a_newer_configuration_is_not_written_over(c: ConfigView)
    ensures
        state::stored_spec(c) is None <==> c.version > 2,
        state::stored_spec(c) matches Some(t) ==> {
            &&& t.version == 2
            &&& t.scale == c.clamped().scale && t.pet == c.clamped().pet
            &&& t == (ConfigView { version: 2, scale: t.scale, pet: t.pet, ..c })
        },
{
}

} // verus!
