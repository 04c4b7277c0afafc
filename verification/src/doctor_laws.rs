//! What the checkup says, and when.

use vstd::prelude::*;
use vstd::string::*;

use crate::doctor;
use crate::doctor::{
    CheckView, CodexFolder, Facts, ProgramView, SettingsView, StartupView, Storage,
};
use crate::agent;
use crate::desktop;
use crate::hotkey;
use crate::install;
use crate::json;
use crate::json::JsonView;
use crate::state::SessionView;
use crate::strings;

verus! {

/// The three statuses are different.
proof fn lemma_statuses()
    ensures
        "ok"@.len() == 2,
        "warn"@.len() == 4,
        "fail"@.len() == 4,
        "warn"@ != "fail"@,
{
    reveal_strlit("ok");
    reveal_strlit("warn");
    reveal_strlit("fail");
    assert("warn"@[0] != "fail"@[0]);
}

/// The hooks are fine when every event runs us. Without a file, or with an event
/// that does not, installing mends it; a file that makes no sense is not touched.
pub proof fn the_hooks_are_fine_when_every_event_runs_us(settings: SettingsView)
    ensures
        ({
            let c = doctor::hooks_spec(settings);
            let read = settings matches SettingsView::Text(text) && json::parsed_text(text) is Some;
            let missing = match install::settings_spec(Some(settings->Text_0)) {
                Ok(root) => install::missing_spec(root, install::event_names()),
                Err(_) => install::event_names(),
            };
            &&& c.id == "hooks"@
            &&& settings is Missing ==> c.status == "fail"@ && c.fix == Some("install"@)
            &&& settings is Unreadable ==> c.status == "fail"@ && c.fix is None && c.detail
                == agent::settings_spec() + " cannot be read."@
            &&& settings is Text && !read ==> c.status == "fail"@ && c.fix is None && c.detail
                == agent::settings_spec()
                + " is not valid JSON, so it was left alone. Fix the file first."@
            &&& read && missing.len() == 0 ==> c.status == "ok"@ && c.fix is None && c.detail
                == "All 15 events registered."@
            &&& read && missing.len() > 0 ==> c.status == "fail"@ && c.fix == Some("install"@)
            &&& read && missing.len() == 15 ==> c.detail
                == "Not installed. Nothing will ever reach the pet until they are."@
            &&& read && missing.len() > 0 && missing.len() != 15 ==> c.detail == "Missing: "@
                + strings::listed(missing, ", "@) + ". Something rewrote settings.json."@
        }),
{
    lemma_statuses();
}

/// The program that the hooks run has to be there, and should be this one.
pub proof fn the_hooks_should_run_this_program(p: ProgramView)
    ensures
        ({
            let c = doctor::binary_spec(p);
            let same = match p.resolved {
                Some(same) => same,
                None => desktop::folded(p.registered->0) == desktop::folded(p.current->0),
            };
            &&& c.id == "binary"@ && c.label == "Hook program"@
            &&& p.current is None ==> c.status == "warn"@ && c.fix is None
            &&& p.current is Some && p.registered is None ==> c.status == "ok"@ && c.fix is None
            &&& p.current is Some && p.registered is Some && !p.exists ==> c.status == "fail"@
                && c.fix == Some("install"@) && c.detail == "The hooks point at "@ + p.registered->0
                + ", which no longer exists. Reinstall to update the path."@
            &&& p.current is Some && p.registered is Some && p.exists && !same ==> c.status
                == "warn"@ && c.fix is None && c.detail
                == "The hooks run a different copy of Pipsqueak ("@ + p.registered->0 + ")."@
            &&& p.current is Some && p.registered is Some && p.exists && same ==> c.status == "ok"@
                && c.fix is None
        }),
{
    lemma_statuses();
}

/// A session folder that cannot be written fails; a Codex folder that cannot be
/// read is only doubtful, and one that is not there is fine.
pub proof fn the_folders_are_tried(dir: Seq<char>, storage: Storage, folder: CodexFolder)
    ensures
        ({
            let c = doctor::storage_spec(dir, storage);
            &&& c.id == "storage"@ && c.label == "Session folder"@ && c.fix is None
            &&& storage is NoFolder ==> c.status == "fail"@ && c.detail == "Cannot create "@ + dir
                + "."@
            &&& storage is Writable ==> c.status == "ok"@ && c.detail == dir + " is writable."@
            &&& storage matches Storage::Refused(why) ==> c.status == "fail"@ && c.detail == dir
                + " is not writable: "@ + why@
        }),
        ({
            let c = doctor::codex_spec(dir, folder);
            &&& c.id == "codex"@ && c.label == "Codex sessions"@ && c.fix is None
            &&& folder is Missing ==> c.status == "ok"@
            &&& folder is Readable ==> c.status == "ok"@ && c.detail == dir + " is readable."@
            &&& folder matches CodexFolder::Refused(why) ==> c.status == "warn"@ && c.detail == dir
                + " is not readable: "@ + why@
        }),
{
    lemma_statuses();
}

/// The overlay runs while its heartbeat is less than six seconds old.
pub proof fn the_overlay_runs_while_it_beats(v: JsonView, now: u64)
    ensures
        doctor::is_fresh(Some(v), now) <==> (v.field("ms"@).uint() matches Some(ms) && now < ms
            + 6000),
        !doctor::is_fresh(None, now),
        doctor::overlay_spec(true).status == "ok"@,
        doctor::overlay_spec(false).status == "warn"@,
        doctor::overlay_spec(true).id == "overlay"@ && doctor::overlay_spec(false).id == "overlay"@,
{
}

/// The shortcut is fine when it is off, or is the one that was asked for in any
/// case; another one, or none, is doubtful.
pub proof fn the_shortcut_should_be_the_one_asked_for(
    registered: Seq<char>,
    wanted: Seq<char>,
    log: Option<JsonView>,
    now: u64,
)
    ensures
        ({
            let c = doctor::hotkey_spec(registered, wanted, log, now);
            let off = strings::trimmed(wanted).len() == 0 || hotkey::turned_off(wanted);
            let same = strings::ascii_lowered(registered) == strings::ascii_lowered(
                strings::trimmed(wanted),
            );
            &&& c.id == "hotkey"@ && c.label == "Keyboard shortcut"@ && c.fix is None
            &&& c.status == "ok"@ <==> off || (registered.len() > 0 && same)
            &&& c.status == "warn"@ <==> !off && (registered.len() == 0 || !same)
            &&& off ==> c.detail == "Turned off."@
            &&& !off && registered.len() > 0 && same ==> c.detail == registered
                + " shows and hides the pet. "@ + doctor::fired_spec(log, now)
            &&& !off && registered.len() > 0 && !same ==> c.detail == wanted
                + " was already taken, so "@ + registered + " is being used instead."@
        }),
{
    lemma_statuses();
}

/// How often the shortcut was pressed, and how many seconds ago the last time.
pub proof fn presses_are_told(v: JsonView, fired: u64, at: u64, now: u64)
    requires
        v.field("fired"@) == JsonView::Unsigned(fired),
        v.field("at"@) == JsonView::Unsigned(at),
        at <= now,
    ensures
        doctor::fired_spec(Some(v), now) == "Pressed "@ + strings::decimal_spec(fired as nat)
            + " time(s), last "@ + strings::decimal_spec(((now - at) / 1000) as nat) + "s ago."@,
        doctor::fired_spec(None, now) == "Not pressed yet since it was installed."@,
{
}

/// The pet should come back after a reboot: its entry is there and starts this
/// program.
pub proof fn the_pet_should_come_back(s: StartupView)
    ensures
        ({
            let c = doctor::autostart_spec(s);
            let same = match s.resolved {
                Some(same) => same,
                None => desktop::normal(s.registered->0, s.windows) == desktop::normal(
                    s.current,
                    s.windows,
                ),
            };
            &&& c.id == "autostart"@ && c.label == "After a reboot"@ && c.fix is None
            &&& c.status == "ok"@ <==> s.registered is Some && same
            &&& c.status == "warn"@ <==> s.registered is None || !same
            &&& s.registered is Some && !same && !s.present ==> c.detail == "Starts "@
                + s.registered->0 + ", which is not there any more. Reinstalling corrects it."@
        }),
{
    lemma_statuses();
}

/// The newest of the sessions is the one that nobody is newer than.
pub proof fn nobody_is_newer_than_the_newest(sessions: Seq<SessionView>)
    ensures
        forall|i: int|
            0 <= i < sessions.len() ==> (#[trigger] sessions[i]).updated_ms <= doctor::newest(
                sessions,
            ),
        sessions.len() > 0 ==> exists|i: int|
            0 <= i < sessions.len() && (#[trigger] sessions[i]).updated_ms == doctor::newest(
                sessions,
            ),
        sessions.len() == 0 ==> doctor::newest(sessions) == 0,
    decreases sessions.len(),
{
    if sessions.len() > 0 {
        let less = sessions.drop_last();
        nobody_is_newer_than_the_newest(less);
        let last = sessions.last();
        assert(sessions[sessions.len() - 1] == last);
        assert forall|i: int| 0 <= i < sessions.len() implies (#[trigger] sessions[i]).updated_ms
            <= doctor::newest(sessions) by {
            if i < less.len() {
                assert(less[i] == sessions[i]);
            }
        }
        if last.updated_ms <= doctor::newest(less) && less.len() > 0 {
            let k = choose|k: int|
                0 <= k < less.len() && (#[trigger] less[k]).updated_ms == doctor::newest(less);
            assert(sessions[k] == less[k]);
        }
    }
}

/// An hour without an event is doubtful, and so is no session at all.
pub proof fn an_hour_of_silence_is_doubtful(sessions: Seq<SessionView>, now: u64)
    ensures
        ({
            let c = doctor::traffic_spec(sessions, now);
            let quiet = now >= doctor::newest(sessions) + 61 * 60 * 1000;
            &&& c.id == "traffic"@ && c.label == "Recent activity"@ && c.fix is None
            &&& c.status == "warn"@ <==> sessions.len() == 0 || quiet
            &&& c.status == "ok"@ <==> sessions.len() > 0 && !quiet
            &&& sessions.len() > 0 && now >= doctor::newest(sessions) ==> c.detail
                == strings::decimal_spec(sessions.len()) + " session(s); last event "@
                + strings::decimal_spec(((now - doctor::newest(sessions)) / 60000) as nat)
                + " minute(s) ago."@
        }),
{
    lemma_statuses();
}

/// One failure fails the whole, and one doubt makes it doubtful.
pub proof fn the_worst_check_decides(checks: Seq<CheckView>)
    ensures
        ({
            let all = doctor::overall_spec(checks);
            let fails = exists|i: int|
                0 <= i < checks.len() && (#[trigger] checks[i]).status == "fail"@;
            let warns = exists|i: int|
                0 <= i < checks.len() && (#[trigger] checks[i]).status == "warn"@;
            &&& all == "fail"@ <==> fails
            &&& all == "warn"@ <==> !fails && warns
            &&& all == "ok"@ <==> !fails && !warns
        }),
{
    lemma_statuses();
}

/// Everything is looked at, in this order.
pub proof fn everything_is_looked_at(facts: Facts)
    ensures
        ({
            let c = doctor::checks_spec(facts);
            &&& c.len() == 8
            &&& c[0].id == "hooks"@ && c[1].id == "binary"@ && c[2].id == "storage"@ && c[3].id
                == "overlay"@
            &&& c[4].id == "hotkey"@ && c[5].id == "autostart"@ && c[6].id == "traffic"@ && c[7].id
                == "codex"@
        }),
{
}

/// A session that was touched since is named, by its project where it has one.
pub proof fn touched_sessions_are_named(sessions: Seq<SessionView>, s: SessionView, since: u64)
    ensures
        doctor::touched_names(sessions.push(s), since) == (if s.updated_ms >= since {
            doctor::touched_names(sessions, since).push(
                if s.project.len() > 0 {
                    s.project
                } else {
                    s.session_id
                },
            )
        } else {
            doctor::touched_names(sessions, since)
        }),
        doctor::touched_names(Seq::empty(), since) == Seq::<Seq<char>>::empty(),
{
    assert(sessions.push(s).drop_last() =~= sessions);
}

/// A report has one row for each check: what it is called, how it went, and what
/// there is to say.
pub proof fn a_report_has_a_row_for_each_check(
    checks: Seq<CheckView>,
    c: CheckView,
    home: Seq<char>,
)
    ensures
        doctor::table(checks.push(c), home) == doctor::table(checks, home) + ("| "@ + c.label
            + " | "@ + c.status + " | "@ + doctor::cell(c.detail, home) + " |\n"@),
        doctor::table(Seq::empty(), home) == Seq::<char>::empty(),
{
    assert(checks.push(c).drop_last() =~= checks);
}

} // verus!
