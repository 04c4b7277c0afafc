//! "It isn't doing anything", answered without a support thread.
//!
//! Everything this app shows arrives through hooks, and there are several
//! ordinary ways for that chain to break silently: the hooks were never
//! registered, another tool rewrote the settings, the executable moved, or the
//! overlay is not actually running. From the outside every one of those looks
//! the same: like nothing happening.
//!
//! So the checks are concrete, and the interesting one is not a check at all. It
//! watches for real hook traffic while the user goes and does something.

use vstd::prelude::*;
use vstd::string::*;

use crate::agent;
use crate::desktop;
use crate::hotkey;
use crate::install;
use crate::json;
use crate::json::{Json, JsonView};
use crate::names;
use crate::names::NameSet;
use crate::state;
use crate::state::{Session, SessionView};
use crate::strings;

verus! {

/// A heartbeat older than this means whatever wrote it is gone.
pub const HEARTBEAT_STALE_MS: u64 = 6_000;

pub struct Check {
    pub id: &'static str,
    pub label: String,
    /// `ok` | `warn` | `fail`
    pub status: &'static str,
    /// One plain sentence. If something is wrong, it says what to do about it.
    pub detail: String,
    /// Set when a button can plausibly fix it.
    pub fix: Option<&'static str>,
}

pub struct Report {
    pub status: &'static str,
    pub checks: Vec<Check>,
    pub version: &'static str,
    pub platform: &'static str,
}

#[verifier::ext_equal]
pub struct CheckView {
    pub id: Seq<char>,
    pub label: Seq<char>,
    pub status: Seq<char>,
    pub detail: Seq<char>,
    pub fix: Option<Seq<char>>,
}

#[verifier::ext_equal]
pub struct ReportView {
    pub status: Seq<char>,
    pub checks: Seq<CheckView>,
    pub version: Seq<char>,
    pub platform: Seq<char>,
}

impl View for Check {
    type V = CheckView;

    open spec fn view(&self) -> CheckView {
        CheckView {
            id: self.id@,
            label: self.label@,
            status: self.status@,
            detail: self.detail@,
            fix: strings::opt_str(self.fix),
        }
    }
}

pub open spec fn check_views(checks: Seq<Check>) -> Seq<CheckView> {
    checks.map_values(|c: Check| c@)
}

impl View for Report {
    type V = ReportView;

    open spec fn view(&self) -> ReportView {
        ReportView {
            status: self.status@,
            checks: check_views(self.checks@),
            version: self.version@,
            platform: self.platform@,
        }
    }
}

pub open spec fn fine(id: Seq<char>, label: Seq<char>, detail: Seq<char>) -> CheckView {
    CheckView { id, label, status: "ok"@, detail, fix: None }
}

pub open spec fn doubtful(id: Seq<char>, label: Seq<char>, detail: Seq<char>) -> CheckView {
    CheckView { id, label, status: "warn"@, detail, fix: None }
}

pub open spec fn broken(
    id: Seq<char>,
    label: Seq<char>,
    detail: Seq<char>,
    fix: Option<Seq<char>>,
) -> CheckView {
    CheckView { id, label, status: "fail"@, detail, fix }
}

pub fn ok(id: &'static str, label: &str, detail: String) -> (r: Check)
    ensures
        r@ == fine(id@, label@, detail@),
{
    Check { id, label: label.to_owned(), status: "ok", detail, fix: None }
}

pub fn warn(id: &'static str, label: &str, detail: String) -> (r: Check)
    ensures
        r@ == doubtful(id@, label@, detail@),
{
    Check { id, label: label.to_owned(), status: "warn", detail, fix: None }
}

pub fn fail(
    id: &'static str,
    label: &str,
    detail: String,
    fix: Option<&'static str>,
) -> (r: Check)
    ensures
        r@ == broken(id@, label@, detail@, strings::opt_str(fix)),
{
    Check { id, label: label.to_owned(), status: "fail", detail, fix }
}

// --- the hooks -----------------------------------------------------------------
/// What was found on reading the settings.
pub enum Settings {
    Missing,
    Unreadable,
    Text(String),
}

#[verifier::ext_equal]
pub enum SettingsView {
    Missing,
    Unreadable,
    Text(Seq<char>),
}

impl View for Settings {
    type V = SettingsView;

    open spec fn view(&self) -> SettingsView {
        match self {
            Settings::Missing => SettingsView::Missing,
            Settings::Unreadable => SettingsView::Unreadable,
            Settings::Text(text) => SettingsView::Text(text@),
        }
    }
}

pub open spec fn hooks_label() -> Seq<char> {
    agent::product_spec() + " hooks"@
}

fn hooks_title() -> (r: String)
    ensures
        r@ == hooks_label(),
{
    strings::concat2(agent::product().as_str(), " hooks")
}

pub open spec fn hooks_check_view(status: Seq<char>, detail: Seq<char>, fix: Option<Seq<char>>) -> CheckView {
    CheckView { id: "hooks"@, label: hooks_label(), status, detail, fix }
}

/// What is said of the events that the settings lack.
pub open spec fn missing_check(missing: Seq<Seq<char>>) -> CheckView {
    if missing.len() == 0 {
        hooks_check_view("ok"@, "All 15 events registered."@, None)
    } else if missing.len() == 15 {
        hooks_check_view(
            "fail"@,
            "Not installed. Nothing will ever reach the pet until they are."@,
            Some("install"@),
        )
    } else {
        hooks_check_view(
            "fail"@,
            "Missing: "@ + strings::listed(missing, ", "@)
                + ". Something rewrote settings.json."@,
            Some("install"@),
        )
    }
}

/// Repairing a file that is not JSON is never offered. Writing over a file we
/// cannot parse is how a config that was merely being edited becomes a lost one.
pub open spec fn hooks_spec(settings: SettingsView) -> CheckView {
    match settings {
        SettingsView::Missing => hooks_check_view(
            "fail"@,
            "No "@ + agent::settings_spec() + ". Start "@ + agent::product_spec()
                + " once, then install the hooks."@,
            Some("install"@),
        ),
        SettingsView::Unreadable => hooks_check_view(
            "fail"@,
            agent::settings_spec() + " cannot be read."@,
            None,
        ),
        SettingsView::Text(text) => match json::parsed_text(text) {
            None => hooks_check_view(
                "fail"@,
                agent::settings_spec()
                    + " is not valid JSON, so it was left alone. Fix the file first."@,
                None,
            ),
            Some(_) => missing_check(
                match install::settings_spec(Some(text)) {
                    Ok(root) => install::missing_spec(root, install::event_names()),
                    Err(_) => install::event_names(),
                },
            ),
        },
    }
}

pub fn missing_verdict(missing: &Vec<String>) -> (r: Check)
    ensures
        r@ == missing_check(strings::views(missing@)),
{
    assert(strings::views(missing@).len() == missing@.len());
    if missing.len() == 0 {
        ok("hooks", hooks_title().as_str(), "All 15 events registered.".to_owned())
    } else if missing.len() == 15 {
        fail(
            "hooks",
            hooks_title().as_str(),
            "Not installed. Nothing will ever reach the pet until they are.".to_owned(),
            Some("install"),
        )
    } else {
        fail(
            "hooks",
            hooks_title().as_str(),
            strings::concat3(
                "Missing: ",
                strings::join_with(missing, ", ").as_str(),
                ". Something rewrote settings.json.",
            ),
            Some("install"),
        )
    }
}

pub fn hooks_check(settings: &Settings) -> (r: Check)
    ensures
        r@ == hooks_spec(settings@),
{
    match settings {
        Settings::Missing => fail(
            "hooks",
            hooks_title().as_str(),
            strings::concat3(
                strings::concat3("No ", agent::settings().as_str(), ". Start ").as_str(),
                agent::product().as_str(),
                " once, then install the hooks.",
            ),
            Some("install"),
        ),
        Settings::Unreadable => fail(
            "hooks",
            hooks_title().as_str(),
            strings::concat2(agent::settings().as_str(), " cannot be read."),
            None,
        ),
        Settings::Text(text) => {
            if json::parse(text.as_str()).is_none() {
                return fail(
                    "hooks",
                    hooks_title().as_str(),
                    strings::concat2(
                        agent::settings().as_str(),
                        " is not valid JSON, so it was left alone. Fix the file first.",
                    ),
                    None,
                );
            }
            missing_verdict(&install::missing_events(Some(text.as_str())))
        },
    }
}

// --- the program -------------------------------------------------------------------
/// What is known of the program that the hooks run.
pub struct Program {
    /// This program's path, `None` where it cannot be told.
    pub current: Option<String>,
    /// The path that is registered, if any.
    pub registered: Option<String>,
    /// Whether there is anything at the registered path.
    pub exists: bool,
    /// Whether the two are one file, `None` where they cannot be resolved.
    pub resolved: Option<bool>,
}

#[verifier::ext_equal]
pub struct ProgramView {
    pub current: Option<Seq<char>>,
    pub registered: Option<Seq<char>>,
    pub exists: bool,
    pub resolved: Option<bool>,
}

impl View for Program {
    type V = ProgramView;

    open spec fn view(&self) -> ProgramView {
        ProgramView {
            current: strings::opt_view(self.current),
            registered: strings::opt_view(self.registered),
            exists: self.exists,
            resolved: self.resolved,
        }
    }
}

pub open spec fn program_check(status: Seq<char>, detail: Seq<char>, fix: Option<Seq<char>>) -> CheckView {
    CheckView { id: "binary"@, label: "Hook program"@, status, detail, fix }
}

/// Paths that cannot be resolved are compared without regard to case and slash
/// direction: a raw comparison warned about "a different copy" that was this
/// one.
pub open spec fn binary_spec(p: ProgramView) -> CheckView {
    match (p.current, p.registered) {
        (None, _) => program_check("warn"@, "Cannot determine this program's path."@, None),
        (Some(_), None) => program_check("ok"@, "Nothing registered yet."@, None),
        (Some(current), Some(registered)) => {
            let same = match p.resolved {
                Some(same) => same,
                None => desktop::folded(registered) == desktop::folded(current),
            };
            if !p.exists {
                program_check(
                    "fail"@,
                    "The hooks point at "@ + registered
                        + ", which no longer exists. Reinstall to update the path."@,
                    Some("install"@),
                )
            } else if !same {
                program_check(
                    "warn"@,
                    "The hooks run a different copy of Pipsqueak ("@ + registered + ")."@,
                    None,
                )
            } else {
                program_check("ok"@, "Hooks point at this executable."@, None)
            }
        },
    }
}

pub fn binary_check(program: &Program) -> (r: Check)
    ensures
        r@ == binary_spec(program@),
{
    let current = match &program.current {
        None => {
            return warn(
                "binary",
                "Hook program",
                "Cannot determine this program's path.".to_owned(),
            );
        },
        Some(current) => current.as_str(),
    };
    let registered = match &program.registered {
        None => {
            return ok("binary", "Hook program", "Nothing registered yet.".to_owned());
        },
        Some(registered) => registered.as_str(),
    };
    let same = match program.resolved {
        Some(same) => same,
        None => desktop::same_path_folded(registered, current),
    };
    if !program.exists {
        fail(
            "binary",
            "Hook program",
            strings::concat3(
                "The hooks point at ",
                registered,
                ", which no longer exists. Reinstall to update the path.",
            ),
            Some("install"),
        )
    } else if !same {
        warn(
            "binary",
            "Hook program",
            strings::concat3("The hooks run a different copy of Pipsqueak (", registered, ")."),
        )
    } else {
        ok("binary", "Hook program", "Hooks point at this executable.".to_owned())
    }
}

// --- the session folder ---------------------------------------------------------------
/// What came of trying to write to the session folder.
pub enum Storage {
    NoFolder,
    Writable,
    Refused(String),
}

pub open spec fn storage_spec(dir: Seq<char>, storage: Storage) -> CheckView {
    match storage {
        Storage::NoFolder => broken(
            "storage"@,
            "Session folder"@,
            "Cannot create "@ + dir + "."@,
            None,
        ),
        Storage::Writable => fine("storage"@, "Session folder"@, dir + " is writable."@),
        Storage::Refused(why) => broken(
            "storage"@,
            "Session folder"@,
            dir + " is not writable: "@ + why@,
            None,
        ),
    }
}

pub fn storage_check(dir: &str, storage: &Storage) -> (r: Check)
    ensures
        r@ == storage_spec(dir@, *storage),
{
    match storage {
        Storage::NoFolder => fail(
            "storage",
            "Session folder",
            strings::concat3("Cannot create ", dir, "."),
            None,
        ),
        Storage::Writable => ok(
            "storage",
            "Session folder",
            strings::concat2(dir, " is writable."),
        ),
        Storage::Refused(why) => fail(
            "storage",
            "Session folder",
            strings::concat3(dir, " is not writable: ", why.as_str()),
            None,
        ),
    }
}

// --- Codex's folder -------------------------------------------------------------------
/// What came of looking into the folder that Codex keeps its sessions in.
pub enum CodexFolder {
    Missing,
    Readable,
    Refused(String),
}

/// Codex needs nothing installed, so its sessions are there to be read or there
/// are none: a machine without Codex has nothing wrong with it.
pub open spec fn codex_spec(dir: Seq<char>, folder: CodexFolder) -> CheckView {
    match folder {
        CodexFolder::Missing => fine(
            "codex"@,
            "Codex sessions"@,
            "No "@ + dir + ". Codex has no sessions to follow here."@,
        ),
        CodexFolder::Readable => fine("codex"@, "Codex sessions"@, dir + " is readable."@),
        CodexFolder::Refused(why) => doubtful(
            "codex"@,
            "Codex sessions"@,
            dir + " is not readable: "@ + why@,
        ),
    }
}

pub fn codex_check(dir: &str, folder: &CodexFolder) -> (r: Check)
    ensures
        r@ == codex_spec(dir@, *folder),
{
    match folder {
        CodexFolder::Missing => ok(
            "codex",
            "Codex sessions",
            strings::concat3("No ", dir, ". Codex has no sessions to follow here."),
        ),
        CodexFolder::Readable => ok(
            "codex",
            "Codex sessions",
            strings::concat2(dir, " is readable."),
        ),
        CodexFolder::Refused(why) => warn(
            "codex",
            "Codex sessions",
            strings::concat3(dir, " is not readable: ", why.as_str()),
        ),
    }
}

// --- the overlay -------------------------------------------------------------------------
pub open spec fn is_fresh(beat: Option<JsonView>, now: u64) -> bool {
    match beat {
        Some(value) => match value.field("ms"@).uint() {
            Some(ms) => now - ms < HEARTBEAT_STALE_MS,
            None => false,
        },
        None => false,
    }
}

pub open spec fn overlay_spec(fresh: bool) -> CheckView {
    if fresh {
        fine("overlay"@, "Overlay"@, "Running."@)
    } else {
        doubtful(
            "overlay"@,
            "Overlay"@,
            "No recent heartbeat. Session files are still recorded."@,
        )
    }
}

/// Whether a heartbeat that was parsed is recent.
pub fn beat_is_fresh(beat: Option<&Json>, now: u64) -> (r: bool)
    ensures
        r == is_fresh(json::opt_json(beat), now),
{
    match beat {
        Some(value) => match value.get("ms") {
            Some(found) => match found.as_u64() {
                Some(ms) => now.saturating_sub(ms) < HEARTBEAT_STALE_MS,
                None => false,
            },
            None => false,
        },
        None => false,
    }
}

/// Reading our own heartbeat looks circular, but it is not: the hooks are
/// separate processes, and this is the same file they use to decide whether
/// anyone is listening.
pub fn overlay_check(heartbeat: Option<&str>, now: u64) -> (r: Check)
    ensures
        r@ == overlay_spec(
            is_fresh(
                match heartbeat {
                    Some(text) => json::parsed_text(text@),
                    None => None,
                },
                now,
            ),
        ),
{
    let value = match heartbeat {
        Some(text) => json::parse(text),
        None => None,
    };
    let fresh = match value {
        Some(v) => beat_is_fresh(Some(&v), now),
        None => beat_is_fresh(None, now),
    };
    if fresh {
        ok("overlay", "Overlay", "Running.".to_owned())
    } else {
        warn(
            "overlay",
            "Overlay",
            "No recent heartbeat. Session files are still recorded.".to_owned(),
        )
    }
}

// --- the shortcut ---------------------------------------------------------------------------
pub open spec fn uint_or_zero(value: JsonView, key: Seq<char>) -> u64 {
    match value.field(key).uint() {
        Some(n) => n,
        None => 0,
    }
}

fn uint_at(value: &Json, key: &str) -> (r: u64)
    ensures
        r == uint_or_zero(value@, key@),
{
    match value.get(key) {
        Some(found) => match found.as_u64() {
            Some(n) => n,
            None => 0,
        },
        None => 0,
    }
}

pub open spec fn fired_spec(log: Option<JsonView>, now: u64) -> Seq<char> {
    match log {
        None => "Not pressed yet since it was installed."@,
        Some(value) => "Pressed "@ + strings::decimal_spec(uint_or_zero(value, "fired"@) as nat)
            + " time(s), last "@ + strings::decimal_spec(
            (state::saturated_age(now, uint_or_zero(value, "at"@)) / 1000) as nat,
        ) + "s ago."@,
    }
}

/// How many times the chord has actually reached us, and when.
///
/// Registering a hotkey and receiving one are separate things: another program
/// with a low-level keyboard hook can swallow the keypress on its way past, and
/// from inside this process that is indistinguishable from nobody pressing it.
pub fn fired_summary(log: Option<&Json>, now: u64) -> (r: String)
    ensures
        r@ == fired_spec(json::opt_json(log), now),
{
    match log {
        None => "Not pressed yet since it was installed.".to_owned(),
        Some(value) => {
            let count = strings::decimal(uint_at(value, "fired"));
            let ago = strings::decimal(now.saturating_sub(uint_at(value, "at")) / 1000);
            let head = strings::concat3("Pressed ", count.as_str(), " time(s), last ");
            strings::concat3(head.as_str(), ago.as_str(), "s ago.")
        },
    }
}

pub open spec fn hotkey_spec(
    registered: Seq<char>,
    wanted: Seq<char>,
    log: Option<JsonView>,
    now: u64,
) -> CheckView {
    let id = "hotkey"@;
    let label = "Keyboard shortcut"@;
    if hotkey::turned_off(wanted) {
        fine(id, label, "Turned off."@)
    } else if registered.len() == 0 {
        doubtful(
            id,
            label,
            "None registered. Every candidate chord is already claimed by another program; pick a free one with \"hotkey\" in config.json."@,
        )
    } else if strings::ascii_lowered(registered) == strings::ascii_lowered(
        strings::trimmed(wanted),
    ) {
        fine(id, label, registered + " shows and hides the pet. "@ + fired_spec(log, now))
    } else {
        doubtful(
            id,
            label,
            wanted + " was already taken, so "@ + registered + " is being used instead."@,
        )
    }
}

/// What is said of the shortcut, given what the log of its presses held.
pub fn hotkey_verdict(registered: &str, wanted: &str, log: Option<&Json>, now: u64) -> (r: Check)
    ensures
        r@ == hotkey_spec(registered@, wanted@, json::opt_json(log), now),
{
    if hotkey::is_off(wanted) {
        return ok("hotkey", "Keyboard shortcut", "Turned off.".to_owned());
    }
    if registered.is_empty() {
        return warn(
            "hotkey",
            "Keyboard shortcut",
            "None registered. Every candidate chord is already claimed by another program; pick a free one with \"hotkey\" in config.json.".to_owned(),
        );
    }
    let have = strings::lower_ascii(registered);
    let want = strings::lower_ascii(strings::trim(wanted).as_str());
    if strings::same(have.as_str(), want.as_str()) {
        ok(
            "hotkey",
            "Keyboard shortcut",
            strings::concat3(
                registered,
                " shows and hides the pet. ",
                fired_summary(log, now).as_str(),
            ),
        )
    } else {
        let head = strings::concat3(wanted, " was already taken, so ", registered);
        warn(
            "hotkey",
            "Keyboard shortcut",
            strings::concat2(head.as_str(), " is being used instead."),
        )
    }
}

pub fn hotkey_check(registered: &str, wanted: &str, log: Option<&str>, now: u64) -> (r: Check)
    ensures
        r@ == hotkey_spec(
            registered@,
            wanted@,
            match log {
                Some(text) => json::parsed_text(text@),
                None => None,
            },
            now,
        ),
{
    let value = match log {
        Some(text) => json::parse(text),
        None => None,
    };
    match value {
        Some(v) => hotkey_verdict(registered, wanted, Some(&v), now),
        None => hotkey_verdict(registered, wanted, None, now),
    }
}

// --- after a reboot ----------------------------------------------------------------------------
/// What is known of the autostart entry.
pub struct Startup {
    /// The program that the entry launches, if there is one.
    pub registered: Option<String>,
    /// This program's path.
    pub current: String,
    /// Whether the two are one file, `None` where they cannot be resolved.
    pub resolved: Option<bool>,
    /// Whether the program that is launched is there.
    pub present: bool,
    pub windows: bool,
}

#[verifier::ext_equal]
pub struct StartupView {
    pub registered: Option<Seq<char>>,
    pub current: Seq<char>,
    pub resolved: Option<bool>,
    pub present: bool,
    pub windows: bool,
}

impl View for Startup {
    type V = StartupView;

    open spec fn view(&self) -> StartupView {
        StartupView {
            registered: strings::opt_view(self.registered),
            current: self.current@,
            resolved: self.resolved,
            present: self.present,
            windows: self.windows,
        }
    }
}

/// An entry that starts another program which exists is left alone on purpose:
/// this is what a wrapper script looks like from here, and advice to reinstall
/// would be advice to undo a working setup.
pub open spec fn autostart_spec(s: StartupView) -> CheckView {
    let id = "autostart"@;
    let label = "After a reboot"@;
    match s.registered {
        None => doubtful(
            id,
            label,
            "Will not start "@ + desktop::at_login_spec(s.windows)
                + ". Turn it back on from the menu, or run `pipsqueak autostart on`."@,
        ),
        Some(registered) => {
            let same = match s.resolved {
                Some(same) => same,
                None => desktop::normal(registered, s.windows) == desktop::normal(
                    s.current,
                    s.windows,
                ),
            };
            if same {
                fine(id, label, "Starts "@ + desktop::at_login_spec(s.windows) + "."@)
            } else if s.present {
                doubtful(
                    id,
                    label,
                    "Starts "@ + registered
                        + ", which is not this program but does exist. Left alone in case it launches the pet for you; run `pipsqueak autostart on` to point it here instead."@,
                )
            } else {
                doubtful(
                    id,
                    label,
                    "Starts "@ + registered
                        + ", which is not there any more. Reinstalling corrects it."@,
                )
            }
        },
    }
}

/// Will the pet still be here after a reboot?
///
/// "It was gone this morning and the shortcut did nothing" is the same complaint
/// as "the hooks are not firing" from the outside, and this check is where
/// somebody looks for the answer.
pub fn autostart_check(startup: &Startup) -> (r: Check)
    ensures
        r@ == autostart_spec(startup@),
{
    let registered = match &startup.registered {
        None => {
            return warn(
                "autostart",
                "After a reboot",
                strings::concat3(
                    "Will not start ",
                    desktop::at_login(startup.windows),
                    ". Turn it back on from the menu, or run `pipsqueak autostart on`.",
                ),
            );
        },
        Some(registered) => registered.as_str(),
    };
    let same = match startup.resolved {
        Some(same) => same,
        None => desktop::same_program(registered, startup.current.as_str(), startup.windows),
    };
    if same {
        ok(
            "autostart",
            "After a reboot",
            strings::concat3("Starts ", desktop::at_login(startup.windows), "."),
        )
    } else if startup.present {
        warn(
            "autostart",
            "After a reboot",
            strings::concat3(
                "Starts ",
                registered,
                ", which is not this program but does exist. Left alone in case it launches the pet for you; run `pipsqueak autostart on` to point it here instead.",
            ),
        )
    } else {
        warn(
            "autostart",
            "After a reboot",
            strings::concat3(
                "Starts ",
                registered,
                ", which is not there any more. Reinstalling corrects it.",
            ),
        )
    }
}

// --- traffic --------------------------------------------------------------------------------------
/// When the newest of the sessions was updated, zero where there is none.
pub open spec fn newest(sessions: Seq<SessionView>) -> u64
    decreases sessions.len(),
{
    if sessions.len() == 0 {
        0
    } else {
        let before = newest(sessions.drop_last());
        if sessions.last().updated_ms > before {
            sessions.last().updated_ms
        } else {
            before
        }
    }
}

fn newest_of(sessions: &Vec<Session>) -> (r: u64)
    ensures
        r == newest(state::session_views(sessions@)),
{
    let ghost all = state::session_views(sessions@);
    let mut most: u64 = 0;
    let mut i: usize = 0;
    assert(all.take(0) =~= seq![]);
    while i < sessions.len()
        invariant
            i <= sessions@.len(),
            all == state::session_views(sessions@),
            most == newest(all.take(i as int)),
        decreases sessions@.len() - i,
    {
        assert(all.take(i + 1).drop_last() =~= all.take(i as int));
        assert(all.take(i + 1).last() == sessions@[i as int]@);
        if sessions[i].updated_ms > most {
            most = sessions[i].updated_ms;
        }
        i = i + 1;
    }
    assert(all.take(i as int) =~= all);
    most
}

/// Session files linger for hours; their mere existence is not a pulse. Traffic
/// older than an hour is worth a warning.
pub open spec fn traffic_spec(sessions: Seq<SessionView>, now: u64) -> CheckView {
    let id = "traffic"@;
    let label = "Recent activity"@;
    if sessions.len() == 0 {
        doubtful(id, label, "No sessions recorded yet. Run the connection test below."@)
    } else {
        let minutes = state::saturated_age(now, newest(sessions)) / 60_000;
        let detail = strings::decimal_spec(sessions.len()) + " session(s); last event "@
            + strings::decimal_spec(minutes as nat) + " minute(s) ago."@;
        if minutes > 60 {
            doubtful(id, label, detail)
        } else {
            fine(id, label, detail)
        }
    }
}

pub fn traffic_check(sessions: &Vec<Session>, now: u64) -> (r: Check)
    ensures
        r@ == traffic_spec(state::session_views(sessions@), now),
{
    assert(state::session_views(sessions@).len() == sessions@.len());
    if sessions.len() == 0 {
        return warn(
            "traffic",
            "Recent activity",
            "No sessions recorded yet. Run the connection test below.".to_owned(),
        );
    }
    let minutes: u64 = now.saturating_sub(newest_of(sessions)) / 60_000;
    let count = strings::decimal(sessions.len() as u64);
    let head = strings::concat2(count.as_str(), " session(s); last event ");
    let detail = strings::concat3(
        head.as_str(),
        strings::decimal(minutes).as_str(),
        " minute(s) ago.",
    );
    if minutes > 60 {
        warn("traffic", "Recent activity", detail)
    } else {
        ok("traffic", "Recent activity", detail)
    }
}

// --- the report -------------------------------------------------------------------------------------
pub open spec fn any_status(checks: Seq<CheckView>, status: Seq<char>) -> bool {
    exists|i: int| 0 <= i < checks.len() && (#[trigger] checks[i]).status == status
}

/// A report is as bad as the worst of its checks.
pub open spec fn overall_spec(checks: Seq<CheckView>) -> Seq<char> {
    if any_status(checks, "fail"@) {
        "fail"@
    } else if any_status(checks, "warn"@) {
        "warn"@
    } else {
        "ok"@
    }
}

fn has_status(checks: &Vec<Check>, status: &str) -> (r: bool)
    ensures
        r == any_status(check_views(checks@), status@),
{
    let ghost all = check_views(checks@);
    let mut i: usize = 0;
    while i < checks.len()
        invariant
            i <= checks@.len(),
            all == check_views(checks@),
            forall|j: int| 0 <= j < i ==> (#[trigger] all[j]).status != status@,
        decreases checks@.len() - i,
    {
        assert(all[i as int].status == checks@[i as int].status@);
        if strings::same(checks[i].status, status) {
            return true;
        }
        i = i + 1;
    }
    false
}

pub fn overall(checks: &Vec<Check>) -> (r: &'static str)
    ensures
        r@ == overall_spec(check_views(checks@)),
{
    if has_status(checks, "fail") {
        "fail"
    } else if has_status(checks, "warn") {
        "warn"
    } else {
        "ok"
    }
}

/// What the checks look at.
pub struct Facts {
    pub settings: Settings,
    pub program: Program,
    /// The session folder, and what came of trying to write to it.
    pub dir: String,
    pub storage: Storage,
    /// The text of the heartbeat file.
    pub heartbeat: Option<String>,
    /// The chord that was registered, empty where none was.
    pub chord: String,
    /// The chord that was asked for.
    pub wanted: String,
    /// The text of the log of its presses.
    pub presses: Option<String>,
    pub startup: Startup,
    pub sessions: Vec<Session>,
    /// Codex's session folder, and what came of looking into it.
    pub codex_dir: String,
    pub codex: CodexFolder,
    pub now: u64,
}

pub open spec fn parsed_file(text: Option<String>) -> Option<JsonView> {
    match text {
        Some(t) => json::parsed_text(t@),
        None => None,
    }
}

pub open spec fn checks_spec(facts: Facts) -> Seq<CheckView> {
    seq![
        hooks_spec(facts.settings@),
        binary_spec(facts.program@),
        storage_spec(facts.dir@, facts.storage),
        overlay_spec(is_fresh(parsed_file(facts.heartbeat), facts.now)),
        hotkey_spec(facts.chord@, facts.wanted@, parsed_file(facts.presses), facts.now),
        autostart_spec(facts.startup@),
        traffic_spec(state::session_views(facts.sessions@), facts.now),
        codex_spec(facts.codex_dir@, facts.codex),
    ]
}

fn text_of(text: &Option<String>) -> (r: Option<&str>)
    ensures
        strings::opt_str(r) == strings::opt_view(*text),
{
    match text {
        Some(t) => Some(t.as_str()),
        None => None,
    }
}

/// Every check, and how it looks on the whole.
pub fn run(facts: &Facts, version: &'static str, platform: &'static str) -> (r: Report)
    ensures
        r@ == (ReportView {
            status: overall_spec(checks_spec(*facts)),
            checks: checks_spec(*facts),
            version: version@,
            platform: platform@,
        }),
{
    let checks: Vec<Check> = vec![
        hooks_check(&facts.settings),
        binary_check(&facts.program),
        storage_check(facts.dir.as_str(), &facts.storage),
        overlay_check(text_of(&facts.heartbeat), facts.now),
        hotkey_check(
            facts.chord.as_str(),
            facts.wanted.as_str(),
            text_of(&facts.presses),
            facts.now,
        ),
        autostart_check(&facts.startup),
        traffic_check(&facts.sessions, facts.now),
        codex_check(facts.codex_dir.as_str(), &facts.codex),
    ];
    assert(check_views(checks@) =~= checks_spec(*facts));
    Report { status: overall(&checks), checks, version, platform }
}

// --- watching --------------------------------------------------------------------------------------------
/// A timestamp to compare against later. See [`watch_result`].
pub fn watch_start(now: u64) -> (r: u64)
    ensures
        r == now,
{
    now
}

/// What a session is called.
pub open spec fn session_name(s: SessionView) -> Seq<char> {
    if s.project.len() == 0 {
        s.session_id
    } else {
        s.project
    }
}

/// The names of the sessions that were touched since a time, in order.
pub open spec fn touched_names(sessions: Seq<SessionView>, since: u64) -> Seq<Seq<char>>
    decreases sessions.len(),
{
    if sessions.len() == 0 {
        seq![]
    } else {
        let before = touched_names(sessions.drop_last(), since);
        if sessions.last().updated_ms >= since {
            before.push(session_name(sessions.last()))
        } else {
            before
        }
    }
}

fn touched(sessions: &Vec<Session>, since: u64) -> (r: Vec<String>)
    ensures
        strings::views(r@) == touched_names(state::session_views(sessions@), since),
{
    let ghost all = state::session_views(sessions@);
    let mut out: Vec<String> = Vec::new();
    let mut i: usize = 0;
    assert(all.take(0) =~= seq![]);
    assert(strings::views(out@) =~= seq![]);
    while i < sessions.len()
        invariant
            i <= sessions@.len(),
            all == state::session_views(sessions@),
            strings::views(out@) == touched_names(all.take(i as int), since),
        decreases sessions@.len() - i,
    {
        let ghost before = strings::views(out@);
        assert(all.take(i + 1).drop_last() =~= all.take(i as int));
        assert(all.take(i + 1).last() == sessions@[i as int]@);
        let s = &sessions[i];
        if s.updated_ms >= since {
            let name = if s.project.as_str().is_empty() {
                s.session_id.as_str().to_owned()
            } else {
                s.project.as_str().to_owned()
            };
            let ghost called = name@;
            out.push(name);
            assert(strings::views(out@) =~= before.push(called));
        }
        i = i + 1;
    }
    assert(all.take(i as int) =~= all);
    out
}

/// What happened in the session folder since `since`: nothing, or how many
/// events arrived, and from where, each place once and in order.
///
/// If nothing arrived at all we cannot tell "you did not do anything" from "the
/// hooks are not firing", and saying the wrong one wastes someone's afternoon.
pub fn watch_result(sessions: &Vec<Session>, since: u64) -> (r: (&'static str, String))
    ensures
        ({
            let found = touched_names(state::session_views(sessions@), since);
            if found.len() == 0 {
                &&& r.0@ == "none"@
                &&& r.1@
                    == "No hook events arrived. Either nothing ran, or the hooks are not firing. Check that the events above are registered and that "@
                    + agent::product_spec() + " was restarted after installing them."@
            } else {
                &&& r.0@ == "ok"@
                &&& exists|places: Seq<Seq<char>>|
                    {
                        &&& #[trigger] names::ordered(places)
                        &&& places.to_set() == found.to_set()
                        &&& r.1@ == strings::decimal_spec(found.len())
                            + " event(s) arrived from: "@ + strings::listed(places, ", "@)
                            + ". The chain works end to end."@
                    }
            }
        }),
{
    let found = touched(sessions, since);
    assert(strings::views(found@).len() == found@.len());
    if found.len() == 0 {
        return (
            "none",
            strings::concat3(
                "No hook events arrived. Either nothing ran, or the hooks are not firing. Check that the events above are registered and that ",
                agent::product().as_str(),
                " was restarted after installing them.",
            ),
        );
    }
    let places = NameSet::of(&found).to_list();
    let count = strings::decimal(found.len() as u64);
    let head = strings::concat2(count.as_str(), " event(s) arrived from: ");
    let text = strings::concat3(
        head.as_str(),
        strings::join_with(&places, ", ").as_str(),
        ". The chain works end to end.",
    );
    assert(names::ordered(strings::views(places@)));
    ("ok", text)
}

// --- something to paste -------------------------------------------------------------------------------------
/// A text with the home directory folded back to `~`. Windows paths reach us
/// both ways round depending on who built them.
pub open spec fn redacted(text: Seq<char>, home: Seq<char>) -> Seq<char> {
    strings::swapped(
        strings::swapped(text, home, "~"@),
        strings::replaced(home, '\\', '/'),
        "~"@,
    )
}

pub fn redact(text: &str, home: &str) -> (r: String)
    ensures
        r@ == redacted(text@, home@),
{
    let once = strings::replace_all(text, home, "~");
    let other = strings::replace_char(home, '\\', '/');
    strings::replace_all(once.as_str(), other.as_str(), "~")
}

/// What stands in a cell of the table.
pub open spec fn cell(detail: Seq<char>, home: Seq<char>) -> Seq<char> {
    strings::swapped(redacted(detail, home), "|"@, "\\|"@)
}

pub open spec fn row(check: CheckView, home: Seq<char>) -> Seq<char> {
    "| "@ + check.label + " | "@ + check.status + " | "@ + cell(check.detail, home) + " |\n"@
}

pub open spec fn table(checks: Seq<CheckView>, home: Seq<char>) -> Seq<char>
    decreases checks.len(),
{
    if checks.len() == 0 {
        seq![]
    } else {
        table(checks.drop_last(), home) + row(checks.last(), home)
    }
}

pub open spec fn markdown_spec(report: ReportView, home: Seq<char>) -> Seq<char> {
    "# Pipsqueak diagnostic\n\n- Version: "@ + report.version + "\n- Platform: "@ + report.platform
        + "\n- Overall: "@ + report.status + "\n\n| Check | Status | Detail |\n|---|---|---|\n"@
        + table(report.checks, home)
        + "\nGenerated locally. Contains no session content, prompts, or file contents.\n"@
}

fn write_row(check: &Check, home: &str) -> (r: String)
    ensures
        r@ == row(check@, home@),
{
    let text = strings::replace_all(redact(check.detail.as_str(), home).as_str(), "|", "\\|");
    let a = strings::concat3("| ", check.label.as_str(), " | ");
    let b = strings::concat3(a.as_str(), check.status, " | ");
    strings::concat3(b.as_str(), text.as_str(), " |\n")
}

fn write_table(checks: &Vec<Check>, home: &str) -> (r: String)
    ensures
        r@ == table(check_views(checks@), home@),
{
    let ghost all = check_views(checks@);
    let mut out = String::new();
    let mut i: usize = 0;
    assert(all.take(0) =~= seq![]);
    assert(out@ =~= seq![]);
    while i < checks.len()
        invariant
            i <= checks@.len(),
            all == check_views(checks@),
            out@ == table(all.take(i as int), home@),
        decreases checks@.len() - i,
    {
        assert(all.take(i + 1).drop_last() =~= all.take(i as int));
        assert(all.take(i + 1).last() == checks@[i as int]@);
        out = strings::concat2(out.as_str(), write_row(&checks[i], home).as_str());
        i = i + 1;
    }
    assert(all.take(i as int) =~= all);
    out
}

/// A report you can paste into an issue.
///
/// Paths are the only interesting thing in here and they carry the user's name,
/// so the home directory is folded back to `~` before anything leaves.
pub fn markdown(report: &Report, home: &str) -> (r: String)
    ensures
        r@ == markdown_spec(report@, home@),
{
    let a = strings::concat3(
        "# Pipsqueak diagnostic\n\n- Version: ",
        report.version,
        "\n- Platform: ",
    );
    let b = strings::concat3(a.as_str(), report.platform, "\n- Overall: ");
    let c = strings::concat3(
        b.as_str(),
        report.status,
        "\n\n| Check | Status | Detail |\n|---|---|---|\n",
    );
    strings::concat3(
        c.as_str(),
        write_table(&report.checks, home).as_str(),
        "\nGenerated locally. Contains no session content, prompts, or file contents.\n",
    )
}

/// No detail of a report carries the home directory.
pub proof fn the_home_directory_stays_at_home(text: Seq<char>, home: Seq<char>)
    requires
        home.len() > 0,
        !home.contains('~'),
    ensures
        strings::has(redacted(text, home), home) == false,
{
    reveal_strlit("~");
    assert("~"@ =~= seq!['~']);
    let once = strings::swapped(text, home, "~"@);
    strings::what_is_replaced_is_gone(text, home, '~');
    strings::replacing_adds_nothing(
        once,
        strings::replaced(home, '\\', '/'),
        "~"@,
        home,
    );
}

/// Nor does a cell of the table, for a path without a bar and with no backslash
/// at its end: those a cell adds.
pub proof fn the_table_does_not_bring_it_back(text: Seq<char>, home: Seq<char>)
    requires
        home.len() > 0,
        !home.contains('~'),
        !home.contains('|'),
        home.last() != '\\',
    ensures
        strings::has(cell(text, home), home) == false,
{
    the_home_directory_stays_at_home(text, home);
    lemma_escaped(redacted(text, home), home);
}

/// Escaping bars brings no text in that has no bar and no backslash at its end.
proof fn lemma_escaped(s: Seq<char>, h: Seq<char>)
    requires
        h.len() > 0,
        !h.contains('|'),
        h.last() != '\\',
        strings::has(s, h) == false,
    ensures
        strings::has(strings::swapped(s, "|"@, "\\|"@), h) == false,
    decreases s.len(),
{
    reveal_strlit("|");
    reveal_strlit("\\|");
    let bar = "|"@;
    let pair = "\\|"@;
    assert(bar =~= seq!['|']);
    assert(pair =~= seq!['\\', '|']);
    strings::lemma_find(s, bar);
    strings::lemma_find(s, h);
    if let Some(i) = strings::find_spec(s, bar) {
        let rest = s.skip(i + 1);
        strings::lemma_find(rest, h);
        if let Some(k) = strings::find_spec(rest, h) {
            assert(s.skip(i + 1 + k) =~= rest.skip(k));
            assert(strings::begins(s.skip(i + 1 + k), h));
        }
        lemma_escaped(rest, h);
        let tail = strings::swapped(rest, bar, pair);
        let out = strings::swapped(s, bar, pair);
        assert(out == s.take(i) + pair + tail);
        strings::lemma_find(out, h);
        strings::lemma_find(tail, h);
        if let Some(j) = strings::find_spec(out, h) {
            let n = h.len() as int;
            assert(out.skip(j).take(n) == h);
            if j + n <= i {
                assert(s.skip(j).take(n) =~= out.skip(j).take(n));
                assert(strings::begins(s.skip(j), h));
            } else if j >= i + 2 {
                assert(tail.skip(j - i - 2) =~= out.skip(j));
                assert(strings::begins(tail.skip(j - i - 2), h));
            } else if j + n == i + 1 {
                assert(out.skip(j).take(n)[n - 1] == '\\');
            } else {
                assert(out.skip(j).take(n)[i + 1 - j] == '|');
                assert(h.contains('|'));
            }
        }
    }
}

// --- the whole report ------------------------------------------------------------------------------------------
/// Whether a text has a character that separates the folders of a path.
pub open spec fn has_separator(s: Seq<char>) -> bool {
    s.contains('/') || s.contains('\\')
}

/// Whether nothing but the details of a report can hold a path.
pub open spec fn paths_are_details(report: ReportView) -> bool {
    &&& !has_separator(report.version)
    &&& !has_separator(report.platform)
    &&& !has_separator(report.status)
    &&& forall|i: int|
        0 <= i < report.checks.len() ==> !has_separator((#[trigger] report.checks[i]).label)
            && !has_separator(report.checks[i].status)
}

proof fn lemma_no_separator(x: Seq<char>, y: Seq<char>)
    requires
        !has_separator(x),
        !has_separator(y),
    ensures
        !has_separator(x + y),
{
    let z = x + y;
    assert forall|i: int| 0 <= i < z.len() implies #[trigger] z[i] != '/' && z[i] != '\\' by {
        if i < x.len() {
            assert(x.contains(x[i]));
        } else {
            assert(y.contains(y[i - x.len()]));
        }
    }
}

/// A text without separators holds no path that has one.
proof fn lemma_no_path(x: Seq<char>, h: Seq<char>)
    requires
        !has_separator(x),
        has_separator(h),
    ensures
        strings::has(x, h) == false,
{
    strings::lemma_find(x, h);
    if let Some(j) = strings::find_spec(x, h) {
        let n = h.len() as int;
        assert(x.skip(j).take(n) == h);
        let k = choose|k: int| 0 <= k < n && (h[k] == '/' || h[k] == '\\');
        assert(x.skip(j).take(n)[k] == x[j + k]);
        assert(x.contains(x[j + k]));
    }
}

/// Two texts that lack a third lack it together, where it cannot reach across.
proof fn lemma_apart(x: Seq<char>, y: Seq<char>, h: Seq<char>)
    requires
        h.len() > 0,
        strings::has(x, h) == false,
        strings::has(y, h) == false,
        x.len() > 0 && !h.contains(x.last()) || y.len() > 0 && !h.contains(y[0]),
    ensures
        strings::has(x + y, h) == false,
{
    let z = x + y;
    strings::lemma_find(x, h);
    strings::lemma_find(y, h);
    strings::lemma_find(z, h);
    if let Some(j) = strings::find_spec(z, h) {
        let n = h.len() as int;
        let m = x.len() as int;
        assert(z.skip(j).take(n) == h);
        if j + n <= m {
            assert(x.skip(j).take(n) =~= z.skip(j).take(n));
            assert(strings::begins(x.skip(j), h));
        } else if j >= m {
            assert(y.skip(j - m) =~= z.skip(j));
            assert(strings::begins(y.skip(j - m), h));
        } else {
            assert(h[m - 1 - j] == z.skip(j).take(n)[m - 1 - j]);
            assert(h[m - j] == z.skip(j).take(n)[m - j]);
            assert(h.contains(h[m - 1 - j]) && h.contains(h[m - j]));
        }
    }
}

/// A blank on either side adds nothing to what begins and ends with none.
proof fn lemma_between_blanks(x: Seq<char>, h: Seq<char>)
    requires
        h.len() > 0,
        h[0] != ' ',
        h.last() != ' ',
        strings::has(x, h) == false,
    ensures
        strings::has(seq![' '] + x + seq![' '], h) == false,
{
    let z = seq![' '] + x + seq![' '];
    strings::lemma_find(x, h);
    strings::lemma_find(z, h);
    if let Some(j) = strings::find_spec(z, h) {
        let n = h.len() as int;
        assert(z.skip(j).take(n) == h);
        assert(z.skip(j).take(n)[0] == z[j]);
        assert(z.skip(j).take(n)[n - 1] == z[j + n - 1]);
        assert(x.skip(j - 1).take(n) =~= h);
        assert(strings::begins(x.skip(j - 1), h));
    }
}

/// What stands in a row before its detail.
spec fn row_head(check: CheckView) -> Seq<char> {
    "| "@ + check.label + " | "@ + check.status + " |"@
}

proof fn lemma_rows(
    head: Seq<char>,
    checks: Seq<CheckView>,
    rest: Seq<char>,
    home: Seq<char>,
)
    requires
        home.len() > 0,
        !home.contains('~'),
        !home.contains('|'),
        home.last() != '\\',
        home.last() != ' ',
        home[0] != ' ',
        has_separator(home),
        !has_separator(head),
        !has_separator(rest),
        forall|i: int|
            0 <= i < checks.len() ==> !has_separator((#[trigger] checks[i]).label)
                && !has_separator(checks[i].status),
    ensures
        strings::has(head + table(checks, home) + rest, home) == false,
    decreases checks.len(),
{
    if checks.len() == 0 {
        lemma_no_separator(head, rest);
        lemma_no_path(head + rest, home);
        assert(head + table(checks, home) + rest =~= head + rest);
    } else {
        let before = checks.drop_last();
        let check = checks.last();
        assert(check == checks[checks.len() - 1]);
        assert forall|i: int| 0 <= i < before.len() implies !has_separator(
            (#[trigger] before[i]).label,
        ) && !has_separator(before[i].status) by {
            assert(before[i] == checks[i]);
        }
        reveal_strlit("| ");
        reveal_strlit(" | ");
        reveal_strlit(" |");
        reveal_strlit(" |\n");
        let start = row_head(check);
        lemma_no_separator("| "@, check.label);
        lemma_no_separator("| "@ + check.label, " | "@);
        lemma_no_separator("| "@ + check.label + " | "@, check.status);
        lemma_no_separator("| "@ + check.label + " | "@ + check.status, " |"@);
        lemma_rows(head, before, start, home);
        let x = head + table(before, home) + start;
        let text = cell(check.detail, home);
        let y = seq![' '] + text + seq![' '];
        the_table_does_not_bring_it_back(check.detail, home);
        lemma_between_blanks(text, home);
        assert(x.last() == '|');
        lemma_apart(x, y, home);
        let z = seq!['|', '\n'] + rest;
        lemma_no_separator(seq!['|', '\n'], rest);
        lemma_no_path(z, home);
        assert(z[0] == '|');
        lemma_apart(x + y, z, home);
        assert(head + table(checks, home) + rest =~= x + y + z);
    }
}

/// A report never carries the home directory, wherever its paths are details:
/// a path without a tilde or a bar, which ends in no backslash and neither
/// begins nor ends with a blank.
pub proof fn a_report_never_carries_the_home_directory(report: ReportView, home: Seq<char>)
    requires
        has_separator(home),
        !home.contains('~'),
        !home.contains('|'),
        home.last() != '\\',
        home.last() != ' ',
        home[0] != ' ',
        paths_are_details(report),
    ensures
        strings::has(markdown_spec(report, home), home) == false,
{
    reveal_strlit("# Pipsqueak diagnostic\n\n- Version: ");
    reveal_strlit("\n- Platform: ");
    reveal_strlit("\n- Overall: ");
    reveal_strlit("\n\n| Check | Status | Detail |\n|---|---|---|\n");
    reveal_strlit(
        "\nGenerated locally. Contains no session content, prompts, or file contents.\n",
    );
    let a = "# Pipsqueak diagnostic\n\n- Version: "@;
    let b = "\n- Platform: "@;
    let c = "\n- Overall: "@;
    let d = "\n\n| Check | Status | Detail |\n|---|---|---|\n"@;
    let e = "\nGenerated locally. Contains no session content, prompts, or file contents.\n"@;
    lemma_no_separator(a, report.version);
    lemma_no_separator(a + report.version, b);
    lemma_no_separator(a + report.version + b, report.platform);
    lemma_no_separator(a + report.version + b + report.platform, c);
    lemma_no_separator(a + report.version + b + report.platform + c, report.status);
    lemma_no_separator(a + report.version + b + report.platform + c + report.status, d);
    lemma_rows(
        a + report.version + b + report.platform + c + report.status + d,
        report.checks,
        e,
        home,
    );
}

/// Every report that is made keeps its paths to the details.
pub proof fn a_report_keeps_paths_to_its_details(
    facts: Facts,
    version: Seq<char>,
    platform: Seq<char>,
)
    requires
        !has_separator(version),
        !has_separator(platform),
    ensures
        paths_are_details(
            ReportView {
                status: overall_spec(checks_spec(facts)),
                checks: checks_spec(facts),
                version,
                platform,
            },
        ),
{
    reveal_strlit("ok");
    reveal_strlit("warn");
    reveal_strlit("fail");
    reveal_strlit("Claude_Code");
    reveal_strlit(" hooks");
    reveal_strlit("Hook program");
    reveal_strlit("Session folder");
    reveal_strlit("Overlay");
    reveal_strlit("Keyboard shortcut");
    reveal_strlit("After a reboot");
    reveal_strlit("Recent activity");
    reveal_strlit("Codex sessions");
    let checks = checks_spec(facts);
    lemma_no_separator(agent::product_spec(), " hooks"@);
    assert forall|i: int| 0 <= i < checks.len() implies !has_separator((#[trigger] checks[i]).label)
        && !has_separator(checks[i].status) by {
        assert(i == 0 || i == 1 || i == 2 || i == 3 || i == 4 || i == 5 || i == 6 || i == 7);
    }
}

/// Every bar inside a cell is escaped, so that no detail can break the table.
pub proof fn a_cell_cannot_break_the_table(detail: Seq<char>, home: Seq<char>)
    ensures
        forall|i: int|
            0 <= i < cell(detail, home).len() && #[trigger] cell(detail, home)[i] == '|' ==> i > 0
                && cell(detail, home)[i - 1] == '\\',
{
    lemma_bars(redacted(detail, home));
}

proof fn lemma_bars(s: Seq<char>)
    ensures
        forall|i: int|
            0 <= i < strings::swapped(s, "|"@, "\\|"@).len() && #[trigger] strings::swapped(
                s,
                "|"@,
                "\\|"@,
            )[i] == '|' ==> i > 0 && strings::swapped(s, "|"@, "\\|"@)[i - 1] == '\\',
    decreases s.len(),
{
    reveal_strlit("|");
    reveal_strlit("\\|");
    let bar = "|"@;
    assert(bar =~= seq!['|']);
    assert("\\|"@ =~= seq!['\\', '|']);
    strings::lemma_find(s, bar);
    let out = strings::swapped(s, bar, "\\|"@);
    match strings::find_spec(s, bar) {
        None => {
            assert forall|i: int| 0 <= i < out.len() implies #[trigger] out[i] != '|' by {
                if s[i] == '|' {
                    assert(s.skip(i).take(1) =~= bar);
                    assert(strings::begins(s.skip(i), bar));
                }
            }
        },
        Some(n) => {
            let rest = s.skip(n + 1);
            lemma_bars(rest);
            let tail = strings::swapped(rest, bar, "\\|"@);
            assert(out == s.take(n) + "\\|"@ + tail);
            assert forall|i: int| 0 <= i < out.len() && #[trigger] out[i] == '|' implies i > 0
                && out[i - 1] == '\\' by {
                if i < n {
                    assert(s[i] == '|');
                    assert(s.skip(i).take(1) =~= bar);
                    assert(strings::begins(s.skip(i), bar));
                } else if i > n + 1 {
                    assert(tail[i - n - 2] == '|');
                    assert(tail[i - n - 3] == '\\');
                }
            }
        },
    }
}

} // verus!
