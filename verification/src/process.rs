//! Answering one question: is the agent that owns this session still running?
//!
//! A session file is written by a hook process that exits immediately, so the
//! file alone can never tell us whether the agent is still there. If it crashes
//! or is force-quit it says nothing, and the card would otherwise keep claiming
//! work is happening.
//!
//! Identity is `(pid, creation time)`, never the pid alone. Every OS reuses
//! pids, and a reused pid is the case that would resurrect a dead session as
//! alive again. The creation time is opaque and platform-specific. It is only
//! ever compared for equality against a value this same machine recorded.

use vstd::prelude::*;
use vstd::string::*;

use crate::strings;

verus! {

/// An agent is a few levels up when a shell sits in between; deeper than this
/// and we are walking into the terminal, the desktop session, or init.
pub const MAX_DEPTH: usize = 8;

// --- shells ----------------------------------------------------------------
/// Shells and launchers that can sit between the agent and its hook without
/// being the agent. Bare names, as the kernel reports them.
pub open spec fn unix_shells() -> Seq<Seq<char>> {
    seq![
        "sh"@,
        "bash"@,
        "dash"@,
        "zsh"@,
        "fish"@,
        "ksh"@,
        "busybox"@,
        "env"@,
        "timeout"@,
        "pipsqueak"@,
        "start-pipsqueak"@,
    ]
}

pub fn is_passthrough_unix(name: &str) -> (r: bool)
    ensures
        r == unix_shells().contains(name@),
{
    let shells: Vec<String> = vec![
        "sh".to_owned(),
        "bash".to_owned(),
        "dash".to_owned(),
        "zsh".to_owned(),
        "fish".to_owned(),
        "ksh".to_owned(),
        "busybox".to_owned(),
        "env".to_owned(),
        "timeout".to_owned(),
        "pipsqueak".to_owned(),
        "start-pipsqueak".to_owned(),
    ];
    assert(strings::views(shells@) =~= unix_shells());
    strings::holds(&shells, name)
}

/// Shells, console hosts, and ourselves, as Windows names them.
pub open spec fn windows_shells() -> Seq<Seq<char>> {
    seq![
        "powershell.exe"@,
        "pwsh.exe"@,
        "cmd.exe"@,
        "conhost.exe"@,
        "openconsole.exe"@,
        "bash.exe"@,
        "sh.exe"@,
        "zsh.exe"@,
        "dash.exe"@,
        "busybox.exe"@,
        "wsl.exe"@,
        "wslhost.exe"@,
        "pipsqueak.exe"@,
    ]
}

pub fn is_passthrough_windows(name: &str) -> (r: bool)
    ensures
        r == windows_shells().contains(name@),
{
    let shells: Vec<String> = vec![
        "powershell.exe".to_owned(),
        "pwsh.exe".to_owned(),
        "cmd.exe".to_owned(),
        "conhost.exe".to_owned(),
        "openconsole.exe".to_owned(),
        "bash.exe".to_owned(),
        "sh.exe".to_owned(),
        "zsh.exe".to_owned(),
        "dash.exe".to_owned(),
        "busybox.exe".to_owned(),
        "wsl.exe".to_owned(),
        "wslhost.exe".to_owned(),
        "pipsqueak.exe".to_owned(),
    ];
    assert(strings::views(shells@) =~= windows_shells());
    strings::holds(&shells, name)
}

// --- what the kernel prints --------------------------------------------------
/// The number behind the first line that begins with a key.
pub open spec fn keyed_number(lines: Seq<Seq<char>>, key: Seq<char>) -> Option<u64>
    decreases lines.len(),
{
    if lines.len() == 0 {
        None
    } else {
        match strings::behind(lines[0], key) {
            Some(rest) => strings::number_spec(strings::trimmed(rest)),
            None => keyed_number(lines.skip(1), key),
        }
    }
}

fn number_at(text: &str, key: &str) -> (r: Option<u64>)
    ensures
        r == keyed_number(strings::lines_spec(text@), key@),
{
    let lines = strings::lines(text);
    let ghost all = strings::views(lines@);
    let mut i: usize = 0;
    assert(all.skip(0) =~= all);
    while i < lines.len()
        invariant
            i <= lines@.len(),
            all == strings::views(lines@),
            all == strings::lines_spec(text@),
            keyed_number(all, key@) == keyed_number(all.skip(i as int), key@),
        decreases lines@.len() - i,
    {
        assert(all.skip(i as int)[0] == lines@[i as int]@);
        assert(all.skip(i as int).skip(1) =~= all.skip(i + 1));
        if let Some(rest) = strings::strip_prefix(lines[i].as_str(), key) {
            return strings::number(strings::trim(rest.as_str()).as_str());
        }
        i = i + 1;
    }
    None
}

/// The parent in the text of `/proc/<pid>/status`.
pub open spec fn parent_spec(status: Seq<char>) -> Option<u32> {
    match keyed_number(strings::lines_spec(status), "PPid:"@) {
        Some(n) => if n <= u32::MAX {
            Some(n as u32)
        } else {
            None
        },
        None => None,
    }
}

pub fn parent_of(status: &str) -> (r: Option<u32>)
    ensures
        r == parent_spec(status@),
{
    match number_at(status, "PPid:") {
        Some(n) => if n <= u32::MAX as u64 {
            Some(n as u32)
        } else {
            None
        },
        None => None,
    }
}

/// `(state, start time)` out of one `/proc/<pid>/stat` line.
///
/// Field 2 is the command name in parentheses and may itself contain spaces and
/// parentheses, so the fields are counted from the *last* closing parenthesis
/// rather than split from the front. After it, field 3 is the state and field
/// 22 is the start time in clock ticks since boot, a value that identifies this
/// incarnation of the pid for as long as the machine stays up, which is exactly
/// the span a pid can be reused within.
pub open spec fn stat_spec(stat: Seq<char>) -> Option<(char, u64)> {
    let at = strings::behind_last(stat, seq![')']);
    let fields = strings::words_spec(stat.skip(at));
    if at == 0 || fields.len() < 20 || fields[0].len() == 0 {
        None
    } else {
        match strings::number_spec(fields[19]) {
            Some(started) => Some((fields[0][0], started)),
            None => None,
        }
    }
}

pub fn parse_stat(stat: &str) -> (r: Option<(char, u64)>)
    ensures
        r == stat_spec(stat@),
{
    let v = strings::chars_of(stat);
    let closing: Vec<char> = vec![')'];
    assert(closing@ =~= seq![')']);
    let at: usize = strings::index_behind_last(&v, &closing);
    if at == 0 {
        return None;
    }
    let after = strings::slice(&v, at, v.len());
    assert(after@ =~= stat@.skip(at as int));
    let fields = strings::words(after.as_str());
    let ghost all = strings::views(fields@);
    assert(all.len() == fields@.len());
    if fields.len() < 20 {
        return None;
    }
    let first = strings::chars_of(fields[0].as_str());
    assert(all[0] == fields@[0]@);
    assert(all[19] == fields@[19]@);
    if first.len() == 0 {
        return None;
    }
    match strings::number(fields[19].as_str()) {
        Some(started) => Some((first[0], started)),
        None => None,
    }
}

/// When this machine last booted, as milliseconds since the epoch, out of the
/// text of `/proc/stat`.
///
/// A session file updated before that moment was written by a process that
/// cannot exist any more, whatever the file says and whether or not the hook
/// ever learned its pid. `None` when the text does not say, which is "no
/// opinion", never "nothing has booted".
pub open spec fn boot_spec(stat: Seq<char>) -> Option<u64> {
    match keyed_number(strings::lines_spec(stat), "btime "@) {
        Some(seconds) => if seconds * 1000 <= u64::MAX {
            Some((seconds * 1000) as u64)
        } else {
            None
        },
        None => None,
    }
}

pub fn boot_time_ms(stat: &str) -> (r: Option<u64>)
    ensures
        r == boot_spec(stat@),
{
    match number_at(stat, "btime ") {
        Some(seconds) => seconds.checked_mul(1000),
        None => None,
    }
}

/// When a machine booted that has been up for a time; a machine that does not
/// say how long gives no answer.
pub open spec fn booted(now: u64, uptime: u64) -> Option<u64> {
    if uptime == 0 {
        None
    } else if uptime >= now {
        Some(0u64)
    } else {
        Some((now - uptime) as u64)
    }
}

pub fn boot_time_from_uptime(now: u64, uptime: u64) -> (r: Option<u64>)
    ensures
        r == booted(now, uptime),
{
    if uptime == 0 {
        None
    } else {
        Some(now.saturating_sub(uptime))
    }
}

// --- the owner ---------------------------------------------------------------
/// One step up from a process: what the kernel says of its parent.
pub struct Ancestor {
    /// The parent's pid, `None` where it cannot be read.
    pub parent: Option<u32>,
    /// The parent's name, `None` where it cannot be read.
    pub name: Option<String>,
    /// When the parent started, `None` where it cannot be read.
    pub started: Option<u64>,
}

#[verifier::ext_equal]
pub struct AncestorView {
    pub parent: Option<u32>,
    pub name: Option<Seq<char>>,
    pub started: Option<u64>,
}

impl View for Ancestor {
    type V = AncestorView;

    open spec fn view(&self) -> AncestorView {
        AncestorView {
            parent: self.parent,
            name: strings::opt_view(self.name),
            started: self.started,
        }
    }
}

pub open spec fn ancestors(chain: Seq<Ancestor>) -> Seq<AncestorView> {
    chain.map_values(|a: Ancestor| a@)
}

/// The first process up the chain that is no shell, with its start time.
///
/// Pid 1 owns every orphan; a hook whose chain reaches it has lost its agent,
/// and recording init would make the session immortal.
pub open spec fn owner_spec(pid: u32, chain: Seq<AncestorView>, depth: nat) -> Option<(u32, u64)>
    decreases depth,
{
    if depth == 0 || chain.len() == 0 {
        None
    } else {
        match (chain[0].parent, chain[0].name) {
            (Some(parent), Some(name)) => if parent <= 1 || parent == pid {
                None
            } else if !unix_shells().contains(name) {
                match chain[0].started {
                    Some(started) => Some((parent, started)),
                    None => None,
                }
            } else {
                owner_spec(parent, chain.skip(1), (depth - 1) as nat)
            },
            _ => None,
        }
    }
}

/// The agent process that owns the current hook invocation, as
/// `(pid, creation time)`, given what is above it.
///
/// An agent may spawn command hooks through a shell, so the direct parent is not
/// always the agent. Walks up past known shells to the first process that could
/// plausibly be the agent itself.
pub fn owner(pid: u32, chain: &Vec<Ancestor>) -> (r: Option<(u32, u64)>)
    ensures
        r == owner_spec(pid, ancestors(chain@), MAX_DEPTH as nat),
{
    let ghost all = ancestors(chain@);
    let mut at: u32 = pid;
    let mut i: usize = 0;
    assert(all.skip(0) =~= all);
    while i < chain.len() && i < MAX_DEPTH
        invariant
            i <= chain@.len(),
            i <= MAX_DEPTH,
            all == ancestors(chain@),
            owner_spec(pid, all, MAX_DEPTH as nat) == owner_spec(
                at,
                all.skip(i as int),
                (MAX_DEPTH - i) as nat,
            ),
        decreases chain@.len() - i,
    {
        assert(all.skip(i as int)[0] == chain@[i as int]@);
        assert(all.skip(i as int).skip(1) =~= all.skip(i + 1));
        match (chain[i].parent, &chain[i].name) {
            (Some(parent), Some(name)) => {
                if parent <= 1 || parent == at {
                    return None;
                }
                if !is_passthrough_unix(name.as_str()) {
                    return match chain[i].started {
                        Some(started) => Some((parent, started)),
                        None => None,
                    };
                }
                at = parent;
            },
            _ => {
                return None;
            },
        }
        i = i + 1;
    }
    assert(all.skip(i as int).len() == all.len() - i);
    None
}

/// One row of the process table.
pub struct Row {
    pub pid: u32,
    pub parent: u32,
    /// The program's name, in lower case.
    pub name: String,
}

#[verifier::ext_equal]
pub struct RowView {
    pub pid: u32,
    pub parent: u32,
    pub name: Seq<char>,
}

impl View for Row {
    type V = RowView;

    open spec fn view(&self) -> RowView {
        RowView { pid: self.pid, parent: self.parent, name: self.name@ }
    }
}

pub open spec fn rows(table: Seq<Row>) -> Seq<RowView> {
    table.map_values(|row: Row| row@)
}

/// The row of a process.
pub open spec fn row_of(table: Seq<RowView>, pid: u32) -> Option<RowView>
    decreases table.len(),
{
    if table.len() == 0 {
        None
    } else if table[0].pid == pid {
        Some(table[0])
    } else {
        row_of(table.skip(1), pid)
    }
}

fn find_row(table: &Vec<Row>, pid: u32) -> (r: Option<&Row>)
    ensures
        row_of(rows(table@), pid) == (match r {
            Some(row) => Some(row@),
            None => None,
        }),
{
    let ghost all = rows(table@);
    let mut i: usize = 0;
    assert(all.skip(0) =~= all);
    while i < table.len()
        invariant
            i <= table@.len(),
            all == rows(table@),
            row_of(all, pid) == row_of(all.skip(i as int), pid),
        decreases table@.len() - i,
    {
        assert(all.skip(i as int)[0] == table@[i as int]@);
        assert(all.skip(i as int).skip(1) =~= all.skip(i + 1));
        if table[i].pid == pid {
            return Some(&table[i]);
        }
        i = i + 1;
    }
    None
}

/// The first process up the table that is no shell.
pub open spec fn table_owner_spec(table: Seq<RowView>, pid: u32, depth: nat) -> Option<u32>
    decreases depth,
{
    if depth == 0 {
        None
    } else {
        match row_of(table, pid) {
            Some(row) => if row.parent == 0 || row.parent == pid {
                None
            } else {
                match row_of(table, row.parent) {
                    Some(above) => if windows_shells().contains(above.name) {
                        table_owner_spec(table, row.parent, (depth - 1) as nat)
                    } else {
                        Some(row.parent)
                    },
                    None => None,
                }
            },
            None => None,
        }
    }
}

/// The pid of the agent that owns the current hook invocation, in one snapshot
/// of the whole process table.
///
/// Taken once and walked in memory: asking the OS per level would let a process
/// exit mid-walk and hand us an unrelated reused pid.
pub fn table_owner(table: &Vec<Row>, pid: u32) -> (r: Option<u32>)
    ensures
        r == table_owner_spec(rows(table@), pid, MAX_DEPTH as nat),
{
    let ghost all = rows(table@);
    let mut at: u32 = pid;
    let mut i: usize = 0;
    while i < MAX_DEPTH
        invariant
            i <= MAX_DEPTH,
            all == rows(table@),
            table_owner_spec(all, pid, MAX_DEPTH as nat) == table_owner_spec(
                all,
                at,
                (MAX_DEPTH - i) as nat,
            ),
        decreases MAX_DEPTH - i,
    {
        let parent: u32 = match find_row(table, at) {
            Some(row) => row.parent,
            None => {
                return None;
            },
        };
        if parent == 0 || parent == at {
            return None;
        }
        match find_row(table, parent) {
            Some(above) => {
                if !is_passthrough_windows(above.name.as_str()) {
                    return Some(parent);
                }
            },
            None => {
                return None;
            },
        }
        at = parent;
        i = i + 1;
    }
    None
}

// --- alive or not --------------------------------------------------------------
/// What was found on looking for a process.
pub enum Sighting {
    /// It runs, and started then.
    Running(u64),
    /// It has exited, and only its entry is left.
    Exited,
    /// It is there, but may not be looked at.
    Listed,
    /// It is not there.
    Absent,
    /// Looking failed.
    Unknown,
}

/// What the text of `/proc/<pid>/stat` says, and where it cannot be read,
/// whether the process has a directory at all.
///
/// A zombie is a process that has exited and not been reaped. It runs nothing,
/// and it will never write another hook. Not readable is two different answers:
/// no directory at all is gone, a directory we may not read (a hardened
/// `hidepid` mount) is not knowing.
pub open spec fn sighted(stat: Option<Seq<char>>, listed: bool) -> Sighting {
    match (match stat {
        Some(text) => stat_spec(text),
        None => None,
    }) {
        Some((state, started)) => if state == 'Z' || state == 'X' || state == 'x' {
            Sighting::Exited
        } else {
            Sighting::Running(started)
        },
        None => if listed {
            Sighting::Listed
        } else {
            Sighting::Absent
        },
    }
}

pub fn sight(stat: Option<&str>, listed: bool) -> (r: Sighting)
    ensures
        r == sighted(strings::opt_str(stat), listed),
{
    let parsed = match stat {
        Some(text) => parse_stat(text),
        None => None,
    };
    match parsed {
        Some((state, started)) => if state == 'Z' || state == 'X' || state == 'x' {
            Sighting::Exited
        } else {
            Sighting::Running(started)
        },
        None => if listed {
            Sighting::Listed
        } else {
            Sighting::Absent
        },
    }
}

/// Whether a process is still the one that was recorded.
///
/// Unknown identities are reported alive: not knowing is not the same as
/// knowing it is gone.
pub open spec fn alive(pid: u32, created: u64, sighting: Sighting) -> bool {
    pid == 0 || match sighting {
        Sighting::Running(started) => created == 0 || started == created,
        Sighting::Exited => false,
        Sighting::Listed => true,
        Sighting::Absent => false,
        Sighting::Unknown => true,
    }
}

pub fn is_alive(pid: u32, created: u64, sighting: &Sighting) -> (r: bool)
    ensures
        r == alive(pid, created, *sighting),
{
    pid == 0 || match sighting {
        Sighting::Running(started) => created == 0 || *started == created,
        Sighting::Exited => false,
        Sighting::Listed => true,
        Sighting::Absent => false,
        Sighting::Unknown => true,
    }
}

/// A process is alive only as the incarnation that was recorded: a reused pid
/// never brings a session back.
pub proof fn a_reused_pid_is_dead(pid: u32, created: u64, started: u64)
    requires
        pid != 0,
        created != 0,
    ensures
        alive(pid, created, Sighting::Running(started)) <==> started == created,
{
}

/// Only an answer kills: where nothing could be learned, the process counts as
/// alive.
pub proof fn not_knowing_is_not_knowing_it_is_gone(pid: u32, created: u64, sighting: Sighting)
    requires
        !alive(pid, created, sighting),
    ensures
        pid != 0,
        match sighting {
            Sighting::Running(started) => created != 0 && started != created,
            Sighting::Exited => true,
            Sighting::Listed => false,
            Sighting::Absent => true,
            Sighting::Unknown => false,
        },
{
}

/// No session is ever recorded as owned by init, by nobody, or by a shell.
pub proof fn an_owner_is_no_shell(pid: u32, chain: Seq<AncestorView>, depth: nat)
    ensures
        owner_spec(pid, chain, depth) matches Some((found, _)) ==> found > 1 && exists|i: int|
            0 <= i < chain.len() && #[trigger] is_link(chain[i], found),
    decreases depth,
{
    if let Some((found, _)) = owner_spec(pid, chain, depth) {
        let parent = chain[0].parent->0;
        let name = chain[0].name->0;
        if unix_shells().contains(name) {
            let rest = chain.skip(1);
            an_owner_is_no_shell(parent, rest, (depth - 1) as nat);
            assert(owner_spec(pid, chain, depth) == owner_spec(parent, rest, (depth - 1) as nat));
            let i = choose|i: int| 0 <= i < rest.len() && #[trigger] is_link(rest[i], found);
            assert(is_link(chain[i + 1], found));
        } else {
            assert(is_link(chain[0], found));
        }
    }
}

/// Whether a step of the chain leads to a process, and that one is no shell.
pub open spec fn is_link(step: AncestorView, pid: u32) -> bool {
    step.parent == Some(pid) && (step.name matches Some(name) && !unix_shells().contains(name))
}

} // verus!
