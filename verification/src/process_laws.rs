//! Which process an event comes from, and whether it still runs.

use vstd::prelude::*;
use vstd::string::*;

use crate::process;
use crate::process::{AncestorView, RowView, Sighting};
use crate::strings;

verus! {

/// These programs pass a hook on without being the agent, and no others.
pub proof fn these_are_shells(name: Seq<char>)
    ensures
        process::unix_shells().contains(name) <==> (name == "sh"@ || name == "bash"@
            || name == "dash"@ || name == "zsh"@ || name == "fish"@ || name == "ksh"@
            || name == "busybox"@ || name == "env"@ || name == "timeout"@ || name == "pipsqueak"@
            || name == "start-pipsqueak"@),
{
    let all = process::unix_shells();
    assert(all[0] == "sh"@);
    assert(all[1] == "bash"@);
    assert(all[2] == "dash"@);
    assert(all[3] == "zsh"@);
    assert(all[4] == "fish"@);
    assert(all[5] == "ksh"@);
    assert(all[6] == "busybox"@);
    assert(all[7] == "env"@);
    assert(all[8] == "timeout"@);
    assert(all[9] == "pipsqueak"@);
    assert(all[10] == "start-pipsqueak"@);
}

/// And these do on Windows.
pub proof fn these_are_shells_on_windows(name: Seq<char>)
    ensures
        process::windows_shells().contains(name) <==> (name == "powershell.exe"@
            || name == "pwsh.exe"@ || name == "cmd.exe"@ || name == "conhost.exe"@
            || name == "openconsole.exe"@ || name == "bash.exe"@ || name == "sh.exe"@
            || name == "zsh.exe"@ || name == "dash.exe"@ || name == "busybox.exe"@
            || name == "wsl.exe"@ || name == "wslhost.exe"@ || name == "pipsqueak.exe"@),
{
    let all = process::windows_shells();
    assert(all[0] == "powershell.exe"@);
    assert(all[1] == "pwsh.exe"@);
    assert(all[2] == "cmd.exe"@);
    assert(all[3] == "conhost.exe"@);
    assert(all[4] == "openconsole.exe"@);
    assert(all[5] == "bash.exe"@);
    assert(all[6] == "sh.exe"@);
    assert(all[7] == "zsh.exe"@);
    assert(all[8] == "dash.exe"@);
    assert(all[9] == "busybox.exe"@);
    assert(all[10] == "wsl.exe"@);
    assert(all[11] == "wslhost.exe"@);
    assert(all[12] == "pipsqueak.exe"@);
}

/// Whether the chain leads on past a step: it goes to another process, not to the
/// first one of the machine, and that one is a shell.
pub open spec fn passes(chain: Seq<AncestorView>, pid: u32, i: int) -> bool {
    let at = if i == 0 {
        Some(pid)
    } else {
        chain[i - 1].parent
    };
    &&& chain[i].parent matches Some(parent) && parent > 1 && at != Some(parent)
    &&& chain[i].name matches Some(name) && process::unix_shells().contains(name)
}

/// The agent is the first process up the chain that is no shell, however many
/// shells are in between, up to seven of them. It is not the first process of the
/// machine, and its start has to be known.
pub proof fn the_agent_is_behind_the_shells(pid: u32, chain: Seq<AncestorView>, k: int, depth: nat)
    requires
        0 <= k < depth,
        k < chain.len(),
        forall|i: int| 0 <= i < k ==> #[trigger] passes(chain, pid, i),
        !passes(chain, pid, k),
    ensures
        ({
            let at = if k == 0 {
                Some(pid)
            } else {
                chain[k - 1].parent
            };
            process::owner_spec(pid, chain, depth) == (match (
                chain[k].parent,
                chain[k].name,
                chain[k].started,
            ) {
                (Some(parent), Some(_), Some(started)) => if parent > 1 && at != Some(parent) {
                    Some((parent, started))
                } else {
                    None
                },
                _ => None,
            })
        }),
    decreases k,
{
    if k > 0 {
        assert(passes(chain, pid, 0));
        let parent = chain[0].parent->0;
        let rest = chain.skip(1);
        assert forall|i: int| 0 <= i < k - 1 implies #[trigger] passes(rest, parent, i) by {
            assert(passes(chain, pid, i + 1));
            assert(rest[i] == chain[i + 1]);
            if i > 0 {
                assert(rest[i - 1] == chain[i]);
            }
        }
        assert(rest[k - 1] == chain[k]);
        if k > 1 {
            assert(rest[k - 2] == chain[k - 1]);
        }
        the_agent_is_behind_the_shells(parent, rest, k - 1, (depth - 1) as nat);
    }
}

/// Behind eight shells nobody looks.
pub proof fn nobody_looks_behind_eight_shells(pid: u32, chain: Seq<AncestorView>, depth: nat)
    requires
        depth <= chain.len(),
        forall|i: int| 0 <= i < depth ==> #[trigger] passes(chain, pid, i),
    ensures
        process::owner_spec(pid, chain, depth) is None,
        process::MAX_DEPTH == 8,
    decreases depth,
{
    if depth > 0 {
        assert(passes(chain, pid, 0));
        let parent = chain[0].parent->0;
        let rest = chain.skip(1);
        assert forall|i: int| 0 <= i < depth - 1 implies #[trigger] passes(rest, parent, i) by {
            assert(passes(chain, pid, i + 1));
            assert(rest[i] == chain[i + 1]);
            if i > 0 {
                assert(rest[i - 1] == chain[i]);
            }
        }
        nobody_looks_behind_eight_shells(parent, rest, (depth - 1) as nat);
    }
}

/// In a table of processes the agent is the parent, unless that is a shell: then
/// it is whoever is above the shell.
pub proof fn the_agent_is_above_the_shells(table: Seq<RowView>, pid: u32, depth: nat)
    requires
        depth > 0,
    ensures
        ({
            let found = process::table_owner_spec(table, pid, depth);
            match process::row_of(table, pid) {
                None => found is None,
                Some(row) => match process::row_of(table, row.parent) {
                    None => found is None,
                    Some(above) => if row.parent == 0 || row.parent == pid {
                        found is None
                    } else if process::windows_shells().contains(above.name) {
                        found == process::table_owner_spec(table, row.parent, (depth - 1) as nat)
                    } else {
                        found == Some(row.parent)
                    },
                },
            }
        }),
{
}

/// The row of a process is the first that has its number.
pub proof fn a_row_is_found_by_its_number(table: Seq<RowView>, pid: u32, k: int)
    requires
        0 <= k <= table.len(),
        forall|j: int| 0 <= j < k ==> (#[trigger] table[j]).pid != pid,
        k < table.len() ==> table[k].pid == pid,
    ensures
        process::row_of(table, pid) == (if k < table.len() {
            Some(table[k])
        } else {
            None
        }),
    decreases k,
{
    if k > 0 {
        let rest = table.skip(1);
        assert forall|j: int| 0 <= j < k - 1 implies (#[trigger] rest[j]).pid != pid by {
            assert(rest[j] == table[j + 1]);
        }
        assert(table[0].pid != pid);
        a_row_is_found_by_its_number(rest, pid, k - 1);
    }
}

/// The number behind a key is that of the first line that begins with it.
pub proof fn the_first_line_with_the_key_counts(lines: Seq<Seq<char>>, key: Seq<char>, k: int)
    requires
        0 <= k <= lines.len(),
        forall|j: int| 0 <= j < k ==> !strings::begins(#[trigger] lines[j], key),
        k < lines.len() ==> strings::begins(lines[k], key),
    ensures
        process::keyed_number(lines, key) == (if k < lines.len() {
            strings::number_spec(strings::trimmed(lines[k].skip(key.len() as int)))
        } else {
            None
        }),
    decreases k,
{
    if k > 0 {
        let rest = lines.skip(1);
        assert forall|j: int| 0 <= j < k - 1 implies !strings::begins(#[trigger] rest[j], key) by {
            assert(rest[j] == lines[j + 1]);
        }
        assert(!strings::begins(lines[0], key));
        the_first_line_with_the_key_counts(rest, key, k - 1);
    }
}

/// A process's parent stands behind `PPid:`, and the second in which the machine
/// booted behind `btime`.
pub proof fn these_keys_are_read(text: Seq<char>)
    ensures
        ({
            let parent = process::keyed_number(strings::lines_spec(text), "PPid:"@);
            let seconds = process::keyed_number(strings::lines_spec(text), "btime "@);
            &&& parent is None ==> process::parent_spec(text) is None
            &&& parent matches Some(n) ==> (n <= u32::MAX ==> process::parent_spec(text) == Some(
                n as u32,
            ))
            &&& seconds is None ==> process::boot_spec(text) is None
            &&& seconds matches Some(n) ==> (n * 1000 <= u64::MAX ==> (process::boot_spec(
                text,
            ) matches Some(ms) && ms == n * 1000))
        }),
{
}

/// A machine that has been up for a time booted that long ago, and one that does not
/// say has no answer.
pub proof fn a_machine_booted_as_long_ago_as_it_is_up(now: u64, uptime: u64)
    ensures
        process::booted(now, uptime) is None <==> uptime == 0,
        process::booted(now, uptime) matches Some(at) ==> (uptime <= now ==> at + uptime == now) && (
        uptime > now ==> at == 0),
{
}

/// What a process does and when it started are the first field and the twentieth
/// behind its name, whatever parentheses the name holds.
pub proof fn the_fields_stand_behind_the_name(before: Seq<char>, rest: Seq<char>)
    requires
        forall|i: int| 0 <= i < rest.len() ==> rest[i] != ')',
    ensures
        ({
            let fields = strings::words_spec(rest);
            process::stat_spec(before + seq![')'] + rest) == (if fields.len() >= 20
                && fields[0].len() > 0 {
                match strings::number_spec(fields[19]) {
                    Some(started) => Some((fields[0][0], started)),
                    None => None,
                }
            } else {
                None
            })
        }),
{
    let stat = before + seq![')'] + rest;
    let set = seq![')'];
    assert(set[0] == ')');
    assert(set.contains(')'));
    strings::lemma_behind_last(stat, set);
    let k = strings::behind_last(stat, set);
    assert(stat[before.len() as int] == ')');
    if k > before.len() + 1 {
        assert(stat[k - 1] == rest[k - 1 - before.len() - 1]);
        let c = stat[k - 1];
        assert(set.contains(c));
    }
    if k <= before.len() {
        assert(!set.contains(stat[before.len() as int]));
    }
    assert(stat.skip(before.len() + 1int) =~= rest);
}

/// A process that has exited runs no more, though it is still listed; one that
/// cannot be read is there if it is listed.
pub proof fn what_has_exited_does_not_run(text: Seq<char>, listed: bool)
    ensures
        ({
            let seen = process::sighted(Some(text), listed);
            match process::stat_spec(text) {
                Some((state, started)) => if state == 'Z' || state == 'X' || state == 'x' {
                    seen == Sighting::Exited
                } else {
                    seen == Sighting::Running(started)
                },
                None => seen == (if listed {
                    Sighting::Listed
                } else {
                    Sighting::Absent
                }),
            }
        }),
        process::sighted(None, true) == Sighting::Listed,
        process::sighted(None, false) == Sighting::Absent,
{
}

/// A process is gone when it has exited, is not there, or is another one under
/// the same number; in all else it lives, and so does one whose number is not
/// known.
pub proof fn the_gone_are_told_from_the_living(pid: u32, created: u64, started: u64)
    ensures
        process::alive(0, created, Sighting::Exited) && process::alive(
            0,
            created,
            Sighting::Absent,
        ),
        pid != 0 ==> !process::alive(pid, created, Sighting::Exited) && !process::alive(
            pid,
            created,
            Sighting::Absent,
        ),
        process::alive(pid, created, Sighting::Listed) && process::alive(
            pid,
            created,
            Sighting::Unknown,
        ),
        process::alive(pid, created, Sighting::Running(started)) <==> (pid == 0 || created == 0
            || started == created),
{
}

} // verus!
