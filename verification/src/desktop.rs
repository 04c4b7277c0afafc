//! Small platform integrations: which window to bring forward, what program an
//! autostart entry launches, and how such an entry is written.

use vstd::prelude::*;
use vstd::string::*;

use crate::agent;
use crate::strings;

verus! {

// --- this program --------------------------------------------------------------
/// Where this program lives from the point of view of anything that has to
/// launch it later.
///
/// Not always the running binary. An AppImage is a self-mounting archive whose
/// mount is gone the moment the app exits. Its launcher exports the path of the
/// archive itself, which is the thing that actually persists. A relative or
/// empty value would be worse than no value at all: it resolves against whatever
/// directory the launching process happened to be in.
pub open spec fn own_spec(bundle: Option<Seq<char>>, current: Option<Seq<char>>) -> Option<
    Seq<char>,
> {
    match bundle {
        Some(path) => if strings::begins(path, "/"@) {
            Some(path)
        } else {
            current
        },
        None => current,
    }
}

pub fn own_program(bundle: Option<&str>, current: Option<&str>) -> (r: Option<String>)
    ensures
        strings::opt_view(r) == own_spec(strings::opt_str(bundle), strings::opt_str(current)),
{
    if let Some(path) = bundle {
        if strings::starts_with(path, "/") {
            return Some(path.to_owned());
        }
    }
    match current {
        Some(path) => Some(path.to_owned()),
        None => None,
    }
}

/// What "start with the machine" is called where the user can see it.
///
/// The mechanism differs, and so does the honest sentence: Windows starts the
/// program with the operating system, an autostart entry starts it when the
/// desktop session begins.
pub fn at_login(windows: bool) -> (r: &'static str)
    ensures
        r@ == at_login_spec(windows),
{
    if windows {
        "with Windows"
    } else {
        "when you log in"
    }
}

pub open spec fn at_login_spec(windows: bool) -> Seq<char> {
    if windows {
        "with Windows"@
    } else {
        "when you log in"@
    }
}

/// A path without what may stand around it: white space, then quotes.
pub open spec fn bare(path: Seq<char>) -> Seq<char> {
    strings::drop_end(
        strings::drop_start(strings::trimmed(path), strings::one_of(seq!['"'])),
        strings::one_of(seq!['"']),
    )
}

fn strip_quotes(path: &str) -> (r: String)
    ensures
        r@ == bare(path@),
{
    let quotes: Vec<char> = vec!['"'];
    assert(quotes@ =~= seq!['"']);
    strings::trim_of(strings::trim(path).as_str(), &quotes)
}

/// A path by which a program is told from another.
pub open spec fn normal(path: Seq<char>, windows: bool) -> Seq<char> {
    if windows {
        strings::lowered(strings::replaced(bare(path), '/', '\\'))
    } else {
        bare(path)
    }
}

fn normalise(path: &str, windows: bool) -> (r: String)
    ensures
        r@ == normal(path@, windows),
{
    let plain = strip_quotes(path);
    if windows {
        strings::lower(strings::replace_char(plain.as_str(), '/', '\\').as_str())
    } else {
        plain
    }
}

/// Are these two path strings the same program?
///
/// Windows: case and slash direction do not make two programs. Elsewhere they
/// do: `/opt/Pipsqueak` and `/opt/pipsqueak` are two different files on a
/// case-sensitive filesystem, and folding them would report a stale autostart
/// entry as healthy.
pub fn same_program(a: &str, b: &str, windows: bool) -> (r: bool)
    ensures
        r == (normal(a@, windows) == normal(b@, windows)),
{
    let first = normalise(a, windows);
    let second = normalise(b, windows);
    strings::same(first.as_str(), second.as_str())
}

/// Whether two path strings differ in letter case and slash direction at most.
pub open spec fn folded(path: Seq<char>) -> Seq<char> {
    strings::ascii_lowered(strings::replaced(path, '/', '\\'))
}

pub fn same_path_folded(a: &str, b: &str) -> (r: bool)
    ensures
        r == (folded(a@) == folded(b@)),
{
    let first = strings::lower_ascii(strings::replace_char(a, '/', '\\').as_str());
    let second = strings::lower_ascii(strings::replace_char(b, '/', '\\').as_str());
    strings::same(first.as_str(), second.as_str())
}

/// Where a program may be: as it is named, or for a bare name in each folder of
/// the search path.
pub open spec fn candidates_spec(program: Seq<char>, search: Seq<char>) -> Seq<Seq<char>> {
    if strings::has(program, "/"@) {
        seq![program]
    } else {
        in_folders(strings::split_spec(search, ':'), program)
    }
}

pub open spec fn in_folders(folders: Seq<Seq<char>>, program: Seq<char>) -> Seq<Seq<char>> {
    folders.map_values(|folder: Seq<char>| folder + "/"@ + program)
}

pub fn program_candidates(program: &str, search: &str) -> (r: Vec<String>)
    ensures
        strings::views(r@) == candidates_spec(program@, search@),
{
    if strings::contains(program, "/") {
        let r: Vec<String> = vec![program.to_owned()];
        assert(strings::views(r@) =~= seq![program@]);
        return r;
    }
    let folders = strings::split(search, ':');
    let ghost all = strings::views(folders@);
    let mut out: Vec<String> = Vec::new();
    let mut i: usize = 0;
    while i < folders.len()
        invariant
            i <= folders@.len(),
            all == strings::views(folders@),
            out@.len() == i,
            forall|j: int|
                0 <= j < i ==> (#[trigger] out@[j])@ == all[j] + "/"@ + program@,
        decreases folders@.len() - i,
    {
        out.push(strings::concat3(folders[i].as_str(), "/", program));
        i = i + 1;
    }
    assert(strings::views(out@) =~= in_folders(all, program@));
    out
}

// --- windows --------------------------------------------------------------------
/// The first of the fragments that a title contains.
pub open spec fn rank(title: Seq<char>, fragments: Seq<Seq<char>>) -> Option<int>
    decreases fragments.len(),
{
    if fragments.len() == 0 {
        None
    } else if strings::has(title, fragments[0]) {
        Some(0)
    } else {
        match rank(title, fragments.skip(1)) {
            Some(n) => Some(n + 1),
            None => None,
        }
    }
}

fn rank_of(title: &str, fragments: &Vec<String>) -> (r: Option<usize>)
    ensures
        match r {
            Some(n) => n < fragments@.len() && rank(title@, strings::views(fragments@)) == Some(
                n as int,
            ),
            None => rank(title@, strings::views(fragments@)) is None,
        },
{
    let ghost all = strings::views(fragments@);
    let mut i: usize = 0;
    assert(all.skip(0) =~= all);
    while i < fragments.len()
        invariant
            i <= fragments@.len(),
            all == strings::views(fragments@),
            rank(title@, all) == (match rank(title@, all.skip(i as int)) {
                Some(n) => Some(n + i),
                None => None,
            }),
        decreases fragments@.len() - i,
    {
        assert(all.skip(i as int)[0] == fragments@[i as int]@);
        assert(all.skip(i as int).skip(1) =~= all.skip(i + 1));
        if strings::contains(title, fragments[i].as_str()) {
            return Some(i);
        }
        i = i + 1;
    }
    None
}

/// Whether a window is the one to bring forward: none has a better rank, and
/// none before it has the same.
pub open spec fn is_best(titles: Seq<Seq<char>>, fragments: Seq<Seq<char>>, w: int) -> bool {
    &&& 0 <= w < titles.len()
    &&& rank(titles[w], fragments) is Some
    &&& forall|v: int|
        0 <= v < titles.len() ==> (rank(#[trigger] titles[v], fragments) matches Some(n) ==> {
            ||| rank(titles[w], fragments)->0 < n
            ||| rank(titles[w], fragments)->0 == n && w <= v
        })
}

/// Fragments as they are matched: in lower case, the empty ones left out.
pub open spec fn usable(fragments: Seq<Seq<char>>) -> Seq<Seq<char>>
    decreases fragments.len(),
{
    if fragments.len() == 0 {
        seq![]
    } else {
        let before = usable(fragments.drop_last());
        let last = strings::lowered(fragments.last());
        if last.len() == 0 {
            before
        } else {
            before.push(last)
        }
    }
}

pub open spec fn all_lowered(titles: Seq<Seq<char>>) -> Seq<Seq<char>> {
    titles.map_values(|t: Seq<char>| strings::lowered(t))
}

fn usable_of(fragments: &Vec<String>) -> (r: Vec<String>)
    ensures
        strings::views(r@) == usable(strings::views(fragments@)),
{
    let ghost all = strings::views(fragments@);
    let mut out: Vec<String> = Vec::new();
    let mut i: usize = 0;
    assert(all.take(0) =~= seq![]);
    assert(strings::views(out@) =~= seq![]);
    while i < fragments.len()
        invariant
            i <= fragments@.len(),
            all == strings::views(fragments@),
            strings::views(out@) == usable(all.take(i as int)),
        decreases fragments@.len() - i,
    {
        let ghost before = strings::views(out@);
        assert(all.take(i + 1).drop_last() =~= all.take(i as int));
        assert(all.take(i + 1).last() == fragments@[i as int]@);
        let lowered = strings::lower(fragments[i].as_str());
        if !lowered.as_str().is_empty() {
            let ghost kept = lowered@;
            out.push(lowered);
            assert(strings::views(out@) =~= before.push(kept));
        }
        i = i + 1;
    }
    assert(all.take(i as int) =~= all);
    out
}

/// Which of the visible windows to focus: the first whose title contains one of
/// `fragments` (matched case-insensitively, in order of preference).
pub fn focus_window_titled(fragments: &Vec<String>, titles: &Vec<String>) -> (r: Option<usize>)
    ensures
        match r {
            Some(w) => is_best(
                all_lowered(strings::views(titles@)),
                usable(strings::views(fragments@)),
                w as int,
            ),
            None => forall|v: int|
                0 <= v < titles@.len() ==> rank(
                    #[trigger] all_lowered(strings::views(titles@))[v],
                    usable(strings::views(fragments@)),
                ) is None,
        },
{
    let wanted = usable_of(fragments);
    let ghost all = all_lowered(strings::views(titles@));
    let ghost parts = usable(strings::views(fragments@));
    let mut best: Option<(usize, usize)> = None;
    let mut i: usize = 0;
    while i < titles.len()
        invariant
            i <= titles@.len(),
            all == all_lowered(strings::views(titles@)),
            parts == strings::views(wanted@),
            match best {
                Some((w, n)) => {
                    &&& w < i
                    &&& rank(all[w as int], parts) == Some(n as int)
                    &&& forall|v: int|
                        0 <= v < i ==> (rank(#[trigger] all[v], parts) matches Some(m) ==> n < m
                            || (n == m && w <= v))
                },
                None => forall|v: int| 0 <= v < i ==> rank(#[trigger] all[v], parts) is None,
            },
        decreases titles@.len() - i,
    {
        let title = strings::lower(titles[i].as_str());
        assert(all[i as int] == title@);
        if let Some(n) = rank_of(title.as_str(), &wanted) {
            let better = match best {
                Some((_, m)) => n < m,
                None => true,
            };
            if better {
                best = Some((i, n));
            }
        }
        i = i + 1;
    }
    match best {
        Some((w, _)) => Some(w),
        None => None,
    }
}

// --- autostart entries ------------------------------------------------------------
/// Characters that a desktop entry's `Exec=` key reserves.
pub open spec fn reserved() -> Seq<char> {
    seq![
        ' ',
        '\t',
        '\n',
        '"',
        '\'',
        '\\',
        '>',
        '<',
        '~',
        '|',
        '&',
        ';',
        '$',
        '*',
        '?',
        '#',
        '(',
        ')',
        '`',
    ]
}

fn reserved_chars() -> (r: Vec<char>)
    ensures
        r@ == reserved(),
{
    let r: Vec<char> = vec![
        ' ',
        '\t',
        '\n',
        '"',
        '\'',
        '\\',
        '>',
        '<',
        '~',
        '|',
        '&',
        ';',
        '$',
        '*',
        '?',
        '#',
        '(',
        ')',
        '`',
    ];
    assert(r@ =~= reserved());
    r
}

/// A backslash before every quote and every backslash.
pub open spec fn escaped(s: Seq<char>) -> Seq<char>
    decreases s.len(),
{
    if s.len() == 0 {
        seq![]
    } else if s[0] == '\\' || s[0] == '"' {
        seq!['\\', s[0]] + escaped(s.skip(1))
    } else {
        seq![s[0]] + escaped(s.skip(1))
    }
}

pub open spec fn needs_quoting(path: Seq<char>) -> bool {
    exists|i: int| 0 <= i < path.len() && reserved().contains(#[trigger] path[i])
}

pub open spec fn quoted(path: Seq<char>) -> Seq<char> {
    if needs_quoting(path) {
        "\""@ + escaped(path) + "\""@
    } else {
        path
    }
}

fn escape(s: &str) -> (r: String)
    ensures
        r@ == escaped(s@),
{
    let v = strings::chars_of(s);
    let mut out = String::new();
    let mut i: usize = 0;
    assert(v@.skip(0) =~= v@);
    assert(out@ + escaped(v@) =~= escaped(v@));
    while i < v.len()
        invariant
            i <= v@.len(),
            v@ == s@,
            out@ + escaped(v@.skip(i as int)) == escaped(s@),
        decreases v@.len() - i,
    {
        let ghost rest = v@.skip(i as int);
        let ghost before = out@;
        assert(rest.skip(1) =~= v@.skip(i + 1));
        let c = v[i];
        if c == '\\' || c == '"' {
            out.push('\\');
            out.push(c);
            assert(before + (seq!['\\', c] + escaped(rest.skip(1))) =~= out@ + escaped(
                rest.skip(1),
            ));
        } else {
            out.push(c);
            assert(before + (seq![c] + escaped(rest.skip(1))) =~= out@ + escaped(rest.skip(1)));
        }
        i = i + 1;
    }
    assert(out@ + escaped(v@.skip(i as int)) =~= out@);
    out
}

/// Quotes a program path for a desktop entry's `Exec=` key.
///
/// The spec reserves a small pile of characters, and an unquoted path containing
/// any of them is not merely wrong, it is a different command. An AppImage in
/// `~/Downloads/My Apps/` is the ordinary case.
pub fn quote_exec(path: &str) -> (r: String)
    ensures
        r@ == quoted(path@),
{
    let v = strings::chars_of(path);
    let set = reserved_chars();
    let mut i: usize = 0;
    while i < v.len()
        invariant
            i <= v@.len(),
            v@ == path@,
            set@ == reserved(),
            forall|j: int| 0 <= j < i ==> !reserved().contains(#[trigger] v@[j]),
        decreases v@.len() - i,
    {
        if strings::within(&set, v[i]) {
            assert(needs_quoting(path@));
            return strings::concat3("\"", escape(path).as_str(), "\"");
        }
        i = i + 1;
    }
    path.to_owned()
}

/// What stands in quotes, up to the closing one.
pub open spec fn unescaped(s: Seq<char>) -> Seq<char>
    decreases s.len(),
{
    if s.len() == 0 || s[0] == '"' {
        seq![]
    } else if s[0] == '\\' {
        if s.len() == 1 {
            seq![]
        } else {
            seq![s[1]] + unescaped(s.skip(2))
        }
    } else {
        seq![s[0]] + unescaped(s.skip(1))
    }
}

/// The program of an `Exec=` value.
pub open spec fn unquoted(exec: Seq<char>) -> Seq<char> {
    let t = strings::trimmed(exec);
    if t.len() > 0 && t[0] == '"' {
        unescaped(t.skip(1))
    } else {
        let words = strings::words_spec(t);
        if words.len() > 0 {
            words[0]
        } else {
            seq![]
        }
    }
}

/// The inverse, tolerant of an entry somebody wrote by hand.
///
/// Only the program is wanted, so anything after it is dropped, including the
/// `%f`-style field codes the spec allows.
pub fn unquote_exec(exec: &str) -> (r: String)
    ensures
        r@ == unquoted(exec@),
{
    let t = strings::trim(exec);
    let v = strings::chars_of(t.as_str());
    if v.len() > 0 && v[0] == '"' {
        let mut out = String::new();
        let mut i: usize = 1;
        assert(v@.skip(1) =~= t@.skip(1));
        assert(out@ + unescaped(v@.skip(1)) =~= unescaped(v@.skip(1)));
        while i < v.len() && v[i] != '"'
            invariant
                1 <= i <= v@.len(),
                out@ + unescaped(v@.skip(i as int)) == unescaped(v@.skip(1)),
            decreases v@.len() - i,
        {
            let ghost rest = v@.skip(i as int);
            let ghost before = out@;
            if v[i] == '\\' {
                if i + 1 < v.len() {
                    let c = v[i + 1];
                    out.push(c);
                    assert(rest.skip(2) =~= v@.skip(i + 2));
                    assert(before + (seq![c] + unescaped(rest.skip(2))) =~= out@ + unescaped(
                        rest.skip(2),
                    ));
                    i = i + 2;
                } else {
                    i = i + 1;
                    assert(v@.skip(i as int) =~= seq![]);
                    assert(unescaped(v@.skip(i as int)) =~= seq![]);
                }
            } else {
                let c = v[i];
                out.push(c);
                assert(rest.skip(1) =~= v@.skip(i + 1));
                assert(before + (seq![c] + unescaped(rest.skip(1))) =~= out@ + unescaped(
                    rest.skip(1),
                ));
                i = i + 1;
            }
        }
        assert(unescaped(v@.skip(i as int)) =~= seq![]);
        assert(out@ + unescaped(v@.skip(i as int)) =~= out@);
        out
    } else {
        let words = strings::words(t.as_str());
        let ghost all = strings::views(words@);
        assert(all.len() == words@.len());
        if words.len() > 0 {
            assert(all[0] == words@[0]@);
            words[0].as_str().to_owned()
        } else {
            let none = String::new();
            assert(none@ =~= seq![]);
            none
        }
    }
}

/// Whether a line switches the entry off.
pub open spec fn disables(line: Seq<char>) -> bool {
    strings::ascii_lowered(strings::trimmed(line)) == strings::ascii_lowered(
        "X-GNOME-Autostart-enabled=false"@,
    )
}

pub open spec fn switched_off(lines: Seq<Seq<char>>) -> bool {
    exists|i: int| 0 <= i < lines.len() && disables(#[trigger] lines[i])
}

/// What the first `Exec=` line says.
pub open spec fn exec_line(lines: Seq<Seq<char>>) -> Option<Seq<char>>
    decreases lines.len(),
{
    if lines.len() == 0 {
        None
    } else {
        match strings::behind(strings::trimmed(lines[0]), "Exec="@) {
            Some(rest) => Some(rest),
            None => exec_line(lines.skip(1)),
        }
    }
}

/// The program that a desktop entry launches. An entry can be disabled without
/// being deleted, and something that will not launch is not autostart however
/// present the file is.
pub open spec fn entry_command(text: Seq<char>) -> Option<Seq<char>> {
    let lines = strings::lines_spec(text);
    if switched_off(lines) {
        None
    } else {
        match exec_line(lines) {
            Some(exec) => if unquoted(exec).len() == 0 {
                None
            } else {
                Some(unquoted(exec))
            },
            None => None,
        }
    }
}

/// The program the autostart entry actually launches, if there is one.
///
/// Worth having separately from "is it enabled": an entry pointing at a path the
/// app was installed to two versions ago is present, looks healthy, and starts
/// nothing.
pub fn autostart_command(entry: Option<&str>) -> (r: Option<String>)
    ensures
        strings::opt_view(r) == (match entry {
            Some(text) => entry_command(text@),
            None => None,
        }),
{
    let text = match entry {
        Some(text) => text,
        None => {
            return None;
        },
    };
    let lines = strings::lines(text);
    let ghost all = strings::views(lines@);
    let off = strings::lower_ascii("X-GNOME-Autostart-enabled=false");
    let mut i: usize = 0;
    while i < lines.len()
        invariant
            i <= lines@.len(),
            all == strings::views(lines@),
            all == strings::lines_spec(text@),
            entry == Some(text),
            off@ == strings::ascii_lowered("X-GNOME-Autostart-enabled=false"@),
            forall|j: int| 0 <= j < i ==> !disables(#[trigger] all[j]),
        decreases lines@.len() - i,
    {
        assert(all[i as int] == lines@[i as int]@);
        let line = strings::lower_ascii(strings::trim(lines[i].as_str()).as_str());
        if strings::same(line.as_str(), off.as_str()) {
            assert(disables(all[i as int]));
            return None;
        }
        i = i + 1;
    }
    assert(!switched_off(all));
    let mut k: usize = 0;
    assert(all.skip(0) =~= all);
    while k < lines.len()
        invariant
            k <= lines@.len(),
            all == strings::views(lines@),
            all == strings::lines_spec(text@),
            entry == Some(text),
            !switched_off(all),
            exec_line(all) == exec_line(all.skip(k as int)),
        decreases lines@.len() - k,
    {
        assert(all.skip(k as int)[0] == lines@[k as int]@);
        assert(all.skip(k as int).skip(1) =~= all.skip(k + 1));
        let line = strings::trim(lines[k].as_str());
        if let Some(exec) = strings::strip_prefix(line.as_str(), "Exec=") {
            let command = unquote_exec(exec.as_str());
            if command.as_str().is_empty() {
                return None;
            }
            return Some(command);
        }
        k = k + 1;
    }
    None
}

/// Whether anything starts with the machine.
pub fn autostart_enabled(entry: Option<&str>) -> (r: bool)
    ensures
        r == (entry matches Some(text) && entry_command(text@) is Some),
{
    autostart_command(entry).is_some()
}

/// The value in the first line that names its type.
pub open spec fn registry_line(lines: Seq<Seq<char>>) -> Option<Seq<char>>
    decreases lines.len(),
{
    if lines.len() == 0 {
        None
    } else {
        match strings::find_spec(lines[0], "REG_SZ"@) {
            Some(i) => Some(lines[0].skip(i + 6)),
            None => registry_line(lines.skip(1)),
        }
    }
}

/// The program that the output of a registry query names, in a line such as
/// `    Pipsqueak    REG_SZ    "C:\apps\pipsqueak.exe"`.
pub open spec fn registry_spec(output: Seq<char>) -> Option<Seq<char>> {
    match registry_line(strings::lines_spec(output)) {
        Some(value) => if bare(value).len() == 0 {
            None
        } else {
            Some(bare(value))
        },
        None => None,
    }
}

pub fn registry_command(output: &str) -> (r: Option<String>)
    ensures
        strings::opt_view(r) == registry_spec(output@),
{
    let lines = strings::lines(output);
    let ghost all = strings::views(lines@);
    let mut i: usize = 0;
    assert(all.skip(0) =~= all);
    while i < lines.len()
        invariant
            i <= lines@.len(),
            all == strings::views(lines@),
            all == strings::lines_spec(output@),
            registry_line(all) == registry_line(all.skip(i as int)),
        decreases lines@.len() - i,
    {
        let ghost line = lines@[i as int]@;
        assert(all.skip(i as int)[0] == line);
        assert(all.skip(i as int).skip(1) =~= all.skip(i + 1));
        if let Some(at) = strings::find(lines[i].as_str(), "REG_SZ") {
            let v = strings::chars_of(lines[i].as_str());
            proof {
                reveal_strlit("REG_SZ");
                assert("REG_SZ"@.len() == 6);
                strings::lemma_find(line, "REG_SZ"@);
            }
            let rest = strings::slice(&v, at + 6, v.len());
            assert(rest@ =~= line.skip(at + 6));
            let value = strip_quotes(rest.as_str());
            if value.as_str().is_empty() {
                return None;
            }
            return Some(value);
        }
        i = i + 1;
    }
    None
}

/// Where the entry that starts the pet at login is, as folders and a name: below
/// the configuration folder that the session names, if that is an absolute
/// path, and otherwise below the usual one.
pub fn autostart_entry(config: Option<&str>, home: &str) -> (r: Vec<String>)
    ensures
        strings::views(r@) == (match config {
            Some(path) => if strings::begins(path@, "/"@) {
                seq![path@]
            } else {
                seq![home@, ".config"@]
            },
            None => seq![home@, ".config"@],
        }) + seq!["autostart"@, "pipsqueak.desktop"@],
{
    let mut r: Vec<String> = Vec::new();
    let named = match config {
        Some(path) => if strings::starts_with(path, "/") {
            Some(path)
        } else {
            None
        },
        None => None,
    };
    match named {
        Some(path) => r.push(path.to_owned()),
        None => {
            r.push(home.to_owned());
            r.push(".config".to_owned());
        },
    }
    r.push("autostart".to_owned());
    r.push("pipsqueak.desktop".to_owned());
    assert(strings::views(r@) =~= (match config {
        Some(path) => if strings::begins(path@, "/"@) {
            seq![path@]
        } else {
            seq![home@, ".config"@]
        },
        None => seq![home@, ".config"@],
    }) + seq!["autostart"@, "pipsqueak.desktop"@]);
    r
}

/// Lines, each with its line feed.
pub open spec fn page(lines: Seq<Seq<char>>) -> Seq<char>
    decreases lines.len(),
{
    if lines.len() == 0 {
        seq![]
    } else {
        lines[0].push('\n') + page(lines.skip(1))
    }
}

/// The desktop entry that starts a program at login. It is kept out of the
/// applications menu: it exists to start the overlay, and a second copy of
/// Pipsqueak in the launcher grid is not a feature.
pub open spec fn entry_lines(exe: Seq<char>) -> Seq<Seq<char>> {
    seq![
        "[Desktop Entry]"@,
        "Type=Application"@,
        "Name=Pipsqueak"@,
        "Comment=Desktop pet for "@ + agent::product_spec(),
        "Exec="@ + quoted(exe),
        "Icon=pipsqueak"@,
        "Terminal=false"@,
        "NoDisplay=true"@,
        "X-GNOME-Autostart-enabled=true"@,
    ]
}

pub fn entry_text(exe: &str) -> (r: String)
    ensures
        r@ == page(entry_lines(exe@)),
{
    let exec = strings::concat2("Exec=", quote_exec(exe).as_str());
    let lines: Vec<String> = vec![
        "[Desktop Entry]".to_owned(),
        "Type=Application".to_owned(),
        "Name=Pipsqueak".to_owned(),
        strings::concat2("Comment=Desktop pet for ", agent::product().as_str()),
        exec,
        "Icon=pipsqueak".to_owned(),
        "Terminal=false".to_owned(),
        "NoDisplay=true".to_owned(),
        "X-GNOME-Autostart-enabled=true".to_owned(),
    ];
    let ghost all = entry_lines(exe@);
    assert(strings::views(lines@) =~= all);
    let mut out = String::new();
    let mut i: usize = 0;
    assert(all.skip(0) =~= all);
    assert(out@ + page(all) =~= page(all));
    while i < lines.len()
        invariant
            i <= lines@.len(),
            all == strings::views(lines@),
            out@ + page(all.skip(i as int)) == page(all),
        decreases lines@.len() - i,
    {
        let ghost before = out@;
        let ghost line = lines@[i as int]@;
        assert(all.skip(i as int)[0] == line);
        assert(all.skip(i as int).skip(1) =~= all.skip(i + 1));
        out = strings::concat2(out.as_str(), lines[i].as_str());
        out.push('\n');
        assert(before + (line.push('\n') + page(all.skip(i + 1))) =~= out@ + page(
            all.skip(i + 1),
        ));
        i = i + 1;
    }
    assert(out@ + page(all.skip(i as int)) =~= out@);
    out
}

// --- laws ----------------------------------------------------------------------------
proof fn lemma_unescape(p: Seq<char>)
    ensures
        unescaped(escaped(p) + "\""@) == p,
    decreases p.len(),
{
    reveal_strlit("\"");
    assert("\""@ =~= seq!['"']);
    let s = escaped(p) + seq!['"'];
    if p.len() == 0 {
        assert(s =~= seq!['"']);
        assert(unescaped(s) =~= p);
    } else {
        lemma_unescape(p.skip(1));
        let rest = escaped(p.skip(1)) + seq!['"'];
        if p[0] == '\\' || p[0] == '"' {
            assert(s.skip(2) =~= rest);
        } else {
            assert(s.skip(1) =~= rest);
        }
        assert(seq![p[0]] + p.skip(1) =~= p);
    }
}

/// A path without white space is its own first word.
proof fn lemma_one_word(p: Seq<char>)
    requires
        p.len() > 0,
        forall|i: int| 0 <= i < p.len() ==> !strings::is_white(#[trigger] p[i]),
    ensures
        strings::trimmed(p) == p,
        strings::words_spec(p).len() > 0,
        strings::words_spec(p)[0] == p,
{
    assert(!strings::is_white(p[0]));
    assert(!strings::is_white(p[p.len() - 1]));
    assert(strings::trimmed_start(p) == p);
    strings::lemma_word_len(p);
    assert(strings::word_len(p) == p.len());
    assert(p.take(p.len() as int) =~= p);
}

/// What is quoted is read back, whatever is in it. The one path that is not is
/// one whose only white space is none that the quoting rules know of.
pub proof fn quoting_is_undone(p: Seq<char>)
    requires
        needs_quoting(p) || forall|i: int|
            0 <= i < p.len() ==> !strings::is_white(#[trigger] p[i]),
    ensures
        unquoted(quoted(p)) == p,
{
    if needs_quoting(p) {
        reveal_strlit("\"");
        assert("\""@ =~= seq!['"']);
        let q = quoted(p);
        assert(q[0] == '"');
        assert(q.last() == '"');
        assert(!strings::is_white('"'));
        assert(strings::trimmed(q) == q);
        assert(q.skip(1) =~= escaped(p) + "\""@);
        lemma_unescape(p);
    } else if p.len() == 0 {
        assert(strings::trimmed(p) =~= p);
        assert(strings::words_spec(p) =~= seq![]);
        assert(unquoted(p) =~= p);
    } else {
        lemma_one_word(p);
        if p[0] == '"' {
            assert(reserved()[3] == '"');
            assert(reserved().contains(p[0]));
        }
    }
}

proof fn lemma_page(lines: Seq<Seq<char>>)
    requires
        forall|i: int|
            0 <= i < lines.len() ==> !(#[trigger] lines[i]).contains('\n') && strings::chomped(
                lines[i],
            ) == lines[i],
    ensures
        strings::lines_spec(page(lines)) == lines,
    decreases lines.len(),
{
    let text = page(lines);
    if lines.len() == 0 {
        assert(strings::lines_spec(text) =~= lines);
    } else {
        let line = lines[0];
        let rest = lines.skip(1);
        assert forall|i: int| 0 <= i < rest.len() implies !(#[trigger] rest[i]).contains('\n')
            && strings::chomped(rest[i]) == rest[i] by {
            assert(rest[i] == lines[i + 1]);
        }
        lemma_page(rest);
        strings::lemma_position(text, '\n');
        let n = strings::position(text, '\n');
        let len = line.len() as int;
        assert(text[len] == '\n');
        if n < len {
            assert(line[n] == text[n]);
            assert(line.contains('\n'));
        }
        assert(n == len);
        assert(text.take(n) =~= line);
        assert(text.skip(n + 1) =~= page(rest));
        assert(seq![line] + rest =~= lines);
    }
}

/// A line that begins with some other letter is no `Exec=` line.
proof fn lemma_other_line(line: Seq<char>)
    requires
        line.len() > 0,
        !strings::is_white(line[0]),
        line[0] != 'E',
    ensures
        strings::behind(strings::trimmed(line), "Exec="@) is None,
{
    reveal_strlit("Exec=");
    assert("Exec="@.len() == 5 && "Exec="@[0] == 'E');
    assert(strings::trimmed_start(line) == line);
    strings::lemma_drop_end(line, strings::white());
    let t = strings::trimmed(line);
    if strings::begins(t, "Exec="@) {
        assert(t.take(5)[0] == t[0]);
        assert(t[0] == line[0]);
    }
}

/// A line that is too short, or begins with some other letter, switches nothing
/// off.
proof fn lemma_harmless(line: Seq<char>)
    requires
        line.len() < 31 || (!strings::is_white(line[0]) && strings::ascii_lower(line[0]) != 'x'),
    ensures
        !disables(line),
{
    reveal_strlit("X-GNOME-Autostart-enabled=false");
    let off = "X-GNOME-Autostart-enabled=false"@;
    assert(off.len() == 31 && off[0] == 'X');
    let t = strings::trimmed(line);
    strings::lemma_drop_start(line, strings::white());
    strings::lemma_drop_end(strings::trimmed_start(line), strings::white());
    assert(t.len() <= line.len());
    if disables(line) {
        let low = strings::ascii_lowered(t);
        assert(low.len() == t.len());
        assert(strings::ascii_lowered(off).len() == 31);
        assert(strings::ascii_lowered(off)[0] == strings::ascii_lower(off[0]));
        assert(low[0] == strings::ascii_lower(t[0]));
        assert(strings::trimmed_start(line) == line);
        assert(t[0] == line[0]);
    }
}

/// The entry that is written for a program launches that program.
pub proof fn an_entry_launches_its_program(p: Seq<char>)
    requires
        p.len() > 0,
        !p.contains('\n'),
        needs_quoting(p) || forall|i: int|
            0 <= i < p.len() ==> !strings::is_white(#[trigger] p[i]),
    ensures
        entry_command(page(entry_lines(p))) == Some(p),
{
    reveal_strlit("[Desktop Entry]");
    reveal_strlit("Type=Application");
    reveal_strlit("Name=Pipsqueak");
    reveal_strlit("Comment=Desktop pet for ");
    reveal_strlit("Claude_Code");
    reveal_strlit("Exec=");
    reveal_strlit("Icon=pipsqueak");
    reveal_strlit("Terminal=false");
    reveal_strlit("NoDisplay=true");
    reveal_strlit("X-GNOME-Autostart-enabled=true");
    let lines = entry_lines(p);
    let q = quoted(p);
    let exec = "Exec="@ + q;
    quoting_is_undone(p);
    lemma_quoted(p);
    assert(lines[0][0] == '[' && lines[1][0] == 'T' && lines[2][0] == 'N' && lines[3][0] == 'C');
    assert(lines[4] == exec && exec[0] == 'E');
    assert(lines[0].len() == 15 && lines[1].len() == 16 && lines[2].len() == 14);
    assert(lines[5].len() == 14 && lines[6].len() == 14 && lines[7].len() == 14
        && lines[8].len() == 30);
    assert(!exec.contains('\n')) by {
        if exec.contains('\n') {
            let i = choose|i: int| 0 <= i < exec.len() && exec[i] == '\n';
            assert(i >= 5);
            assert(q[i - 5] == '\n');
            assert(q.contains('\n'));
        }
    }
    assert(exec.last() == q.last());
    lemma_page(lines);
    lemma_other_line(lines[0]);
    lemma_other_line(lines[1]);
    lemma_other_line(lines[2]);
    lemma_other_line(lines[3]);
    assert(strings::trimmed_start(exec) == exec);
    assert(strings::trimmed(exec) == exec);
    assert(exec.take(5) =~= "Exec="@);
    assert(exec.skip(5) =~= q);
    assert(exec_line(lines) == Some(q)) by {
        reveal_with_fuel(exec_line, 6);
        assert(lines.skip(1)[0] == lines[1]);
        assert(lines.skip(1).skip(1)[0] == lines[2]);
        assert(lines.skip(1).skip(1).skip(1)[0] == lines[3]);
        assert(lines.skip(1).skip(1).skip(1).skip(1)[0] == lines[4]);
    }
    assert forall|i: int| 0 <= i < lines.len() implies !disables(#[trigger] lines[i]) by {
        lemma_harmless(lines[i]);
    }
}

/// Quoting puts in no line break and leaves no white space at the end.
proof fn lemma_quoted(p: Seq<char>)
    requires
        p.len() > 0,
        !p.contains('\n'),
        needs_quoting(p) || forall|i: int|
            0 <= i < p.len() ==> !strings::is_white(#[trigger] p[i]),
    ensures
        quoted(p).len() > 0,
        !quoted(p).contains('\n'),
        !strings::is_white(quoted(p).last()),
{
    if needs_quoting(p) {
        reveal_strlit("\"");
        assert("\""@ =~= seq!['"']);
        lemma_escaped_break(p);
        let q = quoted(p);
        if q.contains('\n') {
            let i = choose|i: int| 0 <= i < q.len() && q[i] == '\n';
            assert(escaped(p)[i - 1] == '\n');
            assert(escaped(p).contains('\n'));
        }
    } else {
        assert(!strings::is_white(p[p.len() - 1]));
    }
}

proof fn lemma_escaped_break(p: Seq<char>)
    requires
        !p.contains('\n'),
    ensures
        !escaped(p).contains('\n'),
    decreases p.len(),
{
    if p.len() > 0 {
        let rest = p.skip(1);
        assert(p.contains(p[0]));
        assert(!rest.contains('\n')) by {
            if rest.contains('\n') {
                let i = choose|i: int| 0 <= i < rest.len() && rest[i] == '\n';
                assert(p[i + 1] == '\n');
            }
        }
        lemma_escaped_break(rest);
        let e = escaped(p);
        let n: int = if p[0] == '\\' || p[0] == '"' {
            2
        } else {
            1
        };
        if e.contains('\n') {
            let i = choose|i: int| 0 <= i < e.len() && e[i] == '\n';
            if i >= n {
                assert(escaped(rest)[i - n] == '\n');
                assert(escaped(rest).contains('\n'));
            }
        }
    }
}

} // verus!
