//! How the pet is started, and how the window that somebody works in is found.

use vstd::prelude::*;
use vstd::string::*;

use crate::agent;
use crate::desktop;
use crate::strings;
use crate::text_laws;

verus! {

// --- one program under several spellings ---------------------------------------------------
/// Neither blanks nor quotes around a path are part of it.
pub proof fn quotes_around_a_path_go(before: Seq<char>, path: Seq<char>, behind: Seq<char>)
    requires
        forall|i: int| 0 <= i < before.len() ==> strings::is_white(#[trigger] before[i]),
        forall|i: int| 0 <= i < behind.len() ==> strings::is_white(#[trigger] behind[i]),
        path.len() > 0,
        path[0] != '"' && path.last() != '"',
        !strings::is_white(path[0]) && !strings::is_white(path.last()),
    ensures
        desktop::bare(before + (seq!['"'] + path + seq!['"']) + behind) == path,
        desktop::bare(before + path + behind) == path,
{
    let set = seq!['"'];
    let f = strings::one_of(set);
    assert(set[0] == '"');
    assert(f('"'));
    assert(!f(path[0]) && !f(path.last()));
    let whole = seq!['"'] + path + seq!['"'];
    assert(whole[0] == '"' && whole.last() == '"');
    text_laws::blanks_around_a_text_go(before, whole, behind);
    text_laws::blanks_around_a_text_go(before, path, behind);
    assert(strings::drop_start(path, f) == path);
    assert(strings::drop_end(path, f) == path);
    let tail = path + seq!['"'];
    assert(whole.skip(1) =~= tail);
    assert(tail[0] == path[0]);
    assert(strings::drop_start(tail, f) == tail);
    assert(strings::drop_start(whole, f) == tail) by {
        reveal_with_fuel(strings::drop_start, 2);
    }
    assert(tail.drop_last() =~= path);
    assert(strings::drop_end(tail, f) == path) by {
        reveal_with_fuel(strings::drop_end, 2);
    }
}

/// On Windows two spellings are one program that differ only in their separators or
/// in the case of ASCII letters; elsewhere they have to be the same.
pub proof fn a_spelling_counts_but_on_windows(a: Seq<char>, b: Seq<char>)
    ensures
        desktop::normal(a, false) == desktop::normal(b, false) <==> desktop::bare(a)
            == desktop::bare(b),
        strings::replaced(desktop::bare(a), '/', '\\') == strings::replaced(
            desktop::bare(b),
            '/',
            '\\',
        ) ==> desktop::normal(a, true) == desktop::normal(b, true),
        desktop::normal(a, true) == strings::lowered(
            strings::replaced(desktop::bare(a), '/', '\\'),
        ),
        a.len() == b.len() && (forall|i: int|
            0 <= i < a.len() ==> (#[trigger] a[i]) == b[i] || strings::ascii_lower(a[i])
                == strings::ascii_lower(b[i])) ==> desktop::folded(a) == desktop::folded(b),
{
    if a.len() == b.len() && (forall|i: int|
        0 <= i < a.len() ==> (#[trigger] a[i]) == b[i] || strings::ascii_lower(a[i])
            == strings::ascii_lower(b[i])) {
        assert forall|i: int| 0 <= i < a.len() implies #[trigger] desktop::folded(a)[i]
            == desktop::folded(b)[i] by {
            assert(strings::ascii_lower(a[i]) == strings::ascii_lower(b[i]));
        }
        assert(desktop::folded(a) =~= desktop::folded(b));
    }
}

/// A program with a path is that one; any other is looked for in each folder of the
/// search path, in order.
pub proof fn a_program_is_looked_for_in_each_folder(program: Seq<char>, search: Seq<char>)
    ensures
        ({
            let found = desktop::candidates_spec(program, search);
            let folders = strings::split_spec(search, ':');
            &&& strings::has(program, "/"@) ==> found == seq![program]
            &&& strings::has(program, "/"@) == false ==> {
                &&& found.len() == folders.len()
                &&& forall|i: int|
                    0 <= i < folders.len() ==> #[trigger] found[i] == folders[i] + "/"@ + program
            }
        }),
{
}

// --- the window that somebody works in ------------------------------------------------------
/// A title is as good as the first of the names that it holds.
pub proof fn the_first_name_in_a_title_counts(title: Seq<char>, fragments: Seq<Seq<char>>, k: int)
    requires
        0 <= k <= fragments.len(),
        forall|j: int| 0 <= j < k ==> strings::has(title, #[trigger] fragments[j]) == false,
        k < fragments.len() ==> strings::has(title, fragments[k]),
    ensures
        desktop::rank(title, fragments) == (if k < fragments.len() {
            Some(k)
        } else {
            None
        }),
    decreases k,
{
    if k > 0 {
        let rest = fragments.skip(1);
        assert forall|j: int| 0 <= j < k - 1 implies strings::has(title, #[trigger] rest[j])
            == false by {
            assert(rest[j] == fragments[j + 1]);
        }
        assert(strings::has(title, fragments[0]) == false);
        the_first_name_in_a_title_counts(title, rest, k - 1);
    }
}

/// The best window holds a name, and no other holds an earlier one; of two as good
/// the first is taken.
pub proof fn no_window_is_better_than_the_best(
    titles: Seq<Seq<char>>,
    fragments: Seq<Seq<char>>,
    w: int,
    v: int,
)
    requires
        desktop::is_best(titles, fragments, w),
        0 <= v < titles.len(),
    ensures
        0 <= w < titles.len(),
        desktop::rank(titles[w], fragments) is Some,
        desktop::rank(titles[v], fragments) matches Some(n) ==> desktop::rank(
            titles[w],
            fragments,
        )->0 <= n,
        desktop::rank(titles[v], fragments) == desktop::rank(titles[w], fragments) ==> w <= v,
{
}

/// Names are looked for in lower case, empty ones not at all.
pub proof fn empty_names_are_not_looked_for(fragments: Seq<Seq<char>>, name: Seq<char>)
    ensures
        desktop::usable(fragments.push(name)) == (if strings::lowered(name).len() > 0 {
            desktop::usable(fragments).push(strings::lowered(name))
        } else {
            desktop::usable(fragments)
        }),
        desktop::usable(Seq::empty()) == Seq::<Seq<char>>::empty(),
{
    assert(fragments.push(name).drop_last() =~= fragments);
}

// --- the entry that starts it at login --------------------------------------------------------
/// A path is quoted when it holds one of these characters.
pub proof fn these_characters_are_quoted(path: Seq<char>, c: char)
    ensures
        desktop::reserved().contains(c) <==> (c == ' ' || c == '\t' || c == '\n' || c == '"'
            || c == '\'' || c == '\\' || c == '>' || c == '<' || c == '~' || c == '|' || c == '&'
            || c == ';' || c == '$' || c == '*' || c == '?' || c == '#' || c == '(' || c == ')'
            || c == '`'),
        desktop::needs_quoting(path) <==> exists|i: int|
            0 <= i < path.len() && desktop::reserved().contains(#[trigger] path[i]),
        !desktop::needs_quoting(path) ==> desktop::quoted(path) == path,
        desktop::needs_quoting(path) ==> desktop::quoted(path) == seq!['"'] + desktop::escaped(path)
            + seq!['"'],
{
    let all = desktop::reserved();
    assert(all[0] == ' ');
    assert(all[1] == '\t');
    assert(all[2] == '\n');
    assert(all[3] == '"');
    assert(all[4] == '\'');
    assert(all[5] == '\\');
    assert(all[6] == '>');
    assert(all[7] == '<');
    assert(all[8] == '~');
    assert(all[9] == '|');
    assert(all[10] == '&');
    assert(all[11] == ';');
    assert(all[12] == '$');
    assert(all[13] == '*');
    assert(all[14] == '?');
    assert(all[15] == '#');
    assert(all[16] == '(');
    assert(all[17] == ')');
    assert(all[18] == '`');
    reveal_strlit("\"");
    assert("\""@ =~= seq!['"']);
}

/// Inside the quotes a quote and a backslash stand behind a backslash, and everything
/// else for itself.
pub proof fn a_quote_stands_behind_a_backslash(c: char, rest: Seq<char>)
    ensures
        desktop::escaped(seq![c] + rest) == (if c == '"' || c == '\\' {
            seq!['\\', c]
        } else {
            seq![c]
        }) + desktop::escaped(rest),
        desktop::escaped(Seq::empty()) == Seq::<char>::empty(),
        desktop::unescaped(seq!['\\', c] + rest) == seq![c] + desktop::unescaped(rest),
        c != '"' && c != '\\' ==> desktop::unescaped(seq![c] + rest) == seq![c]
            + desktop::unescaped(rest),
        desktop::unescaped(seq!['"'] + rest) == Seq::<char>::empty(),
{
    assert((seq![c] + rest).skip(1) =~= rest);
    let s = seq!['\\', c] + rest;
    assert(s[0] == '\\' && s[1] == c);
    assert(s.skip(2) =~= rest);
}

/// An entry can be switched off by one line, in any case.
pub proof fn one_line_switches_an_entry_off(lines: Seq<Seq<char>>)
    ensures
        desktop::switched_off(lines) <==> exists|i: int|
            0 <= i < lines.len() && strings::ascii_lowered(strings::trimmed(#[trigger] lines[i]))
                == strings::ascii_lowered("X-GNOME-Autostart-enabled=false"@),
{
    if desktop::switched_off(lines) {
        let i = choose|i: int| 0 <= i < lines.len() && desktop::disables(#[trigger] lines[i]);
        assert(strings::ascii_lowered(strings::trimmed(lines[i])) == strings::ascii_lowered(
            "X-GNOME-Autostart-enabled=false"@,
        ));
    }
    if exists|i: int|
        0 <= i < lines.len() && strings::ascii_lowered(strings::trimmed(#[trigger] lines[i]))
            == strings::ascii_lowered("X-GNOME-Autostart-enabled=false"@) {
        let i = choose|i: int|
            0 <= i < lines.len() && strings::ascii_lowered(strings::trimmed(#[trigger] lines[i]))
                == strings::ascii_lowered("X-GNOME-Autostart-enabled=false"@);
        assert(desktop::disables(lines[i]));
    }
}

/// The first line that says what to run counts.
pub proof fn the_first_command_counts(lines: Seq<Seq<char>>, k: int)
    requires
        0 <= k <= lines.len(),
        forall|j: int|
            0 <= j < k ==> !strings::begins(strings::trimmed(#[trigger] lines[j]), "Exec="@),
        k < lines.len() ==> strings::begins(strings::trimmed(lines[k]), "Exec="@),
    ensures
        desktop::exec_line(lines) == (if k < lines.len() {
            Some(strings::trimmed(lines[k]).skip(5))
        } else {
            None
        }),
    decreases k,
{
    reveal_strlit("Exec=");
    if k > 0 {
        let rest = lines.skip(1);
        assert forall|j: int| 0 <= j < k - 1 implies !strings::begins(
            strings::trimmed(#[trigger] rest[j]),
            "Exec="@,
        ) by {
            assert(rest[j] == lines[j + 1]);
        }
        assert(!strings::begins(strings::trimmed(lines[0]), "Exec="@));
        the_first_command_counts(rest, k - 1);
    }
}

/// An entry launches what its command names, unless it is switched off or names
/// nothing.
pub proof fn an_entry_launches_what_it_names(text: Seq<char>)
    ensures
        ({
            let lines = strings::lines_spec(text);
            let exec = desktop::exec_line(lines);
            let named = exec is Some && desktop::unquoted(exec->0).len() > 0;
            &&& desktop::switched_off(lines) || !named ==> desktop::entry_command(text) is None
            &&& !desktop::switched_off(lines) && named ==> desktop::entry_command(text) == Some(
                desktop::unquoted(exec->0),
            )
        }),
{
}

/// In the registry it stands behind the word `REG_SZ`, on the first line that has
/// it.
pub proof fn the_registry_names_it_behind_its_type(lines: Seq<Seq<char>>, k: int, i: int)
    requires
        0 <= k <= lines.len(),
        forall|j: int|
            0 <= j < k ==> strings::find_spec(#[trigger] lines[j], "REG_SZ"@) is None,
        k < lines.len() ==> strings::find_spec(lines[k], "REG_SZ"@) == Some(i),
    ensures
        desktop::registry_line(lines) == (if k < lines.len() {
            Some(lines[k].skip(i + 6))
        } else {
            None
        }),
    decreases k,
{
    if k > 0 {
        let rest = lines.skip(1);
        assert forall|j: int| 0 <= j < k - 1 implies strings::find_spec(
            #[trigger] rest[j],
            "REG_SZ"@,
        ) is None by {
            assert(rest[j] == lines[j + 1]);
        }
        assert(strings::find_spec(lines[0], "REG_SZ"@) is None);
        the_registry_names_it_behind_its_type(rest, k - 1, i);
    }
}

/// The entry says that it is an application, what it is called, and what to run.
pub proof fn an_entry_says_what_it_is(exe: Seq<char>)
    ensures
        ({
            let lines = desktop::entry_lines(exe);
            &&& lines[0] == "[Desktop Entry]"@
            &&& lines.contains("Type=Application"@)
            &&& lines.contains("Name=Pipsqueak"@)
            &&& lines.contains("Comment=Desktop pet for "@ + agent::product_spec())
            &&& lines.contains("Exec="@ + desktop::quoted(exe))
            &&& lines.contains("Icon=pipsqueak"@)
            &&& lines.contains("Terminal=false"@)
            &&& lines.contains("NoDisplay=true"@)
            &&& lines.contains("X-GNOME-Autostart-enabled=true"@)
            &&& lines.len() == 9
        }),
{
    let lines = desktop::entry_lines(exe);
    assert(lines[1] == "Type=Application"@ && lines[2] == "Name=Pipsqueak"@ && lines[3]
        == "Comment=Desktop pet for "@ + agent::product_spec());
    assert(lines[4] == "Exec="@ + desktop::quoted(exe) && lines[5] == "Icon=pipsqueak"@ && lines[6]
        == "Terminal=false"@ && lines[7] == "NoDisplay=true"@ && lines[8]
        == "X-GNOME-Autostart-enabled=true"@);
}

/// A page is its lines, each behind the other and ended.
pub proof fn a_page_is_its_lines(line: Seq<char>, rest: Seq<Seq<char>>)
    ensures
        desktop::page(seq![line] + rest) == line + seq!['\n'] + desktop::page(rest),
        desktop::page(Seq::empty()) == Seq::<char>::empty(),
{
    assert((seq![line] + rest).skip(1) =~= rest);
    assert(line.push('\n') =~= line + seq!['\n']);
}

/// A program that came in an archive is the archive, by its full path; any other is
/// itself.
pub proof fn an_archive_stands_for_its_program(path: Seq<char>, current: Option<Seq<char>>)
    ensures
        path.len() > 0 && path[0] == '/' ==> desktop::own_spec(Some(path), current) == Some(path),
        path.len() == 0 || path[0] != '/' ==> desktop::own_spec(Some(path), current) == current,
        desktop::own_spec(None, current) == current,
{
    reveal_strlit("/");
    if path.len() > 0 {
        assert(path.take(1)[0] == path[0]);
        if path[0] == '/' {
            assert(path.take(1) =~= "/"@);
        }
    }
}

} // verus!
