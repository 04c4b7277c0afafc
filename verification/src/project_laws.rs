//! What project a session belongs to.

use vstd::prelude::*;
use vstd::string::*;

use crate::project;
use crate::project::Marker;
use crate::strings;
use crate::text;

verus! {

/// A name that says where a path leads.
pub open spec fn is_name(name: Seq<char>) -> bool {
    &&& name.len() > 0
    &&& name != "."@ && name != ".."@
    &&& forall|i: int| 0 <= i < name.len() ==> (#[trigger] name[i]) != '/' && name[i] != '\\'
}

/// A project goes by the last component of its folder, however many separators
/// follow it.
pub proof fn a_folder_goes_by_its_last_name(above: Seq<char>, name: Seq<char>, tail: Seq<char>)
    requires
        is_name(name),
        above.len() > 0,
        above[0] == '/',
        above.last() == '/' || above.last() == '\\',
        forall|i: int| 0 <= i < tail.len() ==> (#[trigger] tail[i]) == '/' || tail[i] == '\\',
    ensures
        project::folder_spec(above + name + tail) == name,
{
    let path = above + name + tail;
    assert(path[0] == '/');
    assert(project::prefix_len(path) == 0);
    assert(path.skip(0) =~= path);
    lemma_last_step(above, name, tail);
}

/// Behind the letter of a drive it is the same.
pub proof fn a_folder_on_a_drive_goes_by_its_last_name(
    letter: char,
    above: Seq<char>,
    name: Seq<char>,
    tail: Seq<char>,
)
    requires
        'a' <= letter <= 'z' || 'A' <= letter <= 'Z',
        is_name(name),
        above.len() > 0 ==> above.last() == '/' || above.last() == '\\',
        forall|i: int| 0 <= i < tail.len() ==> (#[trigger] tail[i]) == '/' || tail[i] == '\\',
    ensures
        project::folder_spec(seq![letter, ':'] + above + name + tail) == name,
{
    let path = seq![letter, ':'] + above + name + tail;
    assert(path[0] == letter && path[1] == ':');
    assert(path.skip(2) =~= above + name + tail);
    lemma_last_step(above, name, tail);
}

/// A path that leads upwards, or nowhere, is called what it is.
pub proof fn a_path_without_a_name_is_called_what_it_is(above: Seq<char>)
    requires
        above.len() > 0,
        above[0] == '/',
        above.last() == '/',
    ensures
        project::folder_spec(above + ".."@) == above + ".."@,
        (forall|i: int| 0 <= i < above.len() ==> above[i] == '/') ==> project::folder_spec(above)
            == above,
{
    reveal_strlit("..");
    let path = above + ".."@;
    assert(path[0] == '/');
    assert(path.skip(0) =~= path);
    lemma_end(above, ".."@, Seq::<char>::empty());
    assert(path + Seq::<char>::empty() =~= path);
    if forall|i: int| 0 <= i < above.len() ==> above[i] == '/' {
        assert(above.skip(0) =~= above);
        lemma_all(above);
    }
}

proof fn lemma_all(s: Seq<char>)
    requires
        forall|i: int| 0 <= i < s.len() ==> s[i] == '/',
    ensures
        strings::drop_end(s, strings::one_of(text::separators())).len() == 0,
    decreases s.len(),
{
    if s.len() > 0 {
        assert(text::separators()[0] == '/');
        assert(s.last() == '/');
        lemma_all(s.drop_last());
    }
}

proof fn lemma_end(above: Seq<char>, name: Seq<char>, tail: Seq<char>)
    requires
        name.len() > 0,
        forall|i: int| 0 <= i < name.len() ==> (#[trigger] name[i]) != '/' && name[i] != '\\',
        above.len() > 0 ==> above.last() == '/' || above.last() == '\\',
        forall|i: int| 0 <= i < tail.len() ==> (#[trigger] tail[i]) == '/' || tail[i] == '\\',
    ensures
        ({
            let t = strings::drop_end(above + name + tail, strings::one_of(text::separators()));
            &&& t == above + name
            &&& strings::behind_last(t, text::separators()) == above.len()
            &&& t.skip(above.len() as int) == name
        }),
    decreases tail.len(),
{
    let set = text::separators();
    let f = strings::one_of(set);
    assert(set[0] == '/' && set[1] == '\\');
    assert(set.contains('/') && set.contains('\\'));
    let whole = above + name;
    if tail.len() > 0 {
        let path = above + name + tail;
        assert(path.last() == tail[tail.len() - 1]);
        assert(path.drop_last() =~= above + name + tail.drop_last());
        assert forall|i: int| 0 <= i < tail.drop_last().len() implies (#[trigger] tail.drop_last()[i])
            == '/' || tail.drop_last()[i] == '\\' by {
            assert(tail.drop_last()[i] == tail[i]);
        }
        lemma_end(above, name, tail.drop_last());
    } else {
        assert(above + name + tail =~= whole);
        assert(whole.last() == name[name.len() - 1]);
        strings::lemma_behind_last(whole, set);
        let k = strings::behind_last(whole, set);
        if k > above.len() {
            assert(whole[k - 1] == name[k - 1 - above.len()]);
        }
        if k < above.len() {
            assert(whole[above.len() - 1] == above.last());
        }
        assert(whole.skip(above.len() as int) =~= name);
    }
}

proof fn lemma_last_step(above: Seq<char>, name: Seq<char>, tail: Seq<char>)
    requires
        is_name(name),
        above.len() > 0 ==> above.last() == '/' || above.last() == '\\',
        forall|i: int| 0 <= i < tail.len() ==> (#[trigger] tail[i]) == '/' || tail[i] == '\\',
    ensures
        project::last_step(above + name + tail) == Some(name),
{
    lemma_end(above, name, tail);
}

/// A component that is only a dot is passed over.
pub proof fn a_dot_leads_nowhere(above: Seq<char>)
    requires
        above.len() > 0,
        above.last() == '/' || above.last() == '\\',
    ensures
        project::last_step(above + "."@) == project::last_step(above),
{
    reveal_strlit(".");
    reveal_strlit("..");
    lemma_end(above, "."@, Seq::<char>::empty());
    let path = above + "."@;
    assert(path + Seq::<char>::empty() =~= path);
    assert(path.take(above.len() as int) =~= above);
}

/// Two paths are compared by their components: an empty one and a dot count for
/// nothing, any other counts in its place.
pub proof fn only_names_count(a: Seq<Seq<char>>, piece: Seq<char>, b: Seq<Seq<char>>)
    ensures
        project::components_of(a + seq![piece] + b) == project::components_of(a) + (if piece.len()
            == 0 || piece == "."@ {
            Seq::<Seq<char>>::empty()
        } else {
            seq![piece]
        }) + project::components_of(b),
    decreases b.len(),
{
    let one = if piece.len() == 0 || piece == "."@ {
        Seq::<Seq<char>>::empty()
    } else {
        seq![piece]
    };
    let all = a + seq![piece] + b;
    if b.len() == 0 {
        assert(all.last() == piece);
        assert(all.drop_last() =~= a);
        assert(project::components_of(a).push(piece) =~= project::components_of(a) + seq![piece]
            + project::components_of(b));
        assert(project::components_of(a) =~= project::components_of(a) + Seq::<Seq<char>>::empty()
            + project::components_of(b));
    } else {
        only_names_count(a, piece, b.drop_last());
        assert(all.last() == b.last());
        assert(all.drop_last() =~= a + seq![piece] + b.drop_last());
        let left = project::components_of(a) + one;
        assert((left + project::components_of(b.drop_last())).push(b.last()) =~= left
            + project::components_of(b.drop_last()).push(b.last()));
    }
}

/// The letter of a drive counts in either case, and a path behind a drive is told
/// apart from one that starts elsewhere.
pub proof fn a_drive_counts_in_either_case(letter: char, rest: Seq<char>)
    requires
        'A' <= letter <= 'Z',
        'A' as u32 <= letter as u32 <= 'Z' as u32,
        'a' <= strings::ascii_lower(letter) <= 'z',
        !('A' as u32 <= strings::ascii_lower(letter) as u32 <= 'Z' as u32),
    ensures
        project::place(seq![letter, ':'] + rest) == project::place(
            seq![strings::ascii_lower(letter), ':'] + rest,
        ),
        project::place(seq![letter, ':'] + rest).0 == seq![strings::ascii_lower(letter), ':'],
{
    let a = seq![letter, ':'] + rest;
    let b = seq![strings::ascii_lower(letter), ':'] + rest;
    assert(a[0] == letter && a[1] == ':');
    assert(b[0] == strings::ascii_lower(letter) && b[1] == ':');
    assert(strings::replaced(a, '\\', '/').skip(2) =~= strings::replaced(b, '\\', '/').skip(2));
    assert(project::prefix_len(a) == 2 && project::prefix_len(b) == 2);
}

/// A slash is as good as a backslash, once the path has a drive.
pub proof fn either_separator_will_do(letter: char, rest: Seq<char>)
    requires
        'a' <= letter <= 'z' || 'A' <= letter <= 'Z',
    ensures
        project::place(seq![letter, ':'] + rest) == project::place(
            seq![letter, ':'] + strings::replaced(rest, '\\', '/'),
        ),
{
    let a = seq![letter, ':'] + rest;
    let b = seq![letter, ':'] + strings::replaced(rest, '\\', '/');
    assert(a[0] == letter && a[1] == ':');
    assert(b[0] == letter && b[1] == ':');
    assert(strings::replaced(a, '\\', '/').skip(2) =~= strings::replaced(b, '\\', '/').skip(2));
}

// --- throwaway places ---------------------------------------------------------------------
/// These are the places for temporary files, in any case and with either
/// separator.
pub proof fn these_places_are_throwaway(root: Seq<char>)
    ensures
        ({
            let p = strings::replaced(strings::lowered(root), '\\', '/');
            project::scratch_root(root) <==> (strings::has(p, "/appdata/local/temp/"@)
                || strings::has(p, ":/windows/temp/"@) || strings::begins(p, "/tmp/"@)
                || strings::begins(p, "/private/tmp/"@) || strings::begins(p, "/var/folders/"@)
                || strings::begins(p, "/private/var/folders/"@))
        }),
{
}

// --- repositories ---------------------------------------------------------------------------
/// A folder with a `.git` folder is a repository; one with a pointer belongs to
/// the repository that the pointer names, and to none where it names none.
pub proof fn a_folder_belongs_by_its_marker(dir: Seq<char>, content: String)
    ensures
        project::repository_at(dir, Marker::Directory) == Some(dir),
        project::repository_at(dir, Marker::Missing) is None,
        project::repository_at(dir, Marker::File(content)) == project::owner_spec(content@),
        !strings::has(content@, "gitdir:"@) ==> project::owner_spec(content@) is None,
{
}

/// The nearest folder that belongs to a repository decides.
pub proof fn the_nearest_repository_decides(dirs: Seq<(String, Marker)>, k: int)
    requires
        0 <= k <= dirs.len(),
        forall|j: int|
            0 <= j < k ==> project::repository_at((#[trigger] dirs[j]).0@, dirs[j].1) is None,
        k < dirs.len() ==> project::repository_at(dirs[k].0@, dirs[k].1) is Some,
    ensures
        project::first_repository(dirs) == (if k < dirs.len() {
            project::repository_at(dirs[k].0@, dirs[k].1)
        } else {
            None
        }),
    decreases k,
{
    if k > 0 {
        let rest = dirs.skip(1);
        assert forall|j: int| 0 <= j < k - 1 implies project::repository_at(
            (#[trigger] rest[j]).0@,
            rest[j].1,
        ) is None by {
            assert(rest[j] == dirs[j + 1]);
        }
        assert(project::repository_at(dirs[0].0@, dirs[0].1) is None);
        the_nearest_repository_decides(rest, k - 1);
    }
}

/// A repository is the project; without one it is the folder that the agent
/// names, and without that the one it runs in. Where it runs is told only if that
/// is another place.
pub proof fn a_repository_is_the_project(
    cwd: Seq<char>,
    repository: Option<Seq<char>>,
    exported: Option<Seq<char>>,
)
    ensures
        ({
            let p = project::resolved(cwd, repository, exported);
            &&& repository is Some ==> p.root == repository->0
            &&& repository is None && exported is Some ==> p.root == exported->0
            &&& repository is None && exported is None ==> p.root == cwd
            &&& p.name == project::folder_spec(p.root)
            &&& p.scratch == project::scratch_root(p.root)
            &&& p.root == cwd ==> p.workspace == Seq::<char>::empty()
            &&& project::place(p.root) != project::place(cwd) ==> p.workspace
                == project::folder_spec(cwd)
            &&& project::place(p.root) == project::place(cwd) ==> p.workspace == Seq::<char>::empty()
        }),
{
}

} // verus!
