//! Works out which project a session belongs to.
//!
//! The folder a session is running in is often not the project: agents work in
//! git worktrees, and scripted runs work in temp directories with generated
//! names. Titling a card after `basename(cwd)` produces things like
//! `design-quality__nocaveman__r3`, which means nothing to the person reading
//! it. Resolve to the repository instead.

use vstd::prelude::*;
use vstd::string::*;

use crate::strings;
use crate::text;

verus! {

pub struct Project {
    /// Display name: the basename of the root.
    pub name: String,
    pub root: String,
    /// Set when the session is not sitting at the project root.
    pub workspace: String,
    /// Temp-rooted, i.e. a throwaway session from a script.
    pub scratch: bool,
}

#[verifier::ext_equal]
pub struct ProjectView {
    pub name: Seq<char>,
    pub root: Seq<char>,
    pub workspace: Seq<char>,
    pub scratch: bool,
}

impl View for Project {
    type V = ProjectView;

    open spec fn view(&self) -> ProjectView {
        ProjectView {
            name: self.name@,
            root: self.root@,
            workspace: self.workspace@,
            scratch: self.scratch,
        }
    }
}

/// The letter of the drive that a path begins with, if it does.
pub open spec fn drive(path: Seq<char>) -> Option<char> {
    if path.len() >= 2 && path[1] == ':' && ('a' <= path[0] <= 'z' || 'A' <= path[0] <= 'Z') {
        Some(path[0])
    } else {
        None
    }
}

/// How far the name of a shared folder reaches that a path begins with: two
/// backslashes, a server and a share. Zero where it begins with none.
pub open spec fn share_len(path: Seq<char>) -> int {
    let p = strings::replaced(path, '\\', '/');
    let server = strings::position(p.skip(2), '/');
    let share = strings::position(p.skip(3 + server), '/');
    if path.len() >= 2 && path[0] == '\\' && path[1] == '\\' && server > 0 && 3 + server
        <= path.len() && share > 0 {
        3 + server + share
    } else {
        0
    }
}

/// How much of a path says where it starts rather than where it leads.
pub open spec fn prefix_len(path: Seq<char>) -> int {
    if drive(path) is Some {
        2
    } else {
        share_len(path)
    }
}

/// The last component behind the start of a path, `.` components left out. One
/// that ends in `..`, or has no component at all, has none.
pub open spec fn last_step(path: Seq<char>) -> Option<Seq<char>>
    decreases path.len(),
{
    proof {
        strings::lemma_drop_end(path, strings::one_of(text::separators()));
        strings::lemma_behind_last(
            strings::drop_end(path, strings::one_of(text::separators())),
            text::separators(),
        );
    }
    let t = strings::drop_end(path, strings::one_of(text::separators()));
    let k = strings::behind_last(t, text::separators());
    if t.len() == 0 || t.skip(k) == ".."@ {
        None
    } else if t.skip(k) == "."@ {
        if k > 0 && k < path.len() {
            last_step(t.take(k))
        } else {
            None
        }
    } else {
        Some(t.skip(k))
    }
}

/// The last component of a path.
pub open spec fn leaf(path: Seq<char>) -> Option<Seq<char>> {
    last_step(path.skip(prefix_len(path)))
}

/// What a folder is called: its last component, or the whole path when it has
/// none.
pub open spec fn folder_spec(path: Seq<char>) -> Seq<char> {
    match leaf(path) {
        Some(name) => name,
        None => path,
    }
}

fn separator_list() -> (r: Vec<char>)
    ensures
        r@ == text::separators(),
{
    let r: Vec<char> = vec!['/', '\\'];
    assert(r@ =~= text::separators());
    r
}

fn is_letter(c: char) -> (r: bool)
    ensures
        r == ('a' <= c <= 'z' || 'A' <= c <= 'Z'),
{
    ('a' <= c && c <= 'z') || ('A' <= c && c <= 'Z')
}

/// Where the steps of a path begin.
fn prefix_end(v: &Vec<char>) -> (r: usize)
    ensures
        r == prefix_len(v@),
        r <= v@.len(),
{
    if v.len() >= 2 && v[1] == ':' && is_letter(v[0]) {
        return 2;
    }
    if v.len() < 2 || v[0] != '\\' || v[1] != '\\' {
        return 0;
    }
    let server: usize = run_length(v, 2);
    if server == 0 || server > v.len() - 2 || v.len() - 2 - server < 1 {
        return 0;
    }
    let share: usize = run_length(v, 3 + server);
    if share == 0 {
        0
    } else {
        3 + server + share
    }
}

/// How many characters there are before the next separator.
fn run_length(v: &Vec<char>, from: usize) -> (r: usize)
    requires
        from <= v@.len(),
    ensures
        r == strings::position(strings::replaced(v@, '\\', '/').skip(from as int), '/'),
        r <= v@.len() - from,
{
    let ghost p = strings::replaced(v@, '\\', '/');
    let mut i: usize = from;
    while i < v.len() && v[i] != '/' && v[i] != '\\'
        invariant
            from <= i <= v@.len(),
            p == strings::replaced(v@, '\\', '/'),
            strings::position(p.skip(from as int), '/') == i - from + strings::position(
                p.skip(i as int),
                '/',
            ),
        decreases v@.len() - i,
    {
        assert(p.skip(i as int).skip(1) =~= p.skip(i + 1));
        i = i + 1;
    }
    i - from
}

pub fn folder_name(path: &str) -> (r: String)
    ensures
        r@ == folder_spec(path@),
{
    let set = separator_list();
    let all = strings::chars_of(path);
    let start: usize = prefix_end(&all);
    let mut rest: String = strings::slice(&all, start, all.len());
    assert(rest@ =~= path@.skip(start as int));
    loop
        invariant
            last_step(rest@) == leaf(path@),
            set@ == text::separators(),
        decreases rest@.len(),
    {
        let trimmed = strings::trim_end_of(rest.as_str(), &set);
        let v = strings::chars_of(trimmed.as_str());
        let k: usize = strings::index_behind_last(&v, &set);
        proof {
            strings::lemma_drop_end(rest@, strings::one_of(text::separators()));
        }
        if v.len() == 0 {
            return path.to_owned();
        }
        let name = strings::slice(&v, k, v.len());
        assert(name@ =~= trimmed@.skip(k as int));
        if strings::same(name.as_str(), "..") {
            return path.to_owned();
        }
        if !strings::same(name.as_str(), ".") {
            return name;
        }
        proof {
            reveal_strlit(".");
        }
        if k == 0 {
            return path.to_owned();
        }
        rest = strings::slice(&v, 0, k);
        assert(rest@ =~= trimmed@.take(k as int));
    }
}

/// The components of a path, empty ones and `.` left out.
pub open spec fn components_of(pieces: Seq<Seq<char>>) -> Seq<Seq<char>>
    decreases pieces.len(),
{
    if pieces.len() == 0 {
        seq![]
    } else if pieces.last().len() == 0 || pieces.last() == "."@ {
        components_of(pieces.drop_last())
    } else {
        components_of(pieces.drop_last()).push(pieces.last())
    }
}

/// Where a path starts: a drive, whatever the case of its letter, or a shared
/// folder.
pub open spec fn start_of(path: Seq<char>) -> Seq<char> {
    match drive(path) {
        Some(letter) => seq![strings::ascii_lower(letter), ':'],
        None => strings::replaced(path, '\\', '/').take(share_len(path)),
    }
}

/// The components behind the start of a path. One that begins with `.` and at no
/// root has that as its first.
pub open spec fn steps_of(p: Seq<char>) -> Seq<Seq<char>> {
    let found = components_of(strings::split_spec(p, '/'));
    if p == "."@ || strings::begins(p, "./"@) {
        seq!["."@] + found
    } else {
        found
    }
}

/// A path by where it starts and by its components, told apart by whether it
/// starts at a root.
pub open spec fn place(path: Seq<char>) -> (Seq<char>, bool, Seq<Seq<char>>) {
    let p = strings::replaced(path, '\\', '/').skip(prefix_len(path));
    (
        start_of(path),
        share_len(path) > 0 && drive(path) is None || p.len() > 0 && p[0] == '/',
        steps_of(p),
    )
}

fn components(path: &str) -> (r: (String, bool, Vec<String>))
    ensures
        (r.0@, r.1, strings::views(r.2@)) == place(path@),
{
    let v = strings::chars_of(path);
    let end: usize = prefix_end(&v);
    let slashed = strings::replace_char(path, '\\', '/');
    let w = strings::chars_of(slashed.as_str());
    let p = strings::slice(&w, end, w.len());
    assert(p@ =~= slashed@.skip(end as int));
    let driven = v.len() >= 2 && v[1] == ':' && is_letter(v[0]);
    let start = if driven {
        let mut s = String::new();
        s.push(strings::to_ascii_lower(v[0]));
        s.push(':');
        assert(s@ =~= seq![strings::ascii_lower(v@[0]), ':']);
        s
    } else {
        let s = strings::slice(&w, 0, end);
        assert(s@ =~= slashed@.take(end as int));
        s
    };
    let rooted = (!driven && end > 0) || strings::starts_with(p.as_str(), "/");
    let pieces = strings::split(p.as_str(), '/');
    let ghost all = strings::views(pieces@);
    let mut out: Vec<String> = Vec::new();
    let dotted = strings::same(p.as_str(), ".") || strings::starts_with(p.as_str(), "./");
    if dotted {
        out.push(".".to_owned());
    }
    let ghost first = strings::views(out@);
    let mut i: usize = 0;
    assert(first =~= (if dotted {
        seq!["."@]
    } else {
        seq![]
    }));
    assert(all.take(0) =~= seq![]);
    assert(first + seq![] =~= first);
    while i < pieces.len()
        invariant
            i <= pieces@.len(),
            all == strings::views(pieces@),
            strings::views(out@) == first + components_of(all.take(i as int)),
        decreases pieces@.len() - i,
    {
        let ghost before = out@;
        let ghost found = components_of(all.take(i as int));
        assert(all.take(i + 1).drop_last() =~= all.take(i as int));
        let piece = pieces[i].clone();
        if !piece.as_str().is_empty() && !strings::same(piece.as_str(), ".") {
            out.push(piece);
            assert(strings::views(out@) =~= strings::views(before).push(piece@));
            assert((first + found).push(piece@) =~= first + found.push(piece@));
        }
        i = i + 1;
    }
    assert(all.take(i as int) =~= all);
    proof {
        reveal_strlit("/");
        if p@.len() > 0 && p@[0] == '/' {
            assert(p@.take(1) =~= "/"@);
        } else if strings::begins(p@, "/"@) {
            assert(p@.take(1)[0] == '/');
        }
        assert(strings::views(out@) =~= steps_of(p@));
    }
    (start, rooted, out)
}

/// Whether two paths lead to the same place, component by component.
pub fn same_place(a: &str, b: &str) -> (r: bool)
    ensures
        r == (place(a@) == place(b@)),
{
    let x = components(a);
    let y = components(b);
    if !strings::same(x.0.as_str(), y.0.as_str()) || x.1 != y.1 || x.2.len() != y.2.len() {
        assert(strings::views(x.2@).len() == x.2@.len());
        assert(strings::views(y.2@).len() == y.2@.len());
        return false;
    }
    let mut i: usize = 0;
    while i < x.2.len()
        invariant
            i <= x.2@.len() == y.2@.len(),
            x.0@ == y.0@,
            x.1 == y.1,
            (x.0@, x.1, strings::views(x.2@)) == place(a@),
            (y.0@, y.1, strings::views(y.2@)) == place(b@),
            forall|j: int| 0 <= j < i ==> (#[trigger] x.2@[j])@ == y.2@[j]@,
        decreases x.2@.len() - i,
    {
        if !strings::same(x.2[i].as_str(), y.2[i].as_str()) {
            assert(strings::views(x.2@)[i as int] != strings::views(y.2@)[i as int]);
            return false;
        }
        i = i + 1;
    }
    assert(strings::views(x.2@) =~= strings::views(y.2@));
    true
}

// --- throwaway places ------------------------------------------------------
/// Whether a root lies under one of the places an operating system keeps for
/// temporary files. A folder that merely happens to be called `Temp` is not
/// one: `D:\Temp\project` is a project.
pub open spec fn scratch_root(root: Seq<char>) -> bool {
    let p = strings::replaced(strings::lowered(root), '\\', '/');
    ||| strings::has(p, "/appdata/local/temp/"@)
    ||| strings::has(p, ":/windows/temp/"@)
    ||| strings::begins(p, "/tmp/"@)
    ||| strings::begins(p, "/private/tmp/"@)
    ||| strings::begins(p, "/var/folders/"@)
    ||| strings::begins(p, "/private/var/folders/"@)
}

pub fn is_scratch(root: &str) -> (r: bool)
    ensures
        r == scratch_root(root@),
{
    let lowered = strings::replace_char(strings::lower(root).as_str(), '\\', '/');
    let p = lowered.as_str();
    strings::contains(p, "/appdata/local/temp/") || strings::contains(p, ":/windows/temp/")
        || strings::starts_with(p, "/tmp/") || strings::starts_with(p, "/private/tmp/")
        || strings::starts_with(p, "/var/folders/") || strings::starts_with(
        p,
        "/private/var/folders/",
    )
}

// --- repositories ----------------------------------------------------------
/// What a folder's `.git` is.
pub enum Marker {
    /// There is none, or it could not be read.
    Missing,
    Directory,
    /// A file, with what it says: a worktree's pointer to its repository.
    File(String),
}

/// The repository that a worktree's pointer file names: what stands behind
/// `gitdir:` up to the repository's own `.git`.
pub open spec fn owner_spec(content: Seq<char>) -> Option<Seq<char>> {
    match strings::find_spec(content, "gitdir:"@) {
        None => None,
        Some(i) => {
            let raw = strings::replaced(strings::trimmed(content.skip(i + 7)), '\\', '/');
            match strings::find_spec(raw, "/.git/worktrees/"@) {
                None => None,
                Some(j) => Some(raw.take(j)),
            }
        },
    }
}

pub fn worktree_owner(content: &str) -> (r: Option<String>)
    ensures
        strings::opt_view(r) == owner_spec(content@),
{
    proof {
        reveal_strlit("gitdir:");
        strings::lemma_find(content@, "gitdir:"@);
    }
    match strings::find(content, "gitdir:") {
        None => None,
        Some(i) => {
            let v = strings::chars_of(content);
            let behind = strings::slice(&v, i + 7, v.len());
            assert(behind@ =~= content@.skip(i + 7));
            let raw = strings::replace_char(strings::trim(behind.as_str()).as_str(), '\\', '/');
            match strings::find(raw.as_str(), "/.git/worktrees/") {
                None => None,
                Some(j) => {
                    proof {
                        strings::lemma_find(raw@, "/.git/worktrees/"@);
                    }
                    let w = strings::chars_of(raw.as_str());
                    let owner = strings::slice(&w, 0, j);
                    assert(owner@ =~= raw@.take(j as int));
                    Some(owner)
                },
            }
        },
    }
}

/// The repository that a folder with such a `.git` belongs to.
pub open spec fn repository_at(dir: Seq<char>, marker: Marker) -> Option<Seq<char>> {
    match marker {
        Marker::Missing => None,
        Marker::Directory => Some(dir),
        Marker::File(content) => owner_spec(content@),
    }
}

/// The repository of the first folder that belongs to one. A `.git` file that
/// makes no sense does not end the search.
pub open spec fn first_repository(dirs: Seq<(String, Marker)>) -> Option<Seq<char>>
    decreases dirs.len(),
{
    if dirs.len() == 0 {
        None
    } else {
        match repository_at(dirs[0].0@, dirs[0].1) {
            Some(root) => Some(root),
            None => first_repository(dirs.skip(1)),
        }
    }
}

/// The repository that owns a folder, given the folder and those above it,
/// nearest first, each with its `.git`.
pub fn git_root(dirs: &Vec<(String, Marker)>) -> (r: Option<String>)
    ensures
        strings::opt_view(r) == first_repository(dirs@),
{
    let mut i: usize = 0;
    assert(dirs@.skip(0) =~= dirs@);
    while i < dirs.len()
        invariant
            i <= dirs@.len(),
            first_repository(dirs@) == first_repository(dirs@.skip(i as int)),
        decreases dirs@.len() - i,
    {
        assert(dirs@.skip(i as int).skip(1) =~= dirs@.skip(i + 1));
        match &dirs[i].1 {
            Marker::Missing => {},
            Marker::Directory => {
                return Some(dirs[i].0.clone());
            },
            Marker::File(content) => {
                if let Some(owner) = worktree_owner(content.as_str()) {
                    return Some(owner);
                }
            },
        }
        i = i + 1;
    }
    None
}

/// The project of a session running in `cwd`.
pub open spec fn resolved(
    cwd: Seq<char>,
    repository: Option<Seq<char>>,
    exported: Option<Seq<char>>,
) -> ProjectView {
    let root = match repository {
        Some(root) => root,
        None => match exported {
            Some(root) => root,
            None => cwd,
        },
    };
    ProjectView {
        name: folder_spec(root),
        root,
        workspace: if place(root) == place(cwd) {
            seq![]
        } else {
            folder_spec(cwd)
        },
        scratch: scratch_root(root),
    }
}

/// A git repository beats everything: it resolves worktrees back to the
/// repository they belong to, which is what a person means by "project".
/// `exported` is the folder the agent exports to every command hook. It
/// points at the worktree rather than the parent repo, so it is only a
/// fallback.
pub fn resolve(cwd: &str, repository: Option<String>, exported: Option<String>) -> (r: Project)
    ensures
        r@ == resolved(cwd@, strings::opt_view(repository), strings::opt_view(exported)),
{
    let root = match repository {
        Some(root) => root,
        None => match exported {
            Some(root) => root,
            None => cwd.to_owned(),
        },
    };
    let workspace = if same_place(root.as_str(), cwd) {
        String::new()
    } else {
        folder_name(cwd)
    };
    let r = Project {
        name: folder_name(root.as_str()),
        scratch: is_scratch(root.as_str()),
        root,
        workspace,
    };
    assert(r@ =~= resolved(cwd@, strings::opt_view(repository), strings::opt_view(exported)));
    r
}

/// A worktree resolves to the repository that owns it, wherever the worktree
/// lies, as long as the repository's path holds no worktree of its own.
pub proof fn a_worktree_leads_to_its_repository(repo: Seq<char>, tree: Seq<char>)
    requires
        !strings::has(repo + "/.git/worktrees/"@.drop_last(), "/.git/worktrees/"@),
        strings::trimmed(" "@ + repo + "/.git/worktrees/"@ + tree + "\n"@) == repo
            + "/.git/worktrees/"@ + tree,
        !(repo + tree).contains('\\'),
    ensures
        owner_spec("gitdir: "@ + repo + "/.git/worktrees/"@ + tree + "\n"@) == Some(repo),
{
    reveal_strlit("gitdir:");
    reveal_strlit("gitdir: ");
    reveal_strlit("/.git/worktrees/");
    reveal_strlit("\n");
    reveal_strlit(" ");
    let mark = "/.git/worktrees/"@;
    let content = "gitdir: "@ + repo + mark + tree + "\n"@;
    assert(strings::begins(content, "gitdir:"@)) by {
        assert(content.take(7) =~= "gitdir:"@);
    }
    assert(content.skip(7) =~= " "@ + repo + mark + tree + "\n"@);
    let raw = repo + mark + tree;
    assert forall|i: int| 0 <= i < raw.len() implies raw[i] != '\\' by {
        if i < repo.len() {
            assert((repo + tree)[i] == raw[i]);
        } else if i >= repo.len() + mark.len() {
            assert((repo + tree)[i - mark.len()] == raw[i]);
        } else {
            assert(raw[i] == mark[i - repo.len()]);
        }
    }
    assert(strings::replaced(raw, '\\', '/') =~= raw);
    strings::lemma_find(raw, mark);
    assert(strings::begins(raw.skip(repo.len() as int), mark)) by {
        assert(raw.skip(repo.len() as int).take(mark.len() as int) =~= mark);
    }
    let j = strings::find_spec(raw, mark)->0;
    if j < repo.len() {
        let head = repo + mark.drop_last();
        assert(raw.skip(j).take(mark.len() as int) =~= head.skip(j).take(mark.len() as int));
        assert(strings::begins(head.skip(j), mark));
        strings::lemma_find(head, mark);
    }
    assert(raw.take(repo.len() as int) =~= repo);
}

} // verus!
