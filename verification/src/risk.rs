//! Spotting the commands you would not want to approve without looking.
//!
//! This exists to answer one question on a card that says "needs you": is this
//! a routine approval, or the kind you should pause the video for. It is a
//! hint and nothing else: it never blocks, allows, or denies anything, and a
//! wrong answer costs at most a missing or spurious line of text.
//!
//! Which is why it errs towards silence. The command string comes from a model
//! and a false badge on a quiet overlay is noise you learn to ignore, while a
//! missed one just leaves the card as informative as it was before.

use vstd::prelude::*;
use vstd::string::*;

use crate::strings;
use crate::text;

verus! {

/// Long enough for any real command, short enough that a pathological input
/// cannot make the scan expensive.
pub const MAX_SCAN: usize = 4096;

pub const MAX_SEGMENTS: usize = 50;

// --- segments --------------------------------------------------------------
/// The segments of what is left of a command line, `current` being the part of
/// the segment at hand that has been read and `single` and `double` saying
/// whether a quote of that kind is open.
pub open spec fn segments_from(
    s: Seq<char>,
    current: Seq<char>,
    single: bool,
    double: bool,
) -> Seq<Seq<char>>
    decreases s.len(),
{
    if s.len() == 0 {
        seq![current]
    } else if s[0] == '\\' && double {
        if s.len() > 1 {
            segments_from(s.skip(2), current.push(s[0]).push(s[1]), single, double)
        } else {
            seq![current.push(s[0])]
        }
    } else if s[0] == '\'' && !double {
        segments_from(s.skip(1), current.push(s[0]), !single, double)
    } else if s[0] == '"' && !single {
        segments_from(s.skip(1), current.push(s[0]), single, !double)
    } else if (s[0] == '\n' || s[0] == ';') && !single && !double {
        seq![current] + segments_from(s.skip(1), seq![], false, false)
    } else if (s[0] == '&' || s[0] == '|') && !single && !double {
        if s.len() > 1 && s[1] == s[0] {
            seq![current] + segments_from(s.skip(2), seq![], false, false)
        } else {
            seq![current] + segments_from(s.skip(1), seq![], false, false)
        }
    } else {
        segments_from(s.skip(1), current.push(s[0]), single, double)
    }
}

/// The commands of a command line: what stands between the shell's separators,
/// save those inside quotes.
pub open spec fn segments_spec(command: Seq<char>) -> Seq<Seq<char>> {
    segments_from(command, seq![], false, false)
}

/// Splits a command line on shell separators that are *not* inside quotes.
///
/// The quoting matters more than it looks: `git commit -m "docs && git push
/// --force"` contains the text of a force push inside a message, and a naive
/// split would flag every commit whose message mentions one.
pub fn segments(command: &str) -> (r: Vec<String>)
    ensures
        strings::views(r@) == segments_spec(command@),
{
    let v = strings::chars_of(command);
    let mut out: Vec<String> = Vec::new();
    let mut current = String::new();
    let mut single = false;
    let mut double = false;
    let mut i: usize = 0;
    assert(v@.skip(0) =~= v@);
    assert(current@ =~= seq![]);
    assert(strings::views(out@) + segments_spec(command@) =~= segments_spec(command@));
    while i < v.len()
        invariant
            i <= v@.len() <= usize::MAX,
            strings::views(out@) + segments_from(v@.skip(i as int), current@, single, double)
                == segments_spec(command@),
        decreases v@.len() - i,
    {
        let ghost rest = v@.skip(i as int);
        let ghost before = strings::views(out@);
        let ghost held = current@;
        let c = v[i];
        assert(rest.skip(1) =~= v@.skip(i + 1));
        if i + 1 < v.len() {
            assert(rest.skip(2) =~= v@.skip(i + 2));
        }
        if c == '\\' && double {
            // Escaped character inside double quotes: consume both so an
            // escaped quote does not flip the state.
            current.push(c);
            if i + 1 < v.len() {
                current.push(v[i + 1]);
                i = i + 2;
            } else {
                i = i + 1;
                assert(v@.skip(i as int) =~= seq![]);
            }
        } else if c == '\'' && !double {
            single = !single;
            current.push(c);
            i = i + 1;
        } else if c == '"' && !single {
            double = !double;
            current.push(c);
            i = i + 1;
        } else if (c == '\n' || c == ';') && !single && !double {
            out.push(current);
            current = String::new();
            i = i + 1;
            proof {
                assert(strings::views(out@) =~= before.push(held));
                assert(current@ =~= seq![]);
                let tail = segments_from(v@.skip(i as int), seq![], false, false);
                assert(before + (seq![held] + tail) =~= strings::views(out@) + tail);
            }
        } else if (c == '&' || c == '|') && !single && !double {
            // One or two: `&&`, `||` and a plain pipe all start a new
            // command position.
            if i + 1 < v.len() && v[i + 1] == c {
                i = i + 2;
            } else {
                i = i + 1;
            }
            out.push(current);
            current = String::new();
            proof {
                assert(strings::views(out@) =~= before.push(held));
                assert(current@ =~= seq![]);
                let tail = segments_from(v@.skip(i as int), seq![], false, false);
                assert(before + (seq![held] + tail) =~= strings::views(out@) + tail);
            }
        } else {
            current.push(c);
            i = i + 1;
        }
    }
    let ghost before = strings::views(out@);
    let ghost held = current@;
    assert(v@.skip(i as int) =~= seq![]);
    out.push(current);
    assert(strings::views(out@) =~= before + seq![held]);
    out
}

/// What stands in double quotes never splits a command: whatever separators it
/// holds, it is carried into the segment at hand as it is.
pub proof fn double_quoted_text_stays_whole(
    body: Seq<char>,
    rest: Seq<char>,
    current: Seq<char>,
)
    requires
        forall|i: int| 0 <= i < body.len() ==> body[i] != '"' && body[i] != '\\',
    ensures
        segments_from(seq!['"'] + body + seq!['"'] + rest, current, false, false)
            == segments_from(rest, current + seq!['"'] + body + seq!['"'], false, false),
{
    let whole = seq!['"'] + body + seq!['"'] + rest;
    assert(whole.skip(1) =~= body + seq!['"'] + rest);
    lemma_inside_double(body, rest, current.push('"'));
    assert(current.push('"') + body + seq!['"'] =~= current + seq!['"'] + body + seq!['"']);
}

proof fn lemma_inside_double(body: Seq<char>, rest: Seq<char>, current: Seq<char>)
    requires
        forall|i: int| 0 <= i < body.len() ==> body[i] != '"' && body[i] != '\\',
    ensures
        segments_from(body + seq!['"'] + rest, current, false, true) == segments_from(
            rest,
            current + body + seq!['"'],
            false,
            false,
        ),
    decreases body.len(),
{
    let s = body + seq!['"'] + rest;
    if body.len() == 0 {
        assert(s[0] == '"');
        assert(s.skip(1) =~= rest);
        assert(current.push('"') =~= current + body + seq!['"']);
    } else {
        let tail = body.skip(1);
        assert(s[0] == body[0]);
        assert(s.skip(1) =~= tail + seq!['"'] + rest);
        assert forall|i: int| 0 <= i < tail.len() implies tail[i] != '"' && tail[i] != '\\' by {
            assert(tail[i] == body[i + 1]);
        }
        lemma_inside_double(tail, rest, current.push(body[0]));
        assert(current.push(body[0]) + tail + seq!['"'] =~= current + body + seq!['"']);
    }
}

/// What stands in single quotes never splits a command either.
pub proof fn single_quoted_text_stays_whole(
    body: Seq<char>,
    rest: Seq<char>,
    current: Seq<char>,
)
    requires
        forall|i: int| 0 <= i < body.len() ==> body[i] != '\'',
    ensures
        segments_from(seq!['\''] + body + seq!['\''] + rest, current, false, false)
            == segments_from(rest, current + seq!['\''] + body + seq!['\''], false, false),
{
    let whole = seq!['\''] + body + seq!['\''] + rest;
    assert(whole.skip(1) =~= body + seq!['\''] + rest);
    lemma_inside_single(body, rest, current.push('\''));
    assert(current.push('\'') + body + seq!['\''] =~= current + seq!['\''] + body + seq!['\'']);
}

proof fn lemma_inside_single(body: Seq<char>, rest: Seq<char>, current: Seq<char>)
    requires
        forall|i: int| 0 <= i < body.len() ==> body[i] != '\'',
    ensures
        segments_from(body + seq!['\''] + rest, current, true, false) == segments_from(
            rest,
            current + body + seq!['\''],
            false,
            false,
        ),
    decreases body.len(),
{
    let s = body + seq!['\''] + rest;
    if body.len() == 0 {
        assert(s[0] == '\'');
        assert(s.skip(1) =~= rest);
        assert(current.push('\'') =~= current + body + seq!['\'']);
    } else {
        let tail = body.skip(1);
        assert(s[0] == body[0]);
        assert(s.skip(1) =~= tail + seq!['\''] + rest);
        assert forall|i: int| 0 <= i < tail.len() implies tail[i] != '\'' by {
            assert(tail[i] == body[i + 1]);
        }
        lemma_inside_single(tail, rest, current.push(body[0]));
        assert(current.push(body[0]) + tail + seq!['\''] =~= current + body + seq!['\'']);
    }
}

// --- words -----------------------------------------------------------------
pub open spec fn quotes() -> Seq<char> {
    seq!['"', '\'']
}

/// A word without the quotes around it.
pub open spec fn unquoted(word: Seq<char>) -> Seq<char> {
    strings::drop_end(
        strings::drop_start(word, strings::one_of(quotes())),
        strings::one_of(quotes()),
    )
}

/// The words without the quotes around them, those left out of which nothing
/// remains.
pub open spec fn unquoted_all(words: Seq<Seq<char>>) -> Seq<Seq<char>>
    decreases words.len(),
{
    if words.len() == 0 {
        seq![]
    } else if unquoted(words.last()).len() > 0 {
        unquoted_all(words.drop_last()).push(unquoted(words.last()))
    } else {
        unquoted_all(words.drop_last())
    }
}

/// The words that can sit in front of a command without being one.
pub open spec fn is_wrapper(word: Seq<char>) -> bool {
    let w = strings::lowered(word);
    ||| w == "sudo"@
    ||| w == "doas"@
    ||| w == "env"@
    ||| w == "nohup"@
    ||| w == "time"@
    ||| w == "command"@
    ||| w == "exec"@
    ||| w == "then"@
    ||| w == "do"@
}

/// `FOO=bar` in front of a command.
pub open spec fn is_assignment(word: Seq<char>) -> bool {
    let n = strings::position(word, '=');
    0 < n < word.len() && !word.take(n).contains('/')
}

pub open spec fn past_wrappers(words: Seq<Seq<char>>) -> Seq<Seq<char>>
    decreases words.len(),
{
    if words.len() > 0 && (is_wrapper(words[0]) || is_assignment(words[0])) {
        past_wrappers(words.skip(1))
    } else {
        words
    }
}

/// The words of a command, its program first.
pub open spec fn command_words_spec(segment: Seq<char>) -> Seq<Seq<char>> {
    past_wrappers(unquoted_all(strings::words_spec(segment)))
}

fn quote_list() -> (r: Vec<char>)
    ensures
        r@ == quotes(),
{
    let r: Vec<char> = vec!['"', '\''];
    assert(r@ =~= quotes());
    r
}

fn wrapper(word: &str) -> (r: bool)
    ensures
        r == is_wrapper(word@),
{
    let lowered = strings::lower(word);
    let w = lowered.as_str();
    strings::same(w, "sudo") || strings::same(w, "doas") || strings::same(w, "env")
        || strings::same(w, "nohup") || strings::same(w, "time") || strings::same(w, "command")
        || strings::same(w, "exec") || strings::same(w, "then") || strings::same(w, "do")
}

fn assignment(word: &str) -> (r: bool)
    ensures
        r == is_assignment(word@),
{
    let v = strings::chars_of(word);
    assert(v@.skip(0) =~= v@);
    let n: usize = strings::index_of(&v, 0, '=');
    if n == 0 || n == v.len() {
        return false;
    }
    let mut i: usize = 0;
    while i < n
        invariant
            v@ == word@,
            i <= n < v@.len(),
            0 < n,
            n == strings::position(word@, '='),
            forall|j: int| 0 <= j < i ==> v@[j] != '/',
        decreases n - i,
    {
        if v[i] == '/' {
            assert(word@.take(n as int)[i as int] == '/');
            return false;
        }
        i = i + 1;
    }
    true
}

/// Drops the words that can sit in front of a command without being one.
pub fn command_words(segment: &str) -> (r: Vec<String>)
    ensures
        strings::views(r@) == command_words_spec(segment@),
{
    let raw = strings::words(segment);
    let ghost all = strings::views(raw@);
    let set = quote_list();
    let mut kept: Vec<String> = Vec::new();
    let mut i: usize = 0;
    assert(all.take(0) =~= seq![]);
    assert(strings::views(kept@) =~= seq![]);
    while i < raw.len()
        invariant
            i <= raw@.len(),
            all == strings::views(raw@),
            set@ == quotes(),
            strings::views(kept@) == unquoted_all(all.take(i as int)),
        decreases raw@.len() - i,
    {
        let ghost before = kept@;
        let w = strings::trim_of(raw[i].as_str(), &set);
        assert(all.take(i + 1).drop_last() =~= all.take(i as int));
        if !w.as_str().is_empty() {
            kept.push(w);
            assert(strings::views(kept@) =~= strings::views(before).push(w@));
        }
        i = i + 1;
    }
    assert(all.take(i as int) =~= all);
    let ghost words = strings::views(kept@);
    let mut from: usize = 0;
    assert(words.skip(0) =~= words);
    while from < kept.len() && (wrapper(kept[from].as_str()) || assignment(kept[from].as_str()))
        invariant
            from <= kept@.len(),
            words == strings::views(kept@),
            past_wrappers(words) == past_wrappers(words.skip(from as int)),
        decreases kept@.len() - from,
    {
        assert(words.skip(from as int).skip(1) =~= words.skip(from + 1));
        from = from + 1;
    }
    strings::tail(&kept, from)
}

// --- programs --------------------------------------------------------------
/// `s` without any `.exe` at its end.
pub open spec fn without_exe(s: Seq<char>) -> Seq<char>
    decreases s.len(),
{
    if s.len() >= 4 && strings::finishes(s, ".exe"@) {
        without_exe(s.take(s.len() - 4))
    } else {
        s
    }
}

/// The name of the program a word invokes, whatever path it is invoked
/// through.
pub open spec fn program_spec(word: Seq<char>) -> Seq<char> {
    let head = strings::lowered(word);
    without_exe(head.skip(strings::behind_last(head, text::separators())))
}

fn program_name(word: &str) -> (r: String)
    ensures
        r@ == program_spec(word@),
{
    let head = strings::lower(word);
    let v = strings::chars_of(head.as_str());
    let set: Vec<char> = vec!['/', '\\'];
    assert(set@ =~= text::separators());
    let from: usize = strings::index_behind_last(&v, &set);
    let mut name = strings::slice(&v, from, v.len());
    assert(name@ =~= head@.skip(from as int));
    while strings::ends_with(name.as_str(), ".exe")
        invariant
            without_exe(name@) == program_spec(word@),
        decreases name@.len(),
    {
        proof {
            reveal_strlit(".exe");
        }
        let chars = strings::chars_of(name.as_str());
        assert(chars@.subrange(0, chars@.len() - 4) =~= name@.take(name@.len() - 4));
        name = strings::slice(&chars, 0, chars.len() - 4);
    }
    proof {
        reveal_strlit(".exe");
    }
    name
}

pub open spec fn lowered_all(words: Seq<Seq<char>>) -> Seq<Seq<char>> {
    words.map_values(|w: Seq<char>| strings::lowered(w))
}

fn lower_all(words: &Vec<String>) -> (r: Vec<String>)
    ensures
        strings::views(r@) == lowered_all(strings::views(words@)),
{
    let mut out: Vec<String> = Vec::new();
    let mut i: usize = 0;
    while i < words.len()
        invariant
            i <= words@.len(),
            out@.len() == i,
            forall|j: int| 0 <= j < i ==> (#[trigger] out@[j])@ == strings::lowered(words@[j]@),
        decreases words@.len() - i,
    {
        out.push(strings::lower(words[i].as_str()));
        i = i + 1;
    }
    assert(strings::views(out@) =~= lowered_all(strings::views(words@)));
    out
}

/// True for a clustered short flag containing `letter`, e.g. `-rf` for `r`.
pub open spec fn short_flag(word: Seq<char>, letter: char) -> bool {
    &&& strings::begins(word, "-"@)
    &&& !strings::begins(word, "--"@)
    &&& word.skip(1).contains(letter)
}

pub open spec fn any_short_flag(words: Seq<Seq<char>>, letter: char) -> bool {
    exists|i: int| 0 <= i < words.len() && short_flag(#[trigger] words[i], letter)
}

pub open spec fn any_begins(words: Seq<Seq<char>>, p: Seq<char>) -> bool {
    exists|i: int| 0 <= i < words.len() && strings::begins(#[trigger] words[i], p)
}

fn is_short_flag(word: &str, letter: char) -> (r: bool)
    ensures
        r == short_flag(word@, letter),
{
    if !strings::starts_with(word, "-") || strings::starts_with(word, "--") {
        return false;
    }
    let v = strings::chars_of(word);
    let mut i: usize = 1;
    proof {
        reveal_strlit("-");
    }
    while i < v.len()
        invariant
            1 <= i <= v@.len(),
            v@ == word@,
            strings::begins(word@, "-"@),
            !strings::begins(word@, "--"@),
            forall|j: int| 1 <= j < i ==> v@[j] != letter,
        decreases v@.len() - i,
    {
        if v[i] == letter {
            assert(word@.skip(1)[i - 1] == letter);
            return true;
        }
        i = i + 1;
    }
    assert forall|j: int| 0 <= j < word@.skip(1).len() implies word@.skip(1)[j] != letter by {
        assert(word@.skip(1)[j] == v@[j + 1]);
    }
    false
}

fn has_short_flag(words: &Vec<String>, letter: char) -> (r: bool)
    ensures
        r == any_short_flag(strings::views(words@), letter),
{
    let mut i: usize = 0;
    while i < words.len()
        invariant
            i <= words@.len(),
            forall|j: int| 0 <= j < i ==> !short_flag((#[trigger] words@[j])@, letter),
        decreases words@.len() - i,
    {
        if is_short_flag(words[i].as_str(), letter) {
            assert(short_flag(strings::views(words@)[i as int], letter));
            return true;
        }
        i = i + 1;
    }
    false
}

fn some_begins(words: &Vec<String>, p: &str) -> (r: bool)
    ensures
        r == any_begins(strings::views(words@), p@),
{
    let mut i: usize = 0;
    while i < words.len()
        invariant
            i <= words@.len(),
            forall|j: int| 0 <= j < i ==> !strings::begins((#[trigger] words@[j])@, p@),
        decreases words@.len() - i,
    {
        if strings::starts_with(words[i].as_str(), p) {
            assert(strings::begins(strings::views(words@)[i as int], p@));
            return true;
        }
        i = i + 1;
    }
    false
}

// --- reasons ---------------------------------------------------------------
/// What `git` is about to do that cannot be taken back. The flags are read in
/// the case they were written in: `branch -D` throws commits away, `branch -d`
/// refuses to.
pub open spec fn git_reason(rest: Seq<Seq<char>>) -> Option<Seq<char>> {
    if rest.len() == 0 {
        None
    } else {
        let sub = strings::lowered(rest[0]);
        let args = rest.skip(1);
        if sub == "push"@ {
            if args.contains("--force"@) || any_short_flag(args, 'f') {
                Some("Force-pushes over remote history"@)
            } else if args.contains("--delete"@) || args.contains("-d"@) || any_begins(args, ":"@) {
                Some("Deletes a remote branch"@)
            } else {
                None
            }
        } else if sub == "reset"@ {
            if args.contains("--hard"@) {
                Some("Discards uncommitted work"@)
            } else {
                None
            }
        } else if sub == "clean"@ {
            if args.contains("-f"@) || args.contains("-fd"@) || args.contains("-fdx"@)
                || args.contains("--force"@) {
                Some("Deletes untracked files"@)
            } else {
                None
            }
        } else if sub == "branch"@ {
            if args.contains("-D"@) {
                Some("Force-deletes a branch"@)
            } else {
                None
            }
        } else if sub == "filter-branch"@ || sub == "filter-repo"@ {
            Some("Rewrites history"@)
        } else {
            None
        }
    }
}

fn git(rest: &Vec<String>) -> (r: Option<&'static str>)
    ensures
        strings::opt_str(r) == git_reason(strings::views(rest@)),
{
    if rest.len() == 0 {
        return None;
    }
    let lowered = strings::lower(rest[0].as_str());
    let sub = lowered.as_str();
    let args = strings::tail(rest, 1);
    if strings::same(sub, "push") {
        // `--force-with-lease` is the careful version and refuses to
        // clobber work it has not seen. Flagging it would train you to
        // ignore the badge.
        if strings::holds(&args, "--force") || has_short_flag(&args, 'f') {
            Some("Force-pushes over remote history")
        } else if strings::holds(&args, "--delete") || strings::holds(&args, "-d") || some_begins(
            &args,
            ":",
        ) {
            Some("Deletes a remote branch")
        } else {
            None
        }
    } else if strings::same(sub, "reset") {
        if strings::holds(&args, "--hard") {
            Some("Discards uncommitted work")
        } else {
            None
        }
    } else if strings::same(sub, "clean") {
        if strings::holds(&args, "-f") || strings::holds(&args, "-fd") || strings::holds(
            &args,
            "-fdx",
        ) || strings::holds(&args, "--force") {
            Some("Deletes untracked files")
        } else {
            None
        }
    } else if strings::same(sub, "branch") {
        if strings::holds(&args, "-D") {
            Some("Force-deletes a branch")
        } else {
            None
        }
    } else if strings::same(sub, "filter-branch") || strings::same(sub, "filter-repo") {
        Some("Rewrites history")
    } else {
        None
    }
}

pub open spec fn leads(words: Seq<Seq<char>>, first: Seq<char>) -> bool {
    words.len() >= 1 && words[0] == first
}

/// What a program does that cannot be taken back, given its arguments as
/// written (`args`) and in lower case (`rest`), and its whole command.
pub open spec fn program_reason(
    program: Seq<char>,
    args: Seq<Seq<char>>,
    segment: Seq<char>,
) -> Option<Seq<char>> {
    let rest = lowered_all(args);
    if program == "rm"@ {
        let recursive = any_short_flag(rest, 'r') || rest.contains("--recursive"@);
        let forced = any_short_flag(rest, 'f') || rest.contains("--force"@);
        when(recursive && forced, "Deletes a directory tree"@)
    } else if program == "rmdir"@ {
        when(rest.contains("/s"@) && rest.contains("/q"@), "Deletes a directory tree"@)
    } else if program == "rd"@ {
        when(rest.contains("/s"@), "Deletes a directory tree"@)
    } else if program == "del"@ {
        when(rest.contains("/s"@) || rest.contains("/q"@), "Deletes files without confirming"@)
    } else if program == "remove-item"@ {
        when(
            any_begins(rest, "-recurse"@) && any_begins(rest, "-force"@),
            "Deletes a directory tree"@,
        )
    } else if program == "git"@ {
        git_reason(args)
    } else if program == "npm"@ || program == "pnpm"@ || program == "yarn"@ || program == "bun"@
        || program == "cargo"@ {
        when(leads(rest, "publish"@), "Publishes a package"@)
    } else if program == "twine"@ {
        when(leads(rest, "upload"@), "Publishes a package"@)
    } else if program == "gh"@ {
        when(
            leads(rest, "repo"@) && leads(rest.skip(1), "delete"@),
            "Deletes a repository"@,
        )
    } else if program == "terraform"@ || program == "tofu"@ {
        when(leads(rest, "destroy"@), "Tears down infrastructure"@)
    } else if program == "kubectl"@ {
        when(leads(rest, "delete"@), "Deletes cluster resources"@)
    } else if program == "helm"@ {
        when(leads(rest, "uninstall"@) || leads(rest, "delete"@), "Removes a release"@)
    } else if program == "docker"@ {
        when(
            leads(rest, "system"@) && leads(rest.skip(1), "prune"@),
            "Prunes Docker state"@,
        )
    } else if program == "dd"@ {
        Some("Writes raw blocks to a device"@)
    } else if program == "mkfs"@ {
        Some("Formats a filesystem"@)
    } else if program == "format-volume"@ {
        Some("Formats a volume"@)
    } else if program == "shutdown"@ || program == "reboot"@ {
        Some("Restarts the machine"@)
    } else if program == "psql"@ || program == "mysql"@ || program == "sqlite3"@ || program
        == "mongosh"@ || program == "mongo"@ {
        let sql = strings::lowered(segment);
        when(
            strings::has(sql, "drop table"@) || strings::has(sql, "drop database"@) || strings::has(
                sql,
                "drop schema"@,
            ) || strings::has(sql, "truncate "@),
            "Destroys database contents"@,
        )
    } else {
        None
    }
}

pub open spec fn when(condition: bool, reason: Seq<char>) -> Option<Seq<char>> {
    if condition {
        Some(reason)
    } else {
        None
    }
}

fn say(condition: bool, reason: &'static str) -> (r: Option<&'static str>)
    ensures
        strings::opt_str(r) == when(condition, reason@),
{
    if condition {
        Some(reason)
    } else {
        None
    }
}

fn word_at(words: &Vec<String>, i: usize, w: &str) -> (r: bool)
    ensures
        r == (i < words@.len() && words@[i as int]@ == w@),
{
    i < words.len() && strings::same(words[i].as_str(), w)
}

fn judge_program(program: &str, args: &Vec<String>, segment: &str) -> (r: Option<&'static str>)
    ensures
        strings::opt_str(r) == program_reason(program@, strings::views(args@), segment@),
{
    let rest = lower_all(args);
    let p = program;
    if strings::same(p, "rm") {
        let recursive = has_short_flag(&rest, 'r') || strings::holds(&rest, "--recursive");
        let forced = has_short_flag(&rest, 'f') || strings::holds(&rest, "--force");
        say(recursive && forced, "Deletes a directory tree")
    } else if strings::same(p, "rmdir") {
        say(
            strings::holds(&rest, "/s") && strings::holds(&rest, "/q"),
            "Deletes a directory tree",
        )
    } else if strings::same(p, "rd") {
        say(strings::holds(&rest, "/s"), "Deletes a directory tree")
    } else if strings::same(p, "del") {
        say(
            strings::holds(&rest, "/s") || strings::holds(&rest, "/q"),
            "Deletes files without confirming",
        )
    } else if strings::same(p, "remove-item") {
        say(
            some_begins(&rest, "-recurse") && some_begins(&rest, "-force"),
            "Deletes a directory tree",
        )
    } else if strings::same(p, "git") {
        git(args)
    } else if strings::same(p, "npm") || strings::same(p, "pnpm") || strings::same(p, "yarn")
        || strings::same(p, "bun") || strings::same(p, "cargo") {
        say(word_at(&rest, 0, "publish"), "Publishes a package")
    } else if strings::same(p, "twine") {
        say(word_at(&rest, 0, "upload"), "Publishes a package")
    } else if strings::same(p, "gh") {
        say(word_at(&rest, 0, "repo") && word_at(&rest, 1, "delete"), "Deletes a repository")
    } else if strings::same(p, "terraform") || strings::same(p, "tofu") {
        say(word_at(&rest, 0, "destroy"), "Tears down infrastructure")
    } else if strings::same(p, "kubectl") {
        say(word_at(&rest, 0, "delete"), "Deletes cluster resources")
    } else if strings::same(p, "helm") {
        say(
            word_at(&rest, 0, "uninstall") || word_at(&rest, 0, "delete"),
            "Removes a release",
        )
    } else if strings::same(p, "docker") {
        say(word_at(&rest, 0, "system") && word_at(&rest, 1, "prune"), "Prunes Docker state")
    } else if strings::same(p, "dd") {
        Some("Writes raw blocks to a device")
    } else if strings::same(p, "mkfs") {
        Some("Formats a filesystem")
    } else if strings::same(p, "format-volume") {
        Some("Formats a volume")
    } else if strings::same(p, "shutdown") || strings::same(p, "reboot") {
        Some("Restarts the machine")
    } else if strings::same(p, "psql") || strings::same(p, "mysql") || strings::same(p, "sqlite3")
        || strings::same(p, "mongosh") || strings::same(p, "mongo") {
        let lowered = strings::lower(segment);
        let sql = lowered.as_str();
        say(
            strings::contains(sql, "drop table") || strings::contains(sql, "drop database")
                || strings::contains(sql, "drop schema") || strings::contains(sql, "truncate "),
            "Destroys database contents",
        )
    } else {
        None
    }
}

/// Why one command, taken at face value, cannot be taken back.
pub open spec fn face_reason(segment: Seq<char>) -> Option<Seq<char>> {
    let words = command_words_spec(segment);
    if words.len() == 0 {
        None
    } else {
        program_reason(program_spec(words[0]), words.skip(1), segment)
    }
}

fn judge_face(segment: &str) -> (r: Option<&'static str>)
    ensures
        strings::opt_str(r) == face_reason(segment@),
{
    let words = command_words(segment);
    if words.len() == 0 {
        return None;
    }
    let program = program_name(words[0].as_str());
    let args = strings::tail(&words, 1);
    judge_program(program.as_str(), &args, segment)
}

// --- a shell inside the shell ----------------------------------------------
/// The flag behind which a shell takes a command to run, for the shells whose
/// command is looked into.
pub open spec fn command_flag(program: Seq<char>) -> Option<Seq<char>> {
    if program == "bash"@ {
        Some("-c"@)
    } else if program == "powershell"@ {
        Some("-command"@)
    } else if program == "cmd"@ {
        Some("/c"@)
    } else {
        None
    }
}

/// Whether a word is that flag. `bash` tells the cases of its flags apart, the
/// other two do not.
pub open spec fn is_command_flag(program: Seq<char>, word: Seq<char>) -> bool {
    match command_flag(program) {
        Some(flag) => if program == "bash"@ {
            unquoted(word) == flag
        } else {
            strings::lowered(unquoted(word)) == flag
        },
        None => false,
    }
}

/// What follows the first word of `s` that is `program`'s command flag.
pub open spec fn after_flag(program: Seq<char>, s: Seq<char>) -> Option<Seq<char>>
    decreases s.len(),
{
    proof {
        strings::lemma_drop_start(s, strings::white());
        strings::lemma_word_len(strings::trimmed_start(s));
    }
    let t = strings::trimmed_start(s);
    let n = strings::word_len(t);
    if t.len() == 0 {
        None
    } else if is_command_flag(program, t.take(n)) {
        Some(t.skip(n))
    } else {
        after_flag(program, t.skip(n))
    }
}

/// How the text is quoted at some place of it.
#[derive(Clone, Copy, PartialEq, Eq, Structural)]
pub enum Quoting {
    Plain,
    Single,
    Double,
}

/// Whether a backslash inside double quotes makes this the character itself.
pub open spec fn is_escapable(c: char) -> bool {
    c == '"' || c == '\\' || c == '$' || c == '`'
}

/// The text without the quotes in it: what stands between double quotes without
/// its escapes, a line that goes on in the next one being one line. Unless the
/// whole of it is taken, it ends at the first blank outside quotes, or where it
/// ends itself.
pub open spec fn dequoted(s: Seq<char>, quoting: Quoting, whole: bool) -> Seq<char>
    decreases s.len(),
{
    if s.len() == 0 {
        seq![]
    } else {
        let c = s[0];
        let rest = s.skip(1);
        match quoting {
            Quoting::Plain => if c == '\'' {
                dequoted(rest, Quoting::Single, whole)
            } else if c == '"' {
                dequoted(rest, Quoting::Double, whole)
            } else if !whole && strings::is_white(c) {
                seq![]
            } else {
                seq![c] + dequoted(rest, quoting, whole)
            },
            Quoting::Single => if c == '\'' {
                dequoted(rest, Quoting::Plain, whole)
            } else {
                seq![c] + dequoted(rest, quoting, whole)
            },
            Quoting::Double => if c == '"' {
                dequoted(rest, Quoting::Plain, whole)
            } else if c == '\\' && s.len() > 1 && s[1] == '\n' {
                dequoted(s.skip(2), quoting, whole)
            } else if c == '\\' && s.len() > 1 && is_escapable(s[1]) {
                seq![s[1]] + dequoted(s.skip(2), quoting, whole)
            } else {
                seq![c] + dequoted(rest, quoting, whole)
            },
        }
    }
}

/// The command in what follows a shell's command flag. A quoted one is taken out
/// of its quotes: `bash` runs that one word, and what follows it are the
/// command's own arguments; the other two run all that follows.
pub open spec fn unwrapped(program: Seq<char>, s: Seq<char>) -> Seq<char> {
    let t = strings::trimmed(s);
    if t.len() > 0 && quotes().contains(t[0]) {
        dequoted(t, Quoting::Plain, program != "bash"@)
    } else {
        t
    }
}

/// The command that a segment hands to another shell, if it does.
pub open spec fn inner_command(segment: Seq<char>) -> Option<Seq<char>> {
    let words = command_words_spec(segment);
    if words.len() == 0 {
        None
    } else {
        match after_flag(program_spec(words[0]), segment) {
            Some(s) => Some(unwrapped(program_spec(words[0]), s)),
            None => None,
        }
    }
}

/// The first reason there is among the segments.
pub open spec fn first_reason(
    segments: Seq<Seq<char>>,
    reason: spec_fn(Seq<char>) -> Option<Seq<char>>,
) -> Option<Seq<char>>
    decreases segments.len(),
{
    if segments.len() == 0 {
        None
    } else {
        match reason(segments[0]) {
            Some(r) => Some(r),
            None => first_reason(segments.skip(1), reason),
        }
    }
}

pub open spec fn at_most<A>(s: Seq<A>, n: int) -> Seq<A> {
    if s.len() <= n {
        s
    } else {
        s.take(n)
    }
}

/// The first reason among the commands of a line, each taken at face value.
pub open spec fn line_face_reason(line: Seq<char>) -> Option<Seq<char>> {
    first_reason(at_most(segments_spec(line), MAX_SEGMENTS as int), |s: Seq<char>| face_reason(s))
}

/// Why one command cannot be taken back, a command handed to another shell
/// being looked into, one level deep.
pub open spec fn segment_reason(segment: Seq<char>) -> Option<Seq<char>> {
    match inner_command(segment) {
        Some(inner) => line_face_reason(inner),
        None => face_reason(segment),
    }
}

/// Why a command line cannot be taken back.
pub open spec fn reason_of(command: Seq<char>) -> Option<Seq<char>> {
    first_reason(
        at_most(segments_spec(at_most(command, MAX_SCAN as int)), MAX_SEGMENTS as int),
        |s: Seq<char>| segment_reason(s),
    )
}

fn flags_command(program: &str, word: &str) -> (r: bool)
    ensures
        r == is_command_flag(program@, word@),
{
    let bare = strings::trim_of(word, &quote_list());
    proof {
        reveal_strlit("bash");
        reveal_strlit("powershell");
        reveal_strlit("cmd");
    }
    if strings::same(program, "bash") {
        strings::same(bare.as_str(), "-c")
    } else if strings::same(program, "powershell") {
        strings::same(strings::lower(bare.as_str()).as_str(), "-command")
    } else if strings::same(program, "cmd") {
        strings::same(strings::lower(bare.as_str()).as_str(), "/c")
    } else {
        false
    }
}

fn text_after_flag(program: &str, s: &str) -> (r: Option<String>)
    ensures
        strings::opt_view(r) == after_flag(program@, s@),
{
    let v = strings::chars_of(s);
    let mut from: usize = 0;
    assert(v@.skip(0) =~= v@);
    loop
        invariant
            v@ == s@,
            from <= v@.len(),
            after_flag(program@, s@) == after_flag(program@, v@.skip(from as int)),
        decreases v@.len() - from,
    {
        let ghost rest = v@.skip(from as int);
        let mut start: usize = from;
        while start < v.len() && strings::is_whitespace(v[start])
            invariant
                from <= start <= v@.len(),
                rest == v@.skip(from as int),
                strings::trimmed_start(rest) == strings::trimmed_start(v@.skip(start as int)),
            decreases v@.len() - start,
        {
            assert(v@.skip(start as int).skip(1) =~= v@.skip(start + 1));
            start = start + 1;
        }
        let ghost t = v@.skip(start as int);
        if start == v.len() {
            return None;
        }
        let mut to: usize = start;
        while to < v.len() && !strings::is_whitespace(v[to])
            invariant
                start <= to <= v@.len(),
                t == v@.skip(start as int),
                strings::word_len(t) == to - start + strings::word_len(v@.skip(to as int)),
            decreases v@.len() - to,
        {
            assert(v@.skip(to as int).skip(1) =~= v@.skip(to + 1));
            to = to + 1;
        }
        let word = strings::slice(&v, start, to);
        proof {
            assert(word@ =~= t.take(to - start));
            assert(t.skip(to - start) =~= v@.skip(to as int));
        }
        if flags_command(program, word.as_str()) {
            let after = strings::slice(&v, to, v.len());
            assert(after@ =~= v@.skip(to as int));
            return Some(after);
        }
        from = to;
    }
}

fn escapable(c: char) -> (r: bool)
    ensures
        r == is_escapable(c),
{
    c == '"' || c == '\\' || c == '$' || c == '`'
}

fn dequote(text: &str, whole: bool) -> (r: String)
    ensures
        r@ == dequoted(text@, Quoting::Plain, whole),
{
    let v = strings::chars_of(text);
    let ghost goal = dequoted(v@, Quoting::Plain, whole);
    let mut out = String::new();
    let mut quoting = Quoting::Plain;
    let mut i: usize = 0;
    assert(v@.skip(0) =~= v@);
    assert(out@ + goal =~= goal);
    while i < v.len()
        invariant
            i <= v@.len(),
            goal == dequoted(text@, Quoting::Plain, whole),
            out@ + dequoted(v@.skip(i as int), quoting, whole) == goal,
        decreases v@.len() - i,
    {
        let c = v[i];
        let ghost here = v@.skip(i as int);
        let ghost before = out@;
        proof {
            assert(here[0] == c);
            assert(here.skip(1) =~= v@.skip(i + 1));
            if here.len() > 1 {
                assert(here[1] == v@[i + 1]);
                assert(here.skip(2) =~= v@.skip(i + 2));
            }
        }
        if quoting == Quoting::Plain && c == '\'' {
            quoting = Quoting::Single;
        } else if quoting == Quoting::Plain && c == '"' {
            quoting = Quoting::Double;
        } else if quoting == Quoting::Plain && !whole && strings::is_whitespace(c) {
            assert(out@ + seq![] =~= out@);
            return out;
        } else if quoting == Quoting::Single && c == '\'' {
            quoting = Quoting::Plain;
        } else if quoting == Quoting::Double && c == '"' {
            quoting = Quoting::Plain;
        } else if quoting == Quoting::Double && c == '\\' && v.len() - i > 1 && v[i + 1] == '\n' {
            i = i + 1;
        } else if quoting == Quoting::Double && c == '\\' && v.len() - i > 1 && escapable(v[i + 1]) {
            i = i + 1;
            out.push(v[i]);
            assert(before + (seq![here[1]] + dequoted(here.skip(2), quoting, whole)) =~= out@
                + dequoted(here.skip(2), quoting, whole));
        } else {
            out.push(c);
            assert(before + (seq![c] + dequoted(here.skip(1), quoting, whole)) =~= out@ + dequoted(
                here.skip(1),
                quoting,
                whole,
            ));
        }
        i = i + 1;
    }
    assert(v@.skip(i as int) =~= seq![]);
    assert(out@ + seq![] =~= out@);
    out
}

fn unwrap_quotes(program: &str, s: &str) -> (r: String)
    ensures
        r@ == unwrapped(program@, s@),
{
    let t = strings::trim(s);
    let v = strings::chars_of(t.as_str());
    if v.len() > 0 && strings::within(&quote_list(), v[0]) {
        dequote(t.as_str(), !strings::same(program, "bash"))
    } else {
        t
    }
}

fn command_inside(segment: &str) -> (r: Option<String>)
    ensures
        strings::opt_view(r) == inner_command(segment@),
{
    let words = command_words(segment);
    if words.len() == 0 {
        return None;
    }
    let program = program_name(words[0].as_str());
    match text_after_flag(program.as_str(), segment) {
        Some(s) => Some(unwrap_quotes(program.as_str(), s.as_str())),
        None => None,
    }
}

fn judge_line(line: &str) -> (r: Option<&'static str>)
    ensures
        strings::opt_str(r) == line_face_reason(line@),
{
    let found = segments(line);
    let ghost all = at_most(strings::views(found@), MAX_SEGMENTS as int);
    let ghost reason = |s: Seq<char>| face_reason(s);
    let mut i: usize = 0;
    assert(all.skip(0) =~= all);
    while i < found.len() && i < MAX_SEGMENTS
        invariant
            i <= all.len(),
            all == at_most(strings::views(found@), MAX_SEGMENTS as int),
            reason == (|s: Seq<char>| face_reason(s)),
            first_reason(all, reason) == first_reason(all.skip(i as int), reason),
            first_reason(all, reason) == line_face_reason(line@),
        decreases found@.len() - i,
    {
        assert(all.skip(i as int)[0] == found@[i as int]@);
        assert(all.skip(i as int).skip(1) =~= all.skip(i + 1));
        if let Some(r) = judge_face(found[i].as_str()) {
            return Some(r);
        }
        i = i + 1;
    }
    None
}

pub fn classify_segment(segment: &str) -> (r: Option<&'static str>)
    ensures
        strings::opt_str(r) == segment_reason(segment@),
{
    match command_inside(segment) {
        Some(inner) => judge_line(inner.as_str()),
        None => judge_face(segment),
    }
}

/// Returns a short reason when the command looks irreversible.
pub fn irreversible(command: &str) -> (r: Option<&'static str>)
    ensures
        strings::opt_str(r) == reason_of(command@),
{
    let chars = strings::chars_of(command);
    let end: usize = if chars.len() <= MAX_SCAN {
        chars.len()
    } else {
        MAX_SCAN
    };
    let scanned = strings::slice(&chars, 0, end);
    assert(scanned@ =~= at_most(command@, MAX_SCAN as int));
    let found = segments(scanned.as_str());
    let ghost all = at_most(strings::views(found@), MAX_SEGMENTS as int);
    let ghost reason = |s: Seq<char>| segment_reason(s);
    let mut i: usize = 0;
    assert(all.skip(0) =~= all);
    while i < found.len() && i < MAX_SEGMENTS
        invariant
            i <= all.len(),
            all == at_most(strings::views(found@), MAX_SEGMENTS as int),
            reason == (|s: Seq<char>| segment_reason(s)),
            first_reason(all, reason) == first_reason(all.skip(i as int), reason),
            first_reason(all, reason) == reason_of(command@),
        decreases found@.len() - i,
    {
        assert(all.skip(i as int)[0] == found@[i as int]@);
        assert(all.skip(i as int).skip(1) =~= all.skip(i + 1));
        if let Some(r) = classify_segment(found[i].as_str()) {
            return Some(r);
        }
        i = i + 1;
    }
    None
}

/// A text as it is written between double quotes.
pub open spec fn guarded(s: Seq<char>) -> Seq<char>
    decreases s.len(),
{
    if s.len() == 0 {
        seq![]
    } else if is_escapable(s[0]) {
        seq!['\\', s[0]] + guarded(s.skip(1))
    } else {
        seq![s[0]] + guarded(s.skip(1))
    }
}

proof fn lemma_guarded(s: Seq<char>, rest: Seq<char>)
    requires
        rest.len() == 0 || strings::is_white(rest[0]),
    ensures
        dequoted(guarded(s) + seq!['"'] + rest, Quoting::Double, false) == s,
    decreases s.len(),
{
    let text = guarded(s) + seq!['"'] + rest;
    if s.len() == 0 {
        assert(text.skip(1) =~= rest);
        assert(dequoted(rest, Quoting::Plain, false) =~= seq![]);
        assert(s =~= seq![]);
    } else {
        lemma_guarded(s.skip(1), rest);
        let after = guarded(s.skip(1)) + seq!['"'] + rest;
        assert(seq![s[0]] + s.skip(1) =~= s);
        if is_escapable(s[0]) {
            assert(text.skip(2) =~= after);
        } else {
            assert(text.skip(1) =~= after);
        }
    }
}

/// Whatever script stands in double quotes behind `bash -c`, with whatever
/// arguments behind it, that script is looked into.
pub proof fn a_script_is_taken_out_of_its_quotes(script: Seq<char>, rest: Seq<char>)
    requires
        rest.len() == 0 || strings::is_white(rest[0]),
    ensures
        dequoted(seq!['"'] + guarded(script) + seq!['"'] + rest, Quoting::Plain, false) == script,
{
    let text = seq!['"'] + guarded(script) + seq!['"'] + rest;
    assert(text.skip(1) =~= guarded(script) + seq!['"'] + rest);
    lemma_guarded(script, rest);
}

/// The scan is bounded: nothing past the first [`MAX_SCAN`] characters has a
/// say in the answer.
pub proof fn the_scan_is_bounded(command: Seq<char>)
    requires
        command.len() > MAX_SCAN,
    ensures
        reason_of(command) == reason_of(command.take(MAX_SCAN as int)),
{
}

/// A later command still counts: whatever stands before it, a line whose first
/// commands are harmless is judged by the next one.
pub proof fn a_later_command_counts(
    segments: Seq<Seq<char>>,
    reason: spec_fn(Seq<char>) -> Option<Seq<char>>,
    k: int,
)
    requires
        0 <= k < segments.len(),
        reason(segments[k]) is Some,
        forall|i: int| 0 <= i < k ==> reason(#[trigger] segments[i]) is None,
    ensures
        first_reason(segments, reason) == reason(segments[k]),
    decreases k,
{
    if k > 0 {
        let rest = segments.skip(1);
        assert(rest[k - 1] == segments[k]);
        assert forall|i: int| 0 <= i < k - 1 implies reason(#[trigger] rest[i]) is None by {
            assert(rest[i] == segments[i + 1]);
        }
        assert(reason(segments[0]) is None);
        a_later_command_counts(rest, reason, k - 1);
    }
}

} // verus!
