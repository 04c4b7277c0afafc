//! Turning whatever a human or a model wrote into one line a card can show.
//!
//! Shared by the hook (which sees prompts and final answers) and the narrator
//! (which sees the assistant talking mid-turn), because both are answering the
//! same question: of everything in this text, which single line is worth the
//! one line a card has?

use vstd::prelude::*;
use vstd::string::*;

use crate::strings;

verus! {

// --- truncating ------------------------------------------------------------
/// The trimmed text, cut to `limit` characters with an ellipsis in the last
/// place when it is longer.
pub open spec fn truncated(text: Seq<char>, limit: nat) -> Seq<char> {
    let t = strings::trimmed(text);
    if t.len() <= limit {
        t
    } else if limit == 0 {
        seq!['…']
    } else {
        t.take(limit - 1).push('…')
    }
}

pub fn truncate(text: &str, limit: usize) -> (r: String)
    ensures
        r@ == truncated(text@, limit as nat),
{
    let trimmed = strings::trim(text);
    let chars = strings::chars_of(trimmed.as_str());
    if chars.len() <= limit {
        return trimmed;
    }
    let keep: usize = if limit == 0 {
        0
    } else {
        limit - 1
    };
    let mut out = strings::slice(&chars, 0, keep);
    out.push('…');
    assert(chars@.subrange(0, keep as int) =~= chars@.take(keep as int));
    out
}

/// A truncated text never exceeds its limit, as long as there is room for the
/// ellipsis.
pub proof fn truncation_fits(text: Seq<char>, limit: nat)
    requires
        limit >= 1,
    ensures
        truncated(text, limit).len() <= limit,
{
}

/// A text that fits is not cut at all.
pub proof fn short_text_is_only_trimmed(text: Seq<char>, limit: nat)
    requires
        strings::trimmed(text).len() <= limit,
    ensures
        truncated(text, limit) == strings::trimmed(text),
{
}

// --- the file behind a path ------------------------------------------------
pub open spec fn separators() -> Seq<char> {
    seq!['/', '\\']
}

/// The last component of a path that is not empty; the path itself when it has
/// none.
pub open spec fn basename_spec(path: Seq<char>) -> Seq<char> {
    let t = strings::drop_end(path, strings::one_of(separators()));
    if t.len() == 0 {
        path
    } else {
        t.skip(strings::behind_last(t, separators()))
    }
}

fn separator_list() -> (r: Vec<char>)
    ensures
        r@ == separators(),
{
    let r: Vec<char> = vec!['/', '\\'];
    assert(r@ =~= separators());
    r
}

pub fn basename(path: &str) -> (r: String)
    ensures
        r@ == basename_spec(path@),
{
    let set = separator_list();
    let t = strings::trim_end_of(path, &set);
    let chars = strings::chars_of(t.as_str());
    if chars.len() == 0 {
        return path.to_owned();
    }
    let from: usize = strings::index_behind_last(&chars, &set);
    assert(chars@.subrange(from as int, chars@.len() as int) =~= chars@.skip(from as int));
    strings::slice(&chars, from, chars.len())
}

pub fn basename_or(path: &str, fallback: &str) -> (r: String)
    ensures
        path@.len() == 0 ==> r@ == fallback@,
        path@.len() > 0 ==> r@ == basename_spec(path@),
{
    if path.is_empty() {
        fallback.to_owned()
    } else {
        basename(path)
    }
}

/// The name of a file is never a path: it holds no separator, unless the path
/// is nothing but separators.
pub proof fn basename_holds_no_separator(path: Seq<char>)
    requires
        strings::drop_end(path, strings::one_of(separators())).len() > 0,
    ensures
        basename_spec(path).len() > 0,
        forall|i: int|
            0 <= i < basename_spec(path).len() ==> basename_spec(path)[i] != '/' && basename_spec(
                path,
            )[i] != '\\',
{
    let f = strings::one_of(separators());
    let t = strings::drop_end(path, f);
    strings::lemma_drop_end(path, f);
    strings::lemma_behind_last(t, separators());
    assert(!separators().contains(t.last()));
    assert(separators()[0] == '/' && separators()[1] == '\\');
    assert forall|i: int| 0 <= i < basename_spec(path).len() implies basename_spec(path)[i] != '/'
        && basename_spec(path)[i] != '\\' by {
        assert(basename_spec(path)[i] == t[i + strings::behind_last(t, separators())]);
        assert(separators().contains('/') && separators().contains('\\'));
    }
}

/// Whether a word is a path worth replacing by its file's name.
pub open spec fn path_like(token: Seq<char>, marked: bool) -> bool {
    let bytes = vstd::utf8::encode_utf8(token);
    let rooted = strings::begins(token, "/"@) || strings::begins(token, "./"@) || strings::begins(
        token,
        "~/"@,
    ) || (bytes.len() > 1 && bytes[1] == 0x3a);
    &&& bytes.len() >= 3
    &&& !strings::has(token, "://"@)
    &&& strings::count_of(token, separators()) > 0
    &&& (marked || rooted || strings::count_of(token, separators()) > 1)
}

/// `marked` says the token was written as an `@` mention, which is the
/// agent's own way of saying "this is a file" and settles the question.
pub fn looks_like_path(token: &str, marked: bool) -> (r: bool)
    ensures
        r == path_like(token@, marked),
{
    let bytes = token.as_bytes();
    if bytes.len() < 3 || strings::contains(token, "://") {
        return false;
    }
    let found: usize = strings::count(token, &separator_list());
    if found == 0 {
        return false;
    }
    let rooted = strings::starts_with(token, "/") || strings::starts_with(token, "./")
        || strings::starts_with(token, "~/") || (bytes.len() > 1 && bytes[1] == 0x3a);
    // Unmarked, a single separator is as likely to be "either/or" as a path.
    marked || rooted || found > 1
}

/// The first word of `body`, and how many characters of `body` it takes up. A
/// word that opens with a quote runs to the closing one.
pub open spec fn token_spec(body: Seq<char>) -> (Seq<char>, int) {
    if body.len() > 0 && body[0] == '"' {
        let quoted = body.skip(1);
        let end = strings::position(quoted, '"');
        if end < quoted.len() {
            (quoted.take(end), end + 2)
        } else {
            (quoted, quoted.len() + 1int)
        }
    } else {
        (body.take(strings::word_len(body)), strings::word_len(body))
    }
}

/// How many characters the word at the start of `t` takes up, its `@` counted.
pub open spec fn word_width(t: Seq<char>) -> int {
    if t[0] == '@' {
        token_spec(t.skip(1)).1 + 1
    } else {
        token_spec(t).1
    }
}

/// What the word at the start of `t` is replaced by.
pub open spec fn word_shown(t: Seq<char>) -> Seq<char> {
    let marked = t[0] == '@';
    let token = token_spec(if marked { t.skip(1) } else { t }).0;
    if path_like(token, marked) {
        basename_spec(token)
    } else {
        t.take(word_width(t))
    }
}

pub proof fn lemma_word_width(t: Seq<char>)
    requires
        t.len() > 0,
        !strings::is_white(t[0]),
    ensures
        0 < word_width(t) <= t.len(),
{
    let body = if t[0] == '@' {
        t.skip(1)
    } else {
        t
    };
    if body.len() > 0 && body[0] == '"' {
        strings::lemma_position(body.skip(1), '"');
    } else {
        strings::lemma_word_len(body);
    }
}

/// The line with every path in it replaced by its file's name, word by word,
/// the space between the words kept.
pub open spec fn with_names(rest: Seq<char>) -> Seq<char>
    decreases rest.len(),
{
    proof {
        strings::lemma_drop_start(rest, strings::white());
        if strings::trimmed_start(rest).len() > 0 {
            lemma_word_width(strings::trimmed_start(rest));
        }
    }
    let t = strings::trimmed_start(rest);
    let spaces = rest.take(rest.len() - t.len());
    if t.len() == 0 {
        spaces
    } else {
        spaces + word_shown(t) + with_names(t.skip(word_width(t)))
    }
}

pub open spec fn shortened(line: Seq<char>) -> Seq<char> {
    strings::trimmed(with_names(line))
}

fn token_at(v: &Vec<char>, from: usize) -> (r: (String, usize))
    requires
        from <= v@.len(),
    ensures
        r.0@ == token_spec(v@.skip(from as int)).0,
        r.1 == token_spec(v@.skip(from as int)).1,
        r.1 <= v@.len() - from,
{
    let ghost body = v@.skip(from as int);
    if from < v.len() && v[from] == '"' {
        let end: usize = strings::index_of(v, from + 1, '"');
        proof {
            assert(body.skip(1) =~= v@.skip(from + 1));
            assert(body.skip(1).take(end - from - 1) =~= v@.subrange(from + 1, end as int));
        }
        let token = strings::slice(v, from + 1, end);
        if end < v.len() {
            (token, end - from + 1)
        } else {
            assert(v@.subrange(from + 1, end as int) =~= body.skip(1));
            (token, end - from)
        }
    } else {
        let mut to: usize = from;
        while to < v.len() && !strings::is_whitespace(v[to])
            invariant
                from <= to <= v@.len(),
                body == v@.skip(from as int),
                strings::word_len(body) == to - from + strings::word_len(v@.skip(to as int)),
            decreases v@.len() - to,
        {
            assert(v@.skip(to as int).skip(1) =~= v@.skip(to + 1));
            to = to + 1;
        }
        assert(body.take(to - from) =~= v@.subrange(from as int, to as int));
        (strings::slice(v, from, to), to - from)
    }
}

/// Replaces file paths with the file's name.
///
/// A dragged-in or `@`-mentioned file arrives as `@"C:\Users\me\Downloads\Plan
/// 1.md"`, and a card that is one line tall should spend it on "Plan 1.md".
/// URLs are left alone: the host and the path are the whole point of one.
#[verifier::spinoff_prover]
pub fn shorten_paths(line: &str) -> (r: String)
    ensures
        r@ == shortened(line@),
{
    let v = strings::chars_of(line);
    let mut out = String::new();
    let mut from: usize = 0;
    assert(v@.skip(0) =~= v@);
    loop
        invariant
            v@ == line@,
            from <= v@.len() <= usize::MAX,
            out@ + with_names(v@.skip(from as int)) == with_names(line@),
        decreases v@.len() - from,
    {
        let ghost rest = v@.skip(from as int);
        let ghost before = out@;
        // Only ever look at whole words. Testing every offset would find a
        // "path" inside `https://example.com/a/b` and throw the host away.
        let mut start: usize = from;
        while start < v.len() && strings::is_whitespace(v[start])
            invariant
                from <= start <= v@.len(),
                rest == v@.skip(from as int),
                strings::trimmed_start(rest) == strings::trimmed_start(v@.skip(start as int)),
            decreases v@.len() - start,
        {
            assert(v@.skip(start as int).skip(1) =~= v@.skip(start + 1));
            start = start + 1;
        }
        let ghost t = v@.skip(start as int);
        let ghost spaces = rest.take(start - from);
        out.append(strings::slice(&v, from, start).as_str());
        assert(rest.take(start - from) =~= v@.subrange(from as int, start as int));
        if start == v.len() {
            assert(out@ =~= before + with_names(rest));
            return strings::trim(out.as_str());
        }
        let marked = v[start] == '@';
        let body: usize = if marked {
            start + 1
        } else {
            start
        };
        proof {
            lemma_word_width(t);
            assert(t.skip(1) =~= v@.skip(start + 1));
        }
        let (token, consumed) = token_at(&v, body);
        let width: usize = consumed + (body - start);
        if looks_like_path(token.as_str(), marked) {
            out.append(basename(token.as_str()).as_str());
        } else {
            assert(t.take(width as int) =~= v@.subrange(start as int, start + width));
            out.append(strings::slice(&v, start, start + width).as_str());
        }
        assert(t.skip(width as int) =~= v@.skip(start + width));
        from = start + width;
        proof {
            let shown = word_shown(t);
            let tail = with_names(v@.skip(from as int));
            assert(out@ =~= before + spaces + shown);
            assert(with_names(rest) == spaces + shown + tail);
            assert(before + (spaces + shown + tail) =~= before + spaces + shown + tail);
        }
    }
}

// --- the one line worth showing --------------------------------------------
pub open spec fn acknowledgement(bare: Seq<char>) -> bool {
    ||| bare == "ok"@
    ||| bare == "okay"@
    ||| bare == "hi"@
    ||| bare == "hey"@
    ||| bare == "hello"@
    ||| bare == "thanks"@
    ||| bare == "thank you"@
    ||| bare == "sure"@
    ||| bare == "yes"@
    ||| bare == "no"@
}

/// The line without the punctuation that ends it.
pub open spec fn bare_of(line: Seq<char>) -> Seq<char> {
    strings::drop_end(line, strings::one_of(seq!['.', '!', ',', ':']))
}

/// Whether a line only opens the conversation.
pub open spec fn throat_clearing(line: Seq<char>) -> bool {
    ||| strings::words_spec(line).len() <= 3 && line.len() > 0 && (line.last() == ',' || line.last()
        == ':')
    ||| acknowledgement(strings::lowered(bare_of(line)))
    ||| wordless(line)
}

/// Whether a line holds no letter and no digit.
pub open spec fn wordless(line: Seq<char>) -> bool {
    forall|i: int| 0 <= i < line.len() ==> !strings::is_alnum(#[trigger] line[i])
}

fn is_wordless(line: &str) -> (r: bool)
    ensures
        r == wordless(line@),
{
    let chars = strings::chars_of(line);
    let mut i: usize = 0;
    while i < chars.len()
        invariant
            chars@ == line@,
            i <= chars@.len(),
            forall|j: int| 0 <= j < i ==> !strings::is_alnum(#[trigger] line@[j]),
        decreases chars@.len() - i,
    {
        if chars[i].is_alphanumeric() {
            assert(strings::is_alnum(line@[i as int]));
            return false;
        }
        i = i + 1;
    }
    true
}

fn is_acknowledgement(bare: &str) -> (r: bool)
    ensures
        r == acknowledgement(bare@),
{
    strings::same(bare, "ok") || strings::same(bare, "okay") || strings::same(bare, "hi")
        || strings::same(bare, "hey") || strings::same(bare, "hello") || strings::same(
        bare,
        "thanks",
    ) || strings::same(bare, "thank you") || strings::same(bare, "sure") || strings::same(
        bare,
        "yes",
    ) || strings::same(bare, "no")
}

/// A line that only opens the conversation. Kept deliberately narrow: a short
/// sentence is usually the most informative thing in a prompt, so only a
/// trailing comma or colon (which promises the real line is the next one) or a
/// bare acknowledgement counts.
pub fn is_throat_clearing(line: &str) -> (r: bool)
    ensures
        r == throat_clearing(line@),
{
    let chars = strings::chars_of(line);
    let words = strings::words(line);
    assert(words@.len() == strings::words_spec(line@).len());
    if words.len() <= 3 && chars.len() > 0 && (chars[chars.len() - 1] == ',' || chars[chars.len()
        - 1] == ':') {
        return true;
    }
    let set: Vec<char> = vec!['.', '!', ',', ':'];
    assert(set@ =~= seq!['.', '!', ',', ':']);
    let bare = strings::lower(strings::trim_end_of(line, &set).as_str());
    if is_acknowledgement(bare.as_str()) {
        return true;
    }
    is_wordless(line)
}

/// The line without the heading, quote and bullet marks in front of it.
pub open spec fn unmarked(line: Seq<char>) -> Seq<char> {
    let t = strings::trimmed_start(
        strings::drop_start(strings::trimmed(line), strings::one_of(seq!['#', '>'])),
    );
    if strings::begins(t, "- "@) {
        t.skip(2)
    } else {
        t
    }
}

/// The words of a markdown line, without the marks that only shape a document.
pub open spec fn stripped(line: Seq<char>) -> Seq<char> {
    let emphasis = strings::one_of(seq!['*', '_', '`']);
    strings::trimmed(strings::drop_end(strings::drop_start(unmarked(line), emphasis), emphasis))
}

/// Drops the markdown that only makes sense in a document.
///
/// A heading's `##` and a bullet's `-` are structure, not words, and the card
/// has no structure to give them. Emphasis markers are left where they fall
/// inside a sentence: `**not** this` reads fine, and hunting pairs across a
/// truncated line is how you end up with a stray asterisk.
pub fn strip_markup(line: &str) -> (r: String)
    ensures
        r@ == stripped(line@),
{
    let heading: Vec<char> = vec!['#', '>'];
    assert(heading@ =~= seq!['#', '>']);
    let trimmed = strings::trim(line);
    let headless = strings::trim_start_of(trimmed.as_str(), &heading);
    let open = strings::trim_start(headless.as_str());
    let unbulleted = if strings::starts_with(open.as_str(), "- ") {
        let chars = strings::chars_of(open.as_str());
        proof {
            reveal_strlit("- ");
            assert(chars@.subrange(2, chars@.len() as int) =~= open@.skip(2));
        }
        strings::slice(&chars, 2, chars.len())
    } else {
        open
    };
    // A line that is nothing but emphasis is a heading in disguise.
    let emphasis: Vec<char> = vec!['*', '_', '`'];
    assert(emphasis@ =~= seq!['*', '_', '`']);
    strings::trim(strings::trim_of(unbulleted.as_str(), &emphasis).as_str())
}

/// A line as a card would show it, before it is cut to length.
pub open spec fn shown(line: Seq<char>) -> Seq<char> {
    shortened(stripped(strings::trimmed(line)))
}

/// The first line that says anything, as a card would show it.
pub open spec fn first_telling(lines: Seq<Seq<char>>) -> Option<Seq<char>>
    decreases lines.len(),
{
    if lines.len() == 0 {
        None
    } else if strings::trimmed(lines[0]).len() > 0 && !throat_clearing(shown(lines[0])) {
        Some(shown(lines[0]))
    } else {
        first_telling(lines.skip(1))
    }
}

pub open spec fn summary_spec(text: Seq<char>, limit: nat) -> Option<Seq<char>> {
    match first_telling(strings::lines_spec(text)) {
        Some(line) => Some(truncated(line, limit)),
        None => None,
    }
}

pub fn summary_within(text: &str, limit: usize) -> (r: Option<String>)
    ensures
        strings::opt_view(r) == summary_spec(text@, limit as nat),
{
    let lines = strings::lines(text);
    let ghost all = strings::views(lines@);
    let mut i: usize = 0;
    assert(all.skip(0) =~= all);
    while i < lines.len()
        invariant
            all == strings::views(lines@),
            all == strings::lines_spec(text@),
            i <= lines@.len(),
            first_telling(all) == first_telling(all.skip(i as int)),
        decreases lines@.len() - i,
    {
        assert(all.skip(i as int)[0] == lines@[i as int]@);
        assert(all.skip(i as int).skip(1) =~= all.skip(i + 1));
        let trimmed = strings::trim(lines[i].as_str());
        if !trimmed.as_str().is_empty() {
            let line = shorten_paths(strip_markup(trimmed.as_str()).as_str());
            if !is_throat_clearing(line.as_str()) {
                return Some(truncate(line.as_str(), limit));
            }
        }
        i = i + 1;
    }
    None
}

/// The first line of a prompt or an answer that is worth putting on a card.
///
/// Two things kept turning up in that slot and telling nobody anything: an
/// opening line that is a greeting rather than a sentence ("Tristan,"), and a
/// prompt that is a dragged-in file, which arrives as an absolute path and
/// takes the whole line to say one filename. `None` means the text has nothing
/// to say, which is different from having nothing in it.
pub fn summary_of(text: &str) -> (r: Option<String>)
    ensures
        strings::opt_view(r) == summary_spec(text@, 90),
{
    summary_within(text, 90)
}

/// The first line that is not blank, trimmed; nothing when there is none.
pub open spec fn first_filled(lines: Seq<Seq<char>>) -> Seq<char>
    decreases lines.len(),
{
    if lines.len() == 0 {
        seq![]
    } else if strings::trimmed(lines[0]).len() > 0 {
        strings::trimmed(lines[0])
    } else {
        first_filled(lines.skip(1))
    }
}

pub fn first_line(text: &str) -> (r: String)
    ensures
        r@ == first_filled(strings::lines_spec(text@)),
{
    let lines = strings::lines(text);
    let ghost all = strings::views(lines@);
    let mut i: usize = 0;
    assert(all.skip(0) =~= all);
    while i < lines.len()
        invariant
            all == strings::views(lines@),
            all == strings::lines_spec(text@),
            i <= lines@.len(),
            first_filled(all) == first_filled(all.skip(i as int)),
        decreases lines@.len() - i,
    {
        assert(all.skip(i as int)[0] == lines@[i as int]@);
        assert(all.skip(i as int).skip(1) =~= all.skip(i + 1));
        let trimmed = strings::trim(lines[i].as_str());
        if !trimmed.as_str().is_empty() {
            return trimmed;
        }
        i = i + 1;
    }
    String::new()
}

/// A summary says something: it is never a line that only clears the throat,
/// and it fits where it goes.
pub proof fn a_summary_is_worth_its_line(text: Seq<char>, limit: nat)
    requires
        limit >= 1,
        summary_spec(text, limit) is Some,
    ensures
        summary_spec(text, limit)->0.len() <= limit,
        exists|line: Seq<char>|
            !throat_clearing(line) && #[trigger] truncated(line, limit) == summary_spec(
                text,
                limit,
            )->0,
{
    lemma_first_telling(strings::lines_spec(text));
    let line = first_telling(strings::lines_spec(text))->0;
    assert(truncated(line, limit) == summary_spec(text, limit)->0);
}

proof fn lemma_first_telling(lines: Seq<Seq<char>>)
    ensures
        first_telling(lines) matches Some(line) ==> !throat_clearing(line),
    decreases lines.len(),
{
    if lines.len() > 0 {
        lemma_first_telling(lines.skip(1));
    }
}

} // verus!
