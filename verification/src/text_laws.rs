//! What a card shows of a text.

use vstd::prelude::*;
use vstd::string::*;

use crate::strings;
use crate::text;

verus! {

// --- cutting ---------------------------------------------------------------------------
/// A text that is too long keeps its beginning and ends in an ellipsis; one that
/// fits is whole.
pub proof fn a_cut_text_keeps_its_beginning(s: Seq<char>, limit: nat)
    requires
        limit >= 1,
    ensures
        ({
            let t = strings::trimmed(s);
            let r = text::truncated(s, limit);
            &&& t.len() <= limit ==> r == t
            &&& t.len() > limit ==> {
                &&& r.len() == limit
                &&& r.last() == '…'
                &&& forall|i: int| 0 <= i < limit - 1 ==> r[i] == t[i]
            }
        }),
{
}

/// What stands between blanks is kept, and the blanks are not.
pub proof fn blanks_around_a_text_go(before: Seq<char>, s: Seq<char>, behind: Seq<char>)
    requires
        forall|i: int| 0 <= i < before.len() ==> strings::is_white(#[trigger] before[i]),
        forall|i: int| 0 <= i < behind.len() ==> strings::is_white(#[trigger] behind[i]),
        s.len() > 0 ==> !strings::is_white(s[0]) && !strings::is_white(s.last()),
    ensures
        strings::trimmed(before + s + behind) == s,
{
    let f = strings::white();
    assert forall|i: int| 0 <= i < before.len() implies f(#[trigger] before[i]) by {}
    assert forall|i: int| 0 <= i < behind.len() implies f(#[trigger] behind[i]) by {}
    assert(before + s + behind =~= before + (s + behind));
    if s.len() == 0 {
        assert(s + behind =~= behind);
        lemma_all_start(before, f);
        lemma_start(before, behind, f);
        lemma_all_start(behind, f);
        assert(strings::drop_end(Seq::<char>::empty(), f) =~= s);
    } else {
        assert((s + behind)[0] == s[0]);
        lemma_start(before, s + behind, f);
        assert(strings::drop_start(s + behind, f) == s + behind);
        lemma_end(s, behind, f);
        assert(strings::drop_end(s, f) == s);
    }
}

proof fn lemma_all_start(s: Seq<char>, f: spec_fn(char) -> bool)
    requires
        forall|i: int| 0 <= i < s.len() ==> f(#[trigger] s[i]),
    ensures
        strings::drop_start(s, f) == Seq::<char>::empty(),
    decreases s.len(),
{
    if s.len() > 0 {
        assert forall|i: int| 0 <= i < s.skip(1).len() implies f(#[trigger] s.skip(1)[i]) by {
            assert(s.skip(1)[i] == s[i + 1]);
        }
        lemma_all_start(s.skip(1), f);
    }
}

proof fn lemma_start(a: Seq<char>, s: Seq<char>, f: spec_fn(char) -> bool)
    requires
        forall|i: int| 0 <= i < a.len() ==> f(#[trigger] a[i]),
    ensures
        strings::drop_start(a + s, f) == strings::drop_start(s, f),
    decreases a.len(),
{
    if a.len() == 0 {
        assert(a + s =~= s);
    } else {
        assert((a + s)[0] == a[0]);
        assert((a + s).skip(1) =~= a.skip(1) + s);
        assert forall|i: int| 0 <= i < a.skip(1).len() implies f(#[trigger] a.skip(1)[i]) by {
            assert(a.skip(1)[i] == a[i + 1]);
        }
        lemma_start(a.skip(1), s, f);
    }
}

proof fn lemma_end(s: Seq<char>, a: Seq<char>, f: spec_fn(char) -> bool)
    requires
        forall|i: int| 0 <= i < a.len() ==> f(#[trigger] a[i]),
    ensures
        strings::drop_end(s + a, f) == strings::drop_end(s, f),
    decreases a.len(),
{
    if a.len() == 0 {
        assert(s + a =~= s);
    } else {
        assert((s + a).last() == a.last());
        assert((s + a).drop_last() =~= s + a.drop_last());
        assert forall|i: int| 0 <= i < a.drop_last().len() implies f(
            #[trigger] a.drop_last()[i],
        ) by {
            assert(a.drop_last()[i] == a[i]);
        }
        lemma_end(s, a.drop_last(), f);
    }
}

/// A line ends at a line feed, and what is behind it are the other lines.
pub proof fn a_line_ends_at_a_line_feed(line: Seq<char>, rest: Seq<char>)
    requires
        forall|i: int| 0 <= i < line.len() ==> line[i] != '\n',
    ensures
        strings::lines_spec(line.push('\n') + rest) == seq![
            if line.len() > 0 && line.last() == '\r' {
                line.drop_last()
            } else {
                line
            },
        ] + strings::lines_spec(rest),
        strings::lines_spec(Seq::empty()) == Seq::<Seq<char>>::empty(),
        line.len() > 0 ==> strings::lines_spec(line) == seq![line],
{
    let s = line.push('\n') + rest;
    lemma_first_at(s, '\n', line.len() as int);
    assert(s.take(line.len() as int) =~= line);
    assert(s.skip(line.len() + 1int) =~= rest);
    strings::lemma_position(line, '\n');
}

proof fn lemma_first_at(s: Seq<char>, c: char, n: int)
    requires
        0 <= n < s.len(),
        s[n] == c,
        forall|i: int| 0 <= i < n ==> s[i] != c,
    ensures
        strings::position(s, c) == n,
{
    strings::lemma_position(s, c);
    let p = strings::position(s, c);
    if p > n {
        assert(s[n] != c);
    }
    if p < n {
        assert(s[p] == c);
    }
}

/// Words are what stands between blanks, in order.
pub proof fn words_stand_between_blanks(blanks: Seq<char>, word: Seq<char>, rest: Seq<char>)
    requires
        word.len() > 0,
        forall|i: int| 0 <= i < word.len() ==> !strings::is_white(#[trigger] word[i]),
        forall|i: int| 0 <= i < blanks.len() ==> strings::is_white(#[trigger] blanks[i]),
        rest.len() > 0 ==> strings::is_white(rest[0]),
    ensures
        strings::words_spec(blanks + word + rest) == seq![word] + strings::words_spec(rest),
        strings::words_spec(blanks) == Seq::<Seq<char>>::empty(),
{
    let f = strings::white();
    let t = word + rest;
    assert(blanks + word + rest =~= blanks + t);
    assert forall|i: int| 0 <= i < blanks.len() implies f(#[trigger] blanks[i]) by {}
    lemma_start(blanks, t, f);
    assert(t[0] == word[0]);
    assert(strings::drop_start(t, f) == t);
    lemma_word(word, rest);
    assert(t.take(word.len() as int) =~= word);
    assert(t.skip(word.len() as int) =~= rest);
    lemma_all_start(blanks, f);
}

/// A text holds what stands anywhere in it, and nothing else.
pub proof fn a_text_holds_what_stands_in_it(
    before: Seq<char>,
    part: Seq<char>,
    behind: Seq<char>,
    whole: Seq<char>,
)
    ensures
        strings::has(before + part + behind, part),
        strings::begins(part + behind, part),
        strings::finishes(before + part, part),
        strings::has(whole, part) ==> exists|i: int|
            0 <= i && i + part.len() <= whole.len() && #[trigger] whole.subrange(i, i + part.len())
                == part,
{
    let s = before + part + behind;
    strings::lemma_find(s, part);
    assert(s.skip(before.len() as int).take(part.len() as int) =~= part);
    assert(strings::begins(s.skip(before.len() as int), part));
    assert((part + behind).take(part.len() as int) =~= part);
    assert((before + part).skip((before + part).len() - part.len()) =~= part);
    strings::lemma_find(whole, part);
    if let Some(i) = strings::find_spec(whole, part) {
        assert(whole.skip(i).take(part.len() as int) =~= whole.subrange(i, i + part.len()));
    }
}

/// A list names its parts with a mark between any two.
pub proof fn a_list_has_a_mark_between_its_parts(
    parts: Seq<Seq<char>>,
    last: Seq<char>,
    mark: Seq<char>,
)
    ensures
        strings::listed(seq![last], mark) == last,
        parts.len() > 0 ==> strings::listed(parts.push(last), mark) == strings::listed(parts, mark)
            + mark + last,
        strings::listed(Seq::empty(), mark) == Seq::<char>::empty(),
{
    assert(parts.push(last).drop_last() =~= parts);
}

/// A number is read digit by digit, each worth a tenth of the one before.
pub proof fn a_number_is_read_digit_by_digit(digits: Seq<char>, c: char)
    requires
        strings::all_digits(digits),
        '0' as u32 <= c as u32 <= '9' as u32,
    ensures
        strings::digits_value(digits.push(c)) == strings::digits_value(digits) * 10 + (c as u32
            - 0x30),
        strings::digits_value(Seq::empty()) == 0,
        strings::digits_value(digits.push(c)) <= u64::MAX ==> strings::number_spec(digits.push(c))
            == Some(strings::digits_value(digits.push(c)) as u64),
        strings::digits_value(digits.push(c)) > u64::MAX ==> strings::number_spec(digits.push(c))
            is None,
        strings::number_spec(Seq::empty()) is None,
{
    let more = digits.push(c);
    assert(more.drop_last() =~= digits);
    assert(strings::is_digit(c));
    assert forall|i: int| 0 <= i < more.len() implies strings::is_digit(#[trigger] more[i]) by {
        if i < digits.len() {
            assert(more[i] == digits[i]);
        }
    }
    assert(strings::is_digit(more[0]));
    assert(!strings::is_digit('+'));
}

/// A capital letter is lowered, and any other character stays.
pub proof fn only_capitals_are_lowered(s: Seq<char>, i: int)
    requires
        0 <= i < s.len(),
    ensures
        strings::ascii_lowered(s).len() == s.len(),
        'A' as u32 <= s[i] as u32 <= 'Z' as u32 ==> strings::ascii_lowered(s)[i] as u32 == s[i] as u32
            + 32,
        !('A' as u32 <= s[i] as u32 <= 'Z' as u32) ==> strings::ascii_lowered(s)[i] == s[i],
{
}

// --- paths -----------------------------------------------------------------------------
/// The name of a file is what stands behind the last separator, those at the end
/// of the path left out.
pub proof fn a_file_goes_by_its_name(folder: Seq<char>, name: Seq<char>, tail: Seq<char>)
    requires
        name.len() > 0,
        forall|i: int| 0 <= i < name.len() ==> (#[trigger] name[i]) != '/' && name[i] != '\\',
        forall|i: int| 0 <= i < tail.len() ==> (#[trigger] tail[i]) == '/' || tail[i] == '\\',
        folder.len() > 0 ==> folder.last() == '/' || folder.last() == '\\',
    ensures
        text::basename_spec(folder + name + tail) == name,
{
    let set = text::separators();
    let f = strings::one_of(set);
    assert(set[0] == '/' && set[1] == '\\');
    assert(set.contains('/') && set.contains('\\'));
    assert forall|c: char| c != '/' && c != '\\' implies !#[trigger] set.contains(c) by {}
    let whole = folder + name;
    assert forall|i: int| 0 <= i < tail.len() implies f(#[trigger] tail[i]) by {}
    lemma_end(whole, tail, f);
    assert(whole.last() == name.last());
    assert(name.last() == name[name.len() - 1]);
    assert(strings::drop_end(whole, f) == whole);
    strings::lemma_behind_last(whole, set);
    let k = strings::behind_last(whole, set);
    if k > folder.len() {
        assert(whole[k - 1] == name[k - 1 - folder.len()]);
    }
    if k < folder.len() {
        assert(whole[folder.len() - 1] == folder.last());
    }
    assert(whole.skip(folder.len() as int) =~= name);
}

/// A word is taken for a path when it has a separator and something else that says
/// so: a mention, the start of one, or a second separator. An address on the web
/// is none.
pub proof fn a_word_is_taken_for_a_path(token: Seq<char>, marked: bool)
    requires
        token.len() >= 3,
        vstd::utf8::is_ascii_chars(token),
    ensures
        ({
            let slashes = strings::count_of(token, seq!['/', '\\']);
            let rooted = token[0] == '/' || (token[0] == '.' && token[1] == '/') || (token[0] == '~'
                && token[1] == '/') || token[1] == ':';
            text::path_like(token, marked) <==> slashes > 0 && (marked || rooted || slashes > 1)
                && !strings::has(token, "://"@)
        }),
{
    reveal_strlit("/");
    reveal_strlit("./");
    reveal_strlit("~/");
    assert(strings::begins(token, "/"@) == (token[0] == '/')) by {
        assert(token.take(1).len() == 1 && token.take(1)[0] == token[0]);
        if token[0] == '/' {
            assert(token.take(1) =~= "/"@);
        }
    }
    assert(strings::begins(token, "./"@) == (token[0] == '.' && token[1] == '/')) by {
        assert(token.take(2)[0] == token[0] && token.take(2)[1] == token[1]);
        if token[0] == '.' && token[1] == '/' {
            assert(token.take(2) =~= "./"@);
        }
    }
    assert(strings::begins(token, "~/"@) == (token[0] == '~' && token[1] == '/')) by {
        assert(token.take(2)[0] == token[0] && token.take(2)[1] == token[1]);
        if token[0] == '~' && token[1] == '/' {
            assert(token.take(2) =~= "~/"@);
        }
    }
    assert(text::separators() =~= seq!['/', '\\']);
    vstd::utf8::is_ascii_chars_encode_utf8(token);
    let second = token[1];
    assert('\0' <= second <= '\u{7f}');
    assert(vstd::utf8::encode_utf8(token)[1] == second as u8);
}

/// A word that opens with a quote runs to the closing one, blanks and all; any
/// other runs to the next blank.
pub proof fn a_quoted_word_runs_to_its_quote(word: Seq<char>, rest: Seq<char>)
    ensures
        (forall|i: int| 0 <= i < word.len() ==> word[i] != '"') ==> text::token_spec(
            seq!['"'] + word + seq!['"'] + rest,
        ) == (word, word.len() + 2int),
        word.len() > 0 && word[0] != '"' && (forall|i: int|
            0 <= i < word.len() ==> !strings::is_white(#[trigger] word[i])) && (rest.len() > 0
            ==> strings::is_white(rest[0])) ==> text::token_spec(word + rest) == (
            word,
            word.len() as int,
        ),
{
    if forall|i: int| 0 <= i < word.len() ==> word[i] != '"' {
        let body = seq!['"'] + word + seq!['"'] + rest;
        let quoted = body.skip(1);
        assert(quoted =~= word + seq!['"'] + rest);
        lemma_first_at(quoted, '"', word.len() as int);
        assert(quoted.take(word.len() as int) =~= word);
    }
    if word.len() > 0 && word[0] != '"' && (forall|i: int|
        0 <= i < word.len() ==> !strings::is_white(#[trigger] word[i])) && (rest.len() > 0
        ==> strings::is_white(rest[0])) {
        lemma_word(word, rest);
        assert((word + rest).take(word.len() as int) =~= word);
    }
}

proof fn lemma_word(word: Seq<char>, rest: Seq<char>)
    requires
        forall|i: int| 0 <= i < word.len() ==> !strings::is_white(#[trigger] word[i]),
        rest.len() > 0 ==> strings::is_white(rest[0]),
    ensures
        strings::word_len(word + rest) == word.len(),
{
    let s = word + rest;
    strings::lemma_word_len(s);
    let n = strings::word_len(s);
    if n < word.len() {
        assert(s[n] == word[n]);
    }
    if n > word.len() {
        assert(s[word.len() as int] == rest[0]);
    }
}

/// A line is shown word by word: a path gives way to its file's name, anything
/// else stays as it is, and so do the blanks.
pub proof fn a_path_gives_way_to_its_name(blanks: Seq<char>, word: Seq<char>, rest: Seq<char>)
    requires
        word.len() > 0,
        word[0] != '"' && word[0] != '@',
        forall|i: int| 0 <= i < word.len() ==> !strings::is_white(#[trigger] word[i]),
        forall|i: int| 0 <= i < blanks.len() ==> strings::is_white(#[trigger] blanks[i]),
        rest.len() > 0 ==> strings::is_white(rest[0]),
    ensures
        text::with_names(blanks + word + rest) == blanks + (if text::path_like(word, false) {
            text::basename_spec(word)
        } else {
            word
        }) + text::with_names(rest),
{
    let line = blanks + word + rest;
    let t = word + rest;
    let f = strings::white();
    assert(line =~= blanks + t);
    assert forall|i: int| 0 <= i < blanks.len() implies f(#[trigger] blanks[i]) by {}
    lemma_start(blanks, t, f);
    assert(t[0] == word[0]);
    assert(strings::drop_start(t, f) == t);
    a_quoted_word_runs_to_its_quote(word, rest);
    assert(line.take(line.len() - t.len()) =~= blanks);
    assert(t.take(word.len() as int) =~= word);
    assert(t.skip(word.len() as int) =~= rest);
}

/// A mention gives way to its file's name as soon as it has a separator.
#[verifier::spinoff_prover]
#[verifier::rlimit(30)]
pub proof fn a_mention_gives_way_to_its_name(word: Seq<char>, rest: Seq<char>)
    requires
        word.len() > 0,
        word[0] != '"',
        forall|i: int| 0 <= i < word.len() ==> !strings::is_white(#[trigger] word[i]),
        rest.len() > 0 ==> strings::is_white(rest[0]),
    ensures
        text::with_names(seq!['@'] + word + rest) == (if text::path_like(word, true) {
            text::basename_spec(word)
        } else {
            seq!['@'] + word
        }) + text::with_names(rest),
{
    let line = seq!['@'] + word + rest;
    assert(strings::trimmed_start(line) == line) by {
        assert(line[0] == '@');
    }
    assert(text::token_spec(line.skip(1)) == (word, word.len() as int)) by {
        assert(line.skip(1) =~= word + rest);
        a_quoted_word_runs_to_its_quote(word, rest);
    }
    assert(line.take(word.len() + 1int) =~= seq!['@'] + word);
    assert(line.skip(word.len() + 1int) =~= rest);
    assert(text::word_width(line) == word.len() + 1);
    assert(line.take(line.len() - line.len()) =~= Seq::<char>::empty());
    assert(Seq::<char>::empty() + text::word_shown(line) =~= text::word_shown(line));
}

// --- the line worth showing --------------------------------------------------------------
/// A line says nothing when it is a bare acknowledgement, when it is a few words
/// that only lead up to the next line, or when it has no letter and no digit.
pub proof fn these_lines_say_nothing(line: Seq<char>)
    ensures
        ({
            let bare = strings::lowered(
                strings::drop_end(line, |c: char| c == '.' || c == '!' || c == ',' || c == ':'),
            );
            let leads = strings::words_spec(line).len() <= 3 && line.len() > 0
                && (line.last() == ','
                || line.last() == ':');
            let polite = bare == "ok"@ || bare == "okay"@ || bare == "hi"@ || bare == "hey"@ || bare
                == "hello"@ || bare == "thanks"@ || bare == "thank you"@ || bare == "sure"@ || bare
                == "yes"@ || bare == "no"@;
            let mute = forall|i: int| 0 <= i < line.len() ==> !strings::is_alnum(#[trigger] line[i]);
            text::throat_clearing(line) <==> leads || polite || mute
        }),
{
    let set = seq!['.', '!', ',', ':'];
    let f = |c: char| c == '.' || c == '!' || c == ',' || c == ':';
    assert forall|c: char| #[trigger] f(c) == strings::one_of(set)(c) by {
        assert(set[0] == '.' && set[1] == '!' && set[2] == ',' && set[3] == ':');
    }
    lemma_same_end(line, f, strings::one_of(set));
}

proof fn lemma_same_end(s: Seq<char>, f: spec_fn(char) -> bool, g: spec_fn(char) -> bool)
    requires
        forall|c: char| #[trigger] f(c) == g(c),
    ensures
        strings::drop_end(s, f) == strings::drop_end(s, g),
    decreases s.len(),
{
    if s.len() > 0 && f(s.last()) {
        lemma_same_end(s.drop_last(), f, g);
    }
}

/// A plain line has no mark of a document on either side.
pub open spec fn plain_ends(line: Seq<char>) -> bool {
    &&& line.len() > 0
    &&& !strings::is_white(line[0]) && !strings::is_white(line.last())
    &&& line[0] != '#' && line[0] != '>' && line[0] != '-'
    &&& line[0] != '*' && line[0] != '_' && line[0] != '`'
    &&& line.last() != '*' && line.last() != '_' && line.last() != '`'
}

/// The marks of a heading, a quote, a list and of emphasis around a line are
/// taken off; the line itself is kept.
pub proof fn marks_around_a_line_go(line: Seq<char>)
    requires
        plain_ends(line),
    ensures
        text::stripped(line) == line,
        text::stripped(seq!['#', '#', ' '] + line) == line,
        text::stripped(seq!['>', ' '] + line) == line,
        text::stripped(seq!['-', ' '] + line) == line,
        text::stripped(seq!['*', '*'] + line + seq!['*', '*']) == line,
        text::stripped(seq!['_'] + line + seq!['_']) == line,
        text::stripped(seq!['`'] + line + seq!['`']) == line,
{
    let none = Seq::<char>::empty();
    lemma_stripped(none, none, line, none);
    assert(none + none + line + none =~= line);
    lemma_stripped(seq!['#', '#', ' '], none, line, none);
    assert(seq!['#', '#', ' '] + none + line + none =~= seq!['#', '#', ' '] + line);
    lemma_stripped(seq!['>', ' '], none, line, none);
    assert(seq!['>', ' '] + none + line + none =~= seq!['>', ' '] + line);
    lemma_stripped(seq!['-', ' '], none, line, none);
    assert(seq!['-', ' '] + none + line + none =~= seq!['-', ' '] + line);
    lemma_stripped(none, seq!['*', '*'], line, seq!['*', '*']);
    assert(none + seq!['*', '*'] + line + seq!['*', '*'] =~= seq!['*', '*'] + line + seq!['*', '*']);
    lemma_stripped(none, seq!['_'], line, seq!['_']);
    assert(none + seq!['_'] + line + seq!['_'] =~= seq!['_'] + line + seq!['_']);
    lemma_stripped(none, seq!['`'], line, seq!['`']);
    assert(none + seq!['`'] + line + seq!['`'] =~= seq!['`'] + line + seq!['`']);
}

#[verifier::spinoff_prover]
proof fn lemma_stripped(lead: Seq<char>, open: Seq<char>, line: Seq<char>, shut: Seq<char>)
    requires
        plain_ends(line),
        lead == Seq::<char>::empty() || lead == seq!['#', '#', ' '] || lead == seq!['>', ' ']
            || lead == seq!['-', ' '],
        forall|i: int|
            0 <= i < open.len() ==> (#[trigger] open[i] == '*' || open[i] == '_' || open[i] == '`'),
        forall|i: int|
            0 <= i < shut.len() ==> (#[trigger] shut[i] == '*' || shut[i] == '_' || shut[i] == '`'),
    ensures
        text::stripped(lead + open + line + shut) == line,
{
    let white = strings::white();
    let marks = strings::one_of(seq!['#', '>']);
    let set = seq!['*', '_', '`'];
    let emphasis = strings::one_of(set);
    assert(seq!['#', '>'][0] == '#' && seq!['#', '>'][1] == '>');
    assert(marks('#') && marks('>'));
    assert forall|c: char| c != '#' && c != '>' implies !#[trigger] marks(c) by {}
    assert(set[0] == '*' && set[1] == '_' && set[2] == '`');
    assert(emphasis('*') && emphasis('_') && emphasis('`'));
    assert forall|c: char| c != '*' && c != '_' && c != '`' implies !#[trigger] emphasis(c) by {}
    let core = open + line + shut;
    let whole = lead + open + line + shut;
    assert(whole =~= lead + core);
    assert(core[0] == (if open.len() > 0 { open[0] } else { line[0] }));
    assert(core.last() == (if shut.len() > 0 { shut[shut.len() - 1] } else { line.last() }));
    // Nothing is white at either side.
    assert(whole[0] == (if lead.len() > 0 { lead[0] } else { core[0] }));
    assert(whole.last() == core.last());
    assert(strings::drop_start(whole, white) == whole);
    assert(strings::drop_end(whole, white) == whole);
    assert(strings::drop_start(core, white) == core);
    assert(strings::drop_start(core, marks) == core);
    reveal_strlit("- ");
    if lead.len() == 0 {
        assert(whole =~= core);
        assert(text::unmarked(whole) == core) by {
            if strings::begins(core, "- "@) {
                assert(core.take(2)[0] == core[0]);
            }
        }
    } else if lead == seq!['-', ' '] {
        assert(strings::drop_start(whole, marks) == whole);
        assert(whole.take(2) =~= "- "@);
        assert(whole.skip(2) =~= core);
    } else {
        let spaced = seq![' '] + core;
        let bare = lead.drop_last();
        assert(whole =~= bare + spaced);
        assert forall|i: int| 0 <= i < bare.len() implies marks(#[trigger] bare[i]) by {
            assert(bare[i] == lead[i]);
        }
        lemma_start(bare, spaced, marks);
        assert(strings::drop_start(spaced, marks) == spaced);
        assert(white(' '));
        assert forall|i: int| 0 <= i < seq![' '].len() implies white(#[trigger] seq![' '][i]) by {}
        lemma_start(seq![' '], core, white);
        assert(text::unmarked(whole) == core) by {
            if strings::begins(core, "- "@) {
                assert(core.take(2)[0] == core[0]);
            }
        }
    }
    assert(text::unmarked(whole) == core);
    assert(core =~= open + (line + shut));
    lemma_start(open, line + shut, emphasis);
    assert((line + shut)[0] == line[0]);
    assert(strings::drop_start(line + shut, emphasis) == line + shut);
    lemma_end(line, shut, emphasis);
    assert(strings::drop_end(line, emphasis) == line);
    assert(strings::drop_start(line, white) == line);
    assert(strings::drop_end(line, white) == line);
}

/// The first line that says something is the one that is shown, and a text whose
/// lines all say nothing has none.
pub proof fn the_first_telling_line_is_shown(lines: Seq<Seq<char>>, k: int)
    requires
        0 <= k <= lines.len(),
        forall|j: int|
            0 <= j < k ==> strings::trimmed(#[trigger] lines[j]).len() == 0
                || text::throat_clearing(text::shown(lines[j])),
        k < lines.len() ==> strings::trimmed(lines[k]).len() > 0 && !text::throat_clearing(
            text::shown(lines[k]),
        ),
    ensures
        text::first_telling(lines) == (if k < lines.len() {
            Some(text::shown(lines[k]))
        } else {
            None
        }),
    decreases k,
{
    if k > 0 {
        let rest = lines.skip(1);
        assert forall|j: int| 0 <= j < k - 1 implies strings::trimmed(#[trigger] rest[j]).len() == 0
            || text::throat_clearing(text::shown(rest[j])) by {
            assert(rest[j] == lines[j + 1]);
        }
        assert(text::first_telling(lines) == text::first_telling(rest)) by {
            assert(strings::trimmed(lines[0]).len() == 0 || text::throat_clearing(
                text::shown(lines[0]),
            ));
        }
        the_first_telling_line_is_shown(rest, k - 1);
    }
}

/// What is shown of a text is that line, without its marks, its paths shortened,
/// and cut to length.
pub proof fn a_text_is_shown_by_its_first_telling_line(s: Seq<char>, limit: nat)
    ensures
        ({
            let found = text::first_telling(strings::lines_spec(s));
            &&& found is None ==> text::summary_spec(s, limit) is None
            &&& found is Some ==> text::summary_spec(s, limit) == Some(
                text::truncated(found->0, limit),
            )
        }),
        forall|line: Seq<char>|
            #![trigger text::shown(line)]
            text::shown(line) == strings::trimmed(
                text::with_names(text::stripped(strings::trimmed(line))),
            ),
{
}

/// The first line of a text is the first that is not blank.
pub proof fn the_first_line_is_not_blank(lines: Seq<Seq<char>>, k: int)
    requires
        0 <= k <= lines.len(),
        forall|j: int| 0 <= j < k ==> strings::trimmed(#[trigger] lines[j]).len() == 0,
        k < lines.len() ==> strings::trimmed(lines[k]).len() > 0,
    ensures
        text::first_filled(lines) == (if k < lines.len() {
            strings::trimmed(lines[k])
        } else {
            Seq::<char>::empty()
        }),
    decreases k,
{
    if k > 0 {
        let rest = lines.skip(1);
        assert forall|j: int| 0 <= j < k - 1 implies strings::trimmed(#[trigger] rest[j]).len()
            == 0 by {
            assert(rest[j] == lines[j + 1]);
        }
        assert(strings::trimmed(lines[0]).len() == 0);
        the_first_line_is_not_blank(rest, k - 1);
    }
}

} // verus!
