//! The string operations the rest of the library is built from.
//!
//! A string is modelled as the sequence of its characters. Every operation has
//! a specification over `Seq<char>` and an executable counterpart over `&str`.

use vstd::prelude::*;
use vstd::string::*;
use vstd::utf8::*;

verus! {

/// `String::push` adds one character at the end.
pub assume_specification[ String::push ](s: &mut String, c: char)
    ensures
        final(s)@ == old(s)@.push(c),
;

// --- between strings and characters ---------------------------------------
/// The contents of a list of strings.
pub open spec fn views(v: Seq<String>) -> Seq<Seq<char>> {
    v.map_values(|s: String| s@)
}

/// The contents of a string that may be missing.
pub open spec fn opt_view(s: Option<String>) -> Option<Seq<char>> {
    match s {
        Some(t) => Some(t@),
        None => None,
    }
}

pub open spec fn opt_str(s: Option<&str>) -> Option<Seq<char>> {
    match s {
        Some(t) => Some(t@),
        None => None,
    }
}

/// The characters of a string, in order.
pub fn chars_of(s: &str) -> (r: Vec<char>)
    ensures
        r@ == s@,
        s@.len() <= usize::MAX,
{
    let mut out: Vec<char> = Vec::new();
    for c in it: s.chars()
        invariant
            it.seq() == s@,
            out@ == s@.take(it.index() as int),
    {
        out.push(c);
    }
    assert(s@.take(s@.len() as int) =~= s@);
    assert(out.len() <= usize::MAX);
    out
}

/// The string made of the characters in `from..to`.
pub fn slice(v: &Vec<char>, from: usize, to: usize) -> (r: String)
    requires
        from <= to <= v@.len(),
    ensures
        r@ == v@.subrange(from as int, to as int),
{
    let mut out = String::new();
    let mut i: usize = from;
    while i < to
        invariant
            from <= i <= to <= v@.len(),
            out@ == v@.subrange(from as int, i as int),
        decreases to - i,
    {
        out.push(v[i]);
        i = i + 1;
        assert(v@.subrange(from as int, i as int) =~= v@.subrange(from as int, i - 1).push(
            v@[i - 1],
        ));
    }
    out
}

/// Whether two strings hold the same characters.
pub fn same(a: &str, b: &str) -> (r: bool)
    ensures
        r == (a@ == b@),
{
    let x: String = a.to_owned();
    let y: String = b.to_owned();
    x == y
}

/// One string after the other.
pub fn concat2(a: &str, b: &str) -> (r: String)
    ensures
        r@ == a@ + b@,
{
    let mut out: String = a.to_owned();
    out.append(b);
    out
}

/// Three strings, one after the other.
pub fn concat3(a: &str, b: &str, c: &str) -> (r: String)
    ensures
        r@ == a@ + b@ + c@,
{
    let mut out: String = a.to_owned();
    out.append(b);
    out.append(c);
    out
}

/// Whether a list of strings holds one with the characters of `s`.
pub fn holds(list: &Vec<String>, s: &str) -> (r: bool)
    ensures
        r == views(list@).contains(s@),
{
    let mut i: usize = 0;
    while i < list.len()
        invariant
            i <= list@.len(),
            forall|j: int| 0 <= j < i ==> list@[j]@ != s@,
        decreases list@.len() - i,
    {
        if same(list[i].as_str(), s) {
            assert(views(list@)[i as int] == s@);
            return true;
        }
        i = i + 1;
    }
    false
}

/// The strings of a list from place `from` on.
pub fn tail(list: &Vec<String>, from: usize) -> (r: Vec<String>)
    requires
        from <= list@.len(),
    ensures
        views(r@) == views(list@).skip(from as int),
{
    let mut out: Vec<String> = Vec::new();
    let mut i: usize = from;
    while i < list.len()
        invariant
            from <= i <= list@.len(),
            out@.len() == i - from,
            forall|j: int| 0 <= j < out@.len() ==> (#[trigger] out@[j])@ == list@[from + j]@,
        decreases list@.len() - i,
    {
        out.push(list[i].clone());
        i = i + 1;
    }
    assert(views(out@) =~= views(list@).skip(from as int));
    out
}

/// A list of its own with the same strings.
pub fn copy_all(list: &Vec<String>) -> (r: Vec<String>)
    ensures
        views(r@) == views(list@),
{
    assert(views(list@).skip(0) =~= views(list@));
    tail(list, 0)
}

// --- characters ------------------------------------------------------------
/// The Unicode `White_Space` property, which is what `char::is_whitespace`
/// answers.
pub open spec fn is_white(c: char) -> bool {
    let n = c as u32;
    ||| 0x09 <= n <= 0x0d
    ||| n == 0x20
    ||| n == 0x85
    ||| n == 0xa0
    ||| n == 0x1680
    ||| 0x2000 <= n <= 0x200a
    ||| n == 0x2028
    ||| n == 0x2029
    ||| n == 0x202f
    ||| n == 0x205f
    ||| n == 0x3000
}

pub fn is_whitespace(c: char) -> (r: bool)
    ensures
        r == is_white(c),
{
    let n: u32 = c as u32;
    (0x09 <= n && n <= 0x0d) || n == 0x20 || n == 0x85 || n == 0xa0 || n == 0x1680 || (0x2000 <= n
        && n <= 0x200a) || n == 0x2028 || n == 0x2029 || n == 0x202f || n == 0x205f || n == 0x3000
}

pub open spec fn is_digit(c: char) -> bool {
    '0' as u32 <= c as u32 <= '9' as u32
}

pub open spec fn is_ascii_alnum(c: char) -> bool {
    ||| is_digit(c)
    ||| 'a' as u32 <= c as u32 <= 'z' as u32
    ||| 'A' as u32 <= c as u32 <= 'Z' as u32
}

pub fn ascii_digit(c: char) -> (r: bool)
    ensures
        r == is_digit(c),
{
    let n: u32 = c as u32;
    0x30 <= n && n <= 0x39
}

pub fn ascii_alphanumeric(c: char) -> (r: bool)
    ensures
        r == is_ascii_alnum(c),
{
    let n: u32 = c as u32;
    (0x30 <= n && n <= 0x39) || (0x61 <= n && n <= 0x7a) || (0x41 <= n && n <= 0x5a)
}

pub fn within(set: &Vec<char>, c: char) -> (r: bool)
    ensures
        r == set@.contains(c),
{
    let mut i: usize = 0;
    while i < set.len()
        invariant
            i <= set@.len(),
            forall|j: int| 0 <= j < i ==> set@[j] != c,
        decreases set@.len() - i,
    {
        if set[i] == c {
            return true;
        }
        i = i + 1;
    }
    false
}

// --- trimming --------------------------------------------------------------
pub open spec fn white() -> spec_fn(char) -> bool {
    |c: char| is_white(c)
}

pub open spec fn one_of(set: Seq<char>) -> spec_fn(char) -> bool {
    |c: char| set.contains(c)
}

/// `s` without the characters at its start that satisfy `f`.
pub open spec fn drop_start(s: Seq<char>, f: spec_fn(char) -> bool) -> Seq<char>
    decreases s.len(),
{
    if s.len() > 0 && f(s[0]) {
        drop_start(s.skip(1), f)
    } else {
        s
    }
}

/// `s` without the characters at its end that satisfy `f`.
pub open spec fn drop_end(s: Seq<char>, f: spec_fn(char) -> bool) -> Seq<char>
    decreases s.len(),
{
    if s.len() > 0 && f(s.last()) {
        drop_end(s.drop_last(), f)
    } else {
        s
    }
}

pub open spec fn trimmed_start(s: Seq<char>) -> Seq<char> {
    drop_start(s, white())
}

pub open spec fn trimmed_end(s: Seq<char>) -> Seq<char> {
    drop_end(s, white())
}

pub open spec fn trimmed(s: Seq<char>) -> Seq<char> {
    trimmed_end(trimmed_start(s))
}

/// What is left after trimming is a stretch of what was there.
pub proof fn lemma_drop_start(s: Seq<char>, f: spec_fn(char) -> bool)
    ensures
        drop_start(s, f).len() <= s.len(),
        drop_start(s, f) == s.skip(s.len() - drop_start(s, f).len()),
        drop_start(s, f).len() > 0 ==> !f(drop_start(s, f)[0]),
    decreases s.len(),
{
    if s.len() > 0 && f(s[0]) {
        lemma_drop_start(s.skip(1), f);
        assert(s.skip(1).skip(s.len() - 1 - drop_start(s, f).len()) =~= s.skip(
            s.len() - drop_start(s, f).len(),
        ));
    } else {
        assert(s.skip(0) =~= s);
    }
}

pub proof fn lemma_drop_end(s: Seq<char>, f: spec_fn(char) -> bool)
    ensures
        drop_end(s, f).len() <= s.len(),
        drop_end(s, f) == s.take(drop_end(s, f).len() as int),
        drop_end(s, f).len() > 0 ==> !f(drop_end(s, f).last()),
    decreases s.len(),
{
    if s.len() > 0 && f(s.last()) {
        lemma_drop_end(s.drop_last(), f);
        assert(s.drop_last().take(drop_end(s, f).len() as int) =~= s.take(
            drop_end(s, f).len() as int,
        ));
    } else {
        assert(s.take(s.len() as int) =~= s);
    }
}

fn start_after_white(v: &Vec<char>) -> (r: usize)
    ensures
        r <= v@.len(),
        v@.skip(r as int) == trimmed_start(v@),
{
    let mut i: usize = 0;
    assert(v@.skip(0) =~= v@);
    while i < v.len() && is_whitespace(v[i])
        invariant
            i <= v@.len(),
            trimmed_start(v@.skip(i as int)) == trimmed_start(v@),
        decreases v@.len() - i,
    {
        assert(v@.skip(i as int).skip(1) =~= v@.skip(i + 1));
        i = i + 1;
    }
    i
}

fn end_before_white(v: &Vec<char>) -> (r: usize)
    ensures
        r <= v@.len(),
        v@.take(r as int) == trimmed_end(v@),
{
    let mut i: usize = v.len();
    assert(v@.take(i as int) =~= v@);
    while i > 0 && is_whitespace(v[i - 1])
        invariant
            i <= v@.len(),
            trimmed_end(v@.take(i as int)) == trimmed_end(v@),
        decreases i,
    {
        assert(v@.take(i as int).drop_last() =~= v@.take(i - 1));
        i = i - 1;
    }
    i
}

pub fn trim_start(s: &str) -> (r: String)
    ensures
        r@ == trimmed_start(s@),
{
    let v = chars_of(s);
    let i: usize = start_after_white(&v);
    assert(v@.subrange(i as int, v@.len() as int) =~= v@.skip(i as int));
    slice(&v, i, v.len())
}

pub fn trim_end(s: &str) -> (r: String)
    ensures
        r@ == trimmed_end(s@),
{
    let v = chars_of(s);
    let i: usize = end_before_white(&v);
    assert(v@.subrange(0, i as int) =~= v@.take(i as int));
    slice(&v, 0, i)
}

pub fn trim(s: &str) -> (r: String)
    ensures
        r@ == trimmed(s@),
{
    let t = trim_start(s);
    trim_end(t.as_str())
}

/// `s` without the characters of `set` at its start.
pub fn trim_start_of(s: &str, set: &Vec<char>) -> (r: String)
    ensures
        r@ == drop_start(s@, one_of(set@)),
{
    let v = chars_of(s);
    let mut i: usize = 0;
    assert(v@.skip(0) =~= v@);
    while i < v.len() && within(set, v[i])
        invariant
            i <= v@.len(),
            drop_start(v@.skip(i as int), one_of(set@)) == drop_start(v@, one_of(set@)),
        decreases v@.len() - i,
    {
        assert(v@.skip(i as int).skip(1) =~= v@.skip(i + 1));
        i = i + 1;
    }
    assert(v@.subrange(i as int, v@.len() as int) =~= v@.skip(i as int));
    slice(&v, i, v.len())
}

/// `s` without the characters of `set` at its end.
pub fn trim_end_of(s: &str, set: &Vec<char>) -> (r: String)
    ensures
        r@ == drop_end(s@, one_of(set@)),
{
    let v = chars_of(s);
    let mut i: usize = v.len();
    assert(v@.take(i as int) =~= v@);
    while i > 0 && within(set, v[i - 1])
        invariant
            i <= v@.len(),
            drop_end(v@.take(i as int), one_of(set@)) == drop_end(v@, one_of(set@)),
        decreases i,
    {
        assert(v@.take(i as int).drop_last() =~= v@.take(i - 1));
        i = i - 1;
    }
    assert(v@.subrange(0, i as int) =~= v@.take(i as int));
    slice(&v, 0, i)
}

/// `s` without the characters of `set` at either end.
pub fn trim_of(s: &str, set: &Vec<char>) -> (r: String)
    ensures
        r@ == drop_end(drop_start(s@, one_of(set@)), one_of(set@)),
{
    let t = trim_start_of(s, set);
    trim_end_of(t.as_str(), set)
}

// --- searching -------------------------------------------------------------
pub open spec fn begins(s: Seq<char>, p: Seq<char>) -> bool {
    p.len() <= s.len() && s.take(p.len() as int) == p
}

pub open spec fn finishes(s: Seq<char>, p: Seq<char>) -> bool {
    p.len() <= s.len() && s.skip(s.len() - p.len()) == p
}

/// The first place at which `p` occurs in `s`.
pub open spec fn find_spec(s: Seq<char>, p: Seq<char>) -> Option<int>
    decreases s.len(),
{
    if begins(s, p) {
        Some(0)
    } else if s.len() == 0 {
        None
    } else {
        match find_spec(s.skip(1), p) {
            Some(i) => Some(i + 1),
            None => None,
        }
    }
}

pub open spec fn has(s: Seq<char>, p: Seq<char>) -> bool {
    find_spec(s, p) is Some
}

/// A place that was found is one where the text occurs, and it is the first.
pub proof fn lemma_find(s: Seq<char>, p: Seq<char>)
    ensures
        find_spec(s, p) matches Some(i) ==> 0 <= i && i + p.len() <= s.len() && begins(s.skip(i), p),
        forall|j: int|
            0 <= j <= s.len() && #[trigger] begins(s.skip(j), p) ==> (find_spec(s, p) matches Some(
                i,
            ) && i <= j),
    decreases s.len(),
{
    assert(s.skip(0) =~= s);
    if begins(s, p) {
    } else if s.len() == 0 {
        assert forall|j: int| 0 <= j <= s.len() && #[trigger] begins(s.skip(j), p) implies false by {
            assert(s.skip(j) =~= s);
        }
    } else {
        lemma_find(s.skip(1), p);
        match find_spec(s.skip(1), p) {
            Some(i) => {
                assert(s.skip(1).skip(i) =~= s.skip(i + 1));
            },
            None => {},
        }
        assert forall|j: int| 0 <= j <= s.len() && #[trigger] begins(s.skip(j), p) implies (
        find_spec(s, p) matches Some(i) && i <= j) by {
            if j > 0 {
                assert(s.skip(1).skip(j - 1) =~= s.skip(j));
            }
        }
    }
}

fn occurs_at(v: &Vec<char>, p: &Vec<char>, at: usize) -> (r: bool)
    requires
        at <= v@.len(),
    ensures
        r == begins(v@.skip(at as int), p@),
{
    if p.len() > v.len() - at {
        return false;
    }
    let mut i: usize = 0;
    while i < p.len()
        invariant
            i <= p@.len(),
            at + p@.len() <= v@.len() <= usize::MAX,
            forall|j: int| 0 <= j < i ==> v@[at + j] == p@[j],
        decreases p@.len() - i,
    {
        if v[at + i] != p[i] {
            assert(v@.skip(at as int).take(p@.len() as int)[i as int] != p@[i as int]);
            return false;
        }
        i = i + 1;
    }
    assert(v@.skip(at as int).take(p@.len() as int) =~= p@);
    true
}

pub fn starts_with(s: &str, p: &str) -> (r: bool)
    ensures
        r == begins(s@, p@),
{
    let v = chars_of(s);
    let w = chars_of(p);
    assert(v@.skip(0) =~= v@);
    occurs_at(&v, &w, 0)
}

/// What follows a beginning.
pub open spec fn behind(s: Seq<char>, p: Seq<char>) -> Option<Seq<char>> {
    if begins(s, p) {
        Some(s.skip(p.len() as int))
    } else {
        None
    }
}

pub fn strip_prefix(s: &str, p: &str) -> (r: Option<String>)
    ensures
        opt_view(r) == behind(s@, p@),
{
    if !starts_with(s, p) {
        return None;
    }
    let v = chars_of(s);
    let w = chars_of(p);
    assert(s@.subrange(p@.len() as int, s@.len() as int) =~= s@.skip(p@.len() as int));
    Some(slice(&v, w.len(), v.len()))
}

pub fn ends_with(s: &str, p: &str) -> (r: bool)
    ensures
        r == finishes(s@, p@),
{
    let v = chars_of(s);
    let w = chars_of(p);
    if w.len() > v.len() {
        return false;
    }
    let at: usize = v.len() - w.len();
    assert(v@.skip(at as int).take(w@.len() as int) =~= v@.skip(at as int));
    occurs_at(&v, &w, at)
}

/// The first place at which `p` occurs in `s`, counted in characters.
pub fn find(s: &str, p: &str) -> (r: Option<usize>)
    ensures
        r matches Some(i) ==> find_spec(s@, p@) == Some(i as int),
        r is None ==> find_spec(s@, p@) is None,
{
    let v = chars_of(s);
    let w = chars_of(p);
    let mut i: usize = 0;
    assert(v@.skip(0) =~= v@);
    loop
        invariant
            v@ == s@,
            w@ == p@,
            i <= v@.len(),
            match find_spec(v@.skip(i as int), w@) {
                Some(k) => find_spec(s@, p@) == Some(k + i),
                None => find_spec(s@, p@) is None,
            },
        decreases v@.len() - i,
    {
        if occurs_at(&v, &w, i) {
            return Some(i);
        }
        if i == v.len() {
            return None;
        }
        assert(v@.skip(i as int).skip(1) =~= v@.skip(i + 1));
        i = i + 1;
    }
}

pub fn contains(s: &str, p: &str) -> (r: bool)
    ensures
        r == has(s@, p@),
{
    find(s, p).is_some()
}

/// The place of the first `c` in `s`, or the length of `s`.
pub open spec fn position(s: Seq<char>, c: char) -> int
    decreases s.len(),
{
    if s.len() == 0 || s[0] == c {
        0
    } else {
        1 + position(s.skip(1), c)
    }
}

pub proof fn lemma_position(s: Seq<char>, c: char)
    ensures
        0 <= position(s, c) <= s.len(),
        position(s, c) < s.len() ==> s[position(s, c)] == c,
        forall|j: int| 0 <= j < position(s, c) ==> s[j] != c,
    decreases s.len(),
{
    if s.len() > 0 && s[0] != c {
        lemma_position(s.skip(1), c);
        assert forall|j: int| 0 <= j < position(s, c) implies s[j] != c by {
            if j > 0 {
                assert(s.skip(1)[j - 1] == s[j]);
            }
        }
    }
}

pub fn index_of(v: &Vec<char>, from: usize, c: char) -> (r: usize)
    requires
        from <= v@.len(),
    ensures
        from <= r <= v@.len(),
        r - from == position(v@.skip(from as int), c),
{
    let mut i: usize = from;
    while i < v.len() && v[i] != c
        invariant
            from <= i <= v@.len(),
            position(v@.skip(from as int), c) == i - from + position(v@.skip(i as int), c),
        decreases v@.len() - i,
    {
        assert(v@.skip(i as int).skip(1) =~= v@.skip(i + 1));
        i = i + 1;
    }
    i
}

/// The place just behind the last character of `s` that is in `set`, or 0.
pub open spec fn behind_last(s: Seq<char>, set: Seq<char>) -> int
    decreases s.len(),
{
    if s.len() == 0 {
        0
    } else if set.contains(s.last()) {
        s.len() as int
    } else {
        behind_last(s.drop_last(), set)
    }
}

pub proof fn lemma_behind_last(s: Seq<char>, set: Seq<char>)
    ensures
        0 <= behind_last(s, set) <= s.len(),
        behind_last(s, set) > 0 ==> set.contains(s[behind_last(s, set) - 1]),
        forall|j: int| behind_last(s, set) <= j < s.len() ==> !set.contains(#[trigger] s[j]),
    decreases s.len(),
{
    if s.len() > 0 && !set.contains(s.last()) {
        lemma_behind_last(s.drop_last(), set);
        assert forall|j: int| behind_last(s, set) <= j < s.len() implies !set.contains(
            #[trigger] s[j],
        ) by {
            if j < s.len() - 1 {
                assert(s.drop_last()[j] == s[j]);
            }
        }
    }
}

pub fn index_behind_last(v: &Vec<char>, set: &Vec<char>) -> (r: usize)
    ensures
        r <= v@.len(),
        r == behind_last(v@, set@),
{
    let mut i: usize = v.len();
    assert(v@.take(i as int) =~= v@);
    while i > 0 && !within(set, v[i - 1])
        invariant
            i <= v@.len(),
            behind_last(v@, set@) == behind_last(v@.take(i as int), set@),
        decreases i,
    {
        assert(v@.take(i as int).drop_last() =~= v@.take(i - 1));
        i = i - 1;
    }
    i
}

/// How many characters of `s` are in `set`.
pub open spec fn count_of(s: Seq<char>, set: Seq<char>) -> nat
    decreases s.len(),
{
    if s.len() == 0 {
        0
    } else {
        count_of(s.drop_last(), set) + (if set.contains(s.last()) {
            1nat
        } else {
            0nat
        })
    }
}

pub fn count(s: &str, set: &Vec<char>) -> (r: usize)
    ensures
        r == count_of(s@, set@),
{
    let v = chars_of(s);
    let mut n: usize = 0;
    let mut i: usize = 0;
    while i < v.len()
        invariant
            v@ == s@,
            n <= i <= v@.len(),
            n == count_of(v@.take(i as int), set@),
        decreases v@.len() - i,
    {
        assert(v@.take(i + 1).drop_last() =~= v@.take(i as int));
        if within(set, v[i]) {
            n = n + 1;
        }
        i = i + 1;
    }
    assert(v@.take(i as int) =~= s@);
    n
}

// --- splitting -------------------------------------------------------------
/// The pieces of `s` between the occurrences of `c`; always at least one.
pub open spec fn split_spec(s: Seq<char>, c: char) -> Seq<Seq<char>>
    decreases s.len(),
{
    proof {
        lemma_position(s, c);
    }
    let n = position(s, c);
    if n < s.len() {
        seq![s.take(n)] + split_spec(s.skip(n + 1), c)
    } else {
        seq![s]
    }
}

/// `s` without one carriage return at its end.
pub open spec fn chomped(s: Seq<char>) -> Seq<char> {
    if s.len() > 0 && s.last() == '\r' {
        s.drop_last()
    } else {
        s
    }
}

/// The lines of `s`, as `str::lines` yields them: a line ends at a line feed,
/// which takes a carriage return right before it along, and a last line
/// without a line feed is a line if there is anything in it.
pub open spec fn lines_spec(s: Seq<char>) -> Seq<Seq<char>>
    decreases s.len(),
{
    proof {
        lemma_position(s, '\n');
    }
    let n = position(s, '\n');
    if s.len() == 0 {
        seq![]
    } else if n < s.len() {
        seq![chomped(s.take(n))] + lines_spec(s.skip(n + 1))
    } else {
        seq![s]
    }
}

/// How many characters of `s` come before its first white one.
pub open spec fn word_len(s: Seq<char>) -> int
    decreases s.len(),
{
    if s.len() == 0 || is_white(s[0]) {
        0
    } else {
        1 + word_len(s.skip(1))
    }
}

pub proof fn lemma_word_len(s: Seq<char>)
    ensures
        0 <= word_len(s) <= s.len(),
        word_len(s) < s.len() ==> is_white(s[word_len(s)]),
        forall|j: int| 0 <= j < word_len(s) ==> !is_white(s[j]),
    decreases s.len(),
{
    if s.len() > 0 && !is_white(s[0]) {
        lemma_word_len(s.skip(1));
        assert forall|j: int| 0 <= j < word_len(s) implies !is_white(s[j]) by {
            if j > 0 {
                assert(s.skip(1)[j - 1] == s[j]);
            }
        }
    }
}

/// The words of `s`: its longest stretches without white space, in order.
pub open spec fn words_spec(s: Seq<char>) -> Seq<Seq<char>>
    decreases s.len(),
{
    proof {
        lemma_drop_start(s, white());
        lemma_word_len(trimmed_start(s));
    }
    let t = trimmed_start(s);
    if t.len() == 0 {
        seq![]
    } else {
        let n = word_len(t);
        seq![t.take(n)] + words_spec(t.skip(n))
    }
}

proof fn lemma_views_push(v: Seq<String>, s: String)
    ensures
        views(v.push(s)) == views(v).push(s@),
{
    assert(views(v.push(s)) =~= views(v).push(s@));
}

pub fn split(s: &str, c: char) -> (r: Vec<String>)
    ensures
        views(r@) == split_spec(s@, c),
{
    let v = chars_of(s);
    let mut out: Vec<String> = Vec::new();
    let mut from: usize = 0;
    assert(v@.skip(0) =~= v@);
    assert(views(out@) + split_spec(v@, c) =~= split_spec(v@, c));
    loop
        invariant
            v@ == s@,
            from <= v@.len(),
            views(out@) + split_spec(v@.skip(from as int), c) == split_spec(s@, c),
        decreases v@.len() - from,
    {
        let to: usize = index_of(&v, from, c);
        let ghost rest = v@.skip(from as int);
        let ghost before = out@;
        let piece = slice(&v, from, to);
        proof {
            assert(piece@ =~= rest.take(to - from));
            lemma_views_push(out@, piece);
        }
        out.push(piece);
        if to == v.len() {
            assert(piece@ =~= rest);
            assert(views(out@) =~= views(before) + split_spec(rest, c));
            return out;
        }
        assert(rest.skip(to - from + 1) =~= v@.skip(to + 1));
        from = to + 1;
        assert(views(before) + (seq![piece@] + split_spec(v@.skip(from as int), c)) =~= views(out@)
            + split_spec(v@.skip(from as int), c));
    }
}

pub fn lines(s: &str) -> (r: Vec<String>)
    ensures
        views(r@) == lines_spec(s@),
{
    let v = chars_of(s);
    let mut out: Vec<String> = Vec::new();
    let mut from: usize = 0;
    assert(v@.skip(0) =~= v@);
    assert(views(out@) + lines_spec(v@) =~= lines_spec(v@));
    while from < v.len()
        invariant
            v@ == s@,
            from <= v@.len(),
            views(out@) + lines_spec(v@.skip(from as int)) == lines_spec(s@),
        decreases v@.len() - from,
    {
        let to: usize = index_of(&v, from, '\n');
        let ghost rest = v@.skip(from as int);
        let ghost before = out@;
        if to == v.len() {
            let piece = slice(&v, from, to);
            proof {
                assert(piece@ =~= rest);
                lemma_views_push(out@, piece);
            }
            out.push(piece);
            assert(views(out@) =~= views(before) + lines_spec(rest));
            return out;
        }
        let end: usize = if to > from && v[to - 1] == '\r' {
            to - 1
        } else {
            to
        };
        let piece = slice(&v, from, end);
        proof {
            assert(rest.take(to - from) =~= v@.subrange(from as int, to as int));
            assert(piece@ =~= chomped(rest.take(to - from)));
            lemma_views_push(out@, piece);
        }
        out.push(piece);
        assert(rest.skip(to - from + 1) =~= v@.skip(to + 1));
        from = to + 1;
        assert(views(before) + (seq![piece@] + lines_spec(v@.skip(from as int))) =~= views(out@)
            + lines_spec(v@.skip(from as int)));
    }
    assert(v@.skip(from as int) =~= seq![]);
    assert(views(out@) + lines_spec(v@.skip(from as int)) =~= views(out@));
    out
}

pub fn words(s: &str) -> (r: Vec<String>)
    ensures
        views(r@) == words_spec(s@),
{
    let v = chars_of(s);
    let mut out: Vec<String> = Vec::new();
    let mut from: usize = 0;
    assert(v@.skip(0) =~= v@);
    assert(views(out@) + words_spec(v@) =~= words_spec(v@));
    loop
        invariant
            v@ == s@,
            from <= v@.len(),
            views(out@) + words_spec(v@.skip(from as int)) == words_spec(s@),
        decreases v@.len() - from,
    {
        let ghost rest = v@.skip(from as int);
        let ghost before = out@;
        let mut start: usize = from;
        while start < v.len() && is_whitespace(v[start])
            invariant
                from <= start <= v@.len(),
                rest == v@.skip(from as int),
                trimmed_start(rest) == trimmed_start(v@.skip(start as int)),
            decreases v@.len() - start,
        {
            assert(v@.skip(start as int).skip(1) =~= v@.skip(start + 1));
            start = start + 1;
        }
        let ghost t = v@.skip(start as int);
        if start == v.len() {
            assert(views(out@) + words_spec(rest) =~= views(out@));
            return out;
        }
        let mut to: usize = start;
        while to < v.len() && !is_whitespace(v[to])
            invariant
                start <= to <= v@.len(),
                t == v@.skip(start as int),
                word_len(t) == to - start + word_len(v@.skip(to as int)),
            decreases v@.len() - to,
        {
            assert(v@.skip(to as int).skip(1) =~= v@.skip(to + 1));
            to = to + 1;
        }
        let piece = slice(&v, start, to);
        proof {
            assert(piece@ =~= t.take(to - start));
            lemma_views_push(out@, piece);
            assert(t.skip(to - start) =~= v@.skip(to as int));
        }
        out.push(piece);
        from = to;
        assert(views(before) + (seq![piece@] + words_spec(v@.skip(from as int))) =~= views(out@)
            + words_spec(v@.skip(from as int)));
    }
}

/// The strings with `sep` between them.
pub open spec fn joined(parts: Seq<Seq<char>>, sep: char) -> Seq<char>
    decreases parts.len(),
{
    if parts.len() == 0 {
        seq![]
    } else if parts.len() == 1 {
        parts[0]
    } else {
        joined(parts.drop_last(), sep).push(sep) + parts.last()
    }
}

pub fn join(parts: &Vec<String>, sep: char) -> (r: String)
    ensures
        r@ == joined(views(parts@), sep),
{
    let ghost all = views(parts@);
    let mut out = String::new();
    let mut i: usize = 0;
    assert(all.take(0) =~= seq![]);
    assert(out@ =~= seq![]);
    while i < parts.len()
        invariant
            i <= parts@.len(),
            all == views(parts@),
            out@ == joined(all.take(i as int), sep),
        decreases parts@.len() - i,
    {
        assert(all.take(i + 1).drop_last() =~= all.take(i as int));
        assert(all.take(i + 1).last() == parts@[i as int]@);
        if i > 0 {
            out.push(sep);
        }
        out.append(parts[i].as_str());
        assert(out@ =~= joined(all.take(i + 1), sep));
        i = i + 1;
    }
    assert(all.take(i as int) =~= all);
    out
}

// --- letter case -----------------------------------------------------------
pub open spec fn is_ascii_text(s: Seq<char>) -> bool {
    forall|i: int| 0 <= i < s.len() ==> (#[trigger] s[i]) as u32 <= 0x7f
}

pub open spec fn ascii_lower(c: char) -> char {
    if 'A' as u32 <= c as u32 <= 'Z' as u32 {
        ((c as u32 + 32) as u32) as char
    } else {
        c
    }
}

pub open spec fn ascii_lowered(s: Seq<char>) -> Seq<char> {
    s.map_values(|c: char| ascii_lower(c))
}

/// What `str::to_lowercase` makes of a string that is not all ASCII: Unicode's
/// own lower case, which this library does not spell out.
pub uninterp spec fn unicode_lowered(s: Seq<char>) -> Seq<char>;

/// The lower case of a string.
pub open spec fn lowered(s: Seq<char>) -> Seq<char> {
    if is_ascii_text(s) {
        ascii_lowered(s)
    } else {
        unicode_lowered(s)
    }
}

/// `str::to_lowercase`. On ASCII text it lowers the ASCII letters and leaves
/// everything else, as `str::to_ascii_lowercase` documents by comparison; on
/// any other text its result is only named.
#[verifier::external_body]
pub(crate) fn lower(s: &str) -> (r: String)
    ensures
        is_ascii_text(s@) ==> r@ == ascii_lowered(s@),
        !is_ascii_text(s@) ==> r@ == unicode_lowered(s@),
{
    s.to_lowercase()
}

/// Whether `char::is_alphanumeric` holds of a character beyond ASCII.
pub uninterp spec fn unicode_alphanumeric(c: char) -> bool;

pub open spec fn is_alnum(c: char) -> bool {
    if c as u32 <= 0x7f {
        is_ascii_alnum(c)
    } else {
        unicode_alphanumeric(c)
    }
}

/// `char::is_alphanumeric`. Within ASCII these are the letters and the digits;
/// beyond it the answer is Unicode's, and only named.
pub assume_specification[ char::is_alphanumeric ](c: char) -> (r: bool)
    ensures
        c as u32 <= 0x7f ==> r == is_ascii_alnum(c),
        c as u32 > 0x7f ==> r == unicode_alphanumeric(c),
;

/// The lower case of one ASCII letter; any other character as it is.
pub fn to_ascii_lower(c: char) -> (r: char)
    ensures
        r == ascii_lower(c),
{
    let n: u32 = c as u32;
    if 0x41 <= n && n <= 0x5a {
        ((n as u8) + 32u8) as char
    } else {
        c
    }
}

/// `s` with its ASCII letters in lower case.
pub fn lower_ascii(s: &str) -> (r: String)
    ensures
        r@ == ascii_lowered(s@),
{
    let mut out = String::new();
    for c in it: s.chars()
        invariant
            it.seq() == s@,
            out@ == ascii_lowered(s@.take(it.index() as int)),
    {
        out.push(to_ascii_lower(c));
        assert(s@.take(it.index() + 1) =~= s@.take(it.index() as int).push(c));
        assert(ascii_lowered(s@.take(it.index() + 1)) =~= ascii_lowered(
            s@.take(it.index() as int),
        ).push(ascii_lower(c)));
    }
    assert(s@.take(s@.len() as int) =~= s@);
    out
}

// --- replacing -------------------------------------------------------------
pub open spec fn replaced(s: Seq<char>, from: char, to: char) -> Seq<char> {
    s.map_values(|c: char| if c == from { to } else { c })
}

/// `s` with every `from` turned into `to`.
pub fn replace_char(s: &str, from: char, to: char) -> (r: String)
    ensures
        r@ == replaced(s@, from, to),
{
    let mut out = String::new();
    for c in it: s.chars()
        invariant
            it.seq() == s@,
            out@ == replaced(s@.take(it.index() as int), from, to),
    {
        out.push(if c == from { to } else { c });
        assert(replaced(s@.take(it.index() + 1), from, to) =~= replaced(
            s@.take(it.index() as int),
            from,
            to,
        ).push(if c == from { to } else { c }));
    }
    assert(s@.take(s@.len() as int) =~= s@);
    out
}

/// `s` with every `p` in it, taken from the left, turned into `q`.
pub open spec fn swapped(s: Seq<char>, p: Seq<char>, q: Seq<char>) -> Seq<char>
    decreases s.len(),
{
    if p.len() == 0 {
        s
    } else {
        match find_spec(s, p) {
            Some(i) => if 0 <= i && i + p.len() <= s.len() {
                s.take(i) + q + swapped(s.skip(i + p.len()), p, q)
            } else {
                s
            },
            None => s,
        }
    }
}

/// `s` with every `p` turned into `q`; an empty `p` changes nothing.
pub fn replace_all(s: &str, p: &str, q: &str) -> (r: String)
    ensures
        r@ == swapped(s@, p@, q@),
{
    let w = chars_of(p);
    if w.len() == 0 {
        return s.to_owned();
    }
    let mut out = String::new();
    let mut rest = s.to_owned();
    assert(out@ + swapped(rest@, p@, q@) =~= swapped(s@, p@, q@));
    loop
        invariant
            w@ == p@,
            p@.len() > 0,
            out@ + swapped(rest@, p@, q@) == swapped(s@, p@, q@),
        ensures
            out@ + rest@ == swapped(s@, p@, q@),
        decreases rest@.len(),
    {
        proof {
            lemma_find(rest@, p@);
        }
        match find(rest.as_str(), p) {
            None => {
                break;
            },
            Some(i) => {
                let v = chars_of(rest.as_str());
                let head = slice(&v, 0, i);
                let next = slice(&v, i + w.len(), v.len());
                proof {
                    assert(head@ =~= rest@.take(i as int));
                    assert(next@ =~= rest@.skip(i + p@.len()));
                    assert(out@ + (head@ + q@ + swapped(next@, p@, q@)) =~= out@ + head@ + q@
                        + swapped(next@, p@, q@));
                }
                out = concat3(out.as_str(), head.as_str(), q);
                rest = next;
            },
        }
    }
    concat2(out.as_str(), rest.as_str())
}

/// Where a text is replaced by a single character that is not in it, none of it
/// is left.
pub proof fn what_is_replaced_is_gone(s: Seq<char>, p: Seq<char>, c: char)
    requires
        p.len() > 0,
        !p.contains(c),
    ensures
        has(swapped(s, p, seq![c]), p) == false,
    decreases s.len(),
{
    lemma_find(s, p);
    let out = swapped(s, p, seq![c]);
    match find_spec(s, p) {
        None => {},
        Some(i) => {
            let rest = s.skip(i + p.len());
            what_is_replaced_is_gone(rest, p, c);
            let tail = swapped(rest, p, seq![c]);
            lemma_find(out, p);
            lemma_find(tail, p);
            if has(out, p) {
                let j = find_spec(out, p)->0;
                let n = p.len() as int;
                assert(out.skip(j).take(n) == p);
                if j <= i < j + n {
                    assert(out.skip(j).take(n)[i - j] == c);
                    assert(p[i - j] == c);
                } else if j + n <= i {
                    assert(s.skip(j).take(n) =~= out.skip(j).take(n));
                    assert(begins(s.skip(j), p));
                } else {
                    let k = j - i - 1;
                    assert(tail.skip(k) =~= out.skip(j));
                    assert(begins(tail.skip(k), p));
                }
            }
        },
    }
}

/// Replacing puts in nothing but what replaces: a text that shares no character
/// with it and was not there before is not there afterwards.
pub proof fn replacing_adds_nothing(s: Seq<char>, p: Seq<char>, q: Seq<char>, h: Seq<char>)
    requires
        h.len() > 0,
        q.len() > 0,
        forall|i: int| 0 <= i < q.len() ==> !h.contains(#[trigger] q[i]),
        find_spec(s, h) is None,
    ensures
        find_spec(swapped(s, p, q), h) is None,
    decreases s.len(),
{
    lemma_find(s, p);
    lemma_find(s, h);
    let out = swapped(s, p, q);
    if p.len() > 0 {
        if let Some(i) = find_spec(s, p) {
            let rest = s.skip(i + p.len());
            lemma_find(rest, h);
            if let Some(k) = find_spec(rest, h) {
                let at = i + p.len() + k;
                assert(s.skip(at) =~= rest.skip(k));
                assert(begins(s.skip(at), h));
            }
            replacing_adds_nothing(rest, p, q, h);
            let tail = swapped(rest, p, q);
            lemma_find(out, h);
            lemma_find(tail, h);
            if let Some(j) = find_spec(out, h) {
                let n = h.len() as int;
                assert(out.skip(j).take(n) == h);
                if j + n <= i {
                    assert(s.skip(j).take(n) =~= out.skip(j).take(n));
                    assert(begins(s.skip(j), h));
                } else if j >= i + q.len() {
                    let k = j - i - q.len();
                    assert(tail.skip(k) =~= out.skip(j));
                    assert(begins(tail.skip(k), h));
                } else {
                    let m = if j > i {
                        j
                    } else {
                        i
                    };
                    assert(out[m] == q[m - i]);
                    assert(out.skip(j).take(n)[m - j] == q[m - i]);
                    assert(h.contains(q[m - i]));
                }
            }
        }
    }
}

/// Texts with a separator between them.
pub open spec fn listed(parts: Seq<Seq<char>>, sep: Seq<char>) -> Seq<char>
    decreases parts.len(),
{
    if parts.len() == 0 {
        seq![]
    } else if parts.len() == 1 {
        parts[0]
    } else {
        listed(parts.drop_last(), sep) + sep + parts.last()
    }
}

pub fn join_with(parts: &Vec<String>, sep: &str) -> (r: String)
    ensures
        r@ == listed(views(parts@), sep@),
{
    let ghost all = views(parts@);
    let mut out = String::new();
    let mut i: usize = 0;
    assert(all.take(0) =~= seq![]);
    assert(out@ =~= seq![]);
    while i < parts.len()
        invariant
            i <= parts@.len(),
            all == views(parts@),
            out@ == listed(all.take(i as int), sep@),
        decreases parts@.len() - i,
    {
        assert(all.take(i + 1).drop_last() =~= all.take(i as int));
        assert(all.take(i + 1).last() == parts@[i as int]@);
        if i == 0 {
            out = parts[i].as_str().to_owned();
        } else {
            out = concat3(out.as_str(), sep, parts[i].as_str());
        }
        i = i + 1;
    }
    assert(all.take(i as int) =~= all);
    out
}

// --- numbers ---------------------------------------------------------------
pub open spec fn digit(n: nat) -> char {
    (('0' as u32 + n) as u32) as char
}

/// A number in decimal digits.
pub open spec fn decimal_spec(n: nat) -> Seq<char>
    decreases n,
{
    if n < 10 {
        seq![digit(n)]
    } else {
        decimal_spec(n / 10).push(digit(n % 10))
    }
}

fn digit_char(n: u64) -> (r: char)
    requires
        n < 10,
    ensures
        r == digit(n as nat),
{
    (48u8 + (n as u8)) as char
}

pub fn decimal(n: u64) -> (r: String)
    ensures
        r@ == decimal_spec(n as nat),
    decreases n,
{
    if n < 10 {
        let mut out = String::new();
        out.push(digit_char(n));
        assert(out@ =~= decimal_spec(n as nat));
        out
    } else {
        let mut out = decimal(n / 10);
        out.push(digit_char(n % 10));
        out
    }
}

/// What a digit counts for.
pub open spec fn digit_value(c: char) -> nat {
    if is_digit(c) {
        (c as u32 - '0' as u32) as nat
    } else {
        0
    }
}

/// What a row of digits stands for.
pub open spec fn digits_value(s: Seq<char>) -> nat
    decreases s.len(),
{
    if s.len() == 0 {
        0
    } else {
        digits_value(s.drop_last()) * 10 + digit_value(s.last())
    }
}

pub open spec fn all_digits(s: Seq<char>) -> bool {
    forall|i: int| 0 <= i < s.len() ==> is_digit(#[trigger] s[i])
}

/// The number that decimal digits, perhaps behind a plus sign, stand for:
/// `None` where there is anything else, or nothing, or more than fits.
pub open spec fn number_spec(s: Seq<char>) -> Option<u64> {
    let digits = if s.len() > 0 && s[0] == '+' {
        s.skip(1)
    } else {
        s
    };
    if digits.len() > 0 && all_digits(digits) && digits_value(digits) <= u64::MAX {
        Some(digits_value(digits) as u64)
    } else {
        None
    }
}

proof fn lemma_digits_grow(s: Seq<char>, n: int)
    requires
        0 <= n <= s.len(),
    ensures
        digits_value(s.take(n)) <= digits_value(s),
    decreases s.len(),
{
    if n < s.len() {
        lemma_digits_grow(s.drop_last(), n);
        assert(s.drop_last().take(n) =~= s.take(n));
    } else {
        assert(s.take(n) =~= s);
    }
}

pub fn number(s: &str) -> (r: Option<u64>)
    ensures
        r == number_spec(s@),
{
    let v = chars_of(s);
    let start: usize = if v.len() > 0 && v[0] == '+' {
        1
    } else {
        0
    };
    let ghost digits = s@.skip(start as int);
    assert(s@.skip(0) =~= s@);
    if start == v.len() {
        return None;
    }
    let mut total: u64 = 0;
    let mut i: usize = start;
    assert(digits.take(0) =~= seq![]);
    while i < v.len()
        invariant
            start <= i <= v@.len(),
            v@ == s@,
            start == (if s@.len() > 0 && s@[0] == '+' {
                1int
            } else {
                0int
            }),
            digits == s@.skip(start as int),
            start == 0 ==> digits == s@,
            digits.len() > 0,
            total == digits_value(digits.take(i - start)),
            forall|j: int| 0 <= j < i - start ==> is_digit(#[trigger] digits[j]),
        decreases v@.len() - i,
    {
        let c = v[i];
        assert(digits[i - start] == c);
        if !ascii_digit(c) {
            return None;
        }
        let n: u64 = (code_point(c) - 48) as u64;
        proof {
            let longer = digits.take(i - start + 1);
            assert(longer.drop_last() =~= digits.take(i - start));
            assert(longer.last() == c);
            assert(digits_value(longer) == total * 10 + n);
            lemma_digits_grow(digits, i - start + 1);
        }
        if total > (u64::MAX - n) / 10 {
            return None;
        }
        total = total * 10 + n;
        i = i + 1;
    }
    assert(digits.take(i - start) =~= digits);
    Some(total)
}

/// What is written in decimal is read back.
pub proof fn decimals_are_read_back(n: u64)
    ensures
        number_spec(decimal_spec(n as nat)) == Some(n),
{
    lemma_decimal(n as nat);
    let s = decimal_spec(n as nat);
    assert(is_digit(s[0]));
}

pub proof fn lemma_decimal(n: nat)
    ensures
        decimal_spec(n).len() > 0,
        all_digits(decimal_spec(n)),
        digits_value(decimal_spec(n)) == n,
    decreases n,
{
    let s = decimal_spec(n);
    if n < 10 {
        reveal_with_fuel(digits_value, 2);
        assert(s.drop_last() =~= seq![]);
    } else {
        lemma_decimal(n / 10);
        assert(s.drop_last() =~= decimal_spec(n / 10));
    }
}

// --- order -----------------------------------------------------------------
/// Whether `a` comes before `b` in the order of strings: character by
/// character, a prefix first.
pub open spec fn precedes(a: Seq<char>, b: Seq<char>) -> bool
    decreases a.len(),
{
    if b.len() == 0 {
        false
    } else if a.len() == 0 {
        true
    } else if a[0] != b[0] {
        (a[0] as int) < (b[0] as int)
    } else {
        precedes(a.skip(1), b.skip(1))
    }
}

/// Of two different strings one comes first, and only one.
pub proof fn lemma_order(a: Seq<char>, b: Seq<char>)
    ensures
        !(precedes(a, b) && precedes(b, a)),
        precedes(a, b) || precedes(b, a) || a == b,
        !precedes(a, a),
    decreases a.len(),
{
    if a.len() > 0 {
        lemma_order(a.skip(1), a.skip(1));
    }
    if a.len() > 0 && b.len() > 0 && a[0] == b[0] {
        lemma_order(a.skip(1), b.skip(1));
        if a.skip(1) == b.skip(1) {
            assert(a =~= seq![a[0]] + a.skip(1));
            assert(b =~= seq![b[0]] + b.skip(1));
        }
    } else if a.len() == 0 && b.len() == 0 {
        assert(a =~= b);
    } else if a.len() > 0 && b.len() > 0 {
        assert(a[0] as int != b[0] as int);
    }
}

pub proof fn lemma_order_chain(a: Seq<char>, b: Seq<char>, c: Seq<char>)
    requires
        precedes(a, b),
        precedes(b, c),
    ensures
        precedes(a, c),
    decreases a.len(),
{
    if a.len() > 0 && a[0] == b[0] && b[0] == c[0] {
        lemma_order_chain(a.skip(1), b.skip(1), c.skip(1));
    }
}

fn code_point(c: char) -> (r: u32)
    ensures
        r as int == c as int,
{
    c as u32
}

pub fn comes_before(a: &str, b: &str) -> (r: bool)
    ensures
        r == precedes(a@, b@),
{
    let v = chars_of(a);
    let w = chars_of(b);
    let mut i: usize = 0;
    assert(v@.skip(0) =~= v@);
    assert(w@.skip(0) =~= w@);
    while i < v.len() && i < w.len() && v[i] == w[i]
        invariant
            i <= v@.len(),
            i <= w@.len(),
            precedes(a@, b@) == precedes(v@.skip(i as int), w@.skip(i as int)),
        decreases v@.len() - i,
    {
        assert(v@.skip(i as int).skip(1) =~= v@.skip(i + 1));
        assert(w@.skip(i as int).skip(1) =~= w@.skip(i + 1));
        i = i + 1;
    }
    if i == w.len() {
        false
    } else if i == v.len() {
        true
    } else {
        code_point(v[i]) < code_point(w[i])
    }
}

} // verus!
