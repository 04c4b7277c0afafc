//! One key to show the pet and hide it again.
//!
//! A global hotkey is exclusive across the whole machine: whoever asks first
//! owns the chord, and everybody else is told no. So the binding is a list
//! rather than a single value, and if the preferred chord is already spoken for
//! the next one is taken and reported. Silently failing would leave a key that
//! does nothing and no way to find out why.

use vstd::prelude::*;
use vstd::string::*;

use crate::strings;

verus! {

/// Whatever chord we ended up with, for the menus to display.
pub struct Binding {
    pub chord: String,
}

impl Default for Binding {
    fn default() -> (r: Binding)
        ensures
            r.chord@ == ""@,
    {
        Binding { chord: "".to_owned() }
    }
}

// --- keys --------------------------------------------------------------------
/// The virtual key code of a key that is named by a word.
pub open spec fn named_key(name: Seq<char>) -> Option<u32> {
    if name == "space"@ {
        Some(0x20u32)
    } else if name == "tab"@ {
        Some(0x09u32)
    } else if name == "escape"@ || name == "esc"@ {
        Some(0x1Bu32)
    } else if name == "insert"@ {
        Some(0x2Du32)
    } else if name == "home"@ {
        Some(0x24u32)
    } else if name == "end"@ {
        Some(0x23u32)
    } else {
        None
    }
}

/// The number of a function key, 1 to 24.
pub open spec fn function_key(name: Seq<char>) -> Option<u64> {
    match strings::behind(name, "f"@) {
        Some(digits) => match strings::number_spec(digits) {
            Some(n) => if 1 <= n <= 24 {
                Some(n)
            } else {
                None
            },
            None => None,
        },
        None => None,
    }
}

/// The code point of a letter's upper case, or of a digit.
pub open spec fn letter_key(c: char) -> Option<u32> {
    if 'a' as u32 <= c as u32 <= 'z' as u32 {
        Some((c as u32 - 32) as u32)
    } else if strings::is_ascii_alnum(c) {
        Some(c as u32)
    } else {
        None
    }
}

/// The virtual key code of a key: F1 is 0x70, a letter or a digit is its own
/// upper case.
pub open spec fn key_code(name: Seq<char>) -> Option<u32> {
    match function_key(name) {
        Some(n) => Some((0x6F + n) as u32),
        None => if name.len() == 1 {
            letter_key(name[0])
        } else {
            named_key(name)
        },
    }
}

fn named(name: &str) -> (r: Option<u32>)
    ensures
        r == named_key(name@),
{
    if strings::same(name, "space") {
        Some(0x20)
    } else if strings::same(name, "tab") {
        Some(0x09)
    } else if strings::same(name, "escape") || strings::same(name, "esc") {
        Some(0x1B)
    } else if strings::same(name, "insert") {
        Some(0x2D)
    } else if strings::same(name, "home") {
        Some(0x24)
    } else if strings::same(name, "end") {
        Some(0x23)
    } else {
        None
    }
}

fn letter(c: char) -> (r: Option<u32>)
    ensures
        r == letter_key(c),
{
    if 'a' as u32 <= c as u32 && c as u32 <= 'z' as u32 {
        Some(c as u32 - 32)
    } else if strings::ascii_alphanumeric(c) {
        Some(c as u32)
    } else {
        None
    }
}

pub fn virtual_key(name: &str) -> (r: Option<u32>)
    ensures
        r == key_code(name@),
{
    if let Some(digits) = strings::strip_prefix(name, "f") {
        if let Some(n) = strings::number(digits.as_str()) {
            if 1 <= n && n <= 24 {
                return Some(0x6F + n as u32);
            }
        }
    }
    let v = strings::chars_of(name);
    if v.len() == 1 {
        letter(v[0])
    } else {
        named(name)
    }
}

// --- chords ------------------------------------------------------------------
/// What one part of a chord is.
pub enum Part {
    Blank,
    Control,
    Alt,
    Shift,
    Win,
    Key(u32),
    Unknown,
}

pub open spec fn part_of(name: Seq<char>) -> Part {
    if name.len() == 0 {
        Part::Blank
    } else if name == "ctrl"@ || name == "control"@ {
        Part::Control
    } else if name == "alt"@ {
        Part::Alt
    } else if name == "shift"@ {
        Part::Shift
    } else if name == "win"@ || name == "super"@ || name == "meta"@ || name == "cmd"@ {
        Part::Win
    } else {
        match key_code(name) {
            Some(code) => Part::Key(code),
            None => Part::Unknown,
        }
    }
}

fn classify(name: &str) -> (r: Part)
    ensures
        r == part_of(name@),
{
    if name.is_empty() {
        Part::Blank
    } else if strings::same(name, "ctrl") || strings::same(name, "control") {
        Part::Control
    } else if strings::same(name, "alt") {
        Part::Alt
    } else if strings::same(name, "shift") {
        Part::Shift
    } else if strings::same(name, "win") || strings::same(name, "super") || strings::same(
        name,
        "meta",
    ) || strings::same(name, "cmd") {
        Part::Win
    } else {
        match virtual_key(name) {
            Some(code) => Part::Key(code),
            None => Part::Unknown,
        }
    }
}

/// What a chord holds so far.
pub struct Chord {
    pub control: bool,
    pub alt: bool,
    pub shift: bool,
    pub win: bool,
    pub key: Option<u32>,
}

pub open spec fn empty_chord() -> Chord {
    Chord { control: false, alt: false, shift: false, win: false, key: None }
}

/// A chord with one more part. Two keys in one chord is not a thing that can be
/// registered, and an unknown part is not guessed at.
pub open spec fn extended(chord: Chord, part: Part) -> Option<Chord> {
    match part {
        Part::Blank => Some(chord),
        Part::Control => Some(Chord { control: true, ..chord }),
        Part::Alt => Some(Chord { alt: true, ..chord }),
        Part::Shift => Some(Chord { shift: true, ..chord }),
        Part::Win => Some(Chord { win: true, ..chord }),
        Part::Key(code) => if chord.key is Some {
            None
        } else {
            Some(Chord { key: Some(code), ..chord })
        },
        Part::Unknown => None,
    }
}

/// A part as it is matched: without white space around it, in lower case.
pub open spec fn part_name(part: Seq<char>) -> Seq<char> {
    strings::ascii_lowered(strings::trimmed(part))
}

pub open spec fn chord_of(parts: Seq<Seq<char>>) -> Option<Chord>
    decreases parts.len(),
{
    if parts.len() == 0 {
        Some(empty_chord())
    } else {
        match chord_of(parts.drop_last()) {
            Some(chord) => extended(chord, part_of(part_name(parts.last()))),
            None => None,
        }
    }
}

/// The modifier mask of a chord: that it does not repeat, which for a toggle
/// would mean the window strobes, and the keys to hold down.
pub open spec fn mask(chord: Chord) -> u32 {
    (0x4000 + (if chord.alt {
        1int
    } else {
        0
    }) + (if chord.control {
        2int
    } else {
        0
    }) + (if chord.shift {
        4int
    } else {
        0
    }) + (if chord.win {
        8int
    } else {
        0
    })) as u32
}

/// The mask and the key code of a chord. A bare key with no modifier would
/// swallow that key everywhere.
pub open spec fn parse_spec(spec: Seq<char>) -> Option<(u32, u32)> {
    match chord_of(strings::split_spec(spec, '+')) {
        Some(chord) => match chord.key {
            Some(key) => if chord.control || chord.alt || chord.shift || chord.win {
                Some((mask(chord), key))
            } else {
                None
            },
            None => None,
        },
        None => None,
    }
}

fn extend(chord: Chord, part: Part) -> (r: Option<Chord>)
    ensures
        r == extended(chord, part),
{
    match part {
        Part::Blank => Some(chord),
        Part::Control => Some(Chord { control: true, ..chord }),
        Part::Alt => Some(Chord { alt: true, ..chord }),
        Part::Shift => Some(Chord { shift: true, ..chord }),
        Part::Win => Some(Chord { win: true, ..chord }),
        Part::Key(code) => if chord.key.is_some() {
            None
        } else {
            Some(Chord { key: Some(code), ..chord })
        },
        Part::Unknown => None,
    }
}

fn mask_of(chord: &Chord) -> (r: u32)
    ensures
        r == mask(*chord),
{
    let alt: u32 = if chord.alt {
        1
    } else {
        0
    };
    let control: u32 = if chord.control {
        2
    } else {
        0
    };
    let shift: u32 = if chord.shift {
        4
    } else {
        0
    };
    let win: u32 = if chord.win {
        8
    } else {
        0
    };
    0x4000 + alt + control + shift + win
}

/// `Ctrl+Alt+P` into the modifier mask and virtual key code Windows wants.
///
/// Returns `None` for anything it does not recognise, so a hand-edited config
/// falls through to the defaults instead of registering something surprising.
pub fn parse(spec: &str) -> (r: Option<(u32, u32)>)
    ensures
        r == parse_spec(spec@),
{
    let parts = strings::split(spec, '+');
    let ghost all = strings::views(parts@);
    let mut chord = Chord { control: false, alt: false, shift: false, win: false, key: None };
    let mut i: usize = 0;
    assert(all.take(0) =~= seq![]);
    while i < parts.len()
        invariant
            i <= parts@.len(),
            all == strings::views(parts@),
            all == strings::split_spec(spec@, '+'),
            chord_of(all.take(i as int)) == Some(chord),
        decreases parts@.len() - i,
    {
        let ghost part = parts@[i as int]@;
        proof {
            assert(all.take(i + 1).drop_last() =~= all.take(i as int));
            assert(all.take(i + 1).last() == part);
        }
        let name = strings::lower_ascii(strings::trim(parts[i].as_str()).as_str());
        match extend(chord, classify(name.as_str())) {
            Some(next) => {
                chord = next;
            },
            None => {
                proof {
                    lemma_lost(all, i + 1);
                }
                return None;
            },
        }
        i = i + 1;
    }
    assert(all.take(i as int) =~= all);
    let held = chord.control || chord.alt || chord.shift || chord.win;
    match chord.key {
        Some(key) => if held {
            Some((mask_of(&chord), key))
        } else {
            None
        },
        None => None,
    }
}

proof fn lemma_lost(parts: Seq<Seq<char>>, n: int)
    requires
        0 <= n <= parts.len(),
        chord_of(parts.take(n)) is None,
    ensures
        chord_of(parts) is None,
    decreases parts.len(),
{
    if n < parts.len() {
        assert(parts.drop_last().take(n) =~= parts.take(n));
        lemma_lost(parts.drop_last(), n);
    } else {
        assert(parts.take(n) =~= parts);
    }
}

// --- which chords to try -------------------------------------------------------
/// Tried in order. `Ctrl+Alt+P` first because it is rarely claimed and easy to
/// hit one-handed; the rest are progressively more obscure so that a machine
/// with a busy keymap still ends up with something.
pub open spec fn fallbacks() -> Seq<Seq<char>> {
    seq!["Ctrl+Alt+P"@, "Ctrl+Alt+K"@, "Ctrl+Shift+F10"@, "Ctrl+Alt+F10"@]
}

/// Whether a setting says that there is to be no shortcut.
pub open spec fn turned_off(preferred: Seq<char>) -> bool {
    let t = strings::trimmed(preferred);
    t.len() == 0 || strings::ascii_lowered(t) == strings::ascii_lowered("off"@)
}

pub fn is_off(preferred: &str) -> (r: bool)
    ensures
        r == turned_off(preferred@),
{
    let t = strings::trim(preferred);
    let low = strings::lower_ascii(t.as_str());
    let off = strings::lower_ascii("off");
    t.as_str().is_empty() || strings::same(low.as_str(), off.as_str())
}

/// A list with a chord behind it, unless it is there already in some spelling.
pub open spec fn with_chord(list: Seq<Seq<char>>, chord: Seq<char>) -> Seq<Seq<char>> {
    if exists|i: int|
        0 <= i < list.len() && strings::ascii_lowered(#[trigger] list[i])
            == strings::ascii_lowered(chord) {
        list
    } else {
        list.push(chord)
    }
}

/// The chords to try, the preferred one first.
pub open spec fn candidates_spec(preferred: Seq<char>) -> Seq<Seq<char>> {
    with_chord(
        with_chord(
            with_chord(
                with_chord(seq![strings::trimmed(preferred)], fallbacks()[0]),
                fallbacks()[1],
            ),
            fallbacks()[2],
        ),
        fallbacks()[3],
    )
}

fn push_chord(list: &mut Vec<String>, chord: &str)
    ensures
        strings::views(final(list)@) == with_chord(strings::views(old(list)@), chord@),
{
    let ghost all = strings::views(list@);
    let low = strings::lower_ascii(chord);
    let mut i: usize = 0;
    while i < list.len()
        invariant
            i <= list@.len(),
            list@ == old(list)@,
            all == strings::views(list@),
            low@ == strings::ascii_lowered(chord@),
            forall|j: int|
                0 <= j < i ==> strings::ascii_lowered(#[trigger] all[j]) != low@,
        decreases list@.len() - i,
    {
        assert(all[i as int] == list@[i as int]@);
        let other = strings::lower_ascii(list[i].as_str());
        if strings::same(other.as_str(), low.as_str()) {
            return;
        }
        i = i + 1;
    }
    list.push(chord.to_owned());
    assert(strings::views(list@) =~= all.push(chord@));
}

pub fn candidates(preferred: &str) -> (r: Vec<String>)
    ensures
        strings::views(r@) == candidates_spec(preferred@),
{
    let mut out: Vec<String> = vec![strings::trim(preferred)];
    assert(strings::views(out@) =~= seq![strings::trimmed(preferred@)]);
    push_chord(&mut out, "Ctrl+Alt+P");
    push_chord(&mut out, "Ctrl+Alt+K");
    push_chord(&mut out, "Ctrl+Shift+F10");
    push_chord(&mut out, "Ctrl+Alt+F10");
    out
}

/// A chord with no modifier is never registered: it would take that key away
/// from every other program on the machine.
pub proof fn a_chord_holds_a_modifier(spec: Seq<char>)
    ensures
        parse_spec(spec) matches Some((modifiers, _)) ==> 0x4000 < modifiers <= 0x400F,
{
}

/// The preferred chord is always tried, and always first.
pub proof fn the_preferred_chord_comes_first(preferred: Seq<char>)
    ensures
        candidates_spec(preferred).len() > 0,
        candidates_spec(preferred)[0] == strings::trimmed(preferred),
{
}

} // verus!
