//! The overlay's own decisions: where the pet goes, which pets there are, when a
//! silent page is asked and when it is reloaded, and what a command means.

use vstd::prelude::*;
use vstd::string::*;

use crate::agent;
use crate::desktop;
use crate::json;
use crate::json::{Json, JsonView};
use crate::strings;

verus! {

// --- placement ---------------------------------------------------------------
/// A display: where it is, and the part of it that no taskbar covers.
#[derive(Clone, Copy)]
pub struct Display {
    pub x: i32,
    pub y: i32,
    pub width: u32,
    pub height: u32,
    pub area_x: i32,
    pub area_y: i32,
    pub area_width: u32,
    pub area_height: u32,
}

/// Whether a point is on a display.
pub open spec fn on_display(d: Display, x: int, y: int) -> bool {
    d.x <= x < d.x + d.width && d.y <= y < d.y + d.height
}

/// How far a point is from the middle of a display, squared.
pub open spec fn distance(d: Display, x: int, y: int) -> int {
    let dx = x - (d.x + d.width / 2);
    let dy = y - (d.y + d.height / 2);
    dx * dx + dy * dy
}

/// Whether a display is the one for a point: the first it is on, or where it is
/// on none the first that is nearest.
pub open spec fn is_home(displays: Seq<Display>, m: int, x: int, y: int) -> bool {
    &&& 0 <= m < displays.len()
    &&& if exists|k: int| 0 <= k < displays.len() && on_display(#[trigger] displays[k], x, y) {
        &&& on_display(displays[m], x, y)
        &&& forall|k: int| 0 <= k < m ==> !on_display(#[trigger] displays[k], x, y)
    } else {
        &&& forall|k: int|
            0 <= k < displays.len() ==> distance(displays[m], x, y) <= distance(
                #[trigger] displays[k],
                x,
                y,
            )
        &&& forall|k: int|
            0 <= k < m ==> distance(#[trigger] displays[k], x, y) > distance(displays[m], x, y)
    }
}

/// A position pulled back until a span of it sits inside an area. A window
/// larger than the area has no valid position; it is pinned to the start of the
/// area rather than inverting the range.
pub open spec fn pulled(at: int, start: int, length: int, size: int) -> int {
    let last = start + length - size;
    if at < start || last < start {
        start
    } else if at > last {
        last
    } else {
        at
    }
}

fn square(v: i64) -> (r: i128)
    requires
        -0x1_0000_0000_0000 <= v <= 0x1_0000_0000_0000,
    ensures
        r == v * v,
        0 <= r <= 0x1_0000_0000_0000 * 0x1_0000_0000_0000,
{
    let w: i128 = v as i128;
    assert(0 <= w * w <= 0x1_0000_0000_0000 * 0x1_0000_0000_0000) by (nonlinear_arith)
        requires
            -0x1_0000_0000_0000 <= w <= 0x1_0000_0000_0000,
    ;
    w * w
}

fn distance_of(d: &Display, x: i64, y: i64) -> (r: i128)
    requires
        -0x4_0000_0000 <= x <= 0x4_0000_0000,
        -0x4_0000_0000 <= y <= 0x4_0000_0000,
    ensures
        r == distance(*d, x as int, y as int),
{
    let dx: i64 = x - (d.x as i64 + (d.width / 2) as i64);
    let dy: i64 = y - (d.y as i64 + (d.height / 2) as i64);
    square(dx) + square(dy)
}

/// The display for a point.
fn home_of(displays: &Vec<Display>, x: i64, y: i64) -> (r: usize)
    requires
        displays@.len() > 0,
        -0x4_0000_0000 <= x <= 0x4_0000_0000,
        -0x4_0000_0000 <= y <= 0x4_0000_0000,
    ensures
        is_home(displays@, r as int, x as int, y as int),
{
    let mut i: usize = 0;
    while i < displays.len()
        invariant
            i <= displays@.len(),
            -0x4_0000_0000 <= x <= 0x4_0000_0000,
            -0x4_0000_0000 <= y <= 0x4_0000_0000,
            forall|k: int| 0 <= k < i ==> !on_display(#[trigger] displays@[k], x as int, y as int),
        decreases displays@.len() - i,
    {
        let d = &displays[i];
        let inside = d.x as i64 <= x && x < d.x as i64 + d.width as i64 && d.y as i64 <= y && y
            < d.y as i64 + d.height as i64;
        if inside {
            assert(on_display(displays@[i as int], x as int, y as int));
            return i;
        }
        i = i + 1;
    }
    let mut best: usize = 0;
    let mut least: i128 = distance_of(&displays[0], x, y);
    let mut k: usize = 1;
    while k < displays.len()
        invariant
            1 <= k <= displays@.len(),
            best < k,
            -0x4_0000_0000 <= x <= 0x4_0000_0000,
            -0x4_0000_0000 <= y <= 0x4_0000_0000,
            least == distance(displays@[best as int], x as int, y as int),
            forall|j: int|
                0 <= j < k ==> least <= distance(#[trigger] displays@[j], x as int, y as int),
            forall|j: int|
                0 <= j < best ==> distance(#[trigger] displays@[j], x as int, y as int) > least,
        decreases displays@.len() - k,
    {
        let other: i128 = distance_of(&displays[k], x, y);
        if other < least {
            best = k;
            least = other;
        }
        k = k + 1;
    }
    best
}

fn pull(at: i32, start: i32, length: u32, size: u32) -> (r: i32)
    ensures
        r == pulled(at as int, start as int, length as int, size as int),
{
    let last: i64 = start as i64 + length as i64 - size as i64;
    if at < start || last < start as i64 {
        start
    } else if at as i64 > last {
        last as i32
    } else {
        at
    }
}

/// Whether a position is the one that a window of some size is pulled back to
/// on a display.
pub open spec fn placed_on(
    displays: Seq<Display>,
    m: int,
    width: int,
    height: int,
    from: (int, int),
    to: (int, int),
) -> bool {
    let home = displays[m];
    &&& is_home(displays, m, from.0 + width / 2, from.1 + height / 2)
    &&& to.0 == pulled(from.0, home.area_x as int, home.area_width as int, width)
    &&& to.1 == pulled(from.1, home.area_y as int, home.area_height as int, height)
}

pub open spec fn placed(
    displays: Seq<Display>,
    width: int,
    height: int,
    from: (int, int),
    to: (int, int),
) -> bool {
    if displays.len() == 0 {
        to == from
    } else {
        exists|m: int| #[trigger] placed_on(displays, m, width, height, from, to)
    }
}

/// Pulls a position back until the whole window sits inside a display.
///
/// A midpoint check is not enough, which is how the pet ended up below the
/// bottom of the screen: the pet is drawn at the *bottom* of a tall window, and
/// a window whose middle is comfortably on screen can still have its bottom
/// corner hanging off.
///
/// Clamping rather than re-placing also means a saved position that is merely
/// slightly wrong, after a resolution change, a scaling change, or a window that
/// grew between versions, gets nudged back instead of thrown away.
pub fn clamp_to_display(displays: &Vec<Display>, width: u32, height: u32, x: i32, y: i32) -> (r: (
    i32,
    i32,
))
    ensures
        placed(
            displays@,
            width as int,
            height as int,
            (x as int, y as int),
            (r.0 as int, r.1 as int),
        ),
{
    if displays.len() == 0 {
        return (x, y);
    }
    let middle_x: i64 = x as i64 + (width / 2) as i64;
    let middle_y: i64 = y as i64 + (height / 2) as i64;
    let m: usize = home_of(displays, middle_x, middle_y);
    let home = &displays[m];
    let to_x: i32 = pull(x, home.area_x, home.area_width, width);
    let to_y: i32 = pull(y, home.area_y, home.area_height, height);
    assert(placed_on(
        displays@,
        m as int,
        width as int,
        height as int,
        (x as int, y as int),
        (to_x as int, to_y as int),
    ));
    (to_x, to_y)
}

/// The last place along a side for something of a size, with a margin behind it.
pub open spec fn cornered(start: int, length: int, size: int) -> int {
    start + (if length >= size + 24 {
        length - size - 24
    } else {
        0
    })
}

/// Where the pet starts: the bottom right of the work area, with a margin.
pub fn default_position(display: &Display, width: u32, height: u32) -> (r: (i64, i64))
    ensures
        r.0 == cornered(display.area_x as int, display.area_width as int, width as int),
        r.1 == cornered(display.area_y as int, display.area_height as int, height as int),
{
    let across: i64 = display.area_width as i64 - width as i64 - 24;
    let down: i64 = display.area_height as i64 - height as i64 - 24;
    (
        display.area_x as i64 + if across > 0 {
            across
        } else {
            0
        },
        display.area_y as i64 + if down > 0 {
            down
        } else {
            0
        },
    )
}

/// A window that fits is wholly inside the work area once it has been placed,
/// and a position that was good already stays.
pub proof fn a_placed_window_is_in_view(at: int, start: int, length: int, size: int)
    requires
        0 <= size <= length,
    ensures
        start <= pulled(at, start, length, size),
        pulled(at, start, length, size) + size <= start + length,
        start <= at && at + size <= start + length ==> pulled(at, start, length, size) == at,
{
}

/// A window that does not fit shows its top left corner.
pub proof fn a_window_too_large_is_pinned(at: int, start: int, length: int, size: int)
    requires
        size > length,
    ensures
        pulled(at, start, length, size) == start,
{
}

/// Placing a placed window on the same display moves it no further: a pet that
/// nobody touches does not walk.
pub proof fn placing_twice_moves_nothing(at: int, start: int, length: int, size: int)
    ensures
        pulled(pulled(at, start, length, size), start, length, size) == pulled(
            at,
            start,
            length,
            size,
        ),
{
}

/// Whether a window has a size that nobody asked for. A pixel of slack: a
/// permanent one-pixel disagreement would mean asking for a resize forever.
pub fn wrong_size(have: (u32, u32), want: (u32, u32)) -> (r: bool)
    ensures
        r == (have.0 > want.0 + 1 || want.0 > have.0 + 1 || have.1 > want.1 + 1 || want.1 > have.1
            + 1),
{
    let wide = if have.0 > want.0 {
        have.0 - want.0 > 1
    } else {
        want.0 - have.0 > 1
    };
    let tall = if have.1 > want.1 {
        have.1 - want.1 > 1
    } else {
        want.1 - have.1 > 1
    };
    wide || tall
}

// --- pets ----------------------------------------------------------------------
pub struct PetInfo {
    pub id: String,
    pub display_name: String,
    pub description: String,
    pub source: String,
}

#[verifier::ext_equal]
pub struct PetView {
    pub id: Seq<char>,
    pub display_name: Seq<char>,
    pub description: Seq<char>,
    pub source: Seq<char>,
}

impl View for PetInfo {
    type V = PetView;

    open spec fn view(&self) -> PetView {
        PetView {
            id: self.id@,
            display_name: self.display_name@,
            description: self.description@,
            source: self.source@,
        }
    }
}

pub open spec fn pet_views(pets: Seq<PetInfo>) -> Seq<PetView> {
    pets.map_values(|p: PetInfo| p@)
}

/// A folder with a manifest in it.
pub struct PetFolder {
    pub folder: String,
    pub manifest: Json,
    pub source: String,
}

#[verifier::ext_equal]
pub struct FolderView {
    pub folder: Seq<char>,
    pub manifest: JsonView,
    pub source: Seq<char>,
}

impl View for PetFolder {
    type V = FolderView;

    open spec fn view(&self) -> FolderView {
        FolderView { folder: self.folder@, manifest: self.manifest@, source: self.source@ }
    }
}

pub open spec fn folder_views(folders: Seq<PetFolder>) -> Seq<FolderView> {
    folders.map_values(|f: PetFolder| f@)
}

/// What is known of a pet's folder from the text of its manifest: nothing where
/// there is no manifest or it is not JSON.
pub open spec fn read_pet_spec(
    folder: Seq<char>,
    source: Seq<char>,
    raw: Option<Seq<char>>,
) -> Option<FolderView> {
    match raw {
        Some(text) => match json::parsed_text(text) {
            Some(manifest) => Some(FolderView { folder, manifest, source }),
            None => None,
        },
        None => None,
    }
}

/// Reads a pet's folder; one whose manifest is broken is passed over.
pub fn read_pet(folder: &str, source: &str, raw: Option<&str>) -> (r: Option<PetFolder>)
    ensures
        read_pet_spec(folder@, source@, strings::opt_str(raw)) == (match r {
            Some(pet) => Some(pet@),
            None => None,
        }),
{
    match raw {
        Some(text) => match json::parse(text) {
            Some(manifest) => Some(
                PetFolder { folder: folder.to_owned(), manifest, source: source.to_owned() },
            ),
            None => None,
        },
        None => None,
    }
}

/// The id in the text of a manifest.
pub fn manifest_id(raw: Option<&str>) -> (r: Option<String>)
    ensures
        strings::opt_view(r) == (match read_pet_spec(seq![], seq![], strings::opt_str(raw)) {
            Some(pet) => pet.manifest.text_at("id"@),
            None => None,
        }),
{
    match raw {
        Some(text) => match json::parse(text) {
            Some(manifest) => match manifest.text_at("id") {
                Some(id) => Some(id.to_owned()),
                None => None,
            },
            None => None,
        },
        None => None,
    }
}

/// The pets that come with the overlay.
pub open spec fn builtin_pets() -> Seq<PetView> {
    seq![
        PetView {
            id: "byte"@,
            display_name: "Byte"@,
            description: "A CRT-headed bot. Its screen shows the state, so the pet reads on its own."@,
            source: "builtin"@,
        },
        PetView {
            id: "pip"@,
            display_name: "Pip"@,
            description: "An ember-fox with a status wisp."@,
            source: "builtin"@,
        },
        PetView {
            id: "ember"@,
            display_name: "Ember"@,
            description: "A clay pebble with a spark for a status light."@,
            source: "builtin"@,
        },
    ]
}

pub open spec fn text_or(manifest: JsonView, key: Seq<char>, fallback: Seq<char>) -> Seq<char> {
    match manifest.text_at(key) {
        Some(text) => text,
        None => fallback,
    }
}

/// The pet that a folder holds: named by its manifest, or by the folder.
pub open spec fn described(f: FolderView) -> PetView {
    let id = text_or(f.manifest, "id"@, f.folder);
    PetView {
        id,
        display_name: text_or(f.manifest, "displayName"@, id),
        description: text_or(f.manifest, "description"@, seq![]),
        source: f.source,
    }
}

pub open spec fn has_pet(pets: Seq<PetView>, id: Seq<char>) -> bool {
    exists|i: int| 0 <= i < pets.len() && (#[trigger] pets[i]).id == id
}

/// The pets with those of the folders behind them; the first of an id wins.
pub open spec fn joined_by(pets: Seq<PetView>, folders: Seq<FolderView>) -> Seq<PetView>
    decreases folders.len(),
{
    if folders.len() == 0 {
        pets
    } else {
        let before = joined_by(pets, folders.drop_last());
        let pet = described(folders.last());
        if has_pet(before, pet.id) {
            before
        } else {
            before.push(pet)
        }
    }
}

fn text_at_or(manifest: &Json, key: &str, fallback: &str) -> (r: String)
    ensures
        r@ == text_or(manifest@, key@, fallback@),
{
    match manifest.text_at(key) {
        Some(text) => text.to_owned(),
        None => fallback.to_owned(),
    }
}

fn describe(f: &PetFolder) -> (r: PetInfo)
    ensures
        r@ == described(f@),
{
    let id = text_at_or(&f.manifest, "id", f.folder.as_str());
    let display_name = text_at_or(&f.manifest, "displayName", id.as_str());
    let description = text_at_or(&f.manifest, "description", "");
    proof {
        reveal_strlit("");
        assert(""@ =~= seq![]);
    }
    PetInfo { id, display_name, description, source: f.source.as_str().to_owned() }
}

fn builtin(id: &str, display_name: &str, description: &str) -> (r: PetInfo)
    ensures
        r@ == (PetView {
            id: id@,
            display_name: display_name@,
            description: description@,
            source: "builtin"@,
        }),
{
    PetInfo {
        id: id.to_owned(),
        display_name: display_name.to_owned(),
        description: description.to_owned(),
        source: "builtin".to_owned(),
    }
}

fn knows_pet(pets: &Vec<PetInfo>, id: &str) -> (r: bool)
    ensures
        r == has_pet(pet_views(pets@), id@),
{
    let ghost all = pet_views(pets@);
    let mut i: usize = 0;
    while i < pets.len()
        invariant
            i <= pets@.len(),
            all == pet_views(pets@),
            forall|j: int| 0 <= j < i ==> (#[trigger] all[j]).id != id@,
        decreases pets@.len() - i,
    {
        assert(all[i as int].id == pets@[i as int].id@);
        if strings::same(pets[i].id.as_str(), id) {
            return true;
        }
        i = i + 1;
    }
    false
}

/// The pets that come with the overlay, and those in the folders that were
/// found, in order.
pub fn list_pets(folders: &Vec<PetFolder>) -> (r: Vec<PetInfo>)
    ensures
        pet_views(r@) == joined_by(builtin_pets(), folder_views(folders@)),
{
    let mut pets: Vec<PetInfo> = vec![
        builtin(
            "byte",
            "Byte",
            "A CRT-headed bot. Its screen shows the state, so the pet reads on its own.",
        ),
        builtin("pip", "Pip", "An ember-fox with a status wisp."),
        builtin("ember", "Ember", "A clay pebble with a spark for a status light."),
    ];
    assert(pet_views(pets@) =~= builtin_pets());
    let ghost all = folder_views(folders@);
    let mut i: usize = 0;
    assert(all.take(0) =~= seq![]);
    while i < folders.len()
        invariant
            i <= folders@.len(),
            all == folder_views(folders@),
            pet_views(pets@) == joined_by(builtin_pets(), all.take(i as int)),
        decreases folders@.len() - i,
    {
        let ghost before = pet_views(pets@);
        assert(all.take(i + 1).drop_last() =~= all.take(i as int));
        assert(all.take(i + 1).last() == folders@[i as int]@);
        let pet = describe(&folders[i]);
        let ghost held = pet@;
        if !knows_pet(&pets, pet.id.as_str()) {
            pets.push(pet);
            assert(pet_views(pets@) =~= before.push(held));
        }
        i = i + 1;
    }
    assert(all.take(i as int) =~= all);
    pets
}

/// No two pets in the list answer to the same id, and the ones that come with
/// the overlay are always there.
pub proof fn every_pet_has_its_own_id(folders: Seq<FolderView>)
    ensures
        ({
            let pets = joined_by(builtin_pets(), folders);
            &&& pets.len() >= 3
            &&& pets.take(3) == builtin_pets()
            &&& forall|i: int, j: int|
                0 <= i < j < pets.len() ==> (#[trigger] pets[i]).id != (#[trigger] pets[j]).id
        }),
    decreases folders.len(),
{
    if folders.len() == 0 {
        reveal_strlit("byte");
        reveal_strlit("pip");
        reveal_strlit("ember");
        assert("byte"@.len() == 4 && "pip"@.len() == 3 && "ember"@.len() == 5);
        assert(builtin_pets().take(3) =~= builtin_pets());
    } else {
        every_pet_has_its_own_id(folders.drop_last());
        let before = joined_by(builtin_pets(), folders.drop_last());
        let pets = joined_by(builtin_pets(), folders);
        let pet = described(folders.last());
        if !has_pet(before, pet.id) {
            assert(pets.take(3) =~= before.take(3));
            assert forall|i: int, j: int| 0 <= i < j < pets.len() implies (#[trigger] pets[i]).id
                != (#[trigger] pets[j]).id by {
                assert(pets[i] == before[i]);
                if j < before.len() {
                    assert(pets[j] == before[j]);
                }
            }
        }
    }
}

/// Whether a pet is drawn by the page itself, from its own assets.
pub fn is_builtin(id: &str) -> (r: bool)
    ensures
        r == (id@ == "byte"@ || id@ == "ember"@ || id@ == "pip"@),
{
    strings::same(id, "byte") || strings::same(id, "ember") || strings::same(id, "pip")
}

/// What was found in one of the folders that hold pets.
pub struct PetShelf {
    /// Whether a folder of the wanted name holds a manifest.
    pub direct: bool,
    /// What the manifest of each folder says its id is, `None` where the shelf
    /// cannot be listed.
    pub ids: Option<Vec<Option<String>>>,
}

/// Where a pet was found.
#[derive(Clone, Copy)]
pub enum PetPlace {
    /// In the folder of its name on that shelf.
    Named(usize),
    /// In that folder of that shelf.
    Listed(usize, usize),
}

pub open spec fn id_views(ids: Seq<Option<String>>) -> Seq<Option<Seq<char>>> {
    ids.map_values(|id: Option<String>| strings::opt_view(id))
}

/// The first folder whose manifest names the pet.
pub open spec fn listed_at(ids: Seq<Option<Seq<char>>>, id: Seq<char>) -> Option<int>
    decreases ids.len(),
{
    if ids.len() == 0 {
        None
    } else if ids[0] == Some(id) {
        Some(0)
    } else {
        match listed_at(ids.skip(1), id) {
            Some(n) => Some(n + 1),
            None => None,
        }
    }
}

/// Where a pet is, looking from a shelf on. A shelf that cannot be listed ends
/// the search.
pub open spec fn found_pet(shelves: Seq<PetShelf>, id: Seq<char>, from: int) -> Option<PetPlace>
    decreases shelves.len() - from,
{
    if from < 0 || from >= shelves.len() {
        None
    } else if shelves[from].direct {
        Some(PetPlace::Named(from as usize))
    } else {
        match shelves[from].ids {
            None => None,
            Some(ids) => match listed_at(id_views(ids@), id) {
                Some(n) => Some(PetPlace::Listed(from as usize, n as usize)),
                None => found_pet(shelves, id, from + 1),
            },
        }
    }
}

fn index_of_id(ids: &Vec<Option<String>>, id: &str) -> (r: Option<usize>)
    ensures
        match r {
            Some(n) => listed_at(id_views(ids@), id@) == Some(n as int),
            None => listed_at(id_views(ids@), id@) is None,
        },
{
    let ghost all = id_views(ids@);
    let mut i: usize = 0;
    assert(all.skip(0) =~= all);
    while i < ids.len()
        invariant
            i <= ids@.len(),
            all == id_views(ids@),
            listed_at(all, id@) == (match listed_at(all.skip(i as int), id@) {
                Some(n) => Some(n + i),
                None => None,
            }),
        decreases ids@.len() - i,
    {
        assert(all.skip(i as int)[0] == strings::opt_view(ids@[i as int]));
        assert(all.skip(i as int).skip(1) =~= all.skip(i + 1));
        let same = match &ids[i] {
            Some(other) => strings::same(other.as_str(), id),
            None => false,
        };
        if same {
            return Some(i);
        }
        i = i + 1;
    }
    None
}

/// Where the pet of an id is.
pub fn find_pet(shelves: &Vec<PetShelf>, id: &str) -> (r: Option<PetPlace>)
    ensures
        r == found_pet(shelves@, id@, 0),
{
    let mut i: usize = 0;
    while i < shelves.len()
        invariant
            i <= shelves@.len(),
            found_pet(shelves@, id@, 0) == found_pet(shelves@, id@, i as int),
        decreases shelves@.len() - i,
    {
        if shelves[i].direct {
            return Some(PetPlace::Named(i));
        }
        match &shelves[i].ids {
            None => {
                return None;
            },
            Some(ids) => {
                if let Some(n) = index_of_id(ids, id) {
                    return Some(PetPlace::Listed(i, n));
                }
            },
        }
        i = i + 1;
    }
    None
}

/// The file that a pet's pictures are in.
pub fn sprite_name(manifest: &Json) -> (r: String)
    ensures
        r@ == text_or(manifest@, "spritesheetPath"@, "spritesheet.webp"@),
{
    text_at_or(manifest, "spritesheetPath", "spritesheet.webp")
}

/// The type of a picture, by the extension of its file.
pub open spec fn mime_spec(extension: Seq<char>) -> Seq<char> {
    let lower = strings::ascii_lowered(extension);
    if lower == "png"@ {
        "image/png"@
    } else if lower == "gif"@ {
        "image/gif"@
    } else {
        "image/webp"@
    }
}

pub fn mime(extension: &str) -> (r: &'static str)
    ensures
        r@ == mime_spec(extension@),
{
    let lower = strings::lower_ascii(extension);
    if strings::same(lower.as_str(), "png") {
        "image/png"
    } else if strings::same(lower.as_str(), "gif") {
        "image/gif"
    } else {
        "image/webp"
    }
}

/// The symbol of six bits.
pub open spec fn symbol(n: nat) -> char {
    if n < 26 {
        ((65 + n) as u32) as char
    } else if n < 52 {
        ((97 + n - 26) as u32) as char
    } else if n < 62 {
        ((48 + n - 52) as u32) as char
    } else if n == 62 {
        '+'
    } else {
        '/'
    }
}

/// Three bytes as one number, the missing ones as zero.
pub open spec fn triple(a: u8, b: u8, c: u8) -> nat {
    a as nat * 65536 + b as nat * 256 + c as nat
}

/// Bytes as text, four symbols for every three bytes and padding at the end.
pub open spec fn base64_spec(bytes: Seq<u8>) -> Seq<char>
    decreases bytes.len(),
{
    if bytes.len() == 0 {
        seq![]
    } else if bytes.len() == 1 {
        let n = triple(bytes[0], 0, 0);
        seq![symbol(n / 262144), symbol(n / 4096 % 64), '=', '=']
    } else if bytes.len() == 2 {
        let n = triple(bytes[0], bytes[1], 0);
        seq![symbol(n / 262144), symbol(n / 4096 % 64), symbol(n / 64 % 64), '=']
    } else {
        let n = triple(bytes[0], bytes[1], bytes[2]);
        seq![symbol(n / 262144), symbol(n / 4096 % 64), symbol(n / 64 % 64), symbol(n % 64)]
            + base64_spec(bytes.skip(3))
    }
}

fn symbol_of(n: u32) -> (r: char)
    requires
        n < 64,
    ensures
        r == symbol(n as nat),
{
    if n < 26 {
        (65u8 + n as u8) as char
    } else if n < 52 {
        (97u8 + (n - 26) as u8) as char
    } else if n < 62 {
        (48u8 + (n - 52) as u8) as char
    } else if n == 62 {
        '+'
    } else {
        '/'
    }
}

pub fn base64(bytes: &Vec<u8>) -> (r: String)
    ensures
        r@ == base64_spec(bytes@),
{
    let mut out = String::new();
    let mut i: usize = 0;
    assert(bytes@.skip(0) =~= bytes@);
    assert(out@ + base64_spec(bytes@) =~= base64_spec(bytes@));
    while i < bytes.len()
        invariant
            i <= bytes@.len(),
            out@ + base64_spec(bytes@.skip(i as int)) == base64_spec(bytes@),
        decreases bytes@.len() - i,
    {
        let ghost rest = bytes@.skip(i as int);
        let ghost before = out@;
        let left: usize = bytes.len() - i;
        let a: u32 = bytes[i] as u32;
        let b: u32 = if left > 1 {
            bytes[i + 1] as u32
        } else {
            0
        };
        let c: u32 = if left > 2 {
            bytes[i + 2] as u32
        } else {
            0
        };
        let n: u32 = a * 65536 + b * 256 + c;
        out.push(symbol_of(n / 262144));
        out.push(symbol_of(n / 4096 % 64));
        out.push(
            if left > 1 {
                symbol_of(n / 64 % 64)
            } else {
                '='
            },
        );
        out.push(
            if left > 2 {
                symbol_of(n % 64)
            } else {
                '='
            },
        );
        let step: usize = if left > 2 {
            3
        } else {
            left
        };
        proof {
            let part = base64_spec(rest).take(4);
            if left > 2 {
                assert(rest.skip(3) =~= bytes@.skip(i + step));
                assert(base64_spec(rest) =~= part + base64_spec(rest.skip(3)));
            } else {
                assert(bytes@.skip(i + step) =~= seq![]);
                assert(base64_spec(rest) =~= part + base64_spec(bytes@.skip(i + step)));
            }
            assert(out@ =~= before + part);
            assert(out@ + base64_spec(bytes@.skip(i + step)) =~= before + base64_spec(rest));
        }
        i = i + step;
    }
    assert(out@ + base64_spec(bytes@.skip(i as int)) =~= out@);
    out
}

/// A picture as an address that the page can show.
pub fn data_url(mime: &str, bytes: &Vec<u8>) -> (r: String)
    ensures
        r@ == "data:"@ + mime@ + ";base64,"@ + base64_spec(bytes@),
{
    let head = strings::concat3("data:", mime, ";base64,");
    strings::concat2(head.as_str(), base64(bytes).as_str())
}

/// What a symbol stands for.
pub open spec fn symbol_value(c: char) -> nat {
    if 65 <= c as int <= 90 {
        (c as int - 65) as nat
    } else if 97 <= c as int <= 122 {
        (c as int - 97 + 26) as nat
    } else if 48 <= c as int <= 57 {
        (c as int - 48 + 52) as nat
    } else if c == '+' {
        62
    } else {
        63
    }
}

/// The bytes that a text of symbols stands for.
pub open spec fn unbase64(text: Seq<char>) -> Seq<u8>
    decreases text.len(),
{
    if text.len() < 4 {
        seq![]
    } else {
        let n = symbol_value(text[0]) * 262144 + symbol_value(text[1]) * 4096 + (if text[2] == '=' {
            0
        } else {
            symbol_value(text[2]) * 64
        }) + (if text[3] == '=' {
            0
        } else {
            symbol_value(text[3])
        });
        let whole = seq![(n / 65536) as u8, (n / 256 % 256) as u8, (n % 256) as u8];
        (if text[2] == '=' {
            whole.take(1)
        } else if text[3] == '=' {
            whole.take(2)
        } else {
            whole
        }) + unbase64(text.skip(4))
    }
}

proof fn lemma_symbol(n: nat)
    requires
        n < 64,
    ensures
        symbol_value(symbol(n)) == n,
        symbol(n) != '=',
{
}

proof fn lemma_triple(a: u8, b: u8, c: u8)
    ensures
        ({
            let n = triple(a, b, c);
            &&& n / 262144 < 64
            &&& n / 262144 * 262144 + n / 4096 % 64 * 4096 + n / 64 % 64 * 64 + n % 64 == n
            &&& c == 0 ==> n % 64 == 0
            &&& b == 0 && c == 0 ==> n / 64 % 64 == 0
            &&& n / 65536 == a
            &&& n / 256 % 256 == b
            &&& n % 256 == c
        }),
{
    lemma_sixes(triple(a, b, c));
    lemma_bytes(a as nat, b as nat, c as nat);
    if c == 0 {
        lemma_short(a as nat, b as nat);
    }
}

proof fn lemma_bytes(a: nat, b: nat, c: nat)
    requires
        a < 256,
        b < 256,
        c < 256,
    ensures
        ({
            let n = a * 65536 + b * 256 + c;
            &&& n / 262144 < 64
            &&& n / 65536 == a
            &&& n / 256 % 256 == b
            &&& n % 256 == c
        }),
{
    let n = a * 65536 + b * 256 + c;
    assert(n / 256 == a * 256 + b);
    assert((a * 256 + b) % 256 == b);
}

proof fn lemma_short(a: nat, b: nat)
    ensures
        (a * 65536 + b * 256) % 64 == 0,
        b == 0 ==> (a * 65536 + b * 256) / 64 % 64 == 0,
{
    assert(a * 65536 + b * 256 == 64 * (a * 1024 + b * 4));
    if b == 0 {
        assert((a * 65536) / 64 == a * 1024);
        assert(a * 1024 == 64 * (a * 16));
    }
}

proof fn lemma_sixes(n: nat)
    ensures
        n / 262144 * 262144 + n / 4096 % 64 * 4096 + n / 64 % 64 * 64 + n % 64 == n,
{
    let p = n / 64;
    let q = n / 4096;
    let r = n / 262144;
    assert(q == p / 64);
    assert(r == q / 64);
    assert(p % 64 == p - 64 * q);
    assert(q % 64 == q - 64 * r);
    assert(n % 64 == n - 64 * p);
}

proof fn lemma_decode(text: Seq<char>, bytes: Seq<u8>)
    requires
        0 < bytes.len() <= 3,
        text.len() >= 4,
        text.take(4) == base64_spec(bytes),
    ensures
        unbase64(text) == bytes + unbase64(text.skip(4)),
{
    let a = bytes[0];
    let b = if bytes.len() > 1 {
        bytes[1]
    } else {
        0u8
    };
    let c = if bytes.len() > 2 {
        bytes[2]
    } else {
        0u8
    };
    let n = triple(a, b, c);
    lemma_triple(a, b, c);
    lemma_symbol(n / 262144);
    lemma_symbol(n / 4096 % 64);
    lemma_symbol(n / 64 % 64);
    lemma_symbol(n % 64);
    let whole = seq![a, b, c];
    assert(bytes.len() == 3 ==> base64_spec(bytes.skip(3)) =~= seq![]) by {
        if bytes.len() == 3 {
            assert(bytes.skip(3) =~= seq![]);
        }
    }
    assert(text[0] == text.take(4)[0] && text[1] == text.take(4)[1] && text[2] == text.take(4)[2]
        && text[3] == text.take(4)[3]);
    assert(text[0] == symbol(n / 262144));
    assert(text[1] == symbol(n / 4096 % 64));
    assert(bytes =~= whole.take(bytes.len() as int));
    assert(whole.take(3) =~= whole);
}

/// What is encoded can be decoded: no picture is lost on its way to the page.
pub proof fn encoding_is_undone(bytes: Seq<u8>)
    ensures
        unbase64(base64_spec(bytes)) == bytes,
    decreases bytes.len(),
{
    let text = base64_spec(bytes);
    if bytes.len() == 0 {
        assert(unbase64(text) =~= bytes);
    } else if bytes.len() <= 3 {
        if bytes.len() == 3 {
            assert(bytes.skip(3) =~= seq![]);
            assert(base64_spec(bytes.skip(3)) =~= seq![]);
        }
        assert(text.len() == 4);
        assert(text.take(4) =~= text);
        lemma_decode(text, bytes);
        assert(unbase64(text.skip(4)) =~= seq![]);
        assert(unbase64(text) =~= bytes);
    } else {
        let first = bytes.take(3);
        let rest = bytes.skip(3);
        encoding_is_undone(rest);
        assert(first.skip(3) =~= seq![]);
        assert(base64_spec(first.skip(3)) =~= seq![]);
        assert(base64_spec(first) =~= text.take(4));
        assert(text.skip(4) =~= base64_spec(rest));
        lemma_decode(text, first);
        assert(first + rest =~= bytes);
    }
}

// --- windows -------------------------------------------------------------------------
/// The titles to look for when a project is to be brought forward: its
/// workspace, the project, and the agent itself.
pub open spec fn fragments_spec(project: Seq<char>, workspace: Seq<char>) -> Seq<Seq<char>> {
    (if workspace.len() == 0 {
        seq![]
    } else {
        seq![workspace]
    }) + (if project.len() == 0 {
        seq![]
    } else {
        seq![project]
    }) + seq![agent::word_spec()]
}

pub fn focus_fragments(project: &str, workspace: &str) -> (r: Vec<String>)
    ensures
        strings::views(r@) == fragments_spec(project@, workspace@),
{
    let mut out: Vec<String> = Vec::new();
    if !workspace.is_empty() {
        out.push(workspace.to_owned());
    }
    if !project.is_empty() {
        out.push(project.to_owned());
    }
    out.push(agent::word());
    assert(strings::views(out@) =~= fragments_spec(project@, workspace@));
    out
}

// --- the page ---------------------------------------------------------------------------
/// How long the page may say nothing before it is asked.
pub const FRONTEND_SILENT_MS: u64 = 45_000;

/// How long a silent page gets to answer a ping before it is declared dead.
pub const PING_GRACE_MS: u64 = 3_000;

/// A rescue that fails leaves the page just as dead, so retrying in a tight loop
/// only fills the log.
pub const RESCUE_INTERVAL_MS: u64 = 60_000;

/// When the page last spoke, when it was last asked, and when it was last
/// reloaded.
///
/// It reports its clickable regions on every render, and it renders at least
/// once a second, so silence means the page has stopped running. A window can be
/// present, visible and correctly placed while painting nothing, and this is the
/// only thing that can tell the difference.
#[derive(Clone, Copy)]
pub struct Frontend {
    pub last_seen_ms: u64,
    pub last_ping_ms: u64,
    pub last_rescue_ms: u64,
}

/// What to do about the page.
#[derive(Clone, Copy)]
pub enum Care {
    Nothing,
    /// Ask whether it is alive.
    Ping,
    /// Reload it, after that many seconds of silence.
    Reload(u64),
}

impl Default for Frontend {
    fn default() -> (r: Frontend)
        ensures
            r == (Frontend { last_seen_ms: 0, last_ping_ms: 0, last_rescue_ms: 0 }),
    {
        Frontend { last_seen_ms: 0, last_ping_ms: 0, last_rescue_ms: 0 }
    }
}

pub open spec fn since(now: u64, at: u64) -> int {
    if now > at {
        now - at
    } else {
        0
    }
}

/// What is done about the page, and what is known of it then.
///
/// Silent is not dead: timers of an occluded window are throttled down to about
/// once a minute, and a page that stopped rendering because of that is perfectly
/// healthy. Events are not throttled, so it is asked, and only a page that will
/// not answer is reloaded.
pub open spec fn cared_for(f: Frontend, now: u64, visible: bool) -> (Frontend, Care) {
    if !visible || f.last_seen_ms == 0 || since(now, f.last_seen_ms) < FRONTEND_SILENT_MS {
        (f, Care::Nothing)
    } else if f.last_ping_ms <= f.last_seen_ms {
        (Frontend { last_ping_ms: now, ..f }, Care::Ping)
    } else if since(now, f.last_ping_ms) < PING_GRACE_MS || since(now, f.last_rescue_ms)
        < RESCUE_INTERVAL_MS {
        (f, Care::Nothing)
    } else {
        (
            Frontend { last_rescue_ms: now, ..f },
            Care::Reload((since(now, f.last_seen_ms) / 1000) as u64),
        )
    }
}

impl Frontend {
    /// The page spoke, or answered a ping: alive, whatever its throttled timers
    /// are doing.
    pub fn seen(&mut self, now: u64)
        ensures
            *final(self) == (Frontend { last_seen_ms: now, ..*old(self) }),
    {
        self.last_seen_ms = now;
    }

    /// Notices when the page has stopped running.
    pub fn watch(&mut self, now: u64, visible: bool) -> (r: Care)
        ensures
            (*final(self), r) == cared_for(*old(self), now, visible),
    {
        // A hidden window is supposed to be quiet, and a page that was never
        // heard of may still be loading.
        if !visible || self.last_seen_ms == 0 {
            return Care::Nothing;
        }
        let silent: u64 = now.saturating_sub(self.last_seen_ms);
        if silent < FRONTEND_SILENT_MS {
            return Care::Nothing;
        }
        if self.last_ping_ms <= self.last_seen_ms {
            self.last_ping_ms = now;
            return Care::Ping;
        }
        if now.saturating_sub(self.last_ping_ms) < PING_GRACE_MS {
            return Care::Nothing;
        }
        if now.saturating_sub(self.last_rescue_ms) < RESCUE_INTERVAL_MS {
            return Care::Nothing;
        }
        self.last_rescue_ms = now;
        Care::Reload(silent / 1000)
    }

    /// Whether to ask the page on showing the window.
    ///
    /// "off then on" is what everyone tries first when the overlay is
    /// misbehaving, so it must fix a dead page, but reloading a healthy one is
    /// itself a visible blank-and-repaint. It is asked instead, and reloaded if
    /// it stays silent.
    pub fn shown(&mut self, now: u64) -> (r: bool)
        ensures
            r == (old(self).last_seen_ms != 0 && since(now, old(self).last_seen_ms)
                >= FRONTEND_SILENT_MS),
            *final(self) == (if r {
                Frontend { last_ping_ms: now, ..*old(self) }
            } else {
                *old(self)
            }),
    {
        if self.last_seen_ms != 0 && now.saturating_sub(self.last_seen_ms) >= FRONTEND_SILENT_MS {
            self.last_ping_ms = now;
            true
        } else {
            false
        }
    }
}

/// A page is only reloaded after it was asked, had its time to answer, and did
/// not; and never twice within a minute.
pub proof fn a_page_is_asked_before_it_is_reloaded(f: Frontend, now: u64, visible: bool)
    requires
        cared_for(f, now, visible).1 is Reload,
    ensures
        visible,
        f.last_ping_ms > f.last_seen_ms,
        now >= f.last_ping_ms + PING_GRACE_MS,
        now >= f.last_rescue_ms + RESCUE_INTERVAL_MS,
        now >= f.last_seen_ms + FRONTEND_SILENT_MS,
{
}

/// A page that speaks is left alone for as long as it may be silent.
pub proof fn a_page_that_speaks_is_left_alone(f: Frontend, spoke: u64, now: u64, visible: bool)
    requires
        now < spoke + FRONTEND_SILENT_MS,
    ensures
        cared_for((Frontend { last_seen_ms: spoke, ..f }), now, visible).1 is Nothing,
{
}

/// What the page was last sent, so that it is sent nothing twice.
pub struct Emitted {
    pub last: String,
}

impl Default for Emitted {
    fn default() -> (r: Emitted)
        ensures
            r.last@ == ""@,
    {
        Emitted { last: "".to_owned() }
    }
}

impl Emitted {
    /// Whether something new is to be sent.
    pub fn changed(&mut self, encoded: &str) -> (r: bool)
        ensures
            r == (old(self).last@ != encoded@),
            final(self).last@ == encoded@,
    {
        if strings::same(self.last.as_str(), encoded) {
            false
        } else {
            self.last = encoded.to_owned();
            true
        }
    }

    /// The page has (re)attached its listeners. Anything sent before was shouted
    /// into an empty room, so what was last sent is forgotten.
    pub fn forget(&mut self)
        ensures
            final(self).last@ == ""@,
    {
        self.last = "".to_owned();
    }
}

// --- commands ------------------------------------------------------------------------------
/// What `pipsqueak control` asks of a running overlay.
pub enum Command {
    Show,
    Hide,
    Toggle,
    Quit,
    Pet(String),
    Unknown,
}

/// What becomes of the command file.
pub enum Drain {
    /// It makes no sense: remove it.
    Discard,
    /// Leave it for a later tick.
    Later,
    /// Remove it and do as it says.
    Obey(Command),
}

#[verifier::ext_equal]
pub enum CommandView {
    Show,
    Hide,
    Toggle,
    Quit,
    Pet(Seq<char>),
    Unknown,
}

#[verifier::ext_equal]
pub enum DrainView {
    Discard,
    Later,
    Obey(CommandView),
}

impl View for Command {
    type V = CommandView;

    open spec fn view(&self) -> CommandView {
        match self {
            Command::Show => CommandView::Show,
            Command::Hide => CommandView::Hide,
            Command::Toggle => CommandView::Toggle,
            Command::Quit => CommandView::Quit,
            Command::Pet(pet) => CommandView::Pet(pet@),
            Command::Unknown => CommandView::Unknown,
        }
    }
}

impl View for Drain {
    type V = DrainView;

    open spec fn view(&self) -> DrainView {
        match self {
            Drain::Discard => DrainView::Discard,
            Drain::Later => DrainView::Later,
            Drain::Obey(command) => DrainView::Obey(command@),
        }
    }
}

pub open spec fn command_of(action: Seq<char>) -> CommandView {
    if action == "show"@ {
        CommandView::Show
    } else if action == "hide"@ {
        CommandView::Hide
    } else if action == "toggle"@ {
        CommandView::Toggle
    } else if action == "quit"@ {
        CommandView::Quit
    } else {
        match strings::behind(action, "pet:"@) {
            Some(pet) => CommandView::Pet(pet),
            None => CommandView::Unknown,
        }
    }
}

/// What becomes of a command. A pet switch is delivered as an event, and an event
/// sent before the page listens is dropped while the CLI has already printed
/// "Pet switched", so it waits for the page.
pub open spec fn drained(value: Option<JsonView>, listening: bool) -> DrainView {
    match value {
        None => DrainView::Discard,
        Some(command) => match command.text_at("action"@) {
            None => DrainView::Discard,
            Some(action) => if !listening && strings::begins(action, "pet:"@) {
                DrainView::Later
            } else {
                DrainView::Obey(command_of(action))
            },
        },
    }
}

fn read_command(action: &str) -> (r: Command)
    ensures
        r@ == command_of(action@),
{
    if strings::same(action, "show") {
        Command::Show
    } else if strings::same(action, "hide") {
        Command::Hide
    } else if strings::same(action, "toggle") {
        Command::Toggle
    } else if strings::same(action, "quit") {
        Command::Quit
    } else {
        match strings::strip_prefix(action, "pet:") {
            Some(pet) => Command::Pet(pet),
            None => Command::Unknown,
        }
    }
}

/// What becomes of a command that was parsed.
pub fn judge_command(value: Option<&Json>, listening: bool) -> (r: Drain)
    ensures
        r@ == drained(json::opt_json(value), listening),
{
    match value {
        None => Drain::Discard,
        Some(command) => match command.text_at("action") {
            None => Drain::Discard,
            Some(action) => {
                if !listening && strings::starts_with(action, "pet:") {
                    Drain::Later
                } else {
                    Drain::Obey(read_command(action))
                }
            },
        },
    }
}

/// What becomes of the command file.
pub fn drain_commands(raw: &str, listening: bool) -> (r: Drain)
    ensures
        r@ == drained(json::parsed_text(raw@), listening),
{
    match json::parse(raw) {
        Some(value) => judge_command(Some(&value), listening),
        None => judge_command(None, listening),
    }
}

/// What an entry of the tray menu does.
#[derive(Clone, Copy)]
pub enum MenuAction {
    Toggle,
    ClickThrough,
    Quiet,
    Reload,
    Pets,
    Hooks,
    Quit,
    Nothing,
}

pub open spec fn menu_spec(id: Seq<char>) -> MenuAction {
    if id == "toggle"@ {
        MenuAction::Toggle
    } else if id == "click_through"@ {
        MenuAction::ClickThrough
    } else if id == "quiet"@ {
        MenuAction::Quiet
    } else if id == "reload"@ {
        MenuAction::Reload
    } else if id == "pets"@ {
        MenuAction::Pets
    } else if id == "hooks"@ {
        MenuAction::Hooks
    } else if id == "quit"@ {
        MenuAction::Quit
    } else {
        MenuAction::Nothing
    }
}

pub fn menu_action(id: &str) -> (r: MenuAction)
    ensures
        r == menu_spec(id@),
{
    if strings::same(id, "toggle") {
        MenuAction::Toggle
    } else if strings::same(id, "click_through") {
        MenuAction::ClickThrough
    } else if strings::same(id, "quiet") {
        MenuAction::Quiet
    } else if strings::same(id, "reload") {
        MenuAction::Reload
    } else if strings::same(id, "pets") {
        MenuAction::Pets
    } else if strings::same(id, "hooks") {
        MenuAction::Hooks
    } else if strings::same(id, "quit") {
        MenuAction::Quit
    } else {
        MenuAction::Nothing
    }
}

// --- starting with the machine ----------------------------------------------------------------
/// What to do about the autostart entry.
#[derive(Clone, Copy)]
pub enum Autostart {
    /// It starts this program.
    Right,
    /// It starts another program that is there: somebody's deliberate setup.
    Foreign,
    /// It starts a program that is gone: point it here.
    Correct,
    /// There is none, and nobody decided that yet: make one, and record that.
    Register,
    /// There is none, and that was decided.
    Off,
}

/// "Not this binary" is not the same question as "dead": an entry that starts
/// the pet through a wrapper is somebody's deliberate setup, and taking it over
/// deletes whatever the wrapper was for.
pub open spec fn autostart_spec(
    registered: Option<Seq<char>>,
    exe: Seq<char>,
    present: bool,
    windows: bool,
    decided: bool,
) -> Autostart {
    match registered {
        Some(program) => if desktop::normal(program, windows) == desktop::normal(exe, windows) {
            Autostart::Right
        } else if present {
            Autostart::Foreign
        } else {
            Autostart::Correct
        },
        None => if decided {
            Autostart::Off
        } else {
            Autostart::Register
        },
    }
}

/// Starts with the machine by default, and keeps pointing at the right program.
pub fn ensure_autostart(
    registered: Option<&str>,
    exe: &str,
    present: bool,
    windows: bool,
    decided: bool,
) -> (r: Autostart)
    ensures
        r == autostart_spec(strings::opt_str(registered), exe@, present, windows, decided),
{
    match registered {
        Some(program) => {
            if desktop::same_program(program, exe, windows) {
                Autostart::Right
            } else if present {
                Autostart::Foreign
            } else {
                Autostart::Correct
            }
        },
        None => {
            if decided {
                Autostart::Off
            } else {
                Autostart::Register
            }
        },
    }
}

/// An entry that starts a program which exists is never written over, and a
/// decision that was made is never made again.
pub proof fn a_working_entry_is_left_alone(
    registered: Option<Seq<char>>,
    exe: Seq<char>,
    present: bool,
    windows: bool,
    decided: bool,
)
    ensures
        ({
            let what = autostart_spec(registered, exe, present, windows, decided);
            &&& registered is Some && present ==> what is Right || what is Foreign
            &&& registered is None && decided ==> what is Off
        }),
{
}

/// Whether the program's own disappearance has been reported.
pub struct OwnBinary {
    pub reported: bool,
}

impl OwnBinary {
    /// Whether to say that the program is gone: once, until it is back.
    pub fn check(&mut self, exists: bool) -> (r: bool)
        ensures
            r == (!exists && !old(self).reported),
            final(self).reported == !exists,
    {
        let say = !exists && !self.reported;
        self.reported = !exists;
        say
    }
}

// --- the pointer ----------------------------------------------------------------------------------
/// How close the pointer is to something interactive.
#[derive(Clone, Copy)]
pub enum Proximity {
    Near,
    Approaching,
    Far,
}

/// How long to wait before looking for the pointer again. A click landing in the
/// gap goes to the wrong window, so the rate follows the pointer: fast when it
/// is near something interactive, idle when it is nowhere near the overlay, and
/// idle too while every click falls through anyway.
pub open spec fn looked_for_again(proximity: Proximity, click_through: bool) -> u64 {
    if click_through {
        220
    } else {
        match proximity {
            Proximity::Near => 12,
            Proximity::Approaching => 50,
            Proximity::Far => 220,
        }
    }
}

pub fn hit_test_ms(proximity: Proximity, click_through: bool) -> (r: u64)
    ensures
        r == looked_for_again(proximity, click_through),
{
    if click_through {
        220
    } else {
        match proximity {
            Proximity::Near => 12,
            Proximity::Approaching => 50,
            Proximity::Far => 220,
        }
    }
}

/// What was last done about the pointer.
pub struct Pointer {
    /// Whether the window was last told to let clicks through.
    pub ignoring: Option<bool>,
    /// Whether the page was last told where the pointer is.
    pub watching: bool,
}

impl Pointer {
    pub fn new() -> (r: Pointer)
        ensures
            r.ignoring is None,
            !r.watching,
    {
        Pointer { ignoring: None, watching: false }
    }

    /// Whether to tell the page about the pointer: where it is while it is near,
    /// and once that it has gone, so that the pet faces front again rather than
    /// staring at wherever it was last seen.
    pub fn look(&mut self, due: bool, near: bool) -> (r: Option<bool>)
        ensures
            r == (if due && (near || old(self).watching) {
                Some(near)
            } else {
                None
            }),
            final(self).watching == (if r is Some {
                near
            } else {
                old(self).watching
            }),
            final(self).ignoring == old(self).ignoring,
    {
        if due && (near || self.watching) {
            self.watching = near;
            Some(near)
        } else {
            None
        }
    }

    /// Whether the window is to be told to let clicks through, or no longer to.
    /// A transparent overlay otherwise swallows every click inside its rectangle.
    pub fn settle(&mut self, click_through: bool, over: bool) -> (r: Option<bool>)
        ensures
            final(self).ignoring == Some(click_through || !over),
            r == (if old(self).ignoring == Some(click_through || !over) {
                None
            } else {
                Some(click_through || !over)
            }),
            final(self).watching == old(self).watching,
    {
        let ignore = click_through || !over;
        let known = match self.ignoring {
            Some(last) => last == ignore,
            None => false,
        };
        self.ignoring = Some(ignore);
        if known {
            None
        } else {
            Some(ignore)
        }
    }
}

} // verus!
