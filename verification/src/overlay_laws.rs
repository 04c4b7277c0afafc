//! What the overlay does with its window, its pets and the orders it gets.

use vstd::prelude::*;
use vstd::string::*;

use crate::desktop;
use crate::json;
use crate::json::JsonView;
use crate::overlay;
use crate::overlay::{
    Care, CommandView, Display, DrainView, FolderView, Frontend, MenuAction, PetPlace,
    PetShelf, PetView, Proximity,
};
use crate::strings;

verus! {

// --- where the window is -----------------------------------------------------------------
/// A window belongs to the first display that its middle is on, and only where it is
/// on none to the nearest.
pub proof fn a_window_belongs_where_its_middle_is(
    displays: Seq<Display>,
    m: int,
    k: int,
    x: int,
    y: int,
)
    requires
        overlay::is_home(displays, m, x, y),
        0 <= k < displays.len(),
    ensures
        ({
            let d = displays[m];
            let other = displays[k];
            let inside = d.x <= x < d.x + d.width && d.y <= y < d.y + d.height;
            let inside_other = other.x <= x < other.x + other.width && other.y <= y < other.y
                + other.height;
            &&& inside_other ==> inside && m <= k
            &&& !inside ==> ({
                let (dx, dy) = (x - (d.x + d.width / 2), y - (d.y + d.height / 2));
                let (ex, ey) = (
                    x - (other.x + other.width / 2),
                    y - (other.y + other.height / 2),
                );
                dx * dx + dy * dy <= ex * ex + ey * ey
            })
        }),
{
    assert(overlay::on_display(displays[k], x, y) || !overlay::on_display(displays[k], x, y));
}

/// It is pulled no further than it must be to lie in the display's work area.
pub proof fn a_window_is_pulled_no_further_than_it_must(
    at: int,
    start: int,
    length: int,
    size: int,
    other: int,
)
    requires
        0 <= size <= length,
        start <= other,
        other + size <= start + length,
    ensures
        ({
            let to = overlay::pulled(at, start, length, size);
            let moved = if to >= at { to - at } else { at - to };
            let further = if other >= at { other - at } else { at - other };
            &&& start <= to && to + size <= start + length
            &&& moved <= further
        }),
{
}

// --- pets --------------------------------------------------------------------------------
/// Three pets come with the program.
pub proof fn these_pets_come_along()
    ensures
        ({
            let pets = overlay::builtin_pets();
            &&& pets.len() == 3
            &&& pets[0].id == "byte"@ && pets[0].display_name == "Byte"@
            &&& pets[1].id == "pip"@ && pets[1].display_name == "Pip"@
            &&& pets[2].id == "ember"@ && pets[2].display_name == "Ember"@
            &&& forall|i: int| 0 <= i < 3 ==> (#[trigger] pets[i]).source == "builtin"@
        }),
{
}

/// A pet is what its manifest says, and goes by its folder where it says nothing.
pub proof fn a_pet_is_what_its_manifest_says(f: FolderView)
    ensures
        ({
            let p = overlay::described(f);
            let id = f.manifest.text_at("id"@);
            let name = f.manifest.text_at("displayName"@);
            let about = f.manifest.text_at("description"@);
            &&& id is Some ==> p.id == id->0
            &&& id is None ==> p.id == f.folder
            &&& name is Some ==> p.display_name == name->0
            &&& name is None ==> p.display_name == p.id
            &&& about is Some ==> p.description == about->0
            &&& about is None ==> p.description == Seq::<char>::empty()
            &&& p.source == f.source
        }),
{
}

/// A pet joins the others unless there is one of its id.
pub proof fn the_first_of_an_id_stays(pets: Seq<PetView>, folders: Seq<FolderView>, f: FolderView)
    ensures
        ({
            let before = overlay::joined_by(pets, folders);
            let pet = overlay::described(f);
            let there = exists|i: int| 0 <= i < before.len() && (#[trigger] before[i]).id == pet.id;
            overlay::joined_by(pets, folders.push(f)) == (if there {
                before
            } else {
                before.push(pet)
            })
        }),
        overlay::joined_by(pets, Seq::empty()) == pets,
{
    assert(folders.push(f).drop_last() =~= folders);
}

/// A folder holds a pet when its manifest can be read.
pub proof fn a_folder_holds_a_pet_by_its_manifest(
    folder: Seq<char>,
    source: Seq<char>,
    raw: Seq<char>,
)
    ensures
        overlay::read_pet_spec(folder, source, None) is None,
        match json::parsed_text(raw) {
            None => overlay::read_pet_spec(folder, source, Some(raw)) is None,
            Some(manifest) => overlay::read_pet_spec(folder, source, Some(raw)) == Some(
                FolderView { folder, manifest, source },
            ),
        },
{
}

/// A pet is looked for shelf by shelf: in the folder of its name, and else in the
/// first that says it is that pet.
pub proof fn a_pet_is_looked_for_shelf_by_shelf(shelves: Seq<PetShelf>, id: Seq<char>, from: int)
    requires
        0 <= from < shelves.len(),
    ensures
        ({
            let found = overlay::found_pet(shelves, id, from);
            let shelf = shelves[from];
            &&& shelf.direct ==> found == Some(PetPlace::Named(from as usize))
            &&& !shelf.direct && shelf.ids is None ==> found is None
            &&& !shelf.direct && shelf.ids is Some ==> match overlay::listed_at(
                overlay::id_views(shelf.ids->0@),
                id,
            ) {
                Some(n) => found == Some(PetPlace::Listed(from as usize, n as usize)),
                None => found == overlay::found_pet(shelves, id, from + 1),
            }
        }),
        overlay::found_pet(shelves, id, shelves.len() as int) is None,
{
}

/// On a shelf it is the first of its id.
pub proof fn the_first_on_the_shelf_counts(ids: Seq<Option<Seq<char>>>, id: Seq<char>, k: int)
    requires
        0 <= k <= ids.len(),
        forall|j: int| 0 <= j < k ==> #[trigger] ids[j] != Some(id),
        k < ids.len() ==> ids[k] == Some(id),
    ensures
        overlay::listed_at(ids, id) == (if k < ids.len() {
            Some(k)
        } else {
            None
        }),
    decreases k,
{
    if k > 0 {
        let rest = ids.skip(1);
        assert forall|j: int| 0 <= j < k - 1 implies #[trigger] rest[j] != Some(id) by {
            assert(rest[j] == ids[j + 1]);
        }
        assert(ids[0] != Some(id));
        the_first_on_the_shelf_counts(rest, id, k - 1);
    }
}

/// A picture is told by its extension, in any case.
pub proof fn a_picture_is_told_by_its_extension(extension: Seq<char>)
    ensures
        ({
            let kind = overlay::mime_spec(extension);
            let lower = strings::ascii_lowered(extension);
            &&& lower == "png"@ ==> kind == "image/png"@
            &&& lower == "gif"@ ==> kind == "image/gif"@
            &&& lower != "png"@ && lower != "gif"@ ==> kind == "image/webp"@
        }),
{
    reveal_strlit("png");
    reveal_strlit("gif");
    assert("png"@[0] != "gif"@[0]);
}

/// Three bytes are four symbols of six bits each, the highest first.
pub proof fn three_bytes_are_four_symbols(a: u8, b: u8, c: u8, rest: Seq<u8>)
    ensures
        ({
            let n = a * 0x1_0000 + b * 0x100 + c;
            overlay::base64_spec(seq![a, b, c] + rest) == seq![
                overlay::symbol((n / 0x4_0000) as nat),
                overlay::symbol((n / 0x1000 % 64) as nat),
                overlay::symbol((n / 64 % 64) as nat),
                overlay::symbol((n % 64) as nat),
            ] + overlay::base64_spec(rest)
        }),
        overlay::base64_spec(seq![a, b]).len() == 4 && overlay::base64_spec(seq![a, b])[3] == '=',
        overlay::base64_spec(seq![a]).len() == 4 && overlay::base64_spec(seq![a])[2] == '='
            && overlay::base64_spec(seq![a])[3] == '=',
{
    assert((seq![a, b, c] + rest).skip(3) =~= rest);
}

/// The symbols are the letters, the digits, a plus and a slash.
pub proof fn these_are_the_symbols(n: nat)
    requires
        n < 64,
    ensures
        n < 26 ==> overlay::symbol(n) as u32 == 'A' as u32 + n,
        26 <= n < 52 ==> overlay::symbol(n) as u32 == 'a' as u32 + n - 26,
        52 <= n < 62 ==> overlay::symbol(n) as u32 == '0' as u32 + n - 52,
        n == 62 ==> overlay::symbol(n) == '+',
        n == 63 ==> overlay::symbol(n) == '/',
{
}

// --- the page ------------------------------------------------------------------------------
/// A page that was silent for forty-five seconds is asked, and one that does not
/// answer for three more is reloaded, once a minute at most.
pub proof fn a_silent_page_is_asked_and_reloaded(f: Frontend, now: u64, visible: bool)
    requires
        f.last_seen_ms > 0,
    ensures
        ({
            let (g, care) = overlay::cared_for(f, now, visible);
            let silent = visible && now >= f.last_seen_ms + 45000;
            let asked = f.last_ping_ms > f.last_seen_ms;
            let patient = now < f.last_ping_ms + 3000 || now < f.last_rescue_ms + 60000;
            &&& !silent ==> care == Care::Nothing && g == f
            &&& silent && !asked ==> care == Care::Ping && g == (Frontend {
                last_ping_ms: now,
                ..f
            })
            &&& silent && asked && patient ==> care == Care::Nothing && g == f
            &&& silent && asked && !patient ==> care == Care::Reload(
                ((now - f.last_seen_ms) / 1000) as u64,
            ) && g == (Frontend { last_rescue_ms: now, ..f })
        }),
{
}

/// A page that never spoke is left to load.
pub proof fn a_page_is_left_to_load(f: Frontend, now: u64, visible: bool)
    requires
        f.last_seen_ms == 0,
    ensures
        overlay::cared_for(f, now, visible) == (f, Care::Nothing),
{
}

// --- orders ----------------------------------------------------------------------------------
/// The orders are different words.
proof fn lemma_orders()
    ensures
        "show"@.len() == 4,
        "hide"@.len() == 4,
        "toggle"@.len() == 6,
        "quit"@.len() == 4,
        "pet:"@.len() == 4,
        "show"@ != "hide"@,
        "show"@ != "quit"@,
        "show"@ != "pet:"@,
        "hide"@ != "quit"@,
        "hide"@ != "pet:"@,
        "quit"@ != "pet:"@,
{
    reveal_strlit("show");
    reveal_strlit("hide");
    reveal_strlit("toggle");
    reveal_strlit("quit");
    reveal_strlit("pet:");
    assert("show"@[0] != "hide"@[0]);
    assert("show"@[0] != "quit"@[0]);
    assert("show"@[0] != "pet:"@[0]);
    assert("hide"@[0] != "quit"@[0]);
    assert("hide"@[0] != "pet:"@[0]);
    assert("quit"@[0] != "pet:"@[0]);
}

/// An order is one of these words, or names a pet.
pub proof fn an_order_is_one_of_these(action: Seq<char>, pet: Seq<char>)
    ensures
        overlay::command_of(action) == CommandView::Show <==> action == "show"@,
        overlay::command_of(action) == CommandView::Hide <==> action == "hide"@,
        overlay::command_of(action) == CommandView::Toggle <==> action == "toggle"@,
        overlay::command_of(action) == CommandView::Quit <==> action == "quit"@,
        overlay::command_of("pet:"@ + pet) == CommandView::Pet(pet),
        overlay::command_of(action) matches CommandView::Pet(named) ==> action == "pet:"@ + named,
{
    lemma_orders();
    reveal_strlit("pet:");
    reveal_strlit("show");
    reveal_strlit("hide");
    reveal_strlit("toggle");
    reveal_strlit("quit");
    let whole = "pet:"@ + pet;
    assert(whole.take(4) =~= "pet:"@);
    assert(whole.skip(4) =~= pet);
    assert(whole[0] == 'p');
    assert("show"@[0] == 's' && "hide"@[0] == 'h' && "toggle"@[0] == 't' && "quit"@[0] == 'q');
    if let CommandView::Pet(named) = overlay::command_of(action) {
        assert(action =~= action.take(4) + action.skip(4));
    }
}

/// What was left is obeyed, except that a pet waits until somebody listens; what
/// makes no sense is thrown away.
pub proof fn what_was_left_is_obeyed(v: JsonView, action: Seq<char>, listening: bool)
    requires
        v.text_at("action"@) == Some(action),
    ensures
        !listening && strings::begins(action, "pet:"@) ==> overlay::drained(Some(v), listening)
            == DrainView::Later,
        listening || !strings::begins(action, "pet:"@) ==> overlay::drained(Some(v), listening)
            == DrainView::Obey(overlay::command_of(action)),
        overlay::drained(None, listening) == DrainView::Discard,
        forall|w: JsonView|
            (#[trigger] w.text_at("action"@)) is None ==> overlay::drained(Some(w), listening)
                == DrainView::Discard,
{
}

/// The entries of the menu are different words.
proof fn lemma_menu()
    ensures
        "toggle"@.len() == 6,
        "click_through"@.len() == 13,
        "quiet"@.len() == 5,
        "reload"@.len() == 6,
        "pets"@.len() == 4,
        "hooks"@.len() == 5,
        "quit"@.len() == 4,
        "toggle"@ != "reload"@,
        "quiet"@ != "hooks"@,
        "pets"@ != "quit"@,
{
    reveal_strlit("toggle");
    reveal_strlit("click_through");
    reveal_strlit("quiet");
    reveal_strlit("reload");
    reveal_strlit("pets");
    reveal_strlit("hooks");
    reveal_strlit("quit");
    assert("toggle"@[0] != "reload"@[0]);
    assert("quiet"@[0] != "hooks"@[0]);
    assert("pets"@[0] != "quit"@[0]);
}

/// An entry of the menu does what it is called.
pub proof fn an_entry_does_what_it_is_called(id: Seq<char>)
    ensures
        ({
            let what = overlay::menu_spec(id);
            &&& what == MenuAction::Toggle <==> id == "toggle"@
            &&& what == MenuAction::ClickThrough <==> id == "click_through"@
            &&& what == MenuAction::Quiet <==> id == "quiet"@
            &&& what == MenuAction::Reload <==> id == "reload"@
            &&& what == MenuAction::Pets <==> id == "pets"@
            &&& what == MenuAction::Hooks <==> id == "hooks"@
            &&& what == MenuAction::Quit <==> id == "quit"@
        }),
{
    lemma_menu();
}

/// An entry that starts a program that is gone is corrected, one that starts another
/// program that is there is somebody's own, and without one it is made, once.
pub proof fn an_entry_is_made_once_and_corrected(
    registered: Seq<char>,
    exe: Seq<char>,
    present: bool,
    windows: bool,
    decided: bool,
)
    ensures
        ({
            let what = overlay::autostart_spec(Some(registered), exe, present, windows, decided);
            let same = desktop::normal(registered, windows) == desktop::normal(exe, windows);
            &&& what is Right <==> same
            &&& what is Foreign <==> !same && present
            &&& what is Correct <==> !same && !present
        }),
        overlay::autostart_spec(None, exe, present, windows, true) is Off,
        overlay::autostart_spec(None, exe, present, windows, false) is Register,
{
}

/// A window is looked for by the folder it shows, then by the project, then by the
/// agent.
pub proof fn a_window_is_looked_for_by_its_folder(project: Seq<char>, workspace: Seq<char>)
    ensures
        ({
            let names = overlay::fragments_spec(project, workspace);
            &&& names.len() > 0
            &&& workspace.len() > 0 ==> names[0] == workspace
            &&& workspace.len() > 0 && project.len() > 0 ==> names.len() == 3 && names[1] == project
            &&& workspace.len() == 0 && project.len() > 0 ==> names.len() == 2
                && names[0] == project
            &&& workspace.len() > 0 && project.len() == 0 ==> names.len() == 2
            &&& names.last() == crate::agent::word_spec()
        }),
{
}

/// The pet starts in the last corner of the work area, twenty-four off its sides, and
/// at the first where there is no room.
pub proof fn the_pet_starts_in_the_corner(start: int, length: int, size: int)
    ensures
        size + 24 <= length ==> overlay::cornered(start, length, size) + size + 24 == start + length,
        size + 24 > length ==> overlay::cornered(start, length, size) == start,
{
}

/// The pointer is looked for more often the closer it is, and seldom while every click
/// falls through.
pub proof fn a_close_pointer_is_looked_for_often(proximity: Proximity, click_through: bool)
    ensures
        overlay::looked_for_again(proximity, true) == 220,
        overlay::looked_for_again(Proximity::Far, click_through) == 220,
        overlay::looked_for_again(Proximity::Approaching, false) == 50,
        overlay::looked_for_again(Proximity::Near, false) == 12,
{
}

} // verus!
