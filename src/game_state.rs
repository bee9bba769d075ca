//! Plain game state: what the interface shows about a selection, the mouse,
//! the train track, and the colours of resources.
use crate::components::Resource;
use vstd::prelude::*;

verus! {

/// What the interface shows about a selected worker.
#[derive(Clone, Debug, Default)]
pub struct VikingInfo {
    pub name: String,
    pub state: String,
    pub inventory: String,
    pub place_of_work: String,
    pub intelligence: usize,
    pub strength: usize,
    pub stamina: usize,
    pub needs: String,
    pub rest_state: String,
}

/// What the interface shows about a selected workplace.
#[derive(Clone, Debug, Default)]
pub struct PlaceOfWorkInfo {
    pub name: String,
    pub task: String,
    pub workers: usize,
    pub max_workers: usize,
    pub stock: String,
}

/// What the interface shows about a selected storehouse.
#[derive(Clone, Debug, Default)]
pub struct StorageInfo {
    pub stock: String,
}

/// The details of whatever the player selected.
#[derive(Clone, Debug)]
pub enum SelectedItemInfo {
    Viking(VikingInfo),
    PlaceOfWork(PlaceOfWorkInfo),
    Storage(StorageInfo),
}

/// The state of one mouse button.
#[derive(Clone, Copy, Debug, PartialEq, Eq, Structural)]
pub enum ClickState {
    Released,
    Down,
    JustReleased,
}

/// Where the mouse is and what its buttons do.
#[derive(Clone, Copy, Debug)]
pub struct MouseState {
    pub position: Option<glam::Vec2>,
    pub left_click_state: ClickState,
    pub right_click_state: ClickState,
    pub middle_click_state: ClickState,
}

/// A button's state once the frame that saw it released is over.
pub open spec fn settled(c: ClickState) -> ClickState {
    match c {
        ClickState::JustReleased => ClickState::Released,
        _ => c,
    }
}

fn settle(c: ClickState) -> (r: ClickState)
    ensures
        r == settled(c),
{
    match c {
        ClickState::JustReleased => ClickState::Released,
        _ => c,
    }
}

/// Ends the frame for the mouse buttons: a button released during the frame
/// is now simply released; the others and the position are unchanged.
pub fn reset_mouse_clicks(mouse_state: &mut MouseState)
    ensures
        final(mouse_state).position == old(mouse_state).position,
        final(mouse_state).left_click_state == settled(old(mouse_state).left_click_state),
        final(mouse_state).right_click_state == settled(old(mouse_state).right_click_state),
        final(mouse_state).middle_click_state == settled(old(mouse_state).middle_click_state),
{
    mouse_state.left_click_state = settle(mouse_state.left_click_state);
    mouse_state.right_click_state = settle(mouse_state.right_click_state);
    mouse_state.middle_click_state = settle(mouse_state.middle_click_state);
}

/// Tag: the entity the camera follows.
#[derive(Clone, Copy, Debug)]
pub struct CameraTarget;

/// One piece of track, linked to the pieces before and after it.
pub struct TrackSegment {
    pub a: Option<hecs::Entity>,
    pub b: Option<hecs::Entity>,
}

/// A train and the piece of track it heads for.
pub struct Train {
    pub current_segment: hecs::Entity,
}

/// The value of a hexadecimal digit, or -1 for any other character.
pub open spec fn hex_value(c: char) -> int {
    let v = c as u32;
    if 0x30 <= v <= 0x39 {
        v - 0x30
    } else if 0x61 <= v <= 0x66 {
        v - 0x61 + 10
    } else if 0x41 <= v <= 0x46 {
        v - 0x41 + 10
    } else {
        -1
    }
}

/// The text after its leading `#` characters.
pub open spec fn without_leading_hashes(s: Seq<char>) -> Seq<char>
    decreases s.len(),
{
    if s.len() > 0 && s[0] == '#' {
        without_leading_hashes(s.drop_first())
    } else {
        s
    }
}

/// After its leading `#` characters the text starts with six hexadecimal
/// digits.
pub open spec fn is_colour_code(s: Seq<char>) -> bool {
    let t = without_leading_hashes(s);
    &&& t.len() >= 6
    &&& forall|i: int| 0 <= i < 6 ==> hex_value(#[trigger] t[i]) >= 0
}

/// The byte that two hexadecimal digits write.
pub open spec fn hex_byte(hi: char, lo: char) -> int {
    hex_value(hi) * 16 + hex_value(lo)
}

/// The red, green and blue bytes that a colour code writes.
pub open spec fn colour_of(s: Seq<char>) -> (int, int, int) {
    let t = without_leading_hashes(s);
    (hex_byte(t[0], t[1]), hex_byte(t[2], t[3]), hex_byte(t[4], t[5]))
}

fn hex_digit(c: char) -> (r: u8)
    requires
        hex_value(c) >= 0,
    ensures
        r == hex_value(c),
{
    let v = c as u32;
    if 0x30 <= v && v <= 0x39 {
        (v - 0x30) as u8
    } else if 0x61 <= v && v <= 0x66 {
        (v - 0x61 + 10) as u8
    } else {
        (v - 0x41 + 10) as u8
    }
}

/// Reads a colour code such as `#1EFC0A` as its red, green and blue bytes.
pub fn hex_to_rgb(hex: &str) -> (r: (u8, u8, u8))
    requires
        is_colour_code(hex@),
    ensures
        (r.0 as int, r.1 as int, r.2 as int) == colour_of(hex@),
{
    let n = hex.unicode_len();
    let mut start: usize = 0;
    proof {
        assert(hex@.subrange(0, n as int) =~= hex@);
    }
    while start < n && hex.get_char(start) == '#'
        invariant
            n == hex@.len(),
            start <= n,
            without_leading_hashes(hex@.subrange(start as int, n as int)) == without_leading_hashes(hex@),
        decreases n - start,
    {
        proof {
            let s = hex@.subrange(start as int, n as int);
            assert(s.drop_first() =~= hex@.subrange(start + 1, n as int));
        }
        start = start + 1;
    }
    proof {
        let s = hex@.subrange(start as int, n as int);
        assert(without_leading_hashes(s) == s);
        assert(s.len() >= 6);
        assert forall|i: int| 0 <= i < 6 implies s[i] == hex@[start + i] by {}
        assert forall|i: int| 0 <= i < 6 implies hex_value(#[trigger] hex@[start + i]) >= 0 by {
            assert(s[i] == hex@[start + i]);
        }
    }
    let d0 = hex_digit(hex.get_char(start));
    let d1 = hex_digit(hex.get_char(start + 1));
    let d2 = hex_digit(hex.get_char(start + 2));
    let d3 = hex_digit(hex.get_char(start + 3));
    let d4 = hex_digit(hex.get_char(start + 4));
    let d5 = hex_digit(hex.get_char(start + 5));
    (d0 * 16 + d1, d2 * 16 + d3, d4 * 16 + d5)
}

/// The colour code that marks a resource on the map.
pub open spec fn resource_code(r: Resource) -> Seq<char> {
    match r {
        Resource::Wood => "#795548"@,
        Resource::Coal => "#000000"@,
        Resource::Uranium => "#1EFC0A"@,
        Resource::Boots => "#424242"@,
        Resource::Fish => "#2196F3"@,
        Resource::Bread => "#FFF176"@,
        Resource::HorseMeat => "#B71C1C"@,
        Resource::Crabs => "#FF5722"@,
        Resource::Amethyst => "#9C27B0"@,
        Resource::GolfBalls => "#FFFFFF"@,
    }
}

/// Every resource's colour code is well formed.
proof fn lemma_resource_codes(r: Resource)
    ensures
        is_colour_code(resource_code(r)),
{
    reveal_strlit("#795548");
    reveal_strlit("#000000");
    reveal_strlit("#1EFC0A");
    reveal_strlit("#424242");
    reveal_strlit("#2196F3");
    reveal_strlit("#FFF176");
    reveal_strlit("#B71C1C");
    reveal_strlit("#FF5722");
    reveal_strlit("#9C27B0");
    reveal_strlit("#FFFFFF");
    reveal_with_fuel(without_leading_hashes, 2);
    let s = resource_code(r);
    assert(s.drop_first().len() == 6);
    assert(s.drop_first()[0] != '#');
}

/// The red, green and blue bytes of a resource's map colour.
pub fn get_resource_colour(r: Resource) -> (c: (u8, u8, u8))
    ensures
        (c.0 as int, c.1 as int, c.2 as int) == colour_of(resource_code(r)),
{
    proof {
        reveal_strlit("#795548");
        reveal_strlit("#000000");
        reveal_strlit("#1EFC0A");
        reveal_strlit("#424242");
        reveal_strlit("#2196F3");
        reveal_strlit("#FFF176");
        reveal_strlit("#B71C1C");
        reveal_strlit("#FF5722");
        reveal_strlit("#9C27B0");
        reveal_strlit("#FFFFFF");
        lemma_resource_codes(r);
    }
    match r {
        Resource::Wood => hex_to_rgb("#795548"),
        Resource::Coal => hex_to_rgb("#000000"),
        Resource::Uranium => hex_to_rgb("#1EFC0A"),
        Resource::Boots => hex_to_rgb("#424242"),
        Resource::Fish => hex_to_rgb("#2196F3"),
        Resource::Bread => hex_to_rgb("#FFF176"),
        Resource::HorseMeat => hex_to_rgb("#B71C1C"),
        Resource::Crabs => hex_to_rgb("#FF5722"),
        Resource::Amethyst => hex_to_rgb("#9C27B0"),
        Resource::GolfBalls => hex_to_rgb("#FFFFFF"),
    }
}

fn same_text(a: &str, b: &str) -> (r: bool)
    ensures
        r == (a@ == b@),
{
    let n = a.unicode_len();
    if n != b.unicode_len() {
        return false;
    }
    let mut i: usize = 0;
    while i < n
        invariant
            n == a@.len(),
            n == b@.len(),
            i <= n,
            forall|k: int| 0 <= k < i ==> a@[k] == b@[k],
        decreases n - i,
    {
        if a.get_char(i) != b.get_char(i) {
            return false;
        }
        i = i + 1;
    }
    proof {
        assert(a@ =~= b@);
    }
    true
}

/// The text the build menu shows for a kind of building.
pub open spec fn description_of(name: Seq<char>) -> Seq<char> {
    if name == "Mine"@ {
        "A place where raw iron can be mined. By mining."@
    } else if name == "Forge"@ {
        "A place where raw iron can be smelted into.. less.. raw iron."@
    } else if name == "Factory"@ {
        "A place where pure iron can be made into PAPERCLIPS!"@
    } else {
        "Honestly I've got no idea"@
    }
}

/// Describes a kind of building for the build menu.
pub fn get_description(name: &str) -> (r: &'static str)
    ensures
        r@ == description_of(name@),
{
    if same_text(name, "Mine") {
        "A place where raw iron can be mined. By mining."
    } else if same_text(name, "Forge") {
        "A place where raw iron can be smelted into.. less.. raw iron."
    } else if same_text(name, "Factory") {
        "A place where pure iron can be made into PAPERCLIPS!"
    } else {
        "Honestly I've got no idea"
    }
}

} // verus!
