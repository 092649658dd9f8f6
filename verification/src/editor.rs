//! The editor's screens: which screen follows on a key or a menu button,
//! and the hotbar of voxel values with its color picker.

use vstd::prelude::*;
use crate::tags::{contains_tag, find_last_indexed, has_tag, indexed, indexed_tag, last_indexed};
use crate::ui::{Interaction, UiTags};

verus! {

broadcast use vstd::string::group_string_axioms;

/// The editor's screens.
#[derive(Clone, Copy, Debug, PartialEq, Eq, Hash, Structural)]
pub enum AppState {
    MainMenu,
    VoxelEditMode,
    VoxelEditOptions,
}

impl Default for AppState {
    fn default() -> (s: Self)
        ensures
            s == AppState::MainMenu,
    {
        AppState::MainMenu
    }
}

/// The screen that a key press leads to, if any.  `escape` and `options` say
/// whether Escape and R were just pressed; `escape_leaves_menu` is whether
/// Escape may leave the main menu (not on the web, where it cannot regain
/// full screen).
pub open spec fn screen_after_keys(current: AppState, escape: bool, options: bool, escape_leaves_menu: bool) -> Option<AppState> {
    match current {
        AppState::MainMenu => if escape && escape_leaves_menu { Some(AppState::VoxelEditMode) } else { None },
        AppState::VoxelEditMode => if options {
            Some(AppState::VoxelEditOptions)
        } else if escape {
            Some(AppState::MainMenu)
        } else {
            None
        },
        AppState::VoxelEditOptions => if escape {
            Some(AppState::MainMenu)
        } else if options {
            Some(AppState::VoxelEditMode)
        } else {
            None
        },
    }
}

/// R switches between the edit screen and its options, so pressing it twice
/// comes back to the screen it started from.
pub proof fn lemma_options_key_toggles(s: AppState, escape_leaves_menu: bool)
    requires
        s is VoxelEditMode || s is VoxelEditOptions,
    ensures
        screen_after_keys(s, false, true, escape_leaves_menu) matches Some(t)
            && screen_after_keys(t, false, true, escape_leaves_menu) == Some(s),
{
}

/// Escape alone leads from either edit screen to the main menu, and from the
/// main menu back to the edit screen exactly where Escape may leave it.
pub proof fn lemma_escape_leads_to_menu(s: AppState, escape_leaves_menu: bool)
    ensures
        !(s is MainMenu) ==> screen_after_keys(s, true, false, escape_leaves_menu) == Some(AppState::MainMenu),
        s is MainMenu ==> screen_after_keys(s, true, false, escape_leaves_menu) == (if escape_leaves_menu {
            Some(AppState::VoxelEditMode)
        } else {
            None
        }),
{
}

/// The number of hotbar slots.
pub const HOTBAR_SLOTS: usize = 10;

/// The number of colors in the picker.
pub const PICKER_COLORS: usize = 255;

/// The voxel value held by each hotbar slot, and the selected slot.  Voxel
/// value `v` is drawn with palette color `v - 1`.
pub struct HotbarVoxels {
    pub voxels: Vec<u8>,
    pub selected_index: usize,
}

/// The border an element gets.
#[derive(Clone, Copy, Debug, PartialEq, Eq, Structural)]
pub enum Border {
    Black,
    Gray,
}

/// The last index below `n` at which a key was just pressed.
pub open spec fn last_pressed(pressed: Seq<bool>, n: int) -> Option<int>
    decreases n,
{
    if n <= 0 {
        None
    } else if pressed[n - 1] {
        Some(n - 1)
    } else {
        last_pressed(pressed, n - 1)
    }
}

/// The key that `last_pressed` finds is pressed and no later key below `n`
/// is; when it finds none, no key below `n` is pressed.
pub proof fn lemma_last_pressed_is_largest(pressed: Seq<bool>, n: int)
    requires
        0 <= n <= pressed.len(),
    ensures
        last_pressed(pressed, n) matches Some(i) ==> 0 <= i < n && pressed[i] && forall|j: int| i < j < n ==> !pressed[j],
        last_pressed(pressed, n) is None ==> forall|j: int| 0 <= j < n ==> !pressed[j],
    decreases n,
{
    if n > 0 {
        lemma_last_pressed_is_largest(pressed, n - 1);
    }
}

impl Default for HotbarVoxels {
    fn default() -> (h: Self)
        ensures
            h.voxels@ == seq![16u8, 95, 103, 107, 172, 216, 221, 199, 240, 255],
            h.selected_index == 0,
    {
        let voxels: Vec<u8> = vec![16, 95, 103, 107, 172, 216, 221, 199, 240, 255];
        HotbarVoxels { voxels, selected_index: 0 }
    }
}

impl HotbarVoxels {
    /// Selects the slot of the last hotbar key that was just pressed, if any;
    /// `pressed[i]` says whether the key of slot `i` was.
    pub fn select_by_keys(&mut self, pressed: &Vec<bool>)
        ensures
            final(self).voxels == old(self).voxels,
            final(self).selected_index == (match last_pressed(pressed@, pressed@.len() as int) {
                Some(i) => i as usize,
                None => old(self).selected_index,
            }),
            (exists|i: int| 0 <= i < pressed@.len() && pressed@[i]) ==> {
                &&& final(self).selected_index < pressed@.len()
                &&& pressed@[final(self).selected_index as int]
                &&& forall|j: int| final(self).selected_index < j < pressed@.len() ==> !pressed@[j]
            },
            (forall|i: int| 0 <= i < pressed@.len() ==> !pressed@[i]) ==> final(self).selected_index
                == old(self).selected_index,
    {
        proof {
            lemma_last_pressed_is_largest(pressed@, pressed@.len() as int);
        }
        let mut i: usize = 0;
        let ghost start = self.selected_index;
        let mut found = false;
        while i < pressed.len()
            invariant
                i <= pressed.len(),
                self.voxels == old(self).voxels,
                start == old(self).selected_index,
                found == (last_pressed(pressed@, i as int) is Some),
                found ==> last_pressed(pressed@, i as int) == Some(self.selected_index as int),
                !found ==> self.selected_index == start,
            decreases pressed.len() - i,
        {
            if pressed[i] {
                self.selected_index = i;
                found = true;
            }
            i = i + 1;
        }
    }

    /// The voxel value of the selected slot, which the edit preview writes.
    pub fn selected_voxel(&self) -> (v: u8)
        requires
            self.selected_index < self.voxels.len(),
        ensures
            v == self.voxels@[self.selected_index as int],
    {
        self.voxels[self.selected_index]
    }

    /// The border of a hotbar item: gray for the selected slot's item, black
    /// for the other items, unchanged for elements that are not items.
    pub fn item_border(&self, tags: &UiTags) -> (r: Option<Border>)
        requires
            self.selected_index < usize::MAX,
        ensures
            r == (if has_tag(tags.tags@, indexed("hotbar_item_color"@, (self.selected_index + 1) as nat)) {
                Some(Border::Gray)
            } else if has_tag(tags.tags@, "hotbar_item_color"@) {
                Some(Border::Black)
            } else {
                None
            }),
    {
        let selected_tag = indexed_tag("hotbar_item_color", self.selected_index + 1);
        if contains_tag(&tags.tags, selected_tag.as_str()) {
            Some(Border::Gray)
        } else if contains_tag(&tags.tags, "hotbar_item_color") {
            Some(Border::Black)
        } else {
            None
        }
    }

    /// The palette color a hotbar item shows: that of the voxel in the slot
    /// the item is numbered with (items are numbered from 1).
    pub fn item_color(&self, tags: &UiTags) -> (r: Option<usize>)
        requires
            has_tag(tags.tags@, "hotbar_item_color"@) ==> forall|i: nat| 1 <= i < 11
                && #[trigger] has_tag(tags.tags@, indexed("hotbar_item_color"@, i))
                ==> i - 1 < self.voxels.len() && self.voxels@[i - 1] >= 1,
        ensures
            r == (if has_tag(tags.tags@, "hotbar_item_color"@) {
                match last_indexed(tags.tags@, "hotbar_item_color"@, 1, 11) {
                    Some(i) => Some((self.voxels@[i - 1] - 1) as usize),
                    None => None,
                }
            } else {
                None
            }),
    {
        if !contains_tag(&tags.tags, "hotbar_item_color") {
            return None;
        }
        match find_last_indexed(&tags.tags, "hotbar_item_color", 1, 11) {
            Some(i) => {
                assert(has_tag(tags.tags@, indexed("hotbar_item_color"@, i as nat)));
                Some(self.voxels[i - 1] as usize - 1)
            },
            None => None,
        }
    }

    /// The border of a color-picker item: gray for the color of the selected
    /// slot's voxel, black for the other items, unchanged for elements that
    /// are not picker items.
    pub fn picker_border(&self, tags: &UiTags) -> (r: Option<Border>)
        requires
            has_tag(tags.tags@, "color_picker_item_color"@) ==> self.selected_index < self.voxels.len()
                && self.voxels@[self.selected_index as int] >= 1,
        ensures
            r == (if !has_tag(tags.tags@, "color_picker_item_color"@) {
                None
            } else if has_tag(tags.tags@, indexed("color_picker_item_color"@, (self.voxels@[self.selected_index as int] - 1) as nat)) {
                Some(Border::Gray)
            } else {
                Some(Border::Black)
            }),
    {
        if !contains_tag(&tags.tags, "color_picker_item_color") {
            return None;
        }
        let color = (self.voxels[self.selected_index] - 1) as usize;
        let selected_tag = indexed_tag("color_picker_item_color", color);
        if contains_tag(&tags.tags, selected_tag.as_str()) {
            Some(Border::Gray)
        } else {
            Some(Border::Black)
        }
    }

    /// Assigns the color of a pressed color-picker button to the selected
    /// slot: the slot then holds the voxel value drawn with that color.
    /// Nothing changes for an element that is not a picker button.
    pub fn assign_picked_color(&mut self, interaction: Interaction, tags: &UiTags)
        requires
            picked_color(interaction, tags.tags@) is Some ==> old(self).selected_index < old(self).voxels.len(),
        ensures
            final(self).selected_index == old(self).selected_index,
            (match picked_color(interaction, tags.tags@) {
                Some(c) => final(self).voxels@ == old(self).voxels@.update(old(self).selected_index as int, (c + 1) as u8),
                None => final(self).voxels@ == old(self).voxels@,
            }),
    {
        if interaction != Interaction::Pressed {
            return;
        }
        if !contains_tag(&tags.tags, "color_picker_button") {
            return;
        }
        match find_last_indexed(&tags.tags, "color_picker_button", 0, PICKER_COLORS) {
            Some(c) => {
                let selected = self.selected_index;
                self.voxels.set(selected, c as u8 + 1);
            },
            None => {},
        }
    }

    /// Selects the slot of a pressed hotbar button (buttons are numbered from
    /// 1).  Nothing changes for an element that is not a hotbar button.
    pub fn select_by_click(&mut self, interaction: Interaction, tags: &UiTags)
        ensures
            final(self).voxels == old(self).voxels,
            final(self).selected_index == (match clicked_slot(interaction, tags.tags@) {
                Some(i) => i as usize,
                None => old(self).selected_index,
            }),
    {
        if interaction != Interaction::Pressed {
            return;
        }
        if !contains_tag(&tags.tags, "hotbar_button") {
            return;
        }
        match find_last_indexed(&tags.tags, "hotbar_button", 1, 11) {
            Some(i) => {
                self.selected_index = i - 1;
            },
            None => {},
        }
    }
}

/// The color a pressed picker button stands for: the last index in
/// `[0, 255)` it is numbered with.
pub open spec fn picked_color(interaction: Interaction, tags: Seq<String>) -> Option<nat> {
    if interaction is Pressed && has_tag(tags, "color_picker_button"@) {
        last_indexed(tags, "color_picker_button"@, 0, PICKER_COLORS as nat)
    } else {
        None
    }
}

/// The slot a pressed hotbar button stands for: one less than the last
/// number in `[1, 11)` it carries.
pub open spec fn clicked_slot(interaction: Interaction, tags: Seq<String>) -> Option<nat> {
    if interaction is Pressed && has_tag(tags, "hotbar_button"@) {
        match last_indexed(tags, "hotbar_button"@, 1, 11) {
            Some(i) => Some((i - 1) as nat),
            None => None,
        }
    } else {
        None
    }
}

/// The palette color a color-picker item shows: the last index in
/// `[0, 255)` it is numbered with.
pub fn picker_item_color(tags: &UiTags) -> (r: Option<usize>)
    ensures
        r == (if has_tag(tags.tags@, "color_picker_item_color"@) {
            match last_indexed(tags.tags@, "color_picker_item_color"@, 0, PICKER_COLORS as nat) {
                Some(i) => Some(i as usize),
                None => None,
            }
        } else {
            None
        }),
{
    if !contains_tag(&tags.tags, "color_picker_item_color") {
        return None;
    }
    find_last_indexed(&tags.tags, "color_picker_item_color", 0, PICKER_COLORS)
}

/// A change of one channel of a palette color by one step.
#[derive(Clone, Copy, Debug, PartialEq, Eq, Structural)]
pub struct ColorEdit {
    /// 0 for red, 1 for green, 2 for blue.
    pub channel: usize,
    pub increase: bool,
}

/// The channel edits a button stands for, in the order red down, red up,
/// green down, green up, blue down, blue up.
pub open spec fn color_edits_of(tags: Seq<String>) -> Seq<ColorEdit> {
    let e = |tag: Seq<char>, c: usize, up: bool| if has_tag(tags, tag) { seq![ColorEdit { channel: c, increase: up }] } else { Seq::<ColorEdit>::empty() };
    e("edit_r-"@, 0, false) + e("edit_r+"@, 0, true) + e("edit_g-"@, 1, false) + e("edit_g+"@, 1, true)
        + e("edit_b-"@, 2, false) + e("edit_b+"@, 2, true)
}

/// The letter of a color channel in its buttons' tags.
pub open spec fn channel_letter(c: int) -> char {
    if c == 0 { 'r' } else if c == 1 { 'g' } else { 'b' }
}

/// The tag of the button that steps channel `c` up (`+`) or down (`-`):
/// `edit_` followed by the channel's letter and the sign.
pub open spec fn channel_tag(c: int, up: bool) -> Seq<char> {
    seq!['e', 'd', 'i', 't', '_', channel_letter(c), if up { '+' } else { '-' }]
}

/// The position of an edit in the order red down, red up, green down,
/// green up, blue down, blue up.
pub open spec fn edit_rank(e: ColorEdit) -> int {
    2 * e.channel + if e.increase { 1int } else { 0int }
}

proof fn lemma_concat_contains(a: Seq<ColorEdit>, b: Seq<ColorEdit>, x: ColorEdit)
    ensures
        (a + b).contains(x) <==> (a.contains(x) || b.contains(x)),
{
    if (a + b).contains(x) {
        let i = choose|i: int| 0 <= i < (a + b).len() && (a + b)[i] == x;
        if i >= a.len() {
            assert(b[i - a.len()] == x);
        }
    }
    if a.contains(x) {
        let i = choose|i: int| 0 <= i < a.len() && a[i] == x;
        assert((a + b)[i] == x);
    }
    if b.contains(x) {
        let i = choose|i: int| 0 <= i < b.len() && b[i] == x;
        assert((a + b)[a.len() + i] == x);
    }
}

proof fn lemma_push_piece(q: Seq<ColorEdit>, piece: Seq<ColorEdit>, k: int)
    requires
        forall|i: int, j: int| 0 <= i < j < q.len() ==> edit_rank(q[i]) < edit_rank(q[j]),
        forall|i: int| 0 <= i < q.len() ==> edit_rank(#[trigger] q[i]) < k,
        forall|i: int| 0 <= i < piece.len() ==> edit_rank(#[trigger] piece[i]) == k,
        piece.len() <= 1,
    ensures
        forall|i: int, j: int| 0 <= i < j < (q + piece).len() ==> edit_rank((q + piece)[i]) < edit_rank((q + piece)[j]),
        forall|i: int| 0 <= i < (q + piece).len() ==> edit_rank(#[trigger] (q + piece)[i]) < k + 1,
{
    assert forall|i: int, j: int| 0 <= i < j < (q + piece).len() implies edit_rank((q + piece)[i]) < edit_rank((q + piece)[j]) by {
        if j < q.len() {
        } else {
            assert((q + piece)[j] == piece[j - q.len()]);
            assert((q + piece)[i] == q[i]);
        }
    }
    assert forall|i: int| 0 <= i < (q + piece).len() implies edit_rank(#[trigger] (q + piece)[i]) < k + 1 by {
        if i < q.len() {
            assert((q + piece)[i] == q[i]);
        } else {
            assert((q + piece)[i] == piece[i - q.len()]);
        }
    }
}

/// Each channel button stands for a step of its own channel in its own
/// direction: the edits of a tag list are exactly those whose button tag
/// (`edit_`, the channel's letter, the sign) the list holds, each once, in
/// the order red down, red up, green down, green up, blue down, blue up.
pub proof fn lemma_color_edits_follow_buttons(tags: Seq<String>)
    ensures
        forall|c: usize, up: bool| #[trigger] color_edits_of(tags).contains(ColorEdit { channel: c, increase: up })
            <==> (c < 3 && has_tag(tags, channel_tag(c as int, up))),
        forall|i: int| 0 <= i < color_edits_of(tags).len() ==> #[trigger] color_edits_of(tags)[i].channel < 3,
        forall|i: int, j: int| 0 <= i < j < color_edits_of(tags).len() ==> edit_rank(color_edits_of(tags)[i])
            < edit_rank(color_edits_of(tags)[j]),
{
    reveal_strlit("edit_r-");
    reveal_strlit("edit_r+");
    reveal_strlit("edit_g-");
    reveal_strlit("edit_g+");
    reveal_strlit("edit_b-");
    reveal_strlit("edit_b+");
    assert("edit_r-"@ =~= channel_tag(0, false));
    assert("edit_r+"@ =~= channel_tag(0, true));
    assert("edit_g-"@ =~= channel_tag(1, false));
    assert("edit_g+"@ =~= channel_tag(1, true));
    assert("edit_b-"@ =~= channel_tag(2, false));
    assert("edit_b+"@ =~= channel_tag(2, true));
    let p = |c: usize, up: bool| if has_tag(tags, channel_tag(c as int, up)) {
        seq![ColorEdit { channel: c, increase: up }]
    } else {
        Seq::<ColorEdit>::empty()
    };
    let q0 = p(0, false);
    let q1 = q0 + p(0, true);
    let q2 = q1 + p(1, false);
    let q3 = q2 + p(1, true);
    let q4 = q3 + p(2, false);
    let q5 = q4 + p(2, true);
    assert(color_edits_of(tags) =~= q5);
    lemma_push_piece(Seq::empty(), p(0, false), 0);
    assert(Seq::<ColorEdit>::empty() + p(0, false) =~= q0);
    lemma_push_piece(q0, p(0, true), 1);
    lemma_push_piece(q1, p(1, false), 2);
    lemma_push_piece(q2, p(1, true), 3);
    lemma_push_piece(q3, p(2, false), 4);
    lemma_push_piece(q4, p(2, true), 5);
    assert forall|i: int| 0 <= i < q5.len() implies #[trigger] q5[i].channel < 3 by {
        assert(edit_rank(q5[i]) < 6);
    }
    assert forall|c: usize, up: bool| #[trigger] q5.contains(ColorEdit { channel: c, increase: up })
        <==> (c < 3 && has_tag(tags, channel_tag(c as int, up))) by {
        let x = ColorEdit { channel: c, increase: up };
        lemma_concat_contains(q4, p(2, true), x);
        lemma_concat_contains(q3, p(2, false), x);
        lemma_concat_contains(q2, p(1, true), x);
        lemma_concat_contains(q1, p(1, false), x);
        lemma_concat_contains(q0, p(0, true), x);
        if c < 3 && has_tag(tags, channel_tag(c as int, up)) {
            assert(p(c, up)[0] == x);
            assert(p(c, up).contains(x));
        }
    }
}

/// The channel edits a button of the color editor stands for.
pub fn color_edits(tags: &UiTags) -> (r: Vec<ColorEdit>)
    ensures
        r@ == color_edits_of(tags.tags@),
        forall|c: usize, up: bool| #[trigger] r@.contains(ColorEdit { channel: c, increase: up }) <==> (c < 3
            && has_tag(tags.tags@, channel_tag(c as int, up))),
        forall|i: int| 0 <= i < r@.len() ==> #[trigger] r@[i].channel < 3,
        forall|i: int, j: int| 0 <= i < j < r@.len() ==> edit_rank(r@[i]) < edit_rank(r@[j]),
{
    let r = color_edits_in_order(tags);
    proof {
        lemma_color_edits_follow_buttons(tags.tags@);
    }
    r
}

fn color_edits_in_order(tags: &UiTags) -> (r: Vec<ColorEdit>)
    ensures
        r@ == color_edits_of(tags.tags@),
{
    let mut r: Vec<ColorEdit> = Vec::new();
    let ghost t = tags.tags@;
    let ghost e = |tag: Seq<char>, c: usize, up: bool| if has_tag(t, tag) { seq![ColorEdit { channel: c, increase: up }] } else { Seq::<ColorEdit>::empty() };
    if contains_tag(&tags.tags, "edit_r-") {
        r.push(ColorEdit { channel: 0, increase: false });
    }
    assert(r@ =~= e("edit_r-"@, 0, false));
    if contains_tag(&tags.tags, "edit_r+") {
        r.push(ColorEdit { channel: 0, increase: true });
    }
    assert(r@ =~= e("edit_r-"@, 0, false) + e("edit_r+"@, 0, true));
    if contains_tag(&tags.tags, "edit_g-") {
        r.push(ColorEdit { channel: 1, increase: false });
    }
    assert(r@ =~= e("edit_r-"@, 0, false) + e("edit_r+"@, 0, true) + e("edit_g-"@, 1, false));
    if contains_tag(&tags.tags, "edit_g+") {
        r.push(ColorEdit { channel: 1, increase: true });
    }
    assert(r@ =~= e("edit_r-"@, 0, false) + e("edit_r+"@, 0, true) + e("edit_g-"@, 1, false) + e("edit_g+"@, 1, true));
    if contains_tag(&tags.tags, "edit_b-") {
        r.push(ColorEdit { channel: 2, increase: false });
    }
    assert(r@ =~= e("edit_r-"@, 0, false) + e("edit_r+"@, 0, true) + e("edit_g-"@, 1, false) + e("edit_g+"@, 1, true)
        + e("edit_b-"@, 2, false));
    if contains_tag(&tags.tags, "edit_b+") {
        r.push(ColorEdit { channel: 2, increase: true });
    }
    assert(r@ =~= e("edit_r-"@, 0, false) + e("edit_r+"@, 0, true) + e("edit_g-"@, 1, false) + e("edit_g+"@, 1, true)
        + e("edit_b-"@, 2, false) + e("edit_b+"@, 2, true));
    r
}

} // verus!
