//! The parts that the editor's screens share: the controls help, the
//! hotbar and the color picker, and what their buttons stand for.

use vstd::prelude::*;
use crate::editor::{clicked_slot, picked_color, HOTBAR_SLOTS, PICKER_COLORS};
use crate::tags::{decimal, has_tag, indexed, indexed_tag, last_indexed, lemma_decimal_value, lemma_indexed_injective, tags_view, usize_to_decimal};
use crate::ui::{button, node, node_tags, text, LayoutNode, Widget, Interaction};

verus! {

broadcast use vstd::string::group_string_axioms;

/// The tags of the `k`-th hotbar button (numbered from 1).
pub open spec fn hotbar_button_tags(k: nat) -> Seq<Seq<char>> {
    seq!["ButtonBundle"@, "button"@, "hotbar_button"@, indexed("hotbar_button"@, k)]
}

/// The tags of the color item inside the `k`-th hotbar button.
pub open spec fn hotbar_item_tags(k: nat) -> Seq<Seq<char>> {
    seq!["NodeBundle"@, "node"@, "hotbar_item_color"@, indexed("hotbar_item_color"@, k)]
}

/// The tags of the color-picker button of color `i`.
pub open spec fn picker_button_tags(i: nat) -> Seq<Seq<char>> {
    seq!["ButtonBundle"@, "button"@, "color_picker_button"@, indexed("color_picker_button"@, i)]
}

/// The tags of the color item inside the picker button of color `i`.
pub open spec fn picker_item_tags(i: nat) -> Seq<Seq<char>> {
    seq!["NodeBundle"@, "node"@, "color_picker_item_color"@, indexed("color_picker_item_color"@, i)]
}

/// The hotbar buttons, numbered 1 to 10; each holds a color item with the
/// same number and a label with its key (the tenth is labelled 0).
pub open spec fn is_hotbar(buttons: Seq<LayoutNode>) -> bool {
    &&& buttons.len() == HOTBAR_SLOTS
    &&& forall|k: int| 0 <= k < HOTBAR_SLOTS ==> {
        &&& node_tags(#[trigger] buttons[k]) == hotbar_button_tags((k + 1) as nat)
        &&& buttons[k].widget is Button
        &&& buttons[k].children@.len() == 2
        &&& node_tags(buttons[k].children@[0]) == hotbar_item_tags((k + 1) as nat)
        &&& buttons[k].children@[0].widget is Node
        &&& buttons[k].children@[0].children@.len() == 0
        &&& is_text(buttons[k].children@[1], seq!["button_text"@], hotbar_label(k))
    }
}

/// The label of the `k`-th hotbar button (counting from 0): the digit of its
/// key, 0 for the tenth.
pub open spec fn hotbar_label(k: int) -> Seq<char> {
    if k == 9 { "0"@ } else { decimal((k + 1) as nat) }
}

/// The color-picker buttons, one per color, each holding a color item with
/// the same number.
pub open spec fn is_picker(buttons: Seq<LayoutNode>) -> bool {
    &&& buttons.len() == PICKER_COLORS
    &&& forall|i: int| 0 <= i < PICKER_COLORS ==> {
        &&& node_tags(#[trigger] buttons[i]) == picker_button_tags(i as nat)
        &&& buttons[i].widget is Button
        &&& buttons[i].children@.len() == 1
        &&& node_tags(buttons[i].children@[0]) == picker_item_tags(i as nat)
        &&& buttons[i].children@[0].widget is Node
        &&& buttons[i].children@[0].children@.len() == 0
    }
}

pub(crate) fn hotbar_buttons() -> (r: Vec<LayoutNode>)
    ensures
        is_hotbar(r@),
{
    let mut r: Vec<LayoutNode> = Vec::new();
    let mut i: usize = 1;
    while i < 11
        invariant
            1 <= i <= 11,
            r@.len() == i - 1,
            forall|k: int| 0 <= k < i - 1 ==> {
                &&& node_tags(#[trigger] r@[k]) == hotbar_button_tags((k + 1) as nat)
                &&& r@[k].widget is Button
                &&& r@[k].children@.len() == 2
                &&& node_tags(r@[k].children@[0]) == hotbar_item_tags((k + 1) as nat)
                &&& r@[k].children@[0].widget is Node
                &&& r@[k].children@[0].children@.len() == 0
                &&& is_text(r@[k].children@[1], seq!["button_text"@], hotbar_label(k))
            },
        decreases 11 - i,
    {
        let label = if i == 10 { String::from_str("0") } else { usize_to_decimal(i) };
        let button_tag = indexed_tag("hotbar_button", i);
        let item_tag = indexed_tag("hotbar_item_color", i);
        let item = node(vec!["hotbar_item_color", item_tag.as_str()], Vec::new());
        let label_node = text(vec!["button_text"], label.as_str(), Vec::new());
        let mut children: Vec<LayoutNode> = Vec::new();
        children.push(item);
        children.push(label_node);
        let b = button(vec!["hotbar_button", button_tag.as_str()], children);
        proof {
            assert(node_tags(b) =~= hotbar_button_tags(i as nat));
            assert(node_tags(b.children@[0]) =~= hotbar_item_tags(i as nat));
            assert(node_tags(b.children@[1]) =~= seq!["TextBundle"@, "text"@] + seq!["button_text"@]);
        }
        r.push(b);
        i = i + 1;
    }
    r
}

pub(crate) fn picker_buttons() -> (r: Vec<LayoutNode>)
    ensures
        is_picker(r@),
{
    let mut r: Vec<LayoutNode> = Vec::new();
    let mut i: usize = 0;
    while i < PICKER_COLORS
        invariant
            0 <= i <= PICKER_COLORS,
            r@.len() == i,
            forall|k: int| 0 <= k < i ==> {
                &&& node_tags(#[trigger] r@[k]) == picker_button_tags(k as nat)
                &&& r@[k].widget is Button
                &&& r@[k].children@.len() == 1
                &&& node_tags(r@[k].children@[0]) == picker_item_tags(k as nat)
                &&& r@[k].children@[0].widget is Node
                &&& r@[k].children@[0].children@.len() == 0
            },
        decreases PICKER_COLORS - i,
    {
        let button_tag = indexed_tag("color_picker_button", i);
        let item_tag = indexed_tag("color_picker_item_color", i);
        let item = node(vec!["color_picker_item_color", item_tag.as_str()], Vec::new());
        let mut children: Vec<LayoutNode> = Vec::new();
        children.push(item);
        let b = button(vec!["color_picker_button", button_tag.as_str()], children);
        proof {
            assert(node_tags(b) =~= picker_button_tags(i as nat));
            assert(node_tags(b.children@[0]) =~= picker_item_tags(i as nat));
        }
        r.push(b);
        i = i + 1;
    }
    r
}

/// The `i`-th line of the controls help.
pub open spec fn controls_help(i: int) -> Seq<char> {
    if i == 0 {
        "WASD: Move"@
    } else if i == 1 {
        "Mouse: Look"@
    } else if i == 2 {
        "Mouse Wheel: Change Size"@
    } else if i == 3 {
        "Left Click: Perform Edit"@
    } else if i == 4 {
        "Right Click: Toggle Add/Remove"@
    } else if i == 5 {
        "R: Options"@
    } else {
        "ESC: Menu"@
    }
}

/// A text tagged `TextBundle`, `text` and then `extra`, showing `content`,
/// with no children.
pub open spec fn is_text(n: LayoutNode, extra: Seq<Seq<char>>, content: Seq<char>) -> bool {
    &&& node_tags(n) == seq!["TextBundle"@, "text"@] + extra
    &&& n.widget matches Widget::Text(t) && t@ == content
    &&& n.children@.len() == 0
}

/// An image tagged `ImageBundle`, `image` and then `extra`, showing the
/// asset at `source`, with no children.
pub open spec fn is_image(n: LayoutNode, extra: Seq<Seq<char>>, source: Seq<char>) -> bool {
    &&& node_tags(n) == seq!["ImageBundle"@, "image"@] + extra
    &&& n.widget matches Widget::Image(p) && p@ == source
    &&& n.children@.len() == 0
}

/// The controls help: a node holding its seven lines.
pub open spec fn is_controls_list(n: LayoutNode) -> bool {
    &&& node_tags(n) == seq!["NodeBundle"@, "node"@, "voxel_edit_mode_controls_list"@]
    &&& n.widget is Node
    &&& n.children@.len() == 7
    &&& forall|i: int| 0 <= i < 7 ==> is_text(#[trigger] n.children@[i], seq!["voxel_edit_mode_controls_text"@], controls_help(i))
}

fn help_line(line: &str) -> (r: LayoutNode)
    ensures
        is_text(r, seq!["voxel_edit_mode_controls_text"@], line@),
{
    let r = text(vec!["voxel_edit_mode_controls_text"], line, Vec::new());
    assert(node_tags(r) =~= seq!["TextBundle"@, "text"@] + seq!["voxel_edit_mode_controls_text"@]);
    r
}

/// The lines of the controls help shown on the menu and edit screens.
pub(crate) fn controls_list() -> (r: LayoutNode)
    ensures
        is_controls_list(r),
{
    let r = node(vec!["voxel_edit_mode_controls_list"], vec![
        help_line("WASD: Move"),
        help_line("Mouse: Look"),
        help_line("Mouse Wheel: Change Size"),
        help_line("Left Click: Perform Edit"),
        help_line("Right Click: Toggle Add/Remove"),
        help_line("R: Options"),
        help_line("ESC: Menu"),
    ]);
    assert(node_tags(r) =~= seq!["NodeBundle"@, "node"@, "voxel_edit_mode_controls_list"@]);
    assert forall|i: int| 0 <= i < 7 implies is_text(#[trigger] r.children@[i], seq!["voxel_edit_mode_controls_text"@], controls_help(i)) by {
        if i == 0 {
        } else if i == 1 {
        } else if i == 2 {
        } else if i == 3 {
        } else if i == 4 {
        } else if i == 5 {
        } else {
        }
    }
    r
}

/// When exactly one number in `[lo, hi)` gives a tag the list holds, the
/// last such number is that one.
proof fn lemma_last_indexed_unique(tags: Seq<String>, prefix: Seq<char>, i: nat, lo: nat, hi: nat)
    requires
        lo <= i < hi,
        has_tag(tags, indexed(prefix, i)),
        forall|j: nat| lo <= j < hi && j != i ==> !has_tag(tags, #[trigger] indexed(prefix, j)),
    ensures
        last_indexed(tags, prefix, lo, hi) == Some(i),
    decreases hi,
{
    if hi - 1 != i {
        lemma_last_indexed_unique(tags, prefix, i, lo, (hi - 1) as nat);
    }
}

/// A list of four tags, three of which are shorter than any numbered tag
/// with `prefix`, holds exactly the numbered tag it ends with.
proof fn lemma_only_numbered(tags: Seq<String>, a: Seq<char>, b: Seq<char>, c: Seq<char>, prefix: Seq<char>, i: nat, j: nat)
    requires
        tags_view(tags) == seq![a, b, c, indexed(prefix, i)],
        a.len() <= prefix.len(),
        b.len() <= prefix.len(),
        c.len() <= prefix.len(),
    ensures
        has_tag(tags, indexed(prefix, j)) <==> j == i,
{
    reveal_strlit("_");
    lemma_decimal_value(j);
    let t = indexed(prefix, j);
    assert(t.len() >= prefix.len() + 2);
    if has_tag(tags, t) {
        let k = choose|k: int| 0 <= k < tags_view(tags).len() && tags_view(tags)[k] == t;
        assert(k == 3);
        lemma_indexed_injective(prefix, i, j);
    }
    if j == i {
        assert(tags_view(tags)[3] == t);
    }
}

/// Pressing the `k`-th hotbar button (counting from 0) selects slot `k`.
pub proof fn lemma_hotbar_button_selects_its_slot(buttons: Seq<LayoutNode>, k: int)
    requires
        is_hotbar(buttons),
        0 <= k < HOTBAR_SLOTS,
    ensures
        clicked_slot(Interaction::Pressed, buttons[k].tags@) == Some(k as nat),
{
    reveal_strlit("ButtonBundle");
    reveal_strlit("button");
    reveal_strlit("hotbar_button");
    let tags = buttons[k].tags@;
    assert(node_tags(buttons[k]) == hotbar_button_tags((k + 1) as nat));
    assert(tags_view(tags)[2] == "hotbar_button"@);
    assert(has_tag(tags, "hotbar_button"@));
    assert forall|j: nat| 1 <= j < 11 && j != (k + 1) implies !has_tag(tags, #[trigger] indexed("hotbar_button"@, j)) by {
        lemma_only_numbered(tags, "ButtonBundle"@, "button"@, "hotbar_button"@, "hotbar_button"@, (k + 1) as nat, j);
    }
    lemma_only_numbered(tags, "ButtonBundle"@, "button"@, "hotbar_button"@, "hotbar_button"@, (k + 1) as nat, (k + 1) as nat);
    lemma_last_indexed_unique(tags, "hotbar_button"@, (k + 1) as nat, 1, 11);
}

/// The color item of the `k`-th hotbar button (counting from 0) is numbered
/// `k + 1`, so it shows the color of slot `k`.
pub proof fn lemma_hotbar_item_shows_its_slot(buttons: Seq<LayoutNode>, k: int)
    requires
        is_hotbar(buttons),
        0 <= k < HOTBAR_SLOTS,
    ensures
        has_tag(buttons[k].children@[0].tags@, "hotbar_item_color"@),
        last_indexed(buttons[k].children@[0].tags@, "hotbar_item_color"@, 1, 11) == Some((k + 1) as nat),
{
    reveal_strlit("NodeBundle");
    reveal_strlit("node");
    reveal_strlit("hotbar_item_color");
    let tags = buttons[k].children@[0].tags@;
    assert(tags_view(tags) == hotbar_item_tags((k + 1) as nat));
    assert(tags_view(tags)[2] == "hotbar_item_color"@);
    assert forall|j: nat| 1 <= j < 11 && j != (k + 1) implies !has_tag(tags, #[trigger] indexed("hotbar_item_color"@, j)) by {
        lemma_only_numbered(tags, "NodeBundle"@, "node"@, "hotbar_item_color"@, "hotbar_item_color"@, (k + 1) as nat, j);
    }
    lemma_only_numbered(tags, "NodeBundle"@, "node"@, "hotbar_item_color"@, "hotbar_item_color"@, (k + 1) as nat, (k + 1) as nat);
    lemma_last_indexed_unique(tags, "hotbar_item_color"@, (k + 1) as nat, 1, 11);
}

/// Pressing the picker button of color `i` picks color `i`.
pub proof fn lemma_picker_button_picks_its_color(buttons: Seq<LayoutNode>, i: int)
    requires
        is_picker(buttons),
        0 <= i < PICKER_COLORS,
    ensures
        picked_color(Interaction::Pressed, buttons[i].tags@) == Some(i as nat),
{
    reveal_strlit("ButtonBundle");
    reveal_strlit("button");
    reveal_strlit("color_picker_button");
    let tags = buttons[i].tags@;
    assert(node_tags(buttons[i]) == picker_button_tags(i as nat));
    assert(tags_view(tags)[2] == "color_picker_button"@);
    assert forall|j: nat| 0 <= j < PICKER_COLORS && j != i implies !has_tag(tags, #[trigger] indexed("color_picker_button"@, j)) by {
        lemma_only_numbered(tags, "ButtonBundle"@, "button"@, "color_picker_button"@, "color_picker_button"@, i as nat, j);
    }
    lemma_only_numbered(tags, "ButtonBundle"@, "button"@, "color_picker_button"@, "color_picker_button"@, i as nat, i as nat);
    lemma_last_indexed_unique(tags, "color_picker_button"@, i as nat, 0, PICKER_COLORS as nat);
}

/// The color item of the picker button of color `i` is numbered `i`, so it
/// shows color `i`.
pub proof fn lemma_picker_item_shows_its_color(buttons: Seq<LayoutNode>, i: int)
    requires
        is_picker(buttons),
        0 <= i < PICKER_COLORS,
    ensures
        has_tag(buttons[i].children@[0].tags@, "color_picker_item_color"@),
        last_indexed(buttons[i].children@[0].tags@, "color_picker_item_color"@, 0, PICKER_COLORS as nat) == Some(i as nat),
{
    reveal_strlit("NodeBundle");
    reveal_strlit("node");
    reveal_strlit("color_picker_item_color");
    let tags = buttons[i].children@[0].tags@;
    assert(tags_view(tags) == picker_item_tags(i as nat));
    assert(tags_view(tags)[2] == "color_picker_item_color"@);
    assert forall|j: nat| 0 <= j < PICKER_COLORS && j != i implies !has_tag(tags, #[trigger] indexed("color_picker_item_color"@, j)) by {
        lemma_only_numbered(tags, "NodeBundle"@, "node"@, "color_picker_item_color"@, "color_picker_item_color"@, i as nat, j);
    }
    lemma_only_numbered(tags, "NodeBundle"@, "node"@, "color_picker_item_color"@, "color_picker_item_color"@, i as nat, i as nat);
    lemma_last_indexed_unique(tags, "color_picker_item_color"@, i as nat, 0, PICKER_COLORS as nat);
}

/// After a click on the `k`-th hotbar button (counting from 0), the item of
/// that button is the one whose border turns gray: it carries the number of
/// the selected slot plus one, and no other item of the hotbar does.
pub proof fn lemma_clicked_slot_is_highlighted(buttons: Seq<LayoutNode>, k: int, j: int)
    requires
        is_hotbar(buttons),
        0 <= k < HOTBAR_SLOTS,
        0 <= j < HOTBAR_SLOTS,
    ensures
        clicked_slot(Interaction::Pressed, buttons[k].tags@) matches Some(s) && (
            has_tag(buttons[j].children@[0].tags@, indexed("hotbar_item_color"@, (s + 1) as nat)) <==> j == k
        ),
{
    reveal_strlit("NodeBundle");
    reveal_strlit("node");
    reveal_strlit("hotbar_item_color");
    lemma_hotbar_button_selects_its_slot(buttons, k);
    let tags = buttons[j].children@[0].tags@;
    assert(tags_view(tags) == hotbar_item_tags((j + 1) as nat));
    lemma_only_numbered(tags, "NodeBundle"@, "node"@, "hotbar_item_color"@, "hotbar_item_color"@, (j + 1) as nat, (k + 1) as nat);
}

/// After a press on the picker button of color `i`, the selected slot holds
/// voxel value `i + 1`, drawn with color `i`, and the picker item whose
/// border turns gray is that of color `i` and no other.
pub proof fn lemma_picked_color_is_highlighted(buttons: Seq<LayoutNode>, i: int, j: int)
    requires
        is_picker(buttons),
        0 <= i < PICKER_COLORS,
        0 <= j < PICKER_COLORS,
    ensures
        picked_color(Interaction::Pressed, buttons[i].tags@) matches Some(c) && (
            has_tag(buttons[j].children@[0].tags@, indexed("color_picker_item_color"@, (((c + 1) as u8) - 1) as nat))
                <==> j == i
        ),
{
    reveal_strlit("NodeBundle");
    reveal_strlit("node");
    reveal_strlit("color_picker_item_color");
    lemma_picker_button_picks_its_color(buttons, i);
    let tags = buttons[j].children@[0].tags@;
    assert(tags_view(tags) == picker_item_tags(j as nat));
    lemma_only_numbered(tags, "NodeBundle"@, "node"@, "color_picker_item_color"@, "color_picker_item_color"@, j as nat, i as nat);
}

} // verus!
