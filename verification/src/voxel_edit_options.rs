//! The voxel options screen: its layout and its keys.

use vstd::prelude::*;
use crate::editor::{screen_after_keys, AppState};
use crate::screens::{hotbar_buttons, is_hotbar, is_picker, is_text, picker_buttons};
use crate::ui::{button, node, node_tags, text, LayoutNode};

verus! {

broadcast use vstd::string::group_string_axioms;

/// The screen that a key press leads to from the options: Escape opens the
/// main menu, R goes back to the edit screen (Escape wins when both are
/// pressed).
pub fn controls(escape: bool, options: bool) -> (r: Option<AppState>)
    ensures
        r == screen_after_keys(AppState::VoxelEditOptions, escape, options, true),
{
    if escape {
        Some(AppState::MainMenu)
    } else if options {
        Some(AppState::VoxelEditMode)
    } else {
        None
    }
}

/// A `+` or `-` button of the color editor: tagged `+-_button` and `tag`,
/// labelled `sign`.
pub open spec fn is_sign_button(n: LayoutNode, tag: Seq<char>, sign: Seq<char>) -> bool {
    &&& node_tags(n) == seq!["ButtonBundle"@, "button"@, "+-_button"@, tag]
    &&& n.widget is Button
    &&& n.children@.len() == 1
    &&& is_text(n.children@[0], seq!["button_text"@], sign)
}

/// The editor of one color channel: a `-` button, the channel's value, and
/// a `+` button.
pub open spec fn is_channel_editor(n: LayoutNode, down_tag: Seq<char>, value_tag: Seq<char>, value_text: Seq<char>, up_tag: Seq<char>) -> bool {
    &&& node_tags(n) == seq!["NodeBundle"@, "node"@, "rgb_channel_edit"@]
    &&& n.widget is Node
    &&& n.children@.len() == 3
    &&& is_sign_button(n.children@[0], down_tag, "-"@)
    &&& is_text(n.children@[1], seq!["button_text"@, value_tag], value_text)
    &&& is_sign_button(n.children@[2], up_tag, "+"@)
}

fn sign_button(tag: &str, sign: &str) -> (r: LayoutNode)
    ensures
        is_sign_button(r, tag@, sign@),
{
    let r = button(vec!["+-_button", tag], vec![text(vec!["button_text"], sign, Vec::new())]);
    proof {
        assert(node_tags(r) =~= seq!["ButtonBundle"@, "button"@, "+-_button"@, tag@]);
        assert(node_tags(r.children@[0]) =~= seq!["TextBundle"@, "text"@] + seq!["button_text"@]);
    }
    r
}

fn channel_editor(down_tag: &str, value_tag: &str, value_text: &str, up_tag: &str) -> (r: LayoutNode)
    ensures
        is_channel_editor(r, down_tag@, value_tag@, value_text@, up_tag@),
{
    let down = sign_button(down_tag, "-");
    let value = text(vec!["button_text", value_tag], value_text, Vec::new());
    let up = sign_button(up_tag, "+");
    let r = node(vec!["rgb_channel_edit"], vec![down, value, up]);
    proof {
        assert(node_tags(r) =~= seq!["NodeBundle"@, "node"@, "rgb_channel_edit"@]);
        assert(node_tags(r.children@[1]) =~= seq!["TextBundle"@, "text"@] + seq!["button_text"@, value_tag@]);
    }
    r
}

/// The voxel options screen: the hotbar, the color picker, and the editor
/// of the red, green and blue channels.
pub fn layout() -> (r: LayoutNode)
    ensures
        node_tags(r) == seq!["NodeBundle"@, "node"@, "voxel_edit_options"@],
        r.widget is Node,
        r.children@.len() == 3,
        node_tags(r.children@[0]) == seq!["NodeBundle"@, "node"@, "hotbar"@],
        r.children@[0].widget is Node,
        is_hotbar(r.children@[0].children@),
        node_tags(r.children@[1]) == seq!["NodeBundle"@, "node"@, "color_picker"@],
        r.children@[1].widget is Node,
        is_picker(r.children@[1].children@),
        node_tags(r.children@[2]) == seq!["NodeBundle"@, "node"@, "color_edit"@],
        r.children@[2].widget is Node,
        r.children@[2].children@.len() == 1,
        node_tags(r.children@[2].children@[0]) == seq!["NodeBundle"@, "node"@, "rgb_edit"@],
        r.children@[2].children@[0].widget is Node,
        r.children@[2].children@[0].children@.len() == 3,
        is_channel_editor(r.children@[2].children@[0].children@[0], "edit_r-"@, "r_value"@, "R: 255"@, "edit_r+"@),
        is_channel_editor(r.children@[2].children@[0].children@[1], "edit_g-"@, "g_value"@, "G: 255"@, "edit_g+"@),
        is_channel_editor(r.children@[2].children@[0].children@[2], "edit_b-"@, "b_value"@, "B: 255"@, "edit_b+"@),
{
    let hotbar = node(vec!["hotbar"], hotbar_buttons());
    let picker = node(vec!["color_picker"], picker_buttons());
    let rgb = node(vec!["rgb_edit"], vec![
        channel_editor("edit_r-", "r_value", "R: 255", "edit_r+"),
        channel_editor("edit_g-", "g_value", "G: 255", "edit_g+"),
        channel_editor("edit_b-", "b_value", "B: 255", "edit_b+"),
    ]);
    let color_edit = node(vec!["color_edit"], vec![rgb]);
    let r = node(vec!["voxel_edit_options"], vec![hotbar, picker, color_edit]);
    proof {
        assert(node_tags(r) =~= seq!["NodeBundle"@, "node"@, "voxel_edit_options"@]);
        assert(node_tags(r.children@[0]) =~= seq!["NodeBundle"@, "node"@, "hotbar"@]);
        assert(node_tags(r.children@[1]) =~= seq!["NodeBundle"@, "node"@, "color_picker"@]);
        assert(node_tags(r.children@[2]) =~= seq!["NodeBundle"@, "node"@, "color_edit"@]);
        assert(node_tags(r.children@[2].children@[0]) =~= seq!["NodeBundle"@, "node"@, "rgb_edit"@]);
    }
    r
}

} // verus!
