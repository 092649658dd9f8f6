//! The voxel edit screen: its layout and its keys.

use vstd::prelude::*;
use crate::editor::{screen_after_keys, AppState};
use crate::screens::{controls_list, hotbar_buttons, is_controls_list, is_hotbar, is_image};
use crate::ui::{image, node, node_tags, LayoutNode};

verus! {

broadcast use vstd::string::group_string_axioms;

/// The screen that a key press leads to from the edit screen: R opens the
/// options, Escape the main menu (R wins when both are pressed).
pub fn controls(escape: bool, options: bool) -> (r: Option<AppState>)
    ensures
        r == screen_after_keys(AppState::VoxelEditMode, escape, options, true),
{
    let mut next = None;
    if escape {
        next = Some(AppState::MainMenu);
    }
    if options {
        next = Some(AppState::VoxelEditOptions);
    }
    next
}

/// The voxel edit screen: a crosshair, the controls help, and the hotbar.
pub fn layout() -> (r: LayoutNode)
    ensures
        node_tags(r) == seq!["NodeBundle"@, "node"@, "voxel_edit_mode"@],
        r.widget is Node,
        r.children@.len() == 3,
        is_image(r.children@[0], seq!["crosshair"@], "images/crosshair.png"@),
        is_controls_list(r.children@[1]),
        node_tags(r.children@[2]) == seq!["NodeBundle"@, "node"@, "hotbar"@],
        r.children@[2].widget is Node,
        is_hotbar(r.children@[2].children@),
{
    let crosshair = image(vec!["crosshair"], "images/crosshair.png", Vec::new());
    let help = controls_list();
    let hotbar = node(vec!["hotbar"], hotbar_buttons());
    let r = node(vec!["voxel_edit_mode"], vec![crosshair, help, hotbar]);
    proof {
        assert(node_tags(r) =~= seq!["NodeBundle"@, "node"@, "voxel_edit_mode"@]);
        assert(node_tags(r.children@[0]) =~= seq!["ImageBundle"@, "image"@] + seq!["crosshair"@]);
        assert(node_tags(r.children@[2]) =~= seq!["NodeBundle"@, "node"@, "hotbar"@]);
    }
    r
}

} // verus!
