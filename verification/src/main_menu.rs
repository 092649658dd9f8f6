//! The main menu: its layout, its keys, and what its buttons do.

use vstd::prelude::*;
use crate::editor::{screen_after_keys, AppState};
use crate::screens::{controls_list, is_controls_list, is_image, is_text};
use crate::tags::{contains_tag, has_tag, tags_view};
use crate::ui::{button, image, node, node_tags, text, Interaction, LayoutNode, UiTags};

verus! {

broadcast use vstd::string::group_string_axioms;

/// The screen that Escape leads to from the main menu: the edit screen,
/// where Escape may leave the menu (not on the web, where it cannot regain
/// full screen).
pub fn controls(escape: bool, escape_leaves_menu: bool) -> (r: Option<AppState>)
    ensures
        r == screen_after_keys(AppState::MainMenu, escape, false, escape_leaves_menu),
{
    if escape && escape_leaves_menu {
        Some(AppState::VoxelEditMode)
    } else {
        None
    }
}

/// What a button of the main menu does.
#[derive(Clone, Copy, Debug, PartialEq, Eq, Structural)]
pub enum MenuAction {
    /// Back to the voxel edit screen.
    BackToGame,
    /// Start a new world.
    NewWorld,
    /// Save the world.
    SaveWorld,
    /// Load a world.
    LoadWorld,
    /// Quit the program.
    Quit,
}

/// The action of a menu button with the given tags, when pressed; the first
/// of back, new, save, load and quit whose tag the button has.
pub open spec fn menu_action_of(interaction: Interaction, tags: Seq<String>) -> Option<MenuAction> {
    if !(interaction is Pressed) {
        None
    } else if has_tag(tags, "menu_back_button"@) {
        Some(MenuAction::BackToGame)
    } else if has_tag(tags, "menu_new_button"@) {
        Some(MenuAction::NewWorld)
    } else if has_tag(tags, "menu_save_button"@) {
        Some(MenuAction::SaveWorld)
    } else if has_tag(tags, "menu_load_button"@) {
        Some(MenuAction::LoadWorld)
    } else if has_tag(tags, "menu_quit_button"@) {
        Some(MenuAction::Quit)
    } else {
        None
    }
}

/// The action of a menu button (see `menu_action_of`).
pub fn button_actions(interaction: Interaction, tags: &UiTags) -> (r: Option<MenuAction>)
    ensures
        r == menu_action_of(interaction, tags.tags@),
{
    match interaction {
        Interaction::Pressed => {
            if contains_tag(&tags.tags, "menu_back_button") {
                Some(MenuAction::BackToGame)
            } else if contains_tag(&tags.tags, "menu_new_button") {
                Some(MenuAction::NewWorld)
            } else if contains_tag(&tags.tags, "menu_save_button") {
                Some(MenuAction::SaveWorld)
            } else if contains_tag(&tags.tags, "menu_load_button") {
                Some(MenuAction::LoadWorld)
            } else if contains_tag(&tags.tags, "menu_quit_button") {
                Some(MenuAction::Quit)
            } else {
                None
            }
        },
        _ => None,
    }
}

/// The tags of the main menu button that has the given action tag.
pub open spec fn menu_button_tags(action_tag: Seq<char>) -> Seq<Seq<char>> {
    seq!["ButtonBundle"@, "button"@, "menu_button"@, action_tag]
}

/// A button of the main menu with the given action tag and label.
pub open spec fn is_menu_button(n: LayoutNode, action_tag: Seq<char>, label: Seq<char>) -> bool {
    &&& node_tags(n) == menu_button_tags(action_tag)
    &&& n.widget is Button
    &&& n.children@.len() == 1
    &&& is_text(n.children@[0], seq!["button_text"@, "menu_button_text"@], label)
}

fn menu_button(action_tag: &str, label: &str) -> (r: LayoutNode)
    ensures
        is_menu_button(r, action_tag@, label@),
{
    let r = button(vec!["menu_button", action_tag], vec![text(vec!["button_text", "menu_button_text"], label, Vec::new())]);
    assert(node_tags(r) =~= menu_button_tags(action_tag@));
    assert(node_tags(r.children@[0]) =~= seq!["TextBundle"@, "text"@] + seq!["button_text"@, "menu_button_text"@]);
    r
}

/// The main menu: the controls help beside a menu of the logo and the
/// buttons back, new, save, load and (where the program may quit itself)
/// quit.
pub fn layout(with_quit: bool) -> (r: LayoutNode)
    ensures
        node_tags(r) == seq!["NodeBundle"@, "node"@, "menu_container"@],
        r.widget is Node,
        r.children@.len() == 2,
        node_tags(r.children@[0]) == seq!["NodeBundle"@, "node"@, "voxel_edit_mode_controls_container"@],
        r.children@[0].widget is Node,
        r.children@[0].children@.len() == 1,
        is_controls_list(r.children@[0].children@[0]),
        node_tags(r.children@[1]) == seq!["NodeBundle"@, "node"@, "menu"@],
        r.children@[1].widget is Node,
        r.children@[1].children@.len() == (if with_quit { 6int } else { 5int }),
        is_image(r.children@[1].children@[0], seq!["menu_logo"@], "images/logo/anvil-constellation-logo-512.png"@),
        is_menu_button(r.children@[1].children@[1], "menu_back_button"@, "Back to Game"@),
        is_menu_button(r.children@[1].children@[2], "menu_new_button"@, "New World"@),
        is_menu_button(r.children@[1].children@[3], "menu_save_button"@, "Save World"@),
        is_menu_button(r.children@[1].children@[4], "menu_load_button"@, "Load World"@),
        with_quit ==> is_menu_button(r.children@[1].children@[5], "menu_quit_button"@, "Quit Game"@),
{
    let mut menu_items: Vec<LayoutNode> = vec![
        image(vec!["menu_logo"], "images/logo/anvil-constellation-logo-512.png", Vec::new()),
        menu_button("menu_back_button", "Back to Game"),
        menu_button("menu_new_button", "New World"),
        menu_button("menu_save_button", "Save World"),
        menu_button("menu_load_button", "Load World"),
    ];
    if with_quit {
        menu_items.push(menu_button("menu_quit_button", "Quit Game"));
    }
    let help = node(vec!["voxel_edit_mode_controls_container"], vec![controls_list()]);
    let menu = node(vec!["menu"], menu_items);
    let r = node(vec!["menu_container"], vec![help, menu]);
    proof {
        assert(node_tags(r) =~= seq!["NodeBundle"@, "node"@, "menu_container"@]);
        assert(node_tags(r.children@[0]) =~= seq!["NodeBundle"@, "node"@, "voxel_edit_mode_controls_container"@]);
        assert(node_tags(r.children@[1]) =~= seq!["NodeBundle"@, "node"@, "menu"@]);
        assert(node_tags(r.children@[1].children@[0]) =~= seq!["ImageBundle"@, "image"@] + seq!["menu_logo"@]);
    }
    r
}

/// The action a menu button's tag stands for.
pub open spec fn action_of_tag(tag: Seq<char>) -> Option<MenuAction> {
    if tag == "menu_back_button"@ {
        Some(MenuAction::BackToGame)
    } else if tag == "menu_new_button"@ {
        Some(MenuAction::NewWorld)
    } else if tag == "menu_save_button"@ {
        Some(MenuAction::SaveWorld)
    } else if tag == "menu_load_button"@ {
        Some(MenuAction::LoadWorld)
    } else if tag == "menu_quit_button"@ {
        Some(MenuAction::Quit)
    } else {
        None
    }
}

/// Pressing a button of the main menu performs the action its tag names.
pub proof fn lemma_menu_button_action(tags: Seq<String>, action_tag: Seq<char>)
    requires
        tags_view(tags) == menu_button_tags(action_tag),
        action_of_tag(action_tag) is Some,
    ensures
        menu_action_of(Interaction::Pressed, tags) == action_of_tag(action_tag),
{
    reveal_strlit("ButtonBundle");
    reveal_strlit("button");
    reveal_strlit("menu_button");
    reveal_strlit("menu_back_button");
    reveal_strlit("menu_new_button");
    reveal_strlit("menu_save_button");
    reveal_strlit("menu_load_button");
    reveal_strlit("menu_quit_button");
    let v = tags_view(tags);
    assert(v[3] == action_tag);
    assert(has_tag(tags, action_tag));
    assert forall|t: Seq<char>| has_tag(tags, t) && action_of_tag(t) is Some implies t == action_tag by {
        let k = choose|k: int| 0 <= k < v.len() && v[k] == t;
        if k == 0 {
            assert(t.len() == 12);
        } else if k == 1 {
            assert(t.len() == 6);
        } else if k == 2 {
            assert(t.len() == 11);
        }
    }
    let back = "menu_back_button"@;
    let new = "menu_new_button"@;
    let save = "menu_save_button"@;
    let load = "menu_load_button"@;
    let quit = "menu_quit_button"@;
    assert(back[5] == 'b' && save[5] == 's' && load[5] == 'l' && quit[5] == 'q');
    assert(back != save && back != load && back != quit && save != load && save != quit && load != quit);
    assert(new.len() != back.len());
    assert(new != save && new != load && new != quit);
}

} // verus!
