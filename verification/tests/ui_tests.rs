use iron_voxel::editor::{color_edits, picker_item_color, AppState, Border, ColorEdit, HotbarVoxels};
use iron_voxel::main_menu::{self, button_actions, MenuAction};
use iron_voxel::{voxel_edit_mode, voxel_edit_options};
use iron_voxel::tags::{contains_tag, find_last_indexed, indexed_tag, ToVecString};
use iron_voxel::ui::{
    append_suffixed_tags, atlas_image, button, image, interaction_tags, is_layout_root, node, root_tags, spawn_plan,
    text, Interaction, LayoutNode, UiTags, Widget,
};

fn strings(v: Vec<&str>) -> Vec<String> {
    v.to_vec_string()
}

fn tags(v: Vec<&str>) -> UiTags {
    UiTags::new(strings(v))
}

#[test]
fn numbered_tags() {
    assert_eq!(indexed_tag("hotbar_button", 10), "hotbar_button_10");
    assert_eq!(indexed_tag("color_picker_item_color", 0), "color_picker_item_color_0");
    assert_eq!(indexed_tag("", 254), "_254");
}

#[test]
fn tag_lookup() {
    let t = strings(vec!["a_1", "a_3", "b_2"]);
    assert!(contains_tag(&t, "a_3"));
    assert!(!contains_tag(&t, "a"));
    assert_eq!(find_last_indexed(&t, "a", 0, 5), Some(3));
    assert_eq!(find_last_indexed(&t, "a", 0, 3), Some(1));
    assert_eq!(find_last_indexed(&t, "b", 3, 9), None);
    assert_eq!(find_last_indexed(&t, "a", 4, 2), None);
}

#[test]
fn builders_tag_their_widgets() {
    let n = node(vec!["x", "y"], vec![]);
    assert_eq!(n.tags, strings(vec!["NodeBundle", "node", "x", "y"]));
    assert!(matches!(n.widget, Widget::Node));
    let b = button(vec![], vec![node(vec![], vec![])]);
    assert_eq!(b.tags, strings(vec!["ButtonBundle", "button"]));
    assert_eq!(b.children.len(), 1);
    let t = text(vec!["label"], "hi", vec![]);
    assert_eq!(t.tags, strings(vec!["TextBundle", "text", "label"]));
    assert!(matches!(&t.widget, Widget::Text(s) if s == "hi"));
    let i = image(vec![], "images/a.png", vec![]);
    assert_eq!(i.tags, strings(vec!["ImageBundle", "image"]));
    assert!(matches!(&i.widget, Widget::Image(s) if s == "images/a.png"));
    let a = atlas_image(vec!["z"], "atlas", vec![]);
    assert_eq!(a.tags, strings(vec!["AtlasImageBundle", "image", "z"]));
    assert!(matches!(&a.widget, Widget::AtlasImage(s) if s == "atlas"));
}

#[test]
fn root_is_recognised() {
    assert!(is_layout_root(&root_tags()));
    assert_eq!(root_tags().tags, strings(vec!["root"]));
    assert!(!is_layout_root(&tags(vec!["node", "menu"])));
}

#[test]
fn suffixed_tags_follow_the_plain_ones() {
    assert_eq!(
        append_suffixed_tags(strings(vec!["a", "b"]), ":x"),
        strings(vec!["a", "b", "a:x", "b:x"])
    );
    assert_eq!(interaction_tags(strings(vec!["button"]), Interaction::Idle), strings(vec!["button"]));
    assert_eq!(
        interaction_tags(strings(vec!["button"]), Interaction::Hovered),
        strings(vec!["button", "button:hovered"])
    );
    assert_eq!(
        interaction_tags(strings(vec!["button", "menu_button"]), Interaction::Pressed),
        strings(vec!["button", "menu_button", "button:pressed", "menu_button:pressed"])
    );
}

#[test]
fn screen_keys() {
    assert_eq!(AppState::default(), AppState::MainMenu);
    assert_eq!(main_menu::controls(true, true), Some(AppState::VoxelEditMode));
    assert_eq!(main_menu::controls(true, false), None);
    assert_eq!(main_menu::controls(false, true), None);
    assert_eq!(voxel_edit_mode::controls(true, false), Some(AppState::MainMenu));
    assert_eq!(voxel_edit_mode::controls(false, true), Some(AppState::VoxelEditOptions));
    assert_eq!(voxel_edit_mode::controls(true, true), Some(AppState::VoxelEditOptions));
    assert_eq!(voxel_edit_mode::controls(false, false), None);
    assert_eq!(voxel_edit_options::controls(true, true), Some(AppState::MainMenu));
    assert_eq!(voxel_edit_options::controls(false, true), Some(AppState::VoxelEditMode));
    assert_eq!(voxel_edit_options::controls(false, false), None);
}

#[test]
fn menu_buttons_act_when_pressed() {
    let save = tags(vec!["ButtonBundle", "button", "menu_button", "menu_save_button"]);
    assert_eq!(button_actions(Interaction::Pressed, &save), Some(MenuAction::SaveWorld));
    assert_eq!(button_actions(Interaction::Hovered, &save), None);
    assert_eq!(button_actions(Interaction::Idle, &save), None);
    let both = tags(vec!["menu_quit_button", "menu_back_button"]);
    assert_eq!(button_actions(Interaction::Pressed, &both), Some(MenuAction::BackToGame));
    assert_eq!(button_actions(Interaction::Pressed, &tags(vec!["button"])), None);
}

#[test]
fn hotbar_defaults_and_keys() {
    let mut h = HotbarVoxels::default();
    assert_eq!(h.voxels, vec![16, 95, 103, 107, 172, 216, 221, 199, 240, 255]);
    assert_eq!(h.selected_index, 0);
    assert_eq!(h.selected_voxel(), 16);
    h.select_by_keys(&vec![false, true, false, true]);
    assert_eq!(h.selected_index, 3);
    assert_eq!(h.selected_voxel(), 107);
    h.select_by_keys(&vec![false; 10]);
    assert_eq!(h.selected_index, 3);
}

#[test]
fn hotbar_items_borders_and_colors() {
    let mut h = HotbarVoxels::default();
    let first = tags(vec!["NodeBundle", "node", "hotbar_item_color", "hotbar_item_color_1"]);
    let second = tags(vec!["NodeBundle", "node", "hotbar_item_color", "hotbar_item_color_2"]);
    assert_eq!(h.item_border(&first), Some(Border::Gray));
    assert_eq!(h.item_border(&second), Some(Border::Black));
    assert_eq!(h.item_border(&tags(vec!["node"])), None);
    assert_eq!(h.item_color(&first), Some(15));
    assert_eq!(h.item_color(&second), Some(94));
    assert_eq!(h.item_color(&tags(vec!["hotbar_item_color"])), None);
    h.select_by_keys(&vec![false, true]);
    assert_eq!(h.item_border(&second), Some(Border::Gray));
}

#[test]
fn color_picker() {
    let mut h = HotbarVoxels::default();
    let item15 = tags(vec!["color_picker_item_color", "color_picker_item_color_15"]);
    let item16 = tags(vec!["color_picker_item_color", "color_picker_item_color_16"]);
    assert_eq!(h.picker_border(&item15), Some(Border::Gray));
    assert_eq!(h.picker_border(&item16), Some(Border::Black));
    assert_eq!(h.picker_border(&tags(vec!["x"])), None);
    assert_eq!(picker_item_color(&item16), Some(16));
    assert_eq!(picker_item_color(&tags(vec!["x"])), None);

    let pick7 = tags(vec!["color_picker_button", "color_picker_button_7"]);
    h.assign_picked_color(Interaction::Hovered, &pick7);
    assert_eq!(h.voxels[0], 16);
    h.assign_picked_color(Interaction::Pressed, &pick7);
    assert_eq!(h.voxels[0], 8);
    assert_eq!(h.selected_index, 0);
    let pick254 = tags(vec!["color_picker_button", "color_picker_button_254"]);
    h.assign_picked_color(Interaction::Pressed, &pick254);
    assert_eq!(h.voxels[0], 255);
}

#[test]
fn hotbar_click_selects_slot() {
    let mut h = HotbarVoxels::default();
    h.select_by_click(Interaction::Pressed, &tags(vec!["hotbar_button", "hotbar_button_4"]));
    assert_eq!(h.selected_index, 3);
    h.select_by_click(Interaction::Hovered, &tags(vec!["hotbar_button", "hotbar_button_9"]));
    assert_eq!(h.selected_index, 3);
    h.select_by_click(Interaction::Pressed, &tags(vec!["hotbar_button_9"]));
    assert_eq!(h.selected_index, 3);
}

#[test]
fn channel_edit_buttons() {
    assert_eq!(
        color_edits(&tags(vec!["edit_g+", "edit_r-"])),
        vec![ColorEdit { channel: 0, increase: false }, ColorEdit { channel: 1, increase: true }]
    );
    assert_eq!(color_edits(&tags(vec!["edit_b+"])), vec![ColorEdit { channel: 2, increase: true }]);
    assert_eq!(color_edits(&tags(vec!["button"])), vec![]);
}

fn labels(n: &LayoutNode) -> Option<String> {
    match &n.widget {
        Widget::Text(s) => Some(s.clone()),
        _ => None,
    }
}

#[test]
fn edit_mode_layout_holds_the_hotbar() {
    let r = voxel_edit_mode::layout();
    assert_eq!(r.tags, strings(vec!["NodeBundle", "node", "voxel_edit_mode"]));
    assert_eq!(r.children.len(), 3);
    assert!(matches!(&r.children[0].widget, Widget::Image(p) if p == "images/crosshair.png"));
    assert_eq!(r.children[1].children.len(), 7);
    let hotbar = &r.children[2];
    assert_eq!(hotbar.children.len(), 10);
    for (k, b) in hotbar.children.iter().enumerate() {
        let n = k + 1;
        assert!(contains_tag(&b.tags, &format!("hotbar_button_{}", n)));
        assert!(contains_tag(&b.children[0].tags, &format!("hotbar_item_color_{}", n)));
        let expected = if n == 10 { "0".to_string() } else { n.to_string() };
        assert_eq!(labels(&b.children[1]), Some(expected));
    }
}

#[test]
fn every_hotbar_button_selects_its_own_slot() {
    let r = voxel_edit_mode::layout();
    let h0 = HotbarVoxels::default();
    for (k, b) in r.children[2].children.iter().enumerate() {
        let mut h = HotbarVoxels { voxels: h0.voxels.clone(), selected_index: 0 };
        h.select_by_click(Interaction::Pressed, &UiTags::new(b.tags.clone()));
        assert_eq!(h.selected_index, k);
        assert_eq!(h.item_color(&UiTags::new(b.children[0].tags.clone())), Some(h0.voxels[k] as usize - 1));
    }
}

#[test]
fn every_picker_button_picks_its_own_color() {
    let r = voxel_edit_options::layout();
    assert_eq!(r.tags, strings(vec!["NodeBundle", "node", "voxel_edit_options"]));
    assert_eq!(r.children[0].children.len(), 10);
    let picker = &r.children[1];
    assert_eq!(picker.children.len(), 255);
    for (i, b) in picker.children.iter().enumerate() {
        let mut h = HotbarVoxels::default();
        h.assign_picked_color(Interaction::Pressed, &UiTags::new(b.tags.clone()));
        assert_eq!(h.voxels[0] as usize, i + 1);
        assert_eq!(picker_item_color(&UiTags::new(b.children[0].tags.clone())), Some(i));
    }
    let rgb = &r.children[2].children[0];
    assert_eq!(rgb.children.len(), 3);
    let red = &rgb.children[0];
    assert_eq!(color_edits(&UiTags::new(red.children[0].tags.clone())), vec![ColorEdit { channel: 0, increase: false }]);
    assert_eq!(color_edits(&UiTags::new(red.children[2].tags.clone())), vec![ColorEdit { channel: 0, increase: true }]);
}

#[test]
fn main_menu_buttons_perform_their_actions() {
    let with_quit = main_menu::layout(true);
    assert_eq!(with_quit.tags, strings(vec!["NodeBundle", "node", "menu_container"]));
    let menu = &with_quit.children[1];
    assert_eq!(menu.children.len(), 6);
    assert!(matches!(&menu.children[0].widget, Widget::Image(p) if p == "images/logo/anvil-constellation-logo-512.png"));
    let expected = [
        MenuAction::BackToGame,
        MenuAction::NewWorld,
        MenuAction::SaveWorld,
        MenuAction::LoadWorld,
        MenuAction::Quit,
    ];
    for (k, action) in expected.iter().enumerate() {
        let b = &menu.children[k + 1];
        assert_eq!(button_actions(Interaction::Pressed, &UiTags::new(b.tags.clone())), Some(*action));
    }
    assert_eq!(labels(&menu.children[5].children[0]), Some("Quit Game".to_string()));
    assert_eq!(main_menu::layout(false).children[1].children.len(), 5);
}

#[test]
fn layouts_spawn_depth_first() {
    let layout = node(vec!["a"], vec![
        button(vec!["b"], vec![text(vec!["c"], "x", vec![])]),
        node(vec!["d"], vec![]),
    ]);
    let plan = spawn_plan(layout);
    assert_eq!(plan.len(), 4);
    let parents: Vec<Option<usize>> = plan.iter().map(|n| n.parent).collect();
    assert_eq!(parents, vec![None, Some(0), Some(1), Some(0)]);
    assert_eq!(plan[0].tags, strings(vec!["NodeBundle", "node", "a"]));
    assert_eq!(plan[1].tags, strings(vec!["ButtonBundle", "button", "b"]));
    assert!(matches!(&plan[2].widget, Widget::Text(s) if s == "x"));
    assert_eq!(plan[3].tags, strings(vec!["NodeBundle", "node", "d"]));
}

#[test]
fn every_spawned_node_follows_its_parent() {
    let plan = spawn_plan(voxel_edit_options::layout());
    assert_eq!(plan.len(), 1 + 1 + 10 * 3 + 1 + 255 * 2 + 1 + 1 + 3 * 6);
    for (i, n) in plan.iter().enumerate() {
        match n.parent {
            Some(p) => assert!(p < i),
            None => assert_eq!(i, 0),
        }
    }
}

#[test]
fn clicked_hotbar_slot_is_the_only_gray_item() {
    let r = voxel_edit_options::layout();
    let hotbar = &r.children[0].children;
    for (k, b) in hotbar.iter().enumerate() {
        let mut h = HotbarVoxels::default();
        h.select_by_click(Interaction::Pressed, &UiTags::new(b.tags.clone()));
        for (j, other) in hotbar.iter().enumerate() {
            let border = h.item_border(&UiTags::new(other.children[0].tags.clone()));
            let expected = if j == k { Border::Gray } else { Border::Black };
            assert_eq!(border, Some(expected));
        }
    }
}

#[test]
fn picked_color_is_the_only_gray_picker_item() {
    let r = voxel_edit_options::layout();
    let picker = &r.children[1].children;
    for i in [0usize, 1, 17, 200, 254].iter() {
        let mut h = HotbarVoxels::default();
        h.select_by_keys(&vec![false, false, true]);
        h.assign_picked_color(Interaction::Pressed, &UiTags::new(picker[*i].tags.clone()));
        for (j, item) in picker.iter().enumerate() {
            let border = h.picker_border(&UiTags::new(item.children[0].tags.clone()));
            let expected = if j == *i { Border::Gray } else { Border::Black };
            assert_eq!(border, Some(expected));
        }
    }
}
