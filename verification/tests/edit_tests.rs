use iron_voxel::edit::{
    add_normal_click, dist_state, get_preview_kind, held_edit_event, normal_state, toggle_add_remove,
    voxel_write_for, ChunkEditParams, EditEvent, EditState, Preview, ShapeState, MAX_PREVIEW_LEVEL,
};

#[test]
fn defaults() {
    assert_eq!(EditState::default(), EditState::AddNormal);
    assert_eq!(ShapeState::default(), ShapeState::Cube);
    assert_eq!(Preview::default(), Preview { level: 1, size: 2, voxel: 1 });
    assert_eq!(ChunkEditParams::default(), ChunkEditParams { level: 1, voxel: 0, size: 2 });
}

#[test]
fn preview_kind_follows_mode_and_shape() {
    assert_eq!(get_preview_kind(EditState::AddNormal, ShapeState::Cube), EditEvent::AddCube);
    assert_eq!(get_preview_kind(EditState::AddDist, ShapeState::Sphere), EditEvent::AddSphere);
    assert_eq!(get_preview_kind(EditState::AddSnap, ShapeState::Cube), EditEvent::AddCube);
    assert_eq!(get_preview_kind(EditState::RemoveNormal, ShapeState::Sphere), EditEvent::RemoveSphere);
    assert_eq!(get_preview_kind(EditState::RemoveDist, ShapeState::Cube), EditEvent::RemoveCube);
    assert_eq!(get_preview_kind(EditState::RemoveSnap, ShapeState::Sphere), EditEvent::RemoveSphere);
}

#[test]
fn placement_kinds() {
    assert!(dist_state(EditState::AddDist));
    assert!(dist_state(EditState::RemoveDist));
    assert!(!dist_state(EditState::AddNormal));
    assert!(!dist_state(EditState::RemoveSnap));
    assert!(normal_state(EditState::AddNormal));
    assert!(normal_state(EditState::RemoveNormal));
    assert!(!normal_state(EditState::AddDist));
    assert!(!normal_state(EditState::AddSnap));
}

#[test]
fn click_in_surface_add_mode_needs_a_preview() {
    assert_eq!(add_normal_click(ShapeState::Sphere, true), Some(EditEvent::AddSphere));
    assert_eq!(add_normal_click(ShapeState::Cube, true), Some(EditEvent::AddCube));
    assert_eq!(add_normal_click(ShapeState::Cube, false), None);
}

#[test]
fn held_button_and_right_click() {
    assert_eq!(held_edit_event(EditState::AddNormal), EditEvent::AddCube);
    assert_eq!(held_edit_event(EditState::AddDist), EditEvent::RemoveCube);
    assert_eq!(held_edit_event(EditState::RemoveNormal), EditEvent::RemoveCube);
    assert_eq!(toggle_add_remove(EditState::AddNormal), EditState::RemoveNormal);
    assert_eq!(toggle_add_remove(EditState::RemoveNormal), EditState::AddNormal);
    assert_eq!(toggle_add_remove(EditState::AddSnap), EditState::AddNormal);
    assert_eq!(toggle_add_remove(EditState::RemoveDist), EditState::AddNormal);
}

#[test]
fn only_removals_write_voxels() {
    assert_eq!(voxel_write_for(EditEvent::RemoveCube), Some((ShapeState::Cube, 0)));
    assert_eq!(voxel_write_for(EditEvent::RemoveSphere), Some((ShapeState::Sphere, 0)));
    assert_eq!(voxel_write_for(EditEvent::AddCube), None);
    assert_eq!(voxel_write_for(EditEvent::AddSphere), None);
}

#[test]
fn mouse_wheel_scales_the_preview_within_its_levels() {
    let mut p = Preview::default();
    p.scale(false, true);
    assert_eq!(p, Preview { level: 2, size: 4, voxel: 1 });
    p.scale(false, true);
    assert_eq!(p, Preview { level: 3, size: 8, voxel: 1 });
    p.scale(false, true);
    assert_eq!(p, Preview { level: MAX_PREVIEW_LEVEL, size: 8, voxel: 1 });
    p.scale(true, true);
    assert_eq!(p, Preview { level: 2, size: 4, voxel: 1 });
    p.scale(true, false);
    p.scale(true, false);
    assert_eq!(p, Preview { level: 0, size: 1, voxel: 1 });
    p.scale(true, false);
    assert_eq!(p, Preview { level: 0, size: 1, voxel: 1 });
    p.scale(false, false);
    assert_eq!(p, Preview { level: 0, size: 1, voxel: 1 });
}

#[test]
fn scaling_keeps_the_edge_a_power_of_the_level() {
    let mut p = Preview { level: 2, size: 4, voxel: 9 };
    let steps = [(true, false), (false, true), (false, true), (true, false), (true, false), (true, false), (false, true)];
    for (down, up) in steps.iter() {
        p.scale(*down, *up);
        assert!(p.level <= MAX_PREVIEW_LEVEL);
        assert_eq!(p.size, 1u8 << p.level);
        assert_eq!(p.voxel, 9);
    }
}

#[test]
fn wheel_up_then_down_restores_the_preview() {
    for level in 0..MAX_PREVIEW_LEVEL {
        let start = Preview { level, size: 1u8 << level, voxel: 5 };
        let mut p = start;
        p.scale(false, true);
        p.scale(true, false);
        assert_eq!(p, start);
    }
}

#[test]
fn two_right_clicks_come_back() {
    for e in [EditState::AddNormal, EditState::RemoveNormal].iter() {
        assert_eq!(toggle_add_remove(toggle_add_remove(*e)), *e);
    }
}
