use iron_voxel::chunks::{
    get_keys_without_data, get_preview_window, graphics_replaced_by, plan_load_chunks, preview_cells, ChunkSource, Replaced,
};
use iron_voxel::ray::RayUtils;
use iron_voxel::shapes::{cube_edit_range, get_cube_coords, get_sphere_offsets, get_unit_offsets, offset_coords};

#[test]
fn cube_ranges_by_size() {
    assert_eq!(cube_edit_range(1), (0, 1));
    assert_eq!(cube_edit_range(2), (0, 2));
    assert_eq!(cube_edit_range(3), (-1, 2));
    assert_eq!(cube_edit_range(4), (-1, 3));
    assert_eq!(cube_edit_range(8), (-3, 5));
}

#[test]
fn cube_coords_in_scan_order() {
    let c = get_cube_coords([10, -3, 5], 2);
    assert_eq!(
        c,
        vec![
            [10, -3, 5], [10, -3, 6], [10, -2, 5], [10, -2, 6],
            [11, -3, 5], [11, -3, 6], [11, -2, 5], [11, -2, 6],
        ]
    );
    assert_eq!(get_cube_coords([0, 0, 0], 4).len(), 64);
}

#[test]
fn unit_sphere_is_the_centre_and_its_faces() {
    assert_eq!(
        get_sphere_offsets(1, 1),
        vec![[-1, 0, 0], [0, -1, 0], [0, 0, -1], [0, 0, 0], [0, 0, 1], [0, 1, 0], [1, 0, 0]]
    );
    assert_eq!(get_sphere_offsets(1, 3).len(), 27);
    assert_eq!(get_sphere_offsets(2, -1), Vec::<[i64; 3]>::new());
    for o in get_sphere_offsets(3, 9) {
        assert!(o[0] * o[0] + o[1] * o[1] + o[2] * o[2] <= 9);
    }
}

#[test]
fn unit_offsets_and_shifts() {
    let u = get_unit_offsets();
    assert_eq!(u.len(), 27);
    assert_eq!(u[0], [-1, -1, -1]);
    assert_eq!(u[13], [0, 0, 0]);
    assert_eq!(u[26], [1, 1, 1]);
    assert_eq!(offset_coords([10, 0, -1], &vec![[1, 2, 3], [0, 0, 0]]), vec![[11, 2, 2], [10, 0, -1]]);
}

#[test]
fn snapped_positions_truncate_toward_zero() {
    let p = RayUtils::get_nearby_snapped_positions([5, -5, 0], 4);
    assert_eq!(p.len(), 27);
    assert_eq!(p[0], [0, -8, -4]);
    assert_eq!(p[13], [4, -4, 0]);
    assert_eq!(p[26], [8, 0, 4]);
    let q = RayUtils::get_nearby_snapped_positions([-1, 3, 7], 2);
    assert_eq!(q[13], [0, 2, 6]);
}

#[test]
fn keys_without_data_keep_their_order() {
    let keys = vec![[0, 0, 0], [1, 0, 0], [2, 0, 0], [1, 0, 0]];
    let stored = vec![[1, 0, 0], [5, 5, 5]];
    assert_eq!(get_keys_without_data(&keys, &stored), vec![[0, 0, 0], [2, 0, 0]]);
    assert_eq!(
        plan_load_chunks(&keys, &stored),
        vec![ChunkSource::Generated, ChunkSource::Stored, ChunkSource::Generated, ChunkSource::Stored]
    );
    assert_eq!(get_keys_without_data(&keys, &vec![]), keys);
}

#[test]
fn new_mesh_replaces_the_drawn_chunks_of_its_key() {
    let drawn = vec![([0, 0, 0], 0usize), ([1, 0, 0], 2), ([0, 0, 0], 3)];
    assert_eq!(
        graphics_replaced_by(&drawn, [0, 0, 0]),
        vec![Replaced { index: 0, remove_collider: true }, Replaced { index: 2, remove_collider: false }]
    );
    assert_eq!(graphics_replaced_by(&drawn, [9, 9, 9]), Vec::<Replaced>::new());
}

#[test]
fn preview_window() {
    let w = get_preview_window(1);
    assert_eq!(w.len(), 216);
    assert_eq!(w[0], [-3, -3, -3]);
    assert_eq!(w[215], [2, 2, 2]);
    assert_eq!(get_preview_window(-2), Vec::<[i64; 3]>::new());
}

#[test]
fn preview_cells_pair_chunk_and_world_positions() {
    let cells = preview_cells([100, -50, 7], 0, 16);
    assert_eq!(cells.len(), 64);
    assert_eq!(cells[0], ([14, 14, 14], [98, -52, 5]));
    assert_eq!(cells[63], ([17, 17, 17], [101, -49, 8]));
    for (local, world) in cells.iter() {
        for a in 0..3 {
            assert_eq!(local[a] as i64 - 16, world[a] - [100, -50, 7][a]);
        }
    }
}

fn near_positions(pos: [f32; 3], unit: f32) -> Vec<[f32; 3]> {
    get_unit_offsets()
        .iter()
        .map(|o| [pos[0] + o[0] as f32 * unit, pos[1] + o[1] as f32 * unit, pos[2] + o[2] as f32 * unit])
        .collect()
}

#[test]
fn unit_offsets_give_the_near_positions_at_scale_one() {
    let res = near_positions([0.0, 0.0, 0.0], 1.0);
    let mut expected = Vec::new();
    for x in [-1.0f32, 0.0, 1.0].iter() {
        for y in [-1.0f32, 0.0, 1.0].iter() {
            for z in [-1.0f32, 0.0, 1.0].iter() {
                expected.push([*x, *y, *z]);
            }
        }
    }
    assert_eq!(res, expected);
}

#[test]
fn unit_offsets_give_the_near_positions_at_scale_half() {
    let res = near_positions([0.0, 0.0, 0.0], 0.5);
    assert_eq!(res.len(), 27);
    assert_eq!(res[0], [-0.5, -0.5, -0.5]);
    assert_eq!(res[1], [-0.5, -0.5, 0.0]);
    assert_eq!(res[13], [0.0, 0.0, 0.0]);
    assert_eq!(res[26], [0.5, 0.5, 0.5]);
}
