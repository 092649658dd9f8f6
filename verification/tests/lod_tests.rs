use iron_voxel::lod::get_keys_by_lod;

#[test]
fn test_get_keys_by_lod() -> Result<(), String> {
  let key = [0, 0, 0];
  let lod = 4;
  let max_lod = 4;
  let range = 1;

  let ranges = vec![0, range, 4, 8, 12];

  let keys = get_keys_by_lod(ranges.clone(), key, max_lod, lod);
  assert_eq!(keys.len(), 27);

  for k in keys.iter() {
    assert!(k[0] >= -1);
    assert!(k[0] <=  1);

    assert!(k[1] >= -1);
    assert!(k[1] <=  1);

    assert!(k[2] >= -1);
    assert!(k[2] <=  1);
  }

  let lod = 3;
  let max = ranges[2];
  let keys = get_keys_by_lod(ranges.clone(), key, max_lod, lod);
  for k in keys.iter() {
    assert!(k[0] < range || k[0] > range);
    assert!(k[0] <= max);

    assert!(k[1] < range || k[1] > range);
    assert!(k[1] <= max);

    assert!(k[2] < range || k[2] > range);
    assert!(k[2] <= max);
  }

  let lod = 2;
  let max = ranges[3];
  let keys = get_keys_by_lod(ranges.clone(), key, max_lod, lod);
  for k in keys.iter() {
    assert!(k[0] < range || k[0] > range);
    assert!(k[0] <= max);

    assert!(k[1] < range || k[1] > range);
    assert!(k[1] <= max);

    assert!(k[2] < range || k[2] > range);
    assert!(k[2] <= max);
  }

  let lod = 1;
  let max = ranges[4];
  let keys = get_keys_by_lod(ranges.clone(), key, max_lod, lod);
  for k in keys.iter() {
    assert!(k[0] < range || k[0] > range);
    assert!(k[0] <= max);

    assert!(k[1] < range || k[1] > range);
    assert!(k[1] <= max);

    assert!(k[2] < range || k[2] > range);
    assert!(k[2] <= max);
  }

  Ok(())
}

#[test]
fn finest_level_is_the_full_cube_in_scan_order() {
  let keys = get_keys_by_lod(vec![0, 1, 3], [10, -5, 2], 2, 2);
  assert_eq!(keys.len(), 27);
  assert_eq!(keys[0], [9, -6, 1]);
  assert_eq!(keys[1], [9, -6, 2]);
  assert_eq!(keys[3], [9, -5, 1]);
  assert_eq!(keys[26], [11, -4, 3]);
}

#[test]
fn coarser_level_lies_beyond_the_inner_radius_on_every_axis() {
  let keys = get_keys_by_lod(vec![0, 1, 3], [0, 0, 0], 2, 1);
  // offsets in [-3, 3] with |x|, |y|, |z| all in {2, 3}: 4 choices per axis
  assert_eq!(keys.len(), 64);
  for k in keys.iter() {
    for c in k.iter() {
      assert!(c.abs() >= 2 && c.abs() <= 3);
    }
  }
  assert_eq!(keys[0], [-3, -3, -3]);
  assert_eq!(keys[63], [3, 3, 3]);
}

#[test]
fn negative_outer_radius_gives_no_keys() {
  let keys = get_keys_by_lod(vec![0, -1], [0, 0, 0], 0, 0);
  assert!(keys.is_empty());
}
