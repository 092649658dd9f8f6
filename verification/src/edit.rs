//! Edit modes and the decisions the editor takes in them.

use vstd::prelude::*;
use vstd::arithmetic::power2::pow2;

verus! {

/// How an edit places voxels: adding or removing, at the surface hit by the
/// camera ray (`Normal`), at a fixed distance (`Dist`), or snapped to a grid
/// (`Snap`).
#[derive(Clone, Copy, Debug, PartialEq, Eq, Hash, Structural)]
pub enum EditState {
    AddNormal,
    AddDist,
    AddSnap,
    RemoveNormal,
    RemoveDist,
    RemoveSnap,
}

/// The shape an edit has.
#[derive(Clone, Copy, Debug, PartialEq, Eq, Hash, Structural)]
pub enum ShapeState {
    Cube,
    Sphere,
}

/// An edit requested by the user.
#[derive(Clone, Copy, Debug, PartialEq, Eq, Hash, Structural)]
pub enum EditEvent {
    AddCube,
    AddSphere,
    RemoveCube,
    RemoveSphere,
}

impl Default for EditState {
    fn default() -> (s: Self)
        ensures
            s == EditState::AddNormal,
    {
        EditState::AddNormal
    }
}

impl Default for ShapeState {
    fn default() -> (s: Self)
        ensures
            s == ShapeState::Cube,
    {
        ShapeState::Cube
    }
}

/// Whether a mode adds voxels.
pub open spec fn adds(e: EditState) -> bool {
    e is AddNormal || e is AddDist || e is AddSnap
}

/// The preview an edit mode shows for a shape: an addition of that shape in
/// the adding modes, a removal of it in the removing modes.
pub open spec fn preview_for(e: EditState, s: ShapeState) -> EditEvent {
    if adds(e) {
        if s is Cube { EditEvent::AddCube } else { EditEvent::AddSphere }
    } else {
        if s is Cube { EditEvent::RemoveCube } else { EditEvent::RemoveSphere }
    }
}

/// The preview that the current edit and shape modes call for.
pub fn get_preview_kind(edit_state: EditState, shape_state: ShapeState) -> (r: EditEvent)
    ensures
        r == preview_for(edit_state, shape_state),
{
    match edit_state {
        EditState::AddNormal | EditState::AddDist | EditState::AddSnap => match shape_state {
            ShapeState::Cube => EditEvent::AddCube,
            ShapeState::Sphere => EditEvent::AddSphere,
        },
        EditState::RemoveNormal | EditState::RemoveDist | EditState::RemoveSnap => match shape_state {
            ShapeState::Cube => EditEvent::RemoveCube,
            ShapeState::Sphere => EditEvent::RemoveSphere,
        },
    }
}

/// Whether the preview is placed at a fixed distance from the camera.
pub fn dist_state(edit_state: EditState) -> (r: bool)
    ensures
        r == (edit_state is AddDist || edit_state is RemoveDist),
{
    edit_state == EditState::AddDist || edit_state == EditState::RemoveDist
}

/// Whether the preview is placed where the camera ray hits the surface.
pub fn normal_state(edit_state: EditState) -> (r: bool)
    ensures
        r == (edit_state is AddNormal || edit_state is RemoveNormal),
{
    edit_state == EditState::AddNormal || edit_state == EditState::RemoveNormal
}

/// The edit a left click asks for in the surface-adding mode: an addition of
/// the current shape, provided a preview is placed.
pub fn add_normal_click(shape_state: ShapeState, preview_placed: bool) -> (r: Option<EditEvent>)
    ensures
        r == (if preview_placed { Some(preview_for(EditState::AddNormal, shape_state)) } else { None }),
{
    if !preview_placed {
        return None;
    }
    match shape_state {
        ShapeState::Cube => Some(EditEvent::AddCube),
        ShapeState::Sphere => Some(EditEvent::AddSphere),
    }
}

/// The edit that holding the left button repeats in the voxel edit mode: a
/// cube addition while adding at the surface, a cube removal otherwise.
pub fn held_edit_event(edit_state: EditState) -> (r: EditEvent)
    ensures
        r == (if edit_state is AddNormal { EditEvent::AddCube } else { EditEvent::RemoveCube }),
{
    if edit_state == EditState::AddNormal {
        EditEvent::AddCube
    } else {
        EditEvent::RemoveCube
    }
}

/// Two right clicks in a surface mode come back to that mode.
pub proof fn lemma_toggle_twice(e: EditState)
    requires
        e is AddNormal || e is RemoveNormal,
    ensures
        toggled(toggled(e)) == e,
{
}

/// The mode a right click switches to (see `toggle_add_remove`).
pub open spec fn toggled(e: EditState) -> EditState {
    if e is AddNormal { EditState::RemoveNormal } else { EditState::AddNormal }
}

/// The mode a right click switches to: from adding at the surface to
/// removing there, and from any other mode to adding at the surface.
pub fn toggle_add_remove(edit_state: EditState) -> (r: EditState)
    ensures
        r == toggled(edit_state),
{
    if edit_state == EditState::AddNormal {
        EditState::RemoveNormal
    } else {
        EditState::AddNormal
    }
}

/// What applying an edit event does to the world: write the given voxel over
/// the given shape.  Only removals are applied; additions yield nothing.
pub fn voxel_write_for(event: EditEvent) -> (r: Option<(ShapeState, u8)>)
    ensures
        r == (match event {
            EditEvent::RemoveCube => Some((ShapeState::Cube, 0u8)),
            EditEvent::RemoveSphere => Some((ShapeState::Sphere, 0u8)),
            _ => None,
        }),
{
    match event {
        EditEvent::RemoveCube => Some((ShapeState::Cube, 0)),
        EditEvent::RemoveSphere => Some((ShapeState::Sphere, 0)),
        _ => None,
    }
}

/// The integer parameters of the edit preview: the size level, the cube
/// edge `size` (which is `2^level`), and the voxel value it writes.  Its
/// position, sphere radius and distance are floating-point values kept by
/// the caller.
#[derive(Clone, Copy, Debug, PartialEq, Eq, Structural)]
pub struct Preview {
    pub level: u8,
    pub size: u8,
    pub voxel: u8,
}

/// The largest level the mouse wheel reaches.
pub const MAX_PREVIEW_LEVEL: u8 = 3;

impl Preview {
    /// The edge size matches the level.
    pub open spec fn wf(&self) -> bool {
        self.level <= MAX_PREVIEW_LEVEL && self.size == pow2(self.level as nat)
    }

    /// One step of the mouse wheel: a step down halves the edge while the
    /// level is above 0, a step up doubles it while the level is below 3;
    /// otherwise nothing changes.
    pub fn scale(&mut self, down: bool, up: bool)
        requires
            down && old(self).level > 0 ==> old(self).level <= 8,
        ensures
            *final(self) == scaled(*old(self), down, up),
            old(self).wf() ==> final(self).wf(),
    {
        proof {
            vstd::arithmetic::power2::lemma2_to64();
        }
        if down {
            if self.level > 0 {
                self.level = self.level - 1;
                self.size = pow2_u8(self.level);
            }
        } else if up {
            if self.level < MAX_PREVIEW_LEVEL {
                self.level = self.level + 1;
                self.size = pow2_u8(self.level);
            }
        }
    }
}

/// The preview after one step of the mouse wheel (see `Preview::scale`).
pub open spec fn scaled(p: Preview, down: bool, up: bool) -> Preview {
    if down && p.level > 0 {
        Preview { level: (p.level - 1) as u8, size: pow2((p.level - 1) as nat) as u8, voxel: p.voxel }
    } else if !down && up && p.level < MAX_PREVIEW_LEVEL {
        Preview { level: (p.level + 1) as u8, size: pow2((p.level + 1) as nat) as u8, voxel: p.voxel }
    } else {
        p
    }
}

/// A step up of the mouse wheel followed by a step down gives back the same
/// preview, and so does a step down followed by a step up.
pub proof fn lemma_scale_steps_undo(p: Preview)
    requires
        p.wf(),
    ensures
        p.level < MAX_PREVIEW_LEVEL ==> scaled(scaled(p, false, true), true, false) == p,
        p.level > 0 ==> scaled(scaled(p, true, false), false, true) == p,
{
    vstd::arithmetic::power2::lemma2_to64();
}

impl Default for Preview {
    /// Level 1 (edge 2), writing voxel value 1.
    fn default() -> (p: Preview)
        ensures
            p == (Preview { level: 1, size: 2, voxel: 1 }),
            p.wf(),
    {
        proof {
            vstd::arithmetic::power2::lemma2_to64();
        }
        Preview { level: 1, size: pow2_u8(1), voxel: 1 }
    }
}

/// The integer parameters a player's chunk edit starts with; its distance
/// is a floating-point value kept by the caller.
#[derive(Clone, Copy, Debug, PartialEq, Eq, Structural)]
pub struct ChunkEditParams {
    pub level: u8,
    pub voxel: u8,
    pub size: u32,
}

impl Default for ChunkEditParams {
    /// Level 1, edge `2^1`, voxel value 0.
    fn default() -> (p: ChunkEditParams)
        ensures
            p == (ChunkEditParams { level: 1, voxel: 0, size: 2 }),
            p.size == pow2(p.level as nat),
    {
        proof {
            vstd::arithmetic::power2::lemma2_to64();
        }
        let level: u8 = 1;
        ChunkEditParams { level, voxel: 0, size: pow2_u8(level) as u32 }
    }
}

/// `2^level` for the levels whose power fits a byte.
fn pow2_u8(level: u8) -> (r: u8)
    requires
        level < 8,
    ensures
        r == pow2(level as nat),
{
    proof {
        vstd::arithmetic::power2::lemma2_to64();
    }
    let mut r: u8 = 1;
    let mut i: u8 = 0;
    while i < level
        invariant
            i <= level < 8,
            r == pow2(i as nat),
        decreases level - i,
    {
        proof {
            vstd::arithmetic::power2::lemma_pow2_unfold((i + 1) as nat);
            vstd::arithmetic::power2::lemma2_to64();
            assert(i == 0 || i == 1 || i == 2 || i == 3 || i == 4 || i == 5 || i == 6);
        }
        r = r * 2;
        i = i + 1;
    }
    r
}

} // verus!
