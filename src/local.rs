use vstd::prelude::*;
use crate::visibility::{GraphDirectionSet, NEG_X, POS_X, NEG_Y, POS_Y, NEG_Z, POS_Z, opposite_spec};

verus! {

/// Number of sections in the culling window, 256 on each axis.
pub const SECTIONS_IN_GRAPH: usize = 16777216;

/// Offset added to a world section's Y so that it lands inside the window.
pub const Y_ADD_SECTIONS: u8 = 128;

/// A section position inside the 256x256x256 window.
#[derive(Clone, Copy, PartialEq, Eq, Structural, Debug)]
pub struct LocalNodeCoords {
    pub x: u8,
    pub y: u8,
    pub z: u8,
}

/// Three signed integers: a world section or region position.
#[derive(Clone, Copy, PartialEq, Eq, Structural, Debug)]
pub struct IVec3 {
    pub x: i32,
    pub y: i32,
    pub z: i32,
}

/// The packed index of a section, with the bits of the three coordinates
/// interleaved level by level: the top 15 bits name the level-3 node (8^3
/// sections), the next 3 the level-2 child in it, then the level-1 child, then
/// the section itself. The sections of a node at any level thus form one
/// contiguous, aligned range of indices.
pub open spec fn pack_bits(x: u32, y: u32, z: u32) -> u32 {
    ((x >> 3u32) << 19u32) | ((y >> 3u32) << 14u32) | ((z >> 3u32) << 9u32)
        | (((x >> 2u32) & 1u32) << 8u32) | (((y >> 2u32) & 1u32) << 7u32) | (((z >> 2u32) & 1u32) << 6u32)
        | (((x >> 1u32) & 1u32) << 5u32) | (((y >> 1u32) & 1u32) << 4u32) | (((z >> 1u32) & 1u32) << 3u32)
        | ((x & 1u32) << 2u32) | ((y & 1u32) << 1u32) | (z & 1u32)
}

/// One coordinate out of a packed index: `shift` is 2 for X, 1 for Y, 0 for
/// Z, and `top` the place of its five high bits (19, 14, 9).
pub open spec fn unpack_axis(i: u32, shift: u32, top: u32) -> u32 {
    (((i >> top) & 31u32) << 3u32) | (((i >> (shift + 6u32)) & 1u32) << 2u32)
        | (((i >> (shift + 3u32)) & 1u32) << 1u32) | ((i >> shift) & 1u32)
}

/// The packed index of a section: one slot of the window's per-section tables.
pub open spec fn pack_spec(c: LocalNodeCoords) -> int {
    pack_bits(c.x as u32, c.y as u32, c.z as u32) as int
}

/// The section that a packed index stands for.
pub open spec fn unpack_spec(i: int) -> LocalNodeCoords {
    LocalNodeCoords {
        x: unpack_axis(i as u32, 2, 19) as u8,
        y: unpack_axis(i as u32, 1, 14) as u8,
        z: unpack_axis(i as u32, 0, 9) as u8,
    }
}

pub proof fn lemma_pack_bounds(c: LocalNodeCoords)
    ensures
        0 <= pack_spec(c) < SECTIONS_IN_GRAPH,
        unpack_spec(pack_spec(c)) == c,
{
    let x = c.x as u32;
    let y = c.y as u32;
    let z = c.z as u32;
    assert({
        let i = pack_bits(x, y, z);
        &&& i < 16777216u32
        &&& unpack_axis(i, 2, 19) == x
        &&& unpack_axis(i, 1, 14) == y
        &&& unpack_axis(i, 0, 9) == z
    }) by (bit_vector)
        requires x < 256u32, y < 256u32, z < 256u32;
}

/// Every index of the window is the packed index of its section.
pub proof fn lemma_unpack_bounds(i: u32)
    requires
        i < SECTIONS_IN_GRAPH,
    ensures
        pack_spec(unpack_spec(i as int)) == i,
{
    assert({
        &&& unpack_axis(i, 2, 19) < 256u32
        &&& unpack_axis(i, 1, 14) < 256u32
        &&& unpack_axis(i, 0, 9) < 256u32
        &&& pack_bits(unpack_axis(i, 2, 19), unpack_axis(i, 1, 14), unpack_axis(i, 0, 9)) == i
    }) by (bit_vector)
        requires i < 16777216u32;
}

/// Packing is one to one.
pub proof fn lemma_pack_injective(a: LocalNodeCoords, b: LocalNodeCoords)
    ensures
        (pack_spec(a) == pack_spec(b)) == (a == b),
{
    lemma_pack_bounds(a);
    lemma_pack_bounds(b);
}

/// A level-0 node: the packed index of one section.
#[derive(Clone, Copy, PartialEq, Eq, Structural, Debug)]
pub struct LocalNodeIndex {
    pub index: u32,
}

impl LocalNodeIndex {
    pub open spec fn wf(&self) -> bool {
        self.index < SECTIONS_IN_GRAPH
    }

    pub open spec fn coords(&self) -> LocalNodeCoords {
        unpack_spec(self.index as int)
    }

    pub fn pack(c: LocalNodeCoords) -> (r: Self)
        ensures
            r.wf(),
            r.index == pack_spec(c),
            r.coords() == c,
    {
        proof {
            lemma_pack_bounds(c);
        }
        let x = c.x as u32;
        let y = c.y as u32;
        let z = c.z as u32;
        let index = ((x >> 3) << 19) | ((y >> 3) << 14) | ((z >> 3) << 9) | (((x >> 2) & 1) << 8) | (((y >> 2) & 1) << 7)
            | (((z >> 2) & 1) << 6) | (((x >> 1) & 1) << 5) | (((y >> 1) & 1) << 4) | (((z >> 1) & 1) << 3) | ((x & 1) << 2)
            | ((y & 1) << 1) | (z & 1);
        LocalNodeIndex { index }
    }

    pub fn unpack(&self) -> (r: LocalNodeCoords)
        requires
            self.wf(),
        ensures
            r == self.coords(),
            pack_spec(r) == self.index,
    {
        let i = self.index;
        proof {
            lemma_unpack_bounds(i);
        }
        let x = (((i >> 19) & 31) << 3) | (((i >> 8) & 1) << 2) | (((i >> 5) & 1) << 1) | ((i >> 2) & 1);
        let y = (((i >> 14) & 31) << 3) | (((i >> 7) & 1) << 2) | (((i >> 4) & 1) << 1) | ((i >> 1) & 1);
        let z = (((i >> 9) & 31) << 3) | (((i >> 6) & 1) << 2) | (((i >> 3) & 1) << 1) | (i & 1);
        assert(x == unpack_axis(i, 2, 19) && y == unpack_axis(i, 1, 14) && z == unpack_axis(i, 0, 9)) by (bit_vector)
            requires
                x == (((i >> 19u32) & 31u32) << 3u32) | (((i >> 8u32) & 1u32) << 2u32) | (((i >> 5u32) & 1u32) << 1u32) | ((i >> 2u32) & 1u32),
                y == (((i >> 14u32) & 31u32) << 3u32) | (((i >> 7u32) & 1u32) << 2u32) | (((i >> 4u32) & 1u32) << 1u32) | ((i >> 1u32) & 1u32),
                z == (((i >> 9u32) & 31u32) << 3u32) | (((i >> 6u32) & 1u32) << 2u32) | (((i >> 3u32) & 1u32) << 1u32) | (i & 1u32);
        LocalNodeCoords { x: x as u8, y: y as u8, z: z as u8 }
    }
}

/// The section next to `c` in direction `d`, where it lies inside the window.
pub open spec fn neighbor_spec(c: LocalNodeCoords, d: int) -> LocalNodeCoords {
    if d == NEG_X {
        LocalNodeCoords { x: (c.x - 1) as u8, ..c }
    } else if d == POS_X {
        LocalNodeCoords { x: (c.x + 1) as u8, ..c }
    } else if d == NEG_Y {
        LocalNodeCoords { y: (c.y - 1) as u8, ..c }
    } else if d == POS_Y {
        LocalNodeCoords { y: (c.y + 1) as u8, ..c }
    } else if d == NEG_Z {
        LocalNodeCoords { z: (c.z - 1) as u8, ..c }
    } else {
        LocalNodeCoords { z: (c.z + 1) as u8, ..c }
    }
}

/// Whether a step from `c` in direction `d` stays inside the window.
pub open spec fn step_in_window(c: LocalNodeCoords, d: int) -> bool {
    &&& 0 <= d < 6
    &&& d == NEG_X ==> c.x > 0
    &&& d == POS_X ==> c.x < 255
    &&& d == NEG_Y ==> c.y > 0
    &&& d == POS_Y ==> c.y < 255
    &&& d == NEG_Z ==> c.z > 0
    &&& d == POS_Z ==> c.z < 255
}

/// Stepping back across the opposite face returns to the start.
pub proof fn lemma_neighbor_opposite(c: LocalNodeCoords, d: int)
    requires
        step_in_window(c, d),
    ensures
        step_in_window(neighbor_spec(c, d), opposite_spec(d)),
        neighbor_spec(neighbor_spec(c, d), opposite_spec(d)) == c,
{
}

/// The section next to `c` in direction `d`.
pub fn neighbor(c: LocalNodeCoords, d: u8) -> (r: LocalNodeCoords)
    requires
        step_in_window(c, d as int),
    ensures
        r == neighbor_spec(c, d as int),
{
    if d == NEG_X {
        LocalNodeCoords { x: c.x - 1, ..c }
    } else if d == POS_X {
        LocalNodeCoords { x: c.x + 1, ..c }
    } else if d == NEG_Y {
        LocalNodeCoords { y: c.y - 1, ..c }
    } else if d == POS_Y {
        LocalNodeCoords { y: c.y + 1, ..c }
    } else if d == NEG_Z {
        LocalNodeCoords { z: c.z - 1, ..c }
    } else {
        LocalNodeCoords { z: c.z + 1, ..c }
    }
}

/// How a cube of sections lies against the visible volume.
#[derive(Clone, Copy, PartialEq, Eq, Structural, Debug)]
pub enum BoundsCheckResult {
    Outside,
    Inside,
    Partial,
}

/// Edge length of a level-`level` node, in sections.
pub open spec fn node_size(level: int) -> int {
    if level == 0 { 1 } else if level == 1 { 2 } else if level == 2 { 4 } else { 8 }
}

/// What the culling pass is given about the camera and its view.
///
/// The frustum and fog volume is a box of sections (`bounds_min` to
/// `bounds_max`, inclusive); the walk may not leave the render-distance window
/// (`view_min` to `view_max`, inclusive). Level-3 nodes from `iter_start`
/// (in units of 8 sections), `level_3_node_iter_counts` of them on each axis,
/// are swept by the bounds pass.
#[derive(Clone, Copy, Debug)]
pub struct LocalCoordContext {
    pub camera_section: LocalNodeCoords,
    pub origin_region_coords: IVec3,
    pub view_min: LocalNodeCoords,
    pub view_max: LocalNodeCoords,
    pub bounds_min: LocalNodeCoords,
    pub bounds_max: LocalNodeCoords,
    pub iter_start: LocalNodeCoords,
    pub level_3_node_iter_counts: LocalNodeCoords,
}

/// `v - d`, but not below zero.
fn sat_sub(v: u8, d: u8) -> (r: u8)
    ensures
        r == if v >= d { v - d } else { 0 },
{
    if v >= d { v - d } else { 0 }
}

/// `v + d`, but not above 255.
fn sat_add(v: u8, d: u8) -> (r: u8)
    ensures
        r == if v as int + d as int <= 255 { v + d } else { 255 },
{
    if v as u16 + d as u16 <= 255 { v + d } else { 255 }
}

impl LocalCoordContext {
    pub open spec fn wf(&self) -> bool {
        &&& self.view_min.x <= self.camera_section.x <= self.view_max.x
        &&& self.view_min.y <= self.camera_section.y <= self.view_max.y
        &&& self.view_min.z <= self.camera_section.z <= self.view_max.z
        &&& self.iter_start.x as int + self.level_3_node_iter_counts.x as int <= 32
        &&& self.iter_start.y as int + self.level_3_node_iter_counts.y as int <= 32
        &&& self.iter_start.z as int + self.level_3_node_iter_counts.z as int <= 32
        &&& i32::MIN < self.origin_region_coords.x <= i32::MAX - 64
        &&& i32::MIN < self.origin_region_coords.y <= i32::MAX - 64
        &&& i32::MIN < self.origin_region_coords.z <= i32::MAX - 64
    }

    /// A context whose window reaches `view_distance` sections from the camera
    /// on each axis (clipped to the grid), and whose sweep covers every level-3
    /// node that meets the visible box.
    pub fn new(
        camera_section: LocalNodeCoords,
        view_distance: u8,
        bounds_min: LocalNodeCoords,
        bounds_max: LocalNodeCoords,
        origin_region_coords: IVec3,
    ) -> (r: Self)
        requires
            i32::MIN < origin_region_coords.x <= i32::MAX - 64,
            i32::MIN < origin_region_coords.y <= i32::MAX - 64,
            i32::MIN < origin_region_coords.z <= i32::MAX - 64,
        ensures
            r.wf(),
            r.camera_section == camera_section,
            r.bounds_min == bounds_min,
            r.bounds_max == bounds_max,
            r.origin_region_coords == origin_region_coords,
            r.view_min.x == if camera_section.x >= view_distance { camera_section.x - view_distance } else { 0 },
            r.view_min.y == if camera_section.y >= view_distance { camera_section.y - view_distance } else { 0 },
            r.view_min.z == if camera_section.z >= view_distance { camera_section.z - view_distance } else { 0 },
            r.view_max.x == if camera_section.x + view_distance <= 255 { camera_section.x + view_distance } else { 255 },
            r.view_max.y == if camera_section.y + view_distance <= 255 { camera_section.y + view_distance } else { 255 },
            r.view_max.z == if camera_section.z + view_distance <= 255 { camera_section.z + view_distance } else { 255 },
            forall|c: LocalNodeCoords| #[trigger] r.in_bounds(c) ==> r.in_sweep(c),
    {
        let iter_start = LocalNodeCoords { x: bounds_min.x / 8, y: bounds_min.y / 8, z: bounds_min.z / 8 };
        let empty = bounds_min.x > bounds_max.x || bounds_min.y > bounds_max.y || bounds_min.z > bounds_max.z;
        let counts = if empty {
            LocalNodeCoords { x: 0, y: 0, z: 0 }
        } else {
            LocalNodeCoords {
                x: bounds_max.x / 8 - bounds_min.x / 8 + 1,
                y: bounds_max.y / 8 - bounds_min.y / 8 + 1,
                z: bounds_max.z / 8 - bounds_min.z / 8 + 1,
            }
        };
        LocalCoordContext {
            camera_section,
            origin_region_coords,
            view_min: LocalNodeCoords {
                x: sat_sub(camera_section.x, view_distance),
                y: sat_sub(camera_section.y, view_distance),
                z: sat_sub(camera_section.z, view_distance),
            },
            view_max: LocalNodeCoords {
                x: sat_add(camera_section.x, view_distance),
                y: sat_add(camera_section.y, view_distance),
                z: sat_add(camera_section.z, view_distance),
            },
            bounds_min,
            bounds_max,
            iter_start,
            level_3_node_iter_counts: counts,
        }
    }

    /// Whether a section lies inside the frustum and fog volume.
    pub open spec fn in_bounds(&self, c: LocalNodeCoords) -> bool {
        &&& self.bounds_min.x <= c.x <= self.bounds_max.x
        &&& self.bounds_min.y <= c.y <= self.bounds_max.y
        &&& self.bounds_min.z <= c.z <= self.bounds_max.z
    }

    /// Whether a section lies in one of the level-3 nodes that the bounds pass sweeps.
    pub open spec fn in_sweep(&self, c: LocalNodeCoords) -> bool {
        &&& self.iter_start.x <= c.x / 8 < self.iter_start.x + self.level_3_node_iter_counts.x
        &&& self.iter_start.y <= c.y / 8 < self.iter_start.y + self.level_3_node_iter_counts.y
        &&& self.iter_start.z <= c.z / 8 < self.iter_start.z + self.level_3_node_iter_counts.z
    }

    /// Whether a section is marked visible by the bounds pass.
    pub open spec fn passes_bounds(&self, c: LocalNodeCoords) -> bool {
        self.in_bounds(c) && self.in_sweep(c)
    }

    /// Whether a step from `c` in direction `d` stays inside the render window.
    pub open spec fn valid_direction(&self, c: LocalNodeCoords, d: int) -> bool {
        &&& 0 <= d < 6
        &&& d == NEG_X ==> c.x > self.view_min.x
        &&& d == POS_X ==> c.x < self.view_max.x
        &&& d == NEG_Y ==> c.y > self.view_min.y
        &&& d == POS_Y ==> c.y < self.view_max.y
        &&& d == NEG_Z ==> c.z > self.view_min.z
        &&& d == POS_Z ==> c.z < self.view_max.z
    }

    /// Whether the cube of edge `size` at `node` lies wholly inside the visible box.
    pub open spec fn cube_inside(&self, node: LocalNodeCoords, size: int) -> bool {
        &&& self.bounds_min.x <= node.x && node.x + size - 1 <= self.bounds_max.x
        &&& self.bounds_min.y <= node.y && node.y + size - 1 <= self.bounds_max.y
        &&& self.bounds_min.z <= node.z && node.z + size - 1 <= self.bounds_max.z
    }

    /// Whether the cube of edge `size` at `node` misses the visible box.
    pub open spec fn cube_outside(&self, node: LocalNodeCoords, size: int) -> bool {
        ||| node.x + size - 1 < self.bounds_min.x || node.x > self.bounds_max.x
        ||| node.y + size - 1 < self.bounds_min.y || node.y > self.bounds_max.y
        ||| node.z + size - 1 < self.bounds_min.z || node.z > self.bounds_max.z
    }

    /// Tests the level-`level` node whose lowest corner is `node` against the visible box.
    pub fn test_node(&self, level: u8, node: LocalNodeCoords) -> (r: BoundsCheckResult)
        requires
            level <= 3,
        ensures
            r == BoundsCheckResult::Inside <==> self.cube_inside(node, node_size(level as int)),
            r == BoundsCheckResult::Outside <==> (!self.cube_inside(node, node_size(level as int))
                && self.cube_outside(node, node_size(level as int))),
    {
        let size: i32 = if level == 0 { 1 } else if level == 1 { 2 } else if level == 2 { 4 } else { 8 };
        let lo = self.bounds_min;
        let hi = self.bounds_max;
        let x = node.x as i32;
        let y = node.y as i32;
        let z = node.z as i32;
        if lo.x as i32 <= x && x + size - 1 <= hi.x as i32 && lo.y as i32 <= y && y + size - 1
            <= hi.y as i32 && lo.z as i32 <= z && z + size - 1 <= hi.z as i32 {
            BoundsCheckResult::Inside
        } else if x + size - 1 < lo.x as i32 || x > hi.x as i32 || y + size - 1 < lo.y as i32 || y
            > hi.y as i32 || z + size - 1 < lo.z as i32 || z > hi.z as i32 {
            BoundsCheckResult::Outside
        } else {
            BoundsCheckResult::Partial
        }
    }

    /// The directions in which a walk may leave section `c` without leaving the window.
    pub fn get_valid_directions(&self, c: LocalNodeCoords) -> (r: GraphDirectionSet)
        ensures
            r.wf(),
            forall|d: int| #[trigger] r.has(d) <==> self.valid_direction(c, d),
    {
        let mut r = GraphDirectionSet::none();
        if c.x > self.view_min.x {
            r.add(NEG_X);
        }
        if c.x < self.view_max.x {
            r.add(POS_X);
        }
        if c.y > self.view_min.y {
            r.add(NEG_Y);
        }
        if c.y < self.view_max.y {
            r.add(POS_Y);
        }
        if c.z > self.view_min.z {
            r.add(NEG_Z);
        }
        if c.z < self.view_max.z {
            r.add(POS_Z);
        }
        r
    }
}

/// A direction that stays inside the render window stays inside the grid.
pub proof fn lemma_valid_in_window(ctx: LocalCoordContext, c: LocalNodeCoords, d: int)
    requires
        ctx.valid_direction(c, d),
    ensures
        step_in_window(c, d),
{
}

} // verus!
