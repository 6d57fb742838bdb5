use vstd::prelude::*;
use crate::local::{BoundsCheckResult, IVec3, LocalCoordContext, LocalNodeCoords, LocalNodeIndex, SECTIONS_IN_GRAPH,
    Y_ADD_SECTIONS, node_size, pack_spec, unpack_spec};
use crate::octree::{LinearBitOctree, in_cube, cube_fits};
use crate::queue::BfsQueue;
use crate::local::{neighbor, neighbor_spec, lemma_valid_in_window, lemma_pack_bounds, lemma_neighbor_opposite, step_in_window};
use crate::region::{region_coords_spec, HAS_BLOCK_GEOMETRY, HAS_ANIMATED_SPRITES, HAS_BLOCK_ENTITIES, RegionSectionIndex, LocalRegionIndex, region_section_spec, lemma_compiled_complete, lemma_compiled_first,
    RegionRenderList, RegionListView, SectionFlagSet, StagingRegionRenderLists, REGIONS_IN_GRAPH,
    section_from, lemma_section_from, region_index_spec, region_coords_of, slot_of, view_empty, views, compiled_spec,
    compiled_source, lemma_compiled_members, lemma_slot_round_trip};
use crate::visibility::{bit_set, GraphDirectionSet, VisibilityData, DIRECTION_COUNT, opposite, opposite_spec, lemma_low_six};
use vstd::set_lib::{lemma_int_range, lemma_len_subset, set_int_range};

verus! {

/// Largest render distance, in sections.
pub const MAX_VIEW_DISTANCE: u8 = 127;

/// Largest world height, in sections.
pub const MAX_WORLD_HEIGHT: u8 = 254;

/// Queue capacity for the largest render distance and world height.
pub const BFS_QUEUE_SIZE: usize = 64516;

/// The worst-case width of one layer of the walk: the sections of an
/// octahedral shell around a camera centred in the view, with the layers cut
/// off by the world height removed.
pub open spec fn bfs_queue_bound(section_render_distance: int, world_height: int) -> int {
    let max_height = (world_height + 1) / 2 - 1;
    let w = section_render_distance;
    if max_height < w {
        let layer = w - max_height;
        4 * (w - layer) * (w + layer - 1) + 4 * w
    } else {
        2 + 4 * (w - 1) * w + 4 * w
    }
}

/// The queue capacity the walk needs for a render distance and world height.
pub fn get_bfs_queue_max_size(section_render_distance: u8, world_height: u8) -> (r: u32)
    requires
        section_render_distance >= 1,
        world_height >= 1,
    ensures
        r == bfs_queue_bound(section_render_distance as int, world_height as int),
{
    let max_height_traversal: u32 = ((world_height as u32 + 1) / 2 - 1) as u32;
    let max_width_traversal: u32 = section_render_distance as u32;
    let mut count: u32 = 2;
    let mut layer_index: u32 = 1;
    if max_height_traversal < max_width_traversal {
        count = 0;
        layer_index = max_width_traversal - max_height_traversal;
    }
    let a: u32 = max_width_traversal - layer_index;
    let b: u32 = max_width_traversal + layer_index - 1;
    assert(a * b <= 255 * 510) by (nonlinear_arith)
        requires a <= 255, b <= 510;
    count = count + 4 * (a * b);
    count = count + max_width_traversal * 4;
    assert(count == bfs_queue_bound(section_render_distance as int, world_height as int)) by (nonlinear_arith)
        requires
            count == (if max_height_traversal < max_width_traversal { 0int } else { 2int }) + 4 * (a * b) + max_width_traversal * 4,
            a == max_width_traversal - layer_index,
            b == max_width_traversal + layer_index - 1,
            layer_index == (if max_height_traversal < max_width_traversal { max_width_traversal - max_height_traversal } else { 1int }),
            max_height_traversal == (world_height + 1) / 2 - 1,
            max_width_traversal == section_render_distance;
    count
}

/// The window position of the section at world section coordinates `s`.
pub open spec fn local_coords_of(s: IVec3) -> LocalNodeCoords {
    LocalNodeCoords { x: s.x as u8, y: (s.y + Y_ADD_SECTIONS) as u8, z: s.z as u8 }
}

/// The frustum and fog pass's scratch state: one visibility bit per section.
pub struct FrustumFogCachedState {
    pub section_is_visible_bits: LinearBitOctree,
}

impl FrustumFogCachedState {
    pub open spec fn wf(&self) -> bool {
        self.section_is_visible_bits.wf()
    }

    pub fn new() -> (r: Self)
        ensures
            r.wf(),
            r.section_is_visible_bits.is_clear(),
    {
        FrustumFogCachedState { section_is_visible_bits: LinearBitOctree::new() }
    }

    /// Clears every visibility bit.
    pub fn reset(&mut self)
        requires
            old(self).wf(),
        ensures
            final(self).wf(),
            final(self).section_is_visible_bits.is_clear(),
    {
        self.section_is_visible_bits.clear();
    }

    /// Marks the sections of the level-`level` node at `node` that lie in the
    /// visible volume, skipping whole subtrees that lie wholly inside or outside it.
    fn check_node(&mut self, level: u8, node: LocalNodeCoords, coord_context: &LocalCoordContext)
        requires
            old(self).wf(),
            level <= 3,
            cube_fits(node, node_size(level as int)),
        ensures
            final(self).wf(),
            forall|c: LocalNodeCoords| #[trigger] final(self).section_is_visible_bits.bit(c) == (
                (in_cube(node, node_size(level as int), c) && coord_context.in_bounds(c))
                || old(self).section_is_visible_bits.bit(c)),
        decreases level,
    {
        match coord_context.test_node(level, node) {
            BoundsCheckResult::Outside => {},
            BoundsCheckResult::Inside => {
                self.section_is_visible_bits.set_node(level, node, true);
            },
            BoundsCheckResult::Partial => {
                if level == 0 {
                    self.section_is_visible_bits.set(node, true);
                } else {
                    let h: u8 = if level == 1 { 1 } else if level == 2 { 2 } else { 4 };
                    assert(h == node_size(level - 1));
                    let l = level - 1;
                    let (x, y, z) = (node.x, node.y, node.z);
                    self.check_node(l, LocalNodeCoords { x, y, z }, coord_context);
                    self.check_node(l, LocalNodeCoords { x: x + h, y, z }, coord_context);
                    self.check_node(l, LocalNodeCoords { x, y: y + h, z }, coord_context);
                    self.check_node(l, LocalNodeCoords { x: x + h, y: y + h, z }, coord_context);
                    self.check_node(l, LocalNodeCoords { x, y, z: z + h }, coord_context);
                    self.check_node(l, LocalNodeCoords { x: x + h, y, z: z + h }, coord_context);
                    self.check_node(l, LocalNodeCoords { x, y: y + h, z: z + h }, coord_context);
                    self.check_node(l, LocalNodeCoords { x: x + h, y: y + h, z: z + h }, coord_context);
                }
            },
        }
    }
}

/// The entry "face" of the camera section: the walk starts there as if it had
/// come in through every face.
pub open spec fn camera_entry() -> int {
    6
}

/// A step the walk may take out of section `p`, entered through face `e`, in
/// direction `d`: `p` passes the frustum and fog test, the step stays in the
/// render window and, with occlusion culling, a line of sight entering `p`
/// through `e` can leave it through `d`.
pub open spec fn walk_step(vis: Seq<VisibilityData>, ctx: LocalCoordContext, occlusion: bool, p: LocalNodeCoords, e: int, d: int) -> bool {
    &&& ctx.passes_bounds(p)
    &&& ctx.valid_direction(p, d)
    &&& occlusion ==> (e == camera_entry() || vis[pack_spec(p)].connects(e, d))
}

/// The walk can enter section `s` through face `e` in at most `n` steps from
/// the camera section (which it enters through `camera_entry()`).
pub open spec fn reach_face(vis: Seq<VisibilityData>, ctx: LocalCoordContext, occlusion: bool, s: LocalNodeCoords, e: int, n: nat) -> bool
    decreases n,
{
    (s == ctx.camera_section && e == camera_entry()) || (n > 0 && exists|p: LocalNodeCoords, pe: int|
        #[trigger] walk_step(vis, ctx, occlusion, p, pe, opposite_spec(e)) && neighbor_spec(p, opposite_spec(e)) == s
        && reach_face(vis, ctx, occlusion, p, pe, (n - 1) as nat))
}

/// The walk can reach section `s` from the camera section.
pub open spec fn reachable(vis: Seq<VisibilityData>, ctx: LocalCoordContext, occlusion: bool, s: LocalNodeCoords) -> bool {
    exists|e: int, n: nat| #[trigger] reach_face(vis, ctx, occlusion, s, e, n)
}

/// The walk can leave section `c` in direction `d` along some path from the camera.
pub open spec fn can_leave(vis: Seq<VisibilityData>, ctx: LocalCoordContext, occlusion: bool, c: LocalNodeCoords, d: int) -> bool {
    exists|pe: int, n: nat| walk_step(vis, ctx, occlusion, c, pe, d) && #[trigger] reach_face(vis, ctx, occlusion, c, pe, n)
}

/// A section the output may list: it passes the frustum and fog test and the
/// walk can reach it from the camera section.
pub open spec fn section_ok(vis: Seq<VisibilityData>, ctx: LocalCoordContext, occlusion: bool, s: LocalNodeCoords) -> bool {
    &&& ctx.passes_bounds(s)
    &&& reachable(vis, ctx, occlusion, s)
}

/// Every section listed in render list `l` of region slot `r` may be listed.
pub open spec fn list_sound(l: RegionRenderList, r: int, vis: Seq<VisibilityData>, ctx: LocalCoordContext, occlusion: bool) -> bool {
    &&& forall|j: int| 0 <= j < l.sections_with_geometry@.len() ==> section_ok(vis, ctx, occlusion,
        section_from(r, (#[trigger] l.sections_with_geometry@[j]).index as int))
    &&& forall|j: int| 0 <= j < l.sections_with_sprites@.len() ==> section_ok(vis, ctx, occlusion,
        section_from(r, (#[trigger] l.sections_with_sprites@[j]).index as int))
    &&& forall|j: int| 0 <= j < l.sections_with_block_entities@.len() ==> section_ok(vis, ctx, occlusion,
        section_from(r, (#[trigger] l.sections_with_block_entities@[j]).index as int))
}

/// Every section listed in a staged region list may be listed.
pub open spec fn staged_sound(staging: StagingRegionRenderLists, vis: Seq<VisibilityData>, ctx: LocalCoordContext, occlusion: bool) -> bool {
    forall|r: int| 0 <= r < REGIONS_IN_GRAPH ==> list_sound(#[trigger] staging.region_render_lists@[r], r, vis, ctx, occlusion)
}

/// The section at packed index `i` is reached by the walk from the camera section.
pub open spec fn section_ok_reach(vis: Seq<VisibilityData>, ctx: LocalCoordContext, occlusion: bool, i: int) -> bool {
    reachable(vis, ctx, occlusion, unpack_spec(i))
}

/// Every face in the incoming set of a section other than the camera section
/// is one the walk can enter it by.
pub open spec fn faces_reached(incoming: Seq<GraphDirectionSet>, vis: Seq<VisibilityData>, ctx: LocalCoordContext, occlusion: bool) -> bool {
    forall|i: int, e: int| 0 <= i < SECTIONS_IN_GRAPH && #[trigger] incoming[i].has(e) && unpack_spec(i) != ctx.camera_section
        ==> exists|n: nat| #[trigger] reach_face(vis, ctx, occlusion, unpack_spec(i), e, n)
}

/// Each traversal `(s, d)` (out of the section at packed index `s` in
/// direction `d`) left `opposite(d)` in the incoming set of the section it
/// entered, and every incoming direction of a section other than the camera
/// section was left there by such a traversal.
pub open spec fn opposition_inv(incoming: Seq<GraphDirectionSet>, camera: LocalNodeCoords, traversed: Set<(int, int)>) -> bool {
    &&& forall|t: (int, int)| #[trigger] traversed.contains(t) ==> {
        &&& 0 <= t.0 < SECTIONS_IN_GRAPH
        &&& step_in_window(unpack_spec(t.0), t.1)
        &&& incoming[pack_spec(neighbor_spec(unpack_spec(t.0), t.1))].has(opposite_spec(t.1))
    }
    &&& forall|i: int, e: int| 0 <= i < SECTIONS_IN_GRAPH && #[trigger] incoming[i].has(e) && unpack_spec(i) != camera
        ==> traversed.contains((pack_spec(neighbor_spec(unpack_spec(i), e)), opposite_spec(e)))
}

/// Section `c` stands, under its place in its region, in every bucket of `l`.
pub open spec fn listed_in(l: RegionRenderList, c: LocalNodeCoords) -> bool {
    let x = RegionSectionIndex { index: region_section_spec(c) as u8 };
    &&& l.sections_with_geometry@.contains(x)
    &&& l.sections_with_sprites@.contains(x)
    &&& l.sections_with_block_entities@.contains(x)
}

/// Region slot `r` is in the order list.
pub open spec fn region_listed(ordered: Seq<LocalRegionIndex>, r: int) -> bool {
    exists|j: int| 0 <= j < ordered.len() && #[trigger] ordered[j].index == r
}

/// Section `i` waits in queue `q`.
pub open spec fn queued(q: Seq<LocalNodeIndex>, i: int) -> bool {
    exists|k: int| 0 <= k < q.len() && #[trigger] q[k].index == i
}

/// Every entry of bucket `b` of region slot `r` stands for a section in
/// `popped` (or `inflight`), and no entry is there twice.
pub open spec fn bucket_from(b: Seq<RegionSectionIndex>, r: int, popped: Set<int>, inflight: int) -> bool {
    &&& forall|j: int| 0 <= j < b.len() ==> popped.contains(pack_spec(section_from(r, (#[trigger] b[j]).index as int)))
        || pack_spec(section_from(r, b[j].index as int)) == inflight
    &&& forall|j1: int, j2: int| 0 <= j1 < j2 < b.len() ==> #[trigger] b[j1] != #[trigger] b[j2]
}

/// `bucket_from` for every bucket of every slot.
pub open spec fn lists_from(st: StagingRegionRenderLists, popped: Set<int>, inflight: int) -> bool {
    forall|r: int| 0 <= r < REGIONS_IN_GRAPH ==> {
        &&& bucket_from((#[trigger] st.region_render_lists@[r]).sections_with_geometry@, r, popped, inflight)
        &&& bucket_from(st.region_render_lists@[r].sections_with_sprites@, r, popped, inflight)
        &&& bucket_from(st.region_render_lists@[r].sections_with_block_entities@, r, popped, inflight)
    }
}

/// What the walk has done so far, over its staged lists `st`: `popped` holds
/// the sections taken off a queue (and, while it is being handled,
/// `inflight`), each listed where it passes the bounds test and its region
/// touched; every reached section is popped or queued, and none twice; without
/// occlusion culling, every valid step out of a popped visible section leads
/// to a reached section; the first region touched is the camera's.
pub open spec fn progress_inv(st: StagingRegionRenderLists, ctx: LocalCoordContext, occlusion: bool, initial: int, reached: Set<int>,
    popped: Set<int>, read_q: Seq<LocalNodeIndex>, write_q: Seq<LocalNodeIndex>, inflight: int) -> bool {
    let ord = st.ordered_region_indices@;
    &&& forall|i: int| #[trigger] popped.contains(i) ==> reached.contains(i) && i != inflight
    &&& forall|i: int| #[trigger] reached.contains(i) ==> popped.contains(i) || i == inflight || queued(read_q, i)
        || queued(write_q, i)
    &&& forall|i: int| #[trigger] popped.contains(i) && ctx.passes_bounds(unpack_spec(i)) ==> listed_in(
        st.region_render_lists@[region_index_spec(unpack_spec(i))], unpack_spec(i))
    &&& !occlusion ==> forall|i: int, d: int| #[trigger] popped.contains(i) && ctx.passes_bounds(unpack_spec(i))
        && #[trigger] ctx.valid_direction(unpack_spec(i), d) ==> reached.contains(pack_spec(neighbor_spec(unpack_spec(i), d)))
    &&& forall|i: int| #[trigger] popped.contains(i) ==> region_listed(ord, region_index_spec(unpack_spec(i)))
    &&& forall|r: int| 0 <= r < REGIONS_IN_GRAPH && (#[trigger] st.region_render_lists@[r]).initialized_spec() ==> region_listed(ord, r)
    &&& ord.len() == 0 ==> {
        &&& popped.is_empty()
        &&& forall|r: int| 0 <= r < REGIONS_IN_GRAPH ==> !(#[trigger] st.region_render_lists@[r]).initialized_spec()
    }
    &&& ord.len() == 0 && inflight == -1 ==> read_q.len() > 0 && read_q[0].index == initial
    &&& forall|i: int| #[trigger] popped.contains(i) ==> !queued(read_q, i) && !queued(write_q, i)
    &&& inflight != -1 ==> !queued(read_q, inflight) && !queued(write_q, inflight)
    &&& forall|k1: int, k2: int| 0 <= k1 < k2 < read_q.len() ==> (#[trigger] read_q[k1]).index != (#[trigger] read_q[k2]).index
    &&& forall|k1: int, k2: int| 0 <= k1 < k2 < write_q.len() ==> (#[trigger] write_q[k1]).index != (#[trigger] write_q[k2]).index
    &&& forall|k1: int, k2: int| 0 <= k1 < read_q.len() && 0 <= k2 < write_q.len() ==> (#[trigger] read_q[k1]).index
        != (#[trigger] write_q[k2]).index
    &&& ord.len() > 0 ==> ord[0].index == region_index_spec(ctx.camera_section) && (popped.contains(initial) || inflight == initial)
    &&& lists_from(st, popped, inflight)
}

/// A push of a newly reached section (or none) keeps the walk's progress.
pub proof fn lemma_progress_push(st: StagingRegionRenderLists, ctx: LocalCoordContext, occlusion: bool, initial: int,
    reached: Set<int>, popped: Set<int>, read_q: Seq<LocalNodeIndex>, write_q: Seq<LocalNodeIndex>, inflight: int,
    n: LocalNodeIndex, enqueue: bool)
    requires
        progress_inv(st, ctx, occlusion, initial, reached, popped, read_q, write_q, inflight),
        reached.contains(inflight),
        enqueue ==> !reached.contains(n.index as int),
        forall|k: int| 0 <= k < read_q.len() ==> reached.contains((#[trigger] read_q[k]).index as int),
        forall|k: int| 0 <= k < write_q.len() ==> reached.contains((#[trigger] write_q[k]).index as int),
    ensures
        progress_inv(st, ctx, occlusion, initial, if enqueue { reached.insert(n.index as int) } else { reached }, popped,
            read_q, if enqueue { write_q.push(n) } else { write_q }, inflight),
{
    if enqueue {
        let ni = n.index as int;
        let r2 = reached.insert(ni);
        let w2 = write_q.push(n);
        assert(w2[write_q.len() as int] == n);
        assert forall|i: int| #[trigger] r2.contains(i) implies popped.contains(i) || i == inflight || queued(read_q, i)
            || queued(w2, i) by {
            if i == ni {
                assert(w2[write_q.len() as int].index == i);
            } else if queued(write_q, i) {
                let k = choose|k: int| 0 <= k < write_q.len() && #[trigger] write_q[k].index == i;
                assert(w2[k] == write_q[k]);
            }
        }
        assert forall|i: int| #[trigger] popped.contains(i) implies !queued(read_q, i) && !queued(w2, i) by {
            if queued(w2, i) {
                let k = choose|k: int| 0 <= k < w2.len() && #[trigger] w2[k].index == i;
                if k < write_q.len() {
                    assert(w2[k] == write_q[k]);
                }
            }
        }
        assert(!queued(w2, inflight)) by {
            if queued(w2, inflight) {
                let k = choose|k: int| 0 <= k < w2.len() && #[trigger] w2[k].index == inflight;
                if k < write_q.len() {
                    assert(w2[k] == write_q[k]);
                }
            }
        }
        assert forall|k1: int, k2: int| 0 <= k1 < k2 < w2.len() implies (#[trigger] w2[k1]).index != (#[trigger] w2[k2]).index by {
            assert(w2[k1] == write_q[k1]);
            if k2 < write_q.len() {
                assert(w2[k2] == write_q[k2]);
            } else {
                assert(queued(write_q, write_q[k1].index as int));
            }
        }
        assert forall|k1: int, k2: int| 0 <= k1 < read_q.len() && 0 <= k2 < w2.len() implies (#[trigger] read_q[k1]).index
            != (#[trigger] w2[k2]).index by {
            if k2 < write_q.len() {
                assert(w2[k2] == write_q[k2]);
            } else {
                assert(queued(read_q, read_q[k1].index as int));
            }
        }
    }
}

/// Handing the write queue over as the next layer (the read queue being empty)
/// keeps the walk's progress.
pub proof fn lemma_progress_swap(st: StagingRegionRenderLists, ctx: LocalCoordContext, occlusion: bool, initial: int,
    reached: Set<int>, popped: Set<int>, read_q: Seq<LocalNodeIndex>, write_q: Seq<LocalNodeIndex>)
    requires
        progress_inv(st, ctx, occlusion, initial, reached, popped, read_q, write_q, -1),
        read_q.len() == 0,
    ensures
        progress_inv(st, ctx, occlusion, initial, reached, popped, write_q, Seq::empty(), -1),
{
    assert forall|i: int| !queued(read_q, i) by {}
    assert forall|i: int| !queued(Seq::<LocalNodeIndex>::empty(), i) by {}
}

/// Moving the section being handled into `popped` keeps the walk's progress.
pub proof fn lemma_progress_finish(st: StagingRegionRenderLists, ctx: LocalCoordContext, occlusion: bool, initial: int,
    reached: Set<int>, popped: Set<int>, read_q: Seq<LocalNodeIndex>, write_q: Seq<LocalNodeIndex>, inflight: int)
    requires
        progress_inv(st, ctx, occlusion, initial, reached, popped, read_q, write_q, inflight),
        inflight != -1,
        reached.contains(inflight),
        ctx.passes_bounds(unpack_spec(inflight)) ==> listed_in(st.region_render_lists@[region_index_spec(unpack_spec(inflight))],
            unpack_spec(inflight)),
        !occlusion ==> ctx.passes_bounds(unpack_spec(inflight)) ==> forall|d: int| #[trigger] ctx.valid_direction(unpack_spec(inflight), d)
            ==> reached.contains(pack_spec(neighbor_spec(unpack_spec(inflight), d))),
        region_listed(st.ordered_region_indices@, region_index_spec(unpack_spec(inflight))),
        st.ordered_region_indices@.len() > 0,
        forall|i: int| #[trigger] reached.contains(i) ==> 0 <= i,
    ensures
        progress_inv(st, ctx, occlusion, initial, reached, popped.insert(inflight), read_q, write_q, -1),
{
    let p2 = popped.insert(inflight);
    assert forall|i: int| #[trigger] p2.contains(i) implies reached.contains(i) && i != -1 by {}
    assert forall|i: int| #[trigger] reached.contains(i) implies p2.contains(i) || i == -1 || queued(read_q, i)
        || queued(write_q, i) by {}
    assert forall|i: int| #[trigger] p2.contains(i) && ctx.passes_bounds(unpack_spec(i)) implies listed_in(
        st.region_render_lists@[region_index_spec(unpack_spec(i))], unpack_spec(i)) by {}
    if !occlusion {
        assert forall|i: int, d: int| #[trigger] p2.contains(i) && ctx.passes_bounds(unpack_spec(i))
            && #[trigger] ctx.valid_direction(unpack_spec(i), d) implies reached.contains(pack_spec(neighbor_spec(unpack_spec(i), d))) by {
            if i == inflight {
                assert(ctx.valid_direction(unpack_spec(inflight), d));
            }
        }
    }
    assert forall|i: int| #[trigger] p2.contains(i) implies region_listed(st.ordered_region_indices@, region_index_spec(unpack_spec(i))) by {}
    assert forall|i: int| #[trigger] p2.contains(i) implies !queued(read_q, i) && !queued(write_q, i) by {}
    assert forall|r: int| 0 <= r < REGIONS_IN_GRAPH implies {
        &&& bucket_from((#[trigger] st.region_render_lists@[r]).sections_with_geometry@, r, p2, -1)
        &&& bucket_from(st.region_render_lists@[r].sections_with_sprites@, r, p2, -1)
        &&& bucket_from(st.region_render_lists@[r].sections_with_block_entities@, r, p2, -1)
    } by {
        assert(bucket_from(st.region_render_lists@[r].sections_with_geometry@, r, popped, inflight));
        assert(bucket_from(st.region_render_lists@[r].sections_with_sprites@, r, popped, inflight));
        assert(bucket_from(st.region_render_lists@[r].sections_with_block_entities@, r, popped, inflight));
    }
}

/// Without occlusion culling, a set of sections that holds the camera section
/// and is closed under the walk's steps holds every section the walk can reach.
pub proof fn lemma_closed_reach(vis: Seq<VisibilityData>, ctx: LocalCoordContext, popped: Set<int>, s: LocalNodeCoords, e: int, n: nat)
    requires
        popped.contains(pack_spec(ctx.camera_section)),
        forall|i: int, d: int| #[trigger] popped.contains(i) && ctx.passes_bounds(unpack_spec(i))
            && #[trigger] ctx.valid_direction(unpack_spec(i), d) ==> popped.contains(pack_spec(neighbor_spec(unpack_spec(i), d))),
        reach_face(vis, ctx, false, s, e, n),
    ensures
        popped.contains(pack_spec(s)),
    decreases n,
{
    if !(s == ctx.camera_section && e == camera_entry()) {
        let (p, pe) = choose|p: LocalNodeCoords, pe: int| #[trigger] walk_step(vis, ctx, false, p, pe, opposite_spec(e))
            && neighbor_spec(p, opposite_spec(e)) == s && reach_face(vis, ctx, false, p, pe, (n - 1) as nat);
        lemma_closed_reach(vis, ctx, popped, p, pe, (n - 1) as nat);
        lemma_pack_bounds(p);
        assert(ctx.valid_direction(unpack_spec(pack_spec(p)), opposite_spec(e)));
    }
}

/// Every slot in use holds the global coordinates of its own region.
pub open spec fn coords_consistent(staging: StagingRegionRenderLists, origin: IVec3) -> bool {
    forall|r: int| 0 <= r < REGIONS_IN_GRAPH && (#[trigger] staging.region_render_lists@[r]).initialized_spec()
        ==> staging.region_render_lists@[r].region_coords == region_coords_of(origin, r)
}

/// A region of the output: it holds a section, and every section it lists
/// passes the frustum and fog test and is reached by the walk.
pub open spec fn region_output_sound(vis: Seq<VisibilityData>, ctx: LocalCoordContext, occlusion: bool, v: RegionListView) -> bool {
    let r = slot_of(ctx.origin_region_coords, v.0);
    &&& 0 <= r < REGIONS_IN_GRAPH
    &&& v.0 == region_coords_of(ctx.origin_region_coords, r)
    &&& !view_empty(v)
    &&& forall|j: int| 0 <= j < v.1.len() ==> section_ok(vis, ctx, occlusion, section_from(r, (#[trigger] v.1[j]).index as int))
    &&& forall|j: int| 0 <= j < v.2.len() ==> section_ok(vis, ctx, occlusion, section_from(r, (#[trigger] v.2[j]).index as int))
    &&& forall|j: int| 0 <= j < v.3.len() ==> section_ok(vis, ctx, occlusion, section_from(r, (#[trigger] v.3[j]).index as int))
}

/// What a culling pass returns: sound regions, none of them twice.
pub open spec fn output_sound(vis: Seq<VisibilityData>, ctx: LocalCoordContext, occlusion: bool, out: Seq<RegionRenderList>) -> bool {
    &&& forall|k: int| 0 <= k < out.len() ==> region_output_sound(vis, ctx, occlusion, (#[trigger] out[k])@)
    &&& forall|k1: int, k2: int| 0 <= k1 < k2 < out.len() ==>
        (#[trigger] out[k1]).region_coords != (#[trigger] out[k2]).region_coords
}

/// The scratch state of the breadth-first walk.
pub struct BfsCachedState {
    pub incoming_directions: Vec<GraphDirectionSet>,
    pub staging_render_lists: StagingRegionRenderLists,
    pub queue_1: BfsQueue,
    pub queue_2: BfsQueue,
}

impl BfsCachedState {
    pub open spec fn wf(&self) -> bool {
        &&& self.incoming_directions@.len() == SECTIONS_IN_GRAPH
        &&& forall|i: int| 0 <= i < SECTIONS_IN_GRAPH ==> (#[trigger] self.incoming_directions@[i]).wf()
        &&& self.staging_render_lists.wf()
        &&& self.queue_1.wf()
        &&& self.queue_2.wf()
    }

    /// No section reached, no region touched, both queues empty.
    pub open spec fn is_clean(&self) -> bool {
        &&& forall|i: int| 0 <= i < SECTIONS_IN_GRAPH ==> (#[trigger] self.incoming_directions@[i]).bits == 0
        &&& self.staging_render_lists.is_clean()
        &&& self.queue_1@.len() == 0
        &&& self.queue_2@.len() == 0
    }

    pub fn new() -> (r: Self)
        ensures
            r.wf(),
            r.is_clean(),
    {
        let mut incoming: Vec<GraphDirectionSet> = Vec::new();
        let mut i: usize = 0;
        while i < SECTIONS_IN_GRAPH
            invariant
                i <= SECTIONS_IN_GRAPH,
                incoming@.len() == i,
                forall|j: int| 0 <= j < i ==> (#[trigger] incoming@[j]).bits == 0,
            decreases SECTIONS_IN_GRAPH - i,
        {
            incoming.push(GraphDirectionSet::none());
            i = i + 1;
        }
        BfsCachedState {
            incoming_directions: incoming,
            staging_render_lists: StagingRegionRenderLists::new(),
            queue_1: BfsQueue::new(),
            queue_2: BfsQueue::new(),
        }
    }

    /// Forgets every reached section and touched region, and empties both queues.
    pub fn reset(&mut self)
        requires
            old(self).wf(),
        ensures
            final(self).wf(),
            final(self).is_clean(),
    {
        let mut i: usize = 0;
        while i < SECTIONS_IN_GRAPH
            invariant
                i <= SECTIONS_IN_GRAPH,
                self.incoming_directions@.len() == SECTIONS_IN_GRAPH,
                forall|j: int| 0 <= j < SECTIONS_IN_GRAPH ==> (#[trigger] self.incoming_directions@[j]).wf(),
                forall|j: int| 0 <= j < i ==> (#[trigger] self.incoming_directions@[j]).bits == 0,
                self.staging_render_lists == old(self).staging_render_lists,
            decreases SECTIONS_IN_GRAPH - i,
        {
            self.incoming_directions.set(i, GraphDirectionSet::none());
            i = i + 1;
        }
        self.staging_render_lists.clear();
        self.queue_1.reset();
        self.queue_2.reset();
    }
}

/// The culling graph: per-section visibility, the scratch state of both
/// passes, and the render lists of the last pass.
pub struct Graph {
    pub section_visibility_direction_sets: Vec<VisibilityData>,
    pub frustum_fog_cached_state: FrustumFogCachedState,
    pub bfs_cached_state: BfsCachedState,
    pub results: Vec<RegionRenderList>,
}

impl Graph {
    pub open spec fn wf(&self) -> bool {
        &&& self.section_visibility_direction_sets@.len() == SECTIONS_IN_GRAPH
        &&& forall|i: int| 0 <= i < SECTIONS_IN_GRAPH ==> (#[trigger] self.section_visibility_direction_sets@[i]).wf()
        &&& self.frustum_fog_cached_state.wf()
        &&& self.bfs_cached_state.wf()
    }

    /// Every scratch structure back in its ground state.
    pub open spec fn is_clean(&self) -> bool {
        &&& self.frustum_fog_cached_state.section_is_visible_bits.is_clear()
        &&& self.bfs_cached_state.is_clean()
    }

    /// The visibility of section `c`.
    pub open spec fn visibility(&self, c: LocalNodeCoords) -> VisibilityData {
        self.section_visibility_direction_sets@[pack_spec(c)]
    }

    /// A graph in which every section is opaque, with clean scratch state.
    pub fn new_boxed() -> (r: Box<Graph>)
        ensures
            r.wf(),
            r.is_clean(),
            r.results@.len() == 0,
            forall|i: int| 0 <= i < SECTIONS_IN_GRAPH ==> forall|a: int, b: int|
                !(#[trigger] r.section_visibility_direction_sets@[i]).connects(a, b),
    {
        let mut sets: Vec<VisibilityData> = Vec::new();
        let mut i: usize = 0;
        while i < SECTIONS_IN_GRAPH
            invariant
                i <= SECTIONS_IN_GRAPH,
                sets@.len() == i,
                forall|j: int| 0 <= j < i ==> (#[trigger] sets@[j]).wf(),
                forall|j: int| 0 <= j < i ==> forall|a: int, b: int| !(#[trigger] sets@[j]).connects(a, b),
            decreases SECTIONS_IN_GRAPH - i,
        {
            sets.push(VisibilityData::opaque());
            i = i + 1;
        }
        Box::new(Graph {
            section_visibility_direction_sets: sets,
            frustum_fog_cached_state: FrustumFogCachedState::new(),
            bfs_cached_state: BfsCachedState::new(),
            results: Vec::new(),
        })
    }

    /// What holds throughout the walk: `reached` is the set of sections with a
    /// non-empty incoming set.
    pub open spec fn walk_inv(&self, old_graph: Graph, ctx: LocalCoordContext, occlusion: bool, reached: Set<int>, read_q: BfsQueue, write_q: BfsQueue) -> bool {
        &&& self.wf()
        &&& coords_consistent(self.bfs_cached_state.staging_render_lists, ctx.origin_region_coords)
        &&& self.section_visibility_direction_sets == old_graph.section_visibility_direction_sets
        &&& self.frustum_fog_cached_state == old_graph.frustum_fog_cached_state
        &&& self.results == old_graph.results
        &&& staged_sound(self.bfs_cached_state.staging_render_lists, self.section_visibility_direction_sets@, ctx, occlusion)
        &&& forall|c: LocalNodeCoords| #[trigger] self.frustum_fog_cached_state.section_is_visible_bits.bit(c) == ctx.passes_bounds(c)
        &&& forall|i: int| #[trigger] reached.contains(i) ==> section_ok_reach(self.section_visibility_direction_sets@, ctx, occlusion, i)
        &&& faces_reached(self.bfs_cached_state.incoming_directions@, self.section_visibility_direction_sets@, ctx, occlusion)
        &&& forall|k: int| 0 <= k < read_q@.len() ==> reached.contains((#[trigger] read_q@[k]).index as int)
        &&& forall|k: int| 0 <= k < write_q@.len() ==> reached.contains((#[trigger] write_q@[k]).index as int)
        &&& reached.finite()
        &&& forall|i: int| #[trigger] reached.contains(i) ==> 0 <= i < SECTIONS_IN_GRAPH
        &&& forall|i: int| 0 <= i < SECTIONS_IN_GRAPH ==> ((#[trigger] self.bfs_cached_state.incoming_directions@[i]).bits != 0
            <==> reached.contains(i))
        &&& read_q.wf()
        &&& write_q.wf()
        &&& forall|k: int| 0 <= k < read_q@.len() ==> (#[trigger] read_q@[k]).wf()
        &&& forall|k: int| 0 <= k < write_q@.len() ==> (#[trigger] write_q@[k]).wf()
    }

    /// What the walk has done so far: `popped` holds the sections taken off a
    /// queue (and, while it is being handled, `inflight`), each listed where it
    /// passes the bounds test and its region touched; every reached section is
    /// popped or queued; without occlusion culling, every valid step out of a
    /// popped visible section leads to a reached section; the first region
    /// touched is the camera's.
    pub open spec fn progress_inv(&self, ctx: LocalCoordContext, occlusion: bool, initial: int, reached: Set<int>,
        popped: Set<int>, read_q: Seq<LocalNodeIndex>, write_q: Seq<LocalNodeIndex>, inflight: int) -> bool {
        progress_inv(self.bfs_cached_state.staging_render_lists, ctx, occlusion, initial, reached, popped, read_q, write_q, inflight)
    }

    /// Walks breadth-first from the camera section, layer by layer, through the
    /// faces that each section's visibility (or, without occlusion culling,
    /// every face) and the render window allow, and stages each visible section
    /// it reaches in its region's list.
    #[verifier::rlimit(100)]
    fn bfs_and_occlusion_cull(&mut self, coord_context: &LocalCoordContext, use_occlusion_culling: bool) -> (walk: Ghost<(Set<(int, int)>, Set<int>)>)
        requires
            old(self).wf(),
            old(self).bfs_cached_state.is_clean(),
            coord_context.wf(),
            forall|c: LocalNodeCoords| #[trigger] old(self).frustum_fog_cached_state.section_is_visible_bits.bit(c)
                == coord_context.passes_bounds(c),
        ensures
            final(self).wf(),
            final(self).section_visibility_direction_sets == old(self).section_visibility_direction_sets,
            final(self).frustum_fog_cached_state == old(self).frustum_fog_cached_state,
            final(self).results == old(self).results,
            staged_sound(final(self).bfs_cached_state.staging_render_lists,
                final(self).section_visibility_direction_sets@, *coord_context, use_occlusion_culling),
            coords_consistent(final(self).bfs_cached_state.staging_render_lists, coord_context.origin_region_coords),
            opposition_inv(final(self).bfs_cached_state.incoming_directions@, coord_context.camera_section, walk@.0),
            faces_reached(final(self).bfs_cached_state.incoming_directions@, final(self).section_visibility_direction_sets@,
                *coord_context, use_occlusion_culling),
            final(self).bfs_cached_state.queue_1@.len() == 0,
            final(self).bfs_cached_state.queue_2@.len() == 0,
            final(self).bfs_cached_state.staging_render_lists.wf(),
            forall|i: int| 0 <= i < SECTIONS_IN_GRAPH ==> ((#[trigger] final(self).bfs_cached_state.incoming_directions@[i]).bits != 0
                <==> walk@.1.contains(i)),
            forall|i: int| #[trigger] walk@.1.contains(i) ==> 0 <= i < SECTIONS_IN_GRAPH,
            walk@.1.contains(pack_spec(coord_context.camera_section)),
            forall|i: int| #[trigger] walk@.1.contains(i) && coord_context.passes_bounds(unpack_spec(i)) ==> listed_in(
                final(self).bfs_cached_state.staging_render_lists.region_render_lists@[region_index_spec(unpack_spec(i))], unpack_spec(i)),
            forall|i: int| #[trigger] walk@.1.contains(i) ==> region_listed(
                final(self).bfs_cached_state.staging_render_lists.ordered_region_indices@, region_index_spec(unpack_spec(i))),
            !use_occlusion_culling ==> forall|i: int, d: int| #[trigger] walk@.1.contains(i) && coord_context.passes_bounds(unpack_spec(i))
                && #[trigger] coord_context.valid_direction(unpack_spec(i), d) ==> walk@.1.contains(pack_spec(neighbor_spec(unpack_spec(i), d))),
            final(self).bfs_cached_state.staging_render_lists.ordered_region_indices@.len() > 0,
            final(self).bfs_cached_state.staging_render_lists.ordered_region_indices@[0].index
                == region_index_spec(coord_context.camera_section),
            lists_from(final(self).bfs_cached_state.staging_render_lists, walk@.1, -1),
    {
        let ghost g0 = *self;
        let directions_modifier = if use_occlusion_culling { GraphDirectionSet::none() } else { GraphDirectionSet::all() };
        let section_flags = SectionFlagSet::all();
        let mut read_q = BfsQueue::new();
        let mut write_q = BfsQueue::new();
        core::mem::swap(&mut read_q, &mut self.bfs_cached_state.queue_1);
        core::mem::swap(&mut write_q, &mut self.bfs_cached_state.queue_2);
        read_q.reset();
        write_q.reset();

        let initial = LocalNodeIndex::pack(coord_context.camera_section);
        read_q.push(initial);
        let all = GraphDirectionSet::all();
        self.bfs_cached_state.incoming_directions[initial.index as usize].add_all(all);
        let ghost mut reached: Set<int> = Set::empty().insert(initial.index as int);
        let ghost vis_seq = self.section_visibility_direction_sets@;
        let ghost mut traversed: Set<(int, int)> = Set::empty();
        let ghost mut popped: Set<int> = Set::empty();
        proof {
            let st = self.bfs_cached_state.staging_render_lists;
            assert(read_q@[0].index == initial.index);
            assert(queued(read_q@, initial.index as int));
            assert forall|r: int| 0 <= r < REGIONS_IN_GRAPH implies !(#[trigger] st.region_render_lists@[r]).initialized_spec() by {
                assert(st.region_render_lists@[r].cleared_spec());
            }
            assert(self.progress_inv(*coord_context, use_occlusion_culling, initial.index as int, reached, popped, read_q@, write_q@, -1));
            assert forall|i: int, e: int| 0 <= i < SECTIONS_IN_GRAPH && #[trigger] self.bfs_cached_state.incoming_directions@[i].has(e)
                && unpack_spec(i) != coord_context.camera_section implies
                traversed.contains((pack_spec(neighbor_spec(unpack_spec(i), e)), opposite_spec(e))) by {
                lemma_pack_bounds(coord_context.camera_section);
                assert(i != initial.index as int);
                lemma_low_six(self.bfs_cached_state.incoming_directions@[i].bits);
            }
            lemma_pack_bounds(coord_context.camera_section);
            assert(reach_face(vis_seq, *coord_context, use_occlusion_culling, coord_context.camera_section, camera_entry(), 0nat));
            assert(reachable(vis_seq, *coord_context, use_occlusion_culling, coord_context.camera_section));
            assert(section_ok_reach(vis_seq, *coord_context, use_occlusion_culling, initial.index as int));
            assert(self.bfs_cached_state.staging_render_lists == g0.bfs_cached_state.staging_render_lists);
            assert forall|i: int| 0 <= i < SECTIONS_IN_GRAPH implies ((#[trigger] self.bfs_cached_state.incoming_directions@[i]).bits != 0
                <==> reached.contains(i)) by {
                if i == initial.index as int {
                    assert(self.bfs_cached_state.incoming_directions@[i].has(0));
                    lemma_low_six(self.bfs_cached_state.incoming_directions@[i].bits);
                }
            }
        }
        while !read_q.is_empty()
            invariant
                self.walk_inv(g0, *coord_context, use_occlusion_culling, reached, read_q, write_q),
                write_q@.len() == 0,
                coord_context.wf(),
                directions_modifier.wf(),
                vis_seq == self.section_visibility_direction_sets@,
                use_occlusion_culling ==> directions_modifier.bits == 0,
                !use_occlusion_culling ==> forall|e: int| 0 <= e < 6 ==> #[trigger] directions_modifier.has(e),
                opposition_inv(self.bfs_cached_state.incoming_directions@, coord_context.camera_section, traversed),
                self.progress_inv(*coord_context, use_occlusion_culling, initial.index as int, reached, popped, read_q@, write_q@, -1),
                initial.coords() == coord_context.camera_section,
                initial.index == pack_spec(coord_context.camera_section),
                section_flags.bits == 7,
                bit_set(section_flags.bits, HAS_BLOCK_GEOMETRY as int),
                bit_set(section_flags.bits, HAS_ANIMATED_SPRITES as int),
                bit_set(section_flags.bits, HAS_BLOCK_ENTITIES as int),
            ensures
                read_q@.len() == 0,
            decreases 2 * (SECTIONS_IN_GRAPH - reached.len()) + read_q@.len(),
        {
            let ghost reached0 = reached;
            let ghost k0 = read_q@.len();
            while !read_q.is_empty()
                invariant
                    self.walk_inv(g0, *coord_context, use_occlusion_culling, reached, read_q, write_q),
                    coord_context.wf(),
                    directions_modifier.wf(),
                    reached0.subset_of(reached),
                    write_q@.len() == reached.len() - reached0.len(),
                    vis_seq == self.section_visibility_direction_sets@,
                    use_occlusion_culling ==> directions_modifier.bits == 0,
                    !use_occlusion_culling ==> forall|e: int| 0 <= e < 6 ==> #[trigger] directions_modifier.has(e),
                    opposition_inv(self.bfs_cached_state.incoming_directions@, coord_context.camera_section, traversed),
                    self.progress_inv(*coord_context, use_occlusion_culling, initial.index as int, reached, popped, read_q@, write_q@, -1),
                    initial.coords() == coord_context.camera_section,
                    initial.index == pack_spec(coord_context.camera_section),
                    section_flags.bits == 7,
                    bit_set(section_flags.bits, HAS_BLOCK_GEOMETRY as int),
                    bit_set(section_flags.bits, HAS_ANIMATED_SPRITES as int),
                    bit_set(section_flags.bits, HAS_BLOCK_ENTITIES as int),
                ensures
                    read_q@.len() == 0,
                    self.walk_inv(g0, *coord_context, use_occlusion_culling, reached, read_q, write_q),
                    reached0.subset_of(reached),
                    write_q@.len() == reached.len() - reached0.len(),
                    vis_seq == self.section_visibility_direction_sets@,
                    opposition_inv(self.bfs_cached_state.incoming_directions@, coord_context.camera_section, traversed),
                    self.progress_inv(*coord_context, use_occlusion_culling, initial.index as int, reached, popped, read_q@, write_q@, -1),
                decreases read_q@.len(),
            {
                let ghost rq0 = read_q@;
                let next = read_q.pop();
                let index = match next {
                    Some(i) => i,
                    None => { break; },
                };
                let c = index.unpack();
                let ghost staging0 = self.bfs_cached_state.staging_render_lists;
                proof {
                    let ii = index.index as int;
                    assert(rq0[0].index == ii);
                    assert forall|i: int| #[trigger] reached.contains(i) implies popped.contains(i) || i == ii
                        || queued(read_q@, i) || queued(write_q@, i) by {
                        if queued(rq0, i) && !popped.contains(i) && i != ii {
                            let k = choose|k: int| 0 <= k < rq0.len() && #[trigger] rq0[k].index == i;
                            assert(read_q@[k - 1] == rq0[k]);
                        }
                    }
                    assert forall|i: int| #[trigger] popped.contains(i) implies !queued(read_q@, i) && !queued(write_q@, i) by {
                        if queued(read_q@, i) {
                            let k = choose|k: int| 0 <= k < read_q@.len() && #[trigger] read_q@[k].index == i;
                            assert(read_q@[k] == rq0[k + 1]);
                        }
                    }
                    assert(!queued(read_q@, ii)) by {
                        if queued(read_q@, ii) {
                            let k = choose|k: int| 0 <= k < read_q@.len() && #[trigger] read_q@[k].index == ii;
                            assert(read_q@[k] == rq0[k + 1]);
                        }
                    }
                    assert(!queued(write_q@, ii));
                    assert(!popped.contains(ii));
                    assert forall|k1: int, k2: int| 0 <= k1 < read_q@.len() && 0 <= k2 < write_q@.len() implies
                        (#[trigger] read_q@[k1]).index != (#[trigger] write_q@[k2]).index by {
                        assert(read_q@[k1] == rq0[k1 + 1]);
                    }
                    assert forall|k1: int, k2: int| 0 <= k1 < k2 < read_q@.len() implies
                        (#[trigger] read_q@[k1]).index != (#[trigger] read_q@[k2]).index by {
                        assert(read_q@[k1] == rq0[k1 + 1]);
                        assert(read_q@[k2] == rq0[k2 + 1]);
                    }
                    assert(self.progress_inv(*coord_context, use_occlusion_culling, initial.index as int, reached, popped, read_q@, write_q@, ii));
                    assert(reached.contains(index.index as int));
                    assert(section_ok_reach(vis_seq, *coord_context, use_occlusion_culling, index.index as int));
                }
                let visible = self.frustum_fog_cached_state.section_is_visible_bits.get(index);
                let list = self.bfs_cached_state.staging_render_lists.touch_region(coord_context, c);
                if visible {
                    list.add_section(section_flags, c);
                }
                proof {
                    lemma_section_from(c);
                    let r = region_index_spec(c);
                    let st = self.bfs_cached_state.staging_render_lists;
                    let bits = self.frustum_fog_cached_state.section_is_visible_bits;
                    assert(visible == bits.bit(c));
                    assert forall|rr: int| 0 <= rr < REGIONS_IN_GRAPH && (#[trigger] st.region_render_lists@[rr]).initialized_spec()
                        implies st.region_render_lists@[rr].region_coords == region_coords_of(coord_context.origin_region_coords, rr) by {
                        if rr != r {
                            assert(st.region_render_lists@[rr] == staging0.region_render_lists@[rr]);
                        }
                    }
                    if visible {
                        assert(section_ok(vis_seq, *coord_context, use_occlusion_culling, c));
                    }
                    assert forall|rr: int| 0 <= rr < REGIONS_IN_GRAPH implies list_sound(
                        #[trigger] st.region_render_lists@[rr], rr, vis_seq, *coord_context, use_occlusion_culling) by {
                        if rr != r {
                            assert(st.region_render_lists@[rr] == staging0.region_render_lists@[rr]);
                        } else {
                            assert(list_sound(staging0.region_render_lists@[rr], rr, vis_seq, *coord_context, use_occlusion_culling));
                        }
                    }
                    let ii = index.index as int;
                    let ord0 = staging0.ordered_region_indices@;
                    let ord = st.ordered_region_indices@;
                    assert(ord.len() >= ord0.len());
                    assert forall|j: int| 0 <= j < ord0.len() implies #[trigger] ord[j] == ord0[j] by {}
                    assert(region_listed(ord, r)) by {
                        if staging0.region_render_lists@[r].initialized_spec() {
                            let j = choose|j: int| 0 <= j < ord0.len() && #[trigger] ord0[j].index == r;
                            assert(ord[j] == ord0[j]);
                        } else {
                            assert(ord[ord0.len() as int].index == r);
                        }
                    }
                    assert forall|i: int| #[trigger] popped.contains(i) implies region_listed(ord, region_index_spec(unpack_spec(i))) by {
                        let j = choose|j: int| 0 <= j < ord0.len() && #[trigger] ord0[j].index == region_index_spec(unpack_spec(i));
                        assert(ord[j] == ord0[j]);
                    }
                    assert forall|rr: int| 0 <= rr < REGIONS_IN_GRAPH && (#[trigger] st.region_render_lists@[rr]).initialized_spec()
                        implies region_listed(ord, rr) by {
                        if rr != r {
                            assert(st.region_render_lists@[rr] == staging0.region_render_lists@[rr]);
                            let j = choose|j: int| 0 <= j < ord0.len() && #[trigger] ord0[j].index == rr;
                            assert(ord[j] == ord0[j]);
                        }
                    }
                    assert forall|i: int| #[trigger] popped.contains(i) && coord_context.passes_bounds(unpack_spec(i)) implies listed_in(
                        st.region_render_lists@[region_index_spec(unpack_spec(i))], unpack_spec(i)) by {
                        let ri = region_index_spec(unpack_spec(i));
                        lemma_section_from(unpack_spec(i));
                        let x = RegionSectionIndex { index: region_section_spec(unpack_spec(i)) as u8 };
                        let l0 = staging0.region_render_lists@[ri];
                        let l1 = st.region_render_lists@[ri];
                        if ri == r {
                            let k = choose|k: int| 0 <= k < l0.sections_with_geometry@.len() && l0.sections_with_geometry@[k] == x;
                            assert(l1.sections_with_geometry@[k] == x);
                            let k = choose|k: int| 0 <= k < l0.sections_with_sprites@.len() && l0.sections_with_sprites@[k] == x;
                            assert(l1.sections_with_sprites@[k] == x);
                            let k = choose|k: int| 0 <= k < l0.sections_with_block_entities@.len() && l0.sections_with_block_entities@[k] == x;
                            assert(l1.sections_with_block_entities@[k] == x);
                        }
                    }
                    if visible {
                        let l1 = st.region_render_lists@[r];
                        let x = RegionSectionIndex { index: region_section_spec(c) as u8 };
                        assert(l1.sections_with_geometry@.last() == x);
                        assert(l1.sections_with_sprites@.last() == x);
                        assert(l1.sections_with_block_entities@.last() == x);
                        assert(listed_in(l1, c));
                    }
                    if ord0.len() == 0 {
                        assert(!staging0.region_render_lists@[r].initialized_spec());
                        assert(ii == initial.index as int);
                        assert(c == coord_context.camera_section);
                    }
                    assert forall|rr: int| 0 <= rr < REGIONS_IN_GRAPH && ord.len() == 0 implies !(#[trigger] st.region_render_lists@[rr]).initialized_spec() by {}
                    assert(self.progress_inv(*coord_context, use_occlusion_culling, initial.index as int, reached, popped, read_q@, write_q@, ii));
                }
                if visible {
                    let incoming = self.bfs_cached_state.incoming_directions[index.index as usize];
                    let vis = &self.section_visibility_direction_sets[index.index as usize];
                    let mut outgoing = vis.get_outgoing_directions(incoming);
                    outgoing.add_all(directions_modifier);
                    let valid = coord_context.get_valid_directions(c);
                    let outgoing = outgoing.intersect(valid);
                    proof {
                        assert forall|e: int| #[trigger] outgoing.has(e) implies can_leave(vis_seq, *coord_context,
                            use_occlusion_culling, c, e) by {
                            if c == coord_context.camera_section {
                                assert(reach_face(vis_seq, *coord_context, use_occlusion_culling, c, camera_entry(), 0));
                                assert(walk_step(vis_seq, *coord_context, use_occlusion_culling, c, camera_entry(), e));
                            } else if use_occlusion_culling {
                                lemma_low_six(directions_modifier.bits);
                                assert(!directions_modifier.has(e));
                                assert(vis.outgoing_spec(incoming, e));
                                let entry = choose|entry: int| 0 <= entry < 6 && incoming.has(entry) && #[trigger] vis.connects(entry, e);
                                assert(vis_seq[pack_spec(c)].connects(entry, e));
                                assert(self.bfs_cached_state.incoming_directions@[index.index as int].has(entry));
                                let n0 = choose|n: nat| #[trigger] reach_face(vis_seq, *coord_context, use_occlusion_culling, c, entry, n);
                                assert(walk_step(vis_seq, *coord_context, use_occlusion_culling, c, entry, e));
                                assert(reach_face(vis_seq, *coord_context, use_occlusion_culling, c, entry, n0));
                            } else {
                                assert(section_ok_reach(vis_seq, *coord_context, use_occlusion_culling, index.index as int));
                                let (e0, n0) = choose|e0: int, n0: nat| #[trigger] reach_face(vis_seq, *coord_context, use_occlusion_culling, c, e0, n0);
                                assert(walk_step(vis_seq, *coord_context, use_occlusion_culling, c, e0, e));
                            }
                        }
                    }
                    let ghost st1 = self.bfs_cached_state.staging_render_lists;
                    proof {
                        if !use_occlusion_culling {
                            assert forall|e: int| #[trigger] coord_context.valid_direction(c, e) implies outgoing.has(e) by {
                                assert(directions_modifier.has(e));
                            }
                        }
                    }
                    let mut d: u8 = 0;
                    while d < DIRECTION_COUNT
                        invariant
                            self.progress_inv(*coord_context, use_occlusion_culling, initial.index as int, reached, popped, read_q@, write_q@, index.index as int),
                            initial.coords() == coord_context.camera_section,
                            initial.index == pack_spec(coord_context.camera_section),
                            self.bfs_cached_state.staging_render_lists == st1,
                            reached.contains(index.index as int),
                            visible,
                            !use_occlusion_culling ==> forall|e: int| #[trigger] coord_context.valid_direction(c, e) ==> outgoing.has(e),
                            !use_occlusion_culling ==> forall|e: int| 0 <= e < d && #[trigger] coord_context.valid_direction(c, e)
                                ==> reached.contains(pack_spec(neighbor_spec(c, e))),
                            self.walk_inv(g0, *coord_context, use_occlusion_culling, reached, read_q, write_q),
                            coord_context.wf(),
                            directions_modifier.wf(),
                            reached0.subset_of(reached),
                            write_q@.len() == reached.len() - reached0.len(),
                            d <= 6,
                            forall|e: int| #[trigger] outgoing.has(e) ==> coord_context.valid_direction(c, e),
                            forall|e: int| #[trigger] outgoing.has(e) ==> can_leave(vis_seq, *coord_context,
                                use_occlusion_culling, c, e),
                            vis_seq == self.section_visibility_direction_sets@,
                            opposition_inv(self.bfs_cached_state.incoming_directions@, coord_context.camera_section, traversed),
                            c == unpack_spec(index.index as int),
                            pack_spec(c) == index.index,
                            index.wf(),
                        decreases 6 - d,
                    {
                        if outgoing.contains(d) {
                            proof {
                                lemma_valid_in_window(*coord_context, c, d as int);
                            }
                            let n = LocalNodeIndex::pack(neighbor(c, d));
                            let ni = n.index as usize;
                            let opp = opposite(d);
                            let should_enqueue = self.bfs_cached_state.incoming_directions[ni].is_empty();
                            let ghost inc0 = self.bfs_cached_state.incoming_directions@;
                            let ghost old_wq = write_q@;
                            self.bfs_cached_state.incoming_directions[ni].add(opp);
                            write_q.push_conditionally(n, should_enqueue);
                            proof {
                                assert(self.bfs_cached_state.incoming_directions@[ni as int].has(opp as int));
                                assert(can_leave(vis_seq, *coord_context, use_occlusion_culling, c, d as int));
                                let (pe, n0) = choose|pe: int, n0: nat| walk_step(vis_seq, *coord_context,
                                    use_occlusion_culling, c, pe, d as int) && #[trigger] reach_face(vis_seq, *coord_context, use_occlusion_culling, c, pe, n0);
                                lemma_neighbor_opposite(c, d as int);
                                assert(opposite_spec(opp as int) == d as int);
                                assert(walk_step(vis_seq, *coord_context, use_occlusion_culling, c, pe, opposite_spec(opp as int)));
                                assert(reach_face(vis_seq, *coord_context, use_occlusion_culling, n.coords(), opp as int, n0 + 1));
                                assert(section_ok_reach(vis_seq, *coord_context, use_occlusion_culling, ni as int));
                                lemma_progress_push(self.bfs_cached_state.staging_render_lists, *coord_context, use_occlusion_culling,
                                    initial.index as int, reached, popped, read_q@, old_wq, index.index as int, n, should_enqueue);
                                if should_enqueue {
                                    assert(!reached.contains(ni as int));
                                    reached = reached.insert(ni as int);
                                }
                                let inc_now = self.bfs_cached_state.incoming_directions@;
                                assert forall|i: int, e: int| 0 <= i < SECTIONS_IN_GRAPH && #[trigger] inc_now[i].has(e)
                                    && unpack_spec(i) != coord_context.camera_section implies
                                    exists|m: nat| #[trigger] reach_face(vis_seq, *coord_context, use_occlusion_culling, unpack_spec(i), e, m) by {
                                    if i != ni as int {
                                        assert(inc_now[i] == inc0[i]);
                                    } else if !inc0[i].has(e) {
                                        assert(e == opp as int);
                                        lemma_pack_bounds(n.coords());
                                        assert(reach_face(vis_seq, *coord_context, use_occlusion_culling, unpack_spec(i), e, n0 + 1));
                                    }
                                }
                                assert forall|i: int| 0 <= i < SECTIONS_IN_GRAPH implies
                                    ((#[trigger] self.bfs_cached_state.incoming_directions@[i]).bits != 0 <==> reached.contains(i)) by {
                                    if i != ni as int {
                                        assert(self.bfs_cached_state.incoming_directions@[i] == inc0[i]);
                                    } else {
                                        lemma_low_six(self.bfs_cached_state.incoming_directions@[i].bits);
                                    }
                                }
                                assert forall|k: int| 0 <= k < write_q@.len() implies (#[trigger] write_q@[k]).wf() by {}
                                let inc = self.bfs_cached_state.incoming_directions@;
                                let camera = coord_context.camera_section;
                                let old_traversed = traversed;
                                lemma_neighbor_opposite(c, d as int);
                                lemma_pack_bounds(c);
                                lemma_pack_bounds(n.coords());
                                traversed = traversed.insert((index.index as int, d as int));
                                assert forall|t: (int, int)| #[trigger] traversed.contains(t) implies {
                                    &&& 0 <= t.0 < SECTIONS_IN_GRAPH
                                    &&& step_in_window(unpack_spec(t.0), t.1)
                                    &&& inc[pack_spec(neighbor_spec(unpack_spec(t.0), t.1))].has(opposite_spec(t.1))
                                } by {
                                    if t != (index.index as int, d as int) {
                                        assert(old_traversed.contains(t));
                                        let m = pack_spec(neighbor_spec(unpack_spec(t.0), t.1));
                                        lemma_pack_bounds(neighbor_spec(unpack_spec(t.0), t.1));
                                        assert(inc0[m].has(opposite_spec(t.1)));
                                        if m != ni as int {
                                            assert(inc[m] == inc0[m]);
                                        }
                                    }
                                }
                                assert forall|i: int, e: int| 0 <= i < SECTIONS_IN_GRAPH && #[trigger] inc[i].has(e) && unpack_spec(i) != camera
                                    implies traversed.contains((pack_spec(neighbor_spec(unpack_spec(i), e)), opposite_spec(e))) by {
                                    if i != ni as int {
                                        assert(inc[i] == inc0[i]);
                                        assert(old_traversed.contains((pack_spec(neighbor_spec(unpack_spec(i), e)), opposite_spec(e))));
                                    } else if !inc0[i].has(e) {
                                        assert(e == opp as int);
                                        assert(unpack_spec(i) == neighbor_spec(c, d as int));
                                        assert(neighbor_spec(unpack_spec(i), e) == c);
                                        assert(pack_spec(c) == index.index as int);
                                        assert(opposite_spec(e) == d as int);
                                        assert(traversed.contains((index.index as int, d as int)));
                                    } else {
                                        assert(old_traversed.contains((pack_spec(neighbor_spec(unpack_spec(i), e)), opposite_spec(e))));
                                    }
                                }
                            }
                        }
                        proof {
                            if outgoing.has(d as int) {
                                lemma_valid_in_window(*coord_context, c, d as int);
                                lemma_pack_bounds(neighbor_spec(c, d as int));
                            }
                        }
                        d = d + 1;
                    }
                    proof {
                        lemma_progress_finish(self.bfs_cached_state.staging_render_lists, *coord_context, use_occlusion_culling,
                            initial.index as int, reached, popped, read_q@, write_q@, index.index as int);
                        popped = popped.insert(index.index as int);
                        assert(self.progress_inv(*coord_context, use_occlusion_culling, initial.index as int, reached, popped, read_q@, write_q@, -1));
                    }
                } else {
                    proof {
                        lemma_progress_finish(self.bfs_cached_state.staging_render_lists, *coord_context, use_occlusion_culling,
                            initial.index as int, reached, popped, read_q@, write_q@, index.index as int);
                        popped = popped.insert(index.index as int);
                        assert(self.progress_inv(*coord_context, use_occlusion_culling, initial.index as int, reached, popped, read_q@, write_q@, -1));
                    }
                }
            }
            proof {
                lemma_progress_swap(self.bfs_cached_state.staging_render_lists, *coord_context, use_occlusion_culling,
                    initial.index as int, reached, popped, read_q@, write_q@);
            }
            read_q.reset();
            core::mem::swap(&mut read_q, &mut write_q);
            proof {
                lemma_len_subset(reached0, reached);
                assert(reached.subset_of(set_int_range(0, SECTIONS_IN_GRAPH as int)));
                lemma_int_range(0, SECTIONS_IN_GRAPH as int);
                lemma_len_subset(reached, set_int_range(0, SECTIONS_IN_GRAPH as int));
                assert(k0 > 0);
            }
        }
        proof {
            assert forall|i: int| #[trigger] reached.contains(i) implies popped.contains(i) by {
                assert(!queued(read_q@, i));
                assert(!queued(write_q@, i));
            }
            assert(reached =~= popped);
        }
        read_q.reset();
        write_q.reset();
        core::mem::swap(&mut read_q, &mut self.bfs_cached_state.queue_1);
        core::mem::swap(&mut write_q, &mut self.bfs_cached_state.queue_2);
        Ghost((traversed, popped))
    }

    /// Culls the world for one frame and returns the visible sections grouped by
    /// region, regions in the order the walk first touched them. Every scratch
    /// structure is back in its ground state afterwards.
    #[verifier::rlimit(100)]
    pub fn cull_and_sort(&mut self, coord_context: &LocalCoordContext, use_occlusion_culling: bool) -> (r: &Vec<RegionRenderList>)
        requires
            old(self).wf(),
            old(self).is_clean(),
            coord_context.wf(),
        ensures
            final(self).wf(),
            final(self).is_clean(),
            final(self).section_visibility_direction_sets == old(self).section_visibility_direction_sets,
            r@ == final(self).results@,
            output_sound(final(self).section_visibility_direction_sets@, *coord_context, use_occlusion_culling, r@),
            coord_context.passes_bounds(coord_context.camera_section) ==> {
                &&& r@.len() > 0
                &&& r@[0].region_coords == region_coords_spec(coord_context.origin_region_coords, coord_context.camera_section)
                &&& listed_in(r@[0], coord_context.camera_section)
            },
            forall|k: int| 0 <= k < r@.len() ==> {
                &&& (#[trigger] r@[k]).sections_with_geometry@.no_duplicates()
                &&& r@[k].sections_with_sprites@.no_duplicates()
                &&& r@[k].sections_with_block_entities@.no_duplicates()
            },
            !use_occlusion_culling ==> forall|s: LocalNodeCoords| #[trigger] coord_context.passes_bounds(s)
                && reachable(final(self).section_visibility_direction_sets@, *coord_context, false, s) ==> exists|k: int|
                0 <= k < r@.len() && #[trigger] r@[k].region_coords == region_coords_spec(coord_context.origin_region_coords, s)
                && listed_in(r@[k], s),
    {
        self.results.clear();
        self.frustum_and_fog_cull(coord_context);
        let walk = self.bfs_and_occlusion_cull(coord_context, use_occlusion_culling);
        let ghost st = self.bfs_cached_state.staging_render_lists;
        let ghost bits = self.frustum_fog_cached_state.section_is_visible_bits;
        self.bfs_cached_state.staging_render_lists.compile_render_lists(&mut self.results);
        proof {
            let origin = coord_context.origin_region_coords;
            let lists = st.list_views();
            let ord = st.ordered_region_indices@;
            assert(views(Seq::<RegionRenderList>::empty()) =~= Seq::<RegionListView>::empty());
            let out = self.results@;
            assert(views(out) == compiled_spec(lists, ord));
            lemma_compiled_members(lists, ord);
            let vis_seq = self.section_visibility_direction_sets@;
            assert forall|k: int| 0 <= k < out.len() implies region_output_sound(vis_seq, *coord_context,
                use_occlusion_culling, (#[trigger] out[k])@) by {
                let j = compiled_source(lists, ord, k);
                let idx = ord[j].index as int;
                assert(views(out)[k] == out[k]@);
                assert(lists[idx] == st.region_render_lists@[idx]@);
                assert(st.region_render_lists@[idx].initialized_spec());
                lemma_slot_round_trip(origin, idx);
                assert(list_sound(st.region_render_lists@[idx], idx, vis_seq, *coord_context, use_occlusion_culling));
            }
            assert forall|k1: int, k2: int| 0 <= k1 < k2 < out.len() implies
                (#[trigger] out[k1]).region_coords != (#[trigger] out[k2]).region_coords by {
                let j1 = compiled_source(lists, ord, k1);
                let j2 = compiled_source(lists, ord, k2);
                assert(views(out)[k1] == out[k1]@);
                assert(views(out)[k2] == out[k2]@);
                let i1 = ord[j1].index as int;
                let i2 = ord[j2].index as int;
                assert(st.region_render_lists@[i1].initialized_spec());
                assert(st.region_render_lists@[i2].initialized_spec());
                lemma_slot_round_trip(origin, i1);
                lemma_slot_round_trip(origin, i2);
                assert(ord[j1] != ord[j2]);
            }
            let popped = walk@.1;
            assert forall|k: int| 0 <= k < out.len() implies {
                &&& (#[trigger] out[k]).sections_with_geometry@.no_duplicates()
                &&& out[k].sections_with_sprites@.no_duplicates()
                &&& out[k].sections_with_block_entities@.no_duplicates()
            } by {
                let j = compiled_source(lists, ord, k);
                let idx = ord[j].index as int;
                assert(views(out)[k] == out[k]@);
                assert(lists[idx] == st.region_render_lists@[idx]@);
                let l = st.region_render_lists@[idx];
                assert(bucket_from(l.sections_with_geometry@, idx, popped, -1));
                assert(bucket_from(l.sections_with_sprites@, idx, popped, -1));
                assert(bucket_from(l.sections_with_block_entities@, idx, popped, -1));
                assert forall|a: int, b: int| 0 <= a < out[k].sections_with_geometry@.len() && 0 <= b < out[k].sections_with_geometry@.len()
                    && a != b implies out[k].sections_with_geometry@[a] != out[k].sections_with_geometry@[b] by {
                    if a < b { assert(l.sections_with_geometry@[a] != l.sections_with_geometry@[b]); }
                    else { assert(l.sections_with_geometry@[b] != l.sections_with_geometry@[a]); }
                }
                assert forall|a: int, b: int| 0 <= a < out[k].sections_with_sprites@.len() && 0 <= b < out[k].sections_with_sprites@.len()
                    && a != b implies out[k].sections_with_sprites@[a] != out[k].sections_with_sprites@[b] by {
                    if a < b { assert(l.sections_with_sprites@[a] != l.sections_with_sprites@[b]); }
                    else { assert(l.sections_with_sprites@[b] != l.sections_with_sprites@[a]); }
                }
                assert forall|a: int, b: int| 0 <= a < out[k].sections_with_block_entities@.len() && 0 <= b < out[k].sections_with_block_entities@.len()
                    && a != b implies out[k].sections_with_block_entities@[a] != out[k].sections_with_block_entities@[b] by {
                    if a < b { assert(l.sections_with_block_entities@[a] != l.sections_with_block_entities@[b]); }
                    else { assert(l.sections_with_block_entities@[b] != l.sections_with_block_entities@[a]); }
                }
            }
            let cam = coord_context.camera_section;
            lemma_section_from(cam);
            lemma_pack_bounds(cam);
            assert(ord.len() > 0);
            assert(popped.contains(pack_spec(cam)));
            if coord_context.passes_bounds(cam) {
                let cr = region_index_spec(cam);
                assert(listed_in(st.region_render_lists@[cr], cam));
                assert(ord[0].index == cr);
                assert(lists[cr] == st.region_render_lists@[cr]@);
                let x = RegionSectionIndex { index: region_section_spec(cam) as u8 };
                assert(st.region_render_lists@[cr].sections_with_geometry@.contains(x));
                lemma_compiled_first(lists, ord);
                assert(views(out)[0] == out[0]@);
                assert(st.region_render_lists@[cr].initialized_spec());
            }
            if !use_occlusion_culling {
                assert forall|s: LocalNodeCoords| #[trigger] coord_context.passes_bounds(s)
                    && reachable(vis_seq, *coord_context, false, s) implies exists|k: int|
                    0 <= k < out.len() && #[trigger] out[k].region_coords == region_coords_spec(origin, s) && listed_in(out[k], s) by {
                    let (e, n) = choose|e: int, n: nat| #[trigger] reach_face(vis_seq, *coord_context, false, s, e, n);
                    lemma_closed_reach(vis_seq, *coord_context, popped, s, e, n);
                    lemma_pack_bounds(s);
                    lemma_section_from(s);
                    let rs = region_index_spec(s);
                    assert(listed_in(st.region_render_lists@[rs], s));
                    assert(region_listed(ord, rs));
                    let j = choose|j: int| 0 <= j < ord.len() && #[trigger] ord[j].index == rs;
                    assert(lists[rs] == st.region_render_lists@[rs]@);
                    let x = RegionSectionIndex { index: region_section_spec(s) as u8 };
                    assert(st.region_render_lists@[rs].sections_with_geometry@.contains(x));
                    lemma_compiled_complete(lists, ord, j);
                    let k = choose|k: int| 0 <= k < compiled_spec(lists, ord).len() && #[trigger] compiled_spec(lists, ord)[k] == lists[ord[j].index as int];
                    assert(views(out)[k] == out[k]@);
                    assert(st.region_render_lists@[rs].initialized_spec());
                }
            }
        }
        self.bfs_cached_state.reset();
        self.frustum_fog_cached_state.reset();
        &self.results
    }

    /// Stores the visibility of the section at world section coordinates
    /// `section_coord` (Y is shifted into the window).
    pub fn set_section(&mut self, section_coord: IVec3, visibility_data: VisibilityData)
        requires
            old(self).wf(),
            visibility_data.wf(),
            0 <= section_coord.x <= 255,
            0 <= section_coord.y + Y_ADD_SECTIONS <= 255,
            0 <= section_coord.z <= 255,
        ensures
            final(self).wf(),
            final(self).section_visibility_direction_sets@ == old(self).section_visibility_direction_sets@.update(
                pack_spec(local_coords_of(section_coord)), visibility_data),
            final(self).frustum_fog_cached_state == old(self).frustum_fog_cached_state,
            final(self).bfs_cached_state == old(self).bfs_cached_state,
            final(self).results == old(self).results,
    {
        let local = LocalNodeCoords {
            x: section_coord.x as u8,
            y: (section_coord.y + Y_ADD_SECTIONS as i32) as u8,
            z: section_coord.z as u8,
        };
        let index = LocalNodeIndex::pack(local);
        self.section_visibility_direction_sets.set(index.index as usize, visibility_data);
    }

    /// Makes the section at `section_coord` opaque, as if it had never been set.
    pub fn remove_section(&mut self, section_coord: IVec3)
        requires
            old(self).wf(),
            0 <= section_coord.x <= 255,
            0 <= section_coord.y + Y_ADD_SECTIONS <= 255,
            0 <= section_coord.z <= 255,
        ensures
            final(self).wf(),
            final(self).section_visibility_direction_sets@.len() == SECTIONS_IN_GRAPH,
            forall|a: int, b: int| !(#[trigger] final(self).visibility(local_coords_of(section_coord)).connects(a, b)),
            forall|c: LocalNodeCoords| c != local_coords_of(section_coord) ==>
                #[trigger] final(self).visibility(c) == old(self).visibility(c),
            final(self).frustum_fog_cached_state == old(self).frustum_fog_cached_state,
            final(self).bfs_cached_state == old(self).bfs_cached_state,
            final(self).results == old(self).results,
    {
        self.set_section(section_coord, VisibilityData::opaque());
        proof {
            lemma_pack_bounds(local_coords_of(section_coord));
            assert forall|c: LocalNodeCoords| c != local_coords_of(section_coord) implies
                #[trigger] self.visibility(c) == old(self).visibility(c) by {
                crate::local::lemma_pack_injective(c, local_coords_of(section_coord));
                lemma_pack_bounds(c);
            }
        }
    }

    /// Sweeps the level-3 nodes the context names and marks every section in
    /// the visible volume.
    fn frustum_and_fog_cull(&mut self, coord_context: &LocalCoordContext)
        requires
            old(self).wf(),
            old(self).frustum_fog_cached_state.section_is_visible_bits.is_clear(),
            coord_context.wf(),
        ensures
            final(self).wf(),
            final(self).section_visibility_direction_sets == old(self).section_visibility_direction_sets,
            final(self).bfs_cached_state == old(self).bfs_cached_state,
            final(self).results == old(self).results,
            forall|c: LocalNodeCoords| #[trigger] final(self).frustum_fog_cached_state.section_is_visible_bits.bit(c)
                == coord_context.passes_bounds(c),
            forall|c: LocalNodeCoords| #[trigger] final(self).frustum_fog_cached_state.section_is_visible_bits.bit(c)
                == (coord_context.in_sweep(c) && coord_context.cube_inside(c, node_size(0))),
    {
        let ctx = coord_context;
        proof {
            assert forall|c: LocalNodeCoords| !#[trigger] self.frustum_fog_cached_state.section_is_visible_bits.bit(c) by {
                lemma_pack_bounds(c);
            }
        }
        let sx = ctx.iter_start.x;
        let sy = ctx.iter_start.y;
        let sz = ctx.iter_start.z;
        let ex = sx + ctx.level_3_node_iter_counts.x;
        let ey = sy + ctx.level_3_node_iter_counts.y;
        let ez = sz + ctx.level_3_node_iter_counts.z;
        let mut ix: u8 = sx;
        while ix < ex
            invariant
                self.wf(),
                ctx.wf(),
                sx <= ix <= ex,
                sx == ctx.iter_start.x, sy == ctx.iter_start.y, sz == ctx.iter_start.z,
                ex == sx + ctx.level_3_node_iter_counts.x,
                ey == sy + ctx.level_3_node_iter_counts.y,
                ez == sz + ctx.level_3_node_iter_counts.z,
                self.section_visibility_direction_sets == old(self).section_visibility_direction_sets,
                self.bfs_cached_state == old(self).bfs_cached_state,
                self.results == old(self).results,
                forall|c: LocalNodeCoords| #[trigger] self.frustum_fog_cached_state.section_is_visible_bits.bit(c)
                    == (ctx.in_bounds(c) && ctx.in_sweep(c) && c.x / 8 < ix),
            decreases ex - ix,
        {
            let mut iy: u8 = sy;
            while iy < ey
                invariant
                    self.wf(),
                    ctx.wf(),
                    sx <= ix < ex,
                    sy <= iy <= ey,
                    sx == ctx.iter_start.x, sy == ctx.iter_start.y, sz == ctx.iter_start.z,
                    ex == sx + ctx.level_3_node_iter_counts.x,
                    ey == sy + ctx.level_3_node_iter_counts.y,
                    ez == sz + ctx.level_3_node_iter_counts.z,
                    self.section_visibility_direction_sets == old(self).section_visibility_direction_sets,
                    self.bfs_cached_state == old(self).bfs_cached_state,
                    self.results == old(self).results,
                    forall|c: LocalNodeCoords| #[trigger] self.frustum_fog_cached_state.section_is_visible_bits.bit(c)
                        == (ctx.in_bounds(c) && ctx.in_sweep(c) && (c.x / 8 < ix || (c.x / 8 == ix && c.y / 8 < iy))),
                decreases ey - iy,
            {
                let mut iz: u8 = sz;
                while iz < ez
                    invariant
                        self.wf(),
                        ctx.wf(),
                        sx <= ix < ex,
                        sy <= iy < ey,
                        sz <= iz <= ez,
                        sx == ctx.iter_start.x, sy == ctx.iter_start.y, sz == ctx.iter_start.z,
                        ex == sx + ctx.level_3_node_iter_counts.x,
                        ey == sy + ctx.level_3_node_iter_counts.y,
                        ez == sz + ctx.level_3_node_iter_counts.z,
                        self.section_visibility_direction_sets == old(self).section_visibility_direction_sets,
                        self.bfs_cached_state == old(self).bfs_cached_state,
                        self.results == old(self).results,
                        forall|c: LocalNodeCoords| #[trigger] self.frustum_fog_cached_state.section_is_visible_bits.bit(c)
                            == (ctx.in_bounds(c) && ctx.in_sweep(c) && (c.x / 8 < ix || (c.x / 8 == ix && c.y / 8 < iy)
                            || (c.x / 8 == ix && c.y / 8 == iy && c.z / 8 < iz))),
                    decreases ez - iz,
                {
                    let node = LocalNodeCoords { x: ix * 8, y: iy * 8, z: iz * 8 };
                    self.frustum_fog_cached_state.check_node(3, node, ctx);
                    iz = iz + 1;
                }
                iy = iy + 1;
            }
            ix = ix + 1;
        }
    }
}

} // verus!
