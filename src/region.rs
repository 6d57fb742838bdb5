use vstd::prelude::*;
use crate::local::{IVec3, LocalCoordContext, LocalNodeCoords};
use crate::visibility::bit_set;

verus! {

/// Sections in one region: 8 x 4 x 8.
pub const SECTIONS_IN_REGION: usize = 256;

/// Regions in the culling window: 32 x 64 x 32.
pub const REGIONS_IN_GRAPH: usize = 65536;

/// The coordinate that marks a region slot as not yet in use.
pub const UNDEFINED_REGION_COORD: i32 = i32::MIN;

/// The slot of the region that holds section `c`.
pub open spec fn region_index_spec(c: LocalNodeCoords) -> int {
    (c.x / 8) as int * 2048 + (c.y / 4) as int * 32 + (c.z / 8) as int
}

/// The place of section `c` inside its region.
pub open spec fn region_section_spec(c: LocalNodeCoords) -> int {
    (c.x % 8) as int * 32 + (c.z % 8) as int * 4 + (c.y % 4) as int
}

/// The global coordinates of the region that holds section `c`.
pub open spec fn region_coords_spec(origin: IVec3, c: LocalNodeCoords) -> IVec3 {
    IVec3 {
        x: (origin.x + c.x / 8) as i32,
        y: (origin.y + c.y / 4) as i32,
        z: (origin.z + c.z / 8) as i32,
    }
}

/// The section at place `e` of region slot `r`.
pub open spec fn section_from(r: int, e: int) -> LocalNodeCoords {
    LocalNodeCoords {
        x: ((r / 2048) * 8 + e / 32) as u8,
        y: (((r / 32) % 64) * 4 + e % 4) as u8,
        z: ((r % 32) * 8 + (e / 4) % 8) as u8,
    }
}

/// A section is found again from its region slot and its place in the region.
pub proof fn lemma_section_from(c: LocalNodeCoords)
    ensures
        0 <= region_index_spec(c) < REGIONS_IN_GRAPH,
        0 <= region_section_spec(c) < SECTIONS_IN_REGION,
        section_from(region_index_spec(c), region_section_spec(c)) == c,
        forall|o: IVec3| #[trigger] region_coords_of(o, region_index_spec(c)) == region_coords_spec(o, c),
{
    let x = c.x as u32;
    let y = c.y as u32;
    let z = c.z as u32;
    assert({
        let r = (x / 8) * 2048 + (y / 4) * 32 + z / 8;
        let e = (x % 8) * 32 + (z % 8) * 4 + y % 4;
        &&& r < 65536
        &&& e < 256
        &&& (r / 2048) * 8 + e / 32 == x
        &&& ((r / 32) % 64) * 4 + e % 4 == y
        &&& (r % 32) * 8 + (e / 4) % 8 == z
        &&& r / 2048 == x / 8
        &&& (r / 32) % 64 == y / 4
        &&& r % 32 == z / 8
    }) by (bit_vector)
        requires x < 256u32, y < 256u32, z < 256u32;
}

/// The global coordinates of region slot `r`.
pub open spec fn region_coords_of(origin: IVec3, r: int) -> IVec3 {
    IVec3 {
        x: (origin.x + r / 2048) as i32,
        y: (origin.y + (r / 32) % 64) as i32,
        z: (origin.z + r % 32) as i32,
    }
}

/// The slot of the region at global coordinates `g`.
pub open spec fn slot_of(origin: IVec3, g: IVec3) -> int {
    (g.x - origin.x) * 2048 + (g.y - origin.y) * 32 + (g.z - origin.z)
}

/// Slots and global region coordinates determine each other.
pub proof fn lemma_slot_round_trip(origin: IVec3, r: int)
    requires
        0 <= r < REGIONS_IN_GRAPH,
        i32::MIN < origin.x <= i32::MAX - 64,
        i32::MIN < origin.y <= i32::MAX - 64,
        i32::MIN < origin.z <= i32::MAX - 64,
    ensures
        slot_of(origin, region_coords_of(origin, r)) == r,
{
    let u = r as u32;
    assert((u / 2048) * 2048 + ((u / 32) % 64) * 32 + u % 32 == u) by (bit_vector)
        requires u < 65536u32;
}

pub open spec fn undefined_coords() -> IVec3 {
    IVec3 { x: i32::MIN, y: i32::MIN, z: i32::MIN }
}

/// The index of a region inside the culling window.
#[derive(Clone, Copy, PartialEq, Eq, Structural, Debug)]
pub struct LocalRegionIndex {
    pub index: u16,
}

impl LocalRegionIndex {
    pub fn from_local_section(c: LocalNodeCoords) -> (r: Self)
        ensures
            r.index == region_index_spec(c),
    {
        LocalRegionIndex { index: (c.x / 8) as u16 * 2048 + (c.y / 4) as u16 * 32 + (c.z / 8) as u16 }
    }
}

/// The place of a section inside its region.
#[derive(Clone, Copy, PartialEq, Eq, Structural, Debug)]
pub struct RegionSectionIndex {
    pub index: u8,
}

impl RegionSectionIndex {
    pub fn from_local_section(c: LocalNodeCoords) -> (r: Self)
        ensures
            r.index == region_section_spec(c),
    {
        RegionSectionIndex { index: (c.x % 8) * 32 + (c.z % 8) * 4 + (c.y % 4) }
    }
}

pub const HAS_BLOCK_GEOMETRY: u8 = 0;
pub const HAS_ANIMATED_SPRITES: u8 = 1;
pub const HAS_BLOCK_ENTITIES: u8 = 2;

/// The render categories a section falls under, one bit each.
#[derive(Clone, Copy, PartialEq, Eq, Structural, Debug)]
pub struct SectionFlagSet {
    pub bits: u8,
}

impl SectionFlagSet {
    /// Every category: what a section gets when no flags are known.
    pub fn all() -> (r: Self)
        ensures
            r.bits == 7,
            bit_set(r.bits, HAS_BLOCK_GEOMETRY as int),
            bit_set(r.bits, HAS_ANIMATED_SPRITES as int),
            bit_set(r.bits, HAS_BLOCK_ENTITIES as int),
    {
        assert(((7u8 >> 0u8) & 1u8) == 1u8 && ((7u8 >> 1u8) & 1u8) == 1u8 && ((7u8 >> 2u8) & 1u8) == 1u8) by (bit_vector);
        SectionFlagSet { bits: 7 }
    }

    pub fn contains(&self, flag: u8) -> (r: bool)
        requires
            flag < 3,
        ensures
            r == bit_set(self.bits, flag as int),
    {
        (self.bits >> flag) & 1 == 1
    }
}

/// The sections of one region to draw, bucketed by render category.
#[derive(Debug)]
pub struct RegionRenderList {
    pub region_coords: IVec3,
    pub sections_with_geometry: Vec<RegionSectionIndex>,
    pub sections_with_sprites: Vec<RegionSectionIndex>,
    pub sections_with_block_entities: Vec<RegionSectionIndex>,
}

impl Default for RegionRenderList {
    fn default() -> (r: Self)
        ensures
            r.cleared_spec(),
            r.region_coords == undefined_coords(),
    {
        RegionRenderList::new()
    }
}

/// `v` with `x` added at its end where `cond` holds.
pub open spec fn push_if<T>(v: Seq<T>, x: T, cond: bool) -> Seq<T> {
    if cond { v.push(x) } else { v }
}

fn copy_indices(v: &Vec<RegionSectionIndex>) -> (r: Vec<RegionSectionIndex>)
    ensures
        r@ == v@,
{
    let mut r: Vec<RegionSectionIndex> = Vec::new();
    let mut i: usize = 0;
    while i < v.len()
        invariant
            i <= v.len(),
            r@ == v@.subrange(0, i as int),
        decreases v.len() - i,
    {
        r.push(v[i]);
        i = i + 1;
    }
    assert(r@ =~= v@);
    r
}

/// What a region render list holds: its coordinates and its three buckets.
pub type RegionListView = (IVec3, Seq<RegionSectionIndex>, Seq<RegionSectionIndex>, Seq<RegionSectionIndex>);

pub open spec fn view_empty(v: RegionListView) -> bool {
    v.1.len() == 0 && v.2.len() == 0 && v.3.len() == 0
}

/// The views of a sequence of render lists.
pub open spec fn views(s: Seq<RegionRenderList>) -> Seq<RegionListView> {
    s.map_values(|l: RegionRenderList| l@)
}

impl RegionRenderList {
    pub open spec fn view(&self) -> RegionListView {
        (self.region_coords, self.sections_with_geometry@, self.sections_with_sprites@,
            self.sections_with_block_entities@)
    }

    pub open spec fn initialized_spec(&self) -> bool {
        self.region_coords != undefined_coords()
    }

    pub open spec fn empty_spec(&self) -> bool {
        &&& self.sections_with_geometry@.len() == 0
        &&& self.sections_with_sprites@.len() == 0
        &&& self.sections_with_block_entities@.len() == 0
    }

    /// A slot not in use: no coordinates and no sections.
    pub open spec fn cleared_spec(&self) -> bool {
        !self.initialized_spec() && self.empty_spec()
    }

    pub fn new() -> (r: Self)
        ensures
            r.cleared_spec(),
            r.region_coords == undefined_coords(),
    {
        RegionRenderList {
            region_coords: IVec3 { x: UNDEFINED_REGION_COORD, y: UNDEFINED_REGION_COORD, z: UNDEFINED_REGION_COORD },
            sections_with_geometry: Vec::new(),
            sections_with_sprites: Vec::new(),
            sections_with_block_entities: Vec::new(),
        }
    }

    /// An equal list with storage of its own.
    pub fn snapshot(&self) -> (r: Self)
        ensures
            r@ == self@,
    {
        RegionRenderList {
            region_coords: self.region_coords,
            sections_with_geometry: copy_indices(&self.sections_with_geometry),
            sections_with_sprites: copy_indices(&self.sections_with_sprites),
            sections_with_block_entities: copy_indices(&self.sections_with_block_entities),
        }
    }

    /// Adds section `c` to each bucket whose category `section_flags` holds.
    pub fn add_section(&mut self, section_flags: SectionFlagSet, c: LocalNodeCoords)
        ensures
            final(self).region_coords == old(self).region_coords,
            final(self).sections_with_geometry@ == push_if(old(self).sections_with_geometry@,
                RegionSectionIndex { index: region_section_spec(c) as u8 },
                bit_set(section_flags.bits, HAS_BLOCK_GEOMETRY as int)),
            final(self).sections_with_sprites@ == push_if(old(self).sections_with_sprites@,
                RegionSectionIndex { index: region_section_spec(c) as u8 },
                bit_set(section_flags.bits, HAS_ANIMATED_SPRITES as int)),
            final(self).sections_with_block_entities@ == push_if(old(self).sections_with_block_entities@,
                RegionSectionIndex { index: region_section_spec(c) as u8 },
                bit_set(section_flags.bits, HAS_BLOCK_ENTITIES as int)),
    {
        let idx = RegionSectionIndex::from_local_section(c);
        if section_flags.contains(HAS_BLOCK_GEOMETRY) {
            self.sections_with_geometry.push(idx);
        }
        if section_flags.contains(HAS_ANIMATED_SPRITES) {
            self.sections_with_sprites.push(idx);
        }
        if section_flags.contains(HAS_BLOCK_ENTITIES) {
            self.sections_with_block_entities.push(idx);
        }
    }

    pub fn is_initialized(&self) -> (r: bool)
        ensures
            r == self.initialized_spec(),
    {
        !(self.region_coords.x == UNDEFINED_REGION_COORD && self.region_coords.y == UNDEFINED_REGION_COORD
            && self.region_coords.z == UNDEFINED_REGION_COORD)
    }

    pub fn initialize(&mut self, region_coords: IVec3)
        ensures
            final(self).region_coords == region_coords,
            final(self).sections_with_geometry@ == old(self).sections_with_geometry@,
            final(self).sections_with_sprites@ == old(self).sections_with_sprites@,
            final(self).sections_with_block_entities@ == old(self).sections_with_block_entities@,
    {
        self.region_coords = region_coords;
    }

    pub fn is_empty(&self) -> (r: bool)
        ensures
            r == self.empty_spec(),
    {
        self.sections_with_geometry.len() == 0 && self.sections_with_sprites.len() == 0
            && self.sections_with_block_entities.len() == 0
    }

    pub fn clear(&mut self)
        ensures
            final(self).cleared_spec(),
            final(self).region_coords == undefined_coords(),
    {
        self.region_coords = IVec3 { x: UNDEFINED_REGION_COORD, y: UNDEFINED_REGION_COORD, z: UNDEFINED_REGION_COORD };
        self.sections_with_geometry.clear();
        self.sections_with_sprites.clear();
        self.sections_with_block_entities.clear();
    }
}

/// The non-empty lists among the slots `ordered` names, in that order.
pub open spec fn compiled_spec(lists: Seq<RegionListView>, ordered: Seq<LocalRegionIndex>) -> Seq<RegionListView>
    decreases ordered.len(),
{
    if ordered.len() == 0 {
        Seq::empty()
    } else {
        let prev = compiled_spec(lists, ordered.drop_last());
        let l = lists[ordered.last().index as int];
        if view_empty(l) { prev } else { prev.push(l) }
    }
}

/// Each list compiled is a non-empty list of a slot that `ordered` names, and
/// lists compiled at different places come from different places of `ordered`.
pub proof fn lemma_compiled_members(lists: Seq<RegionListView>, ordered: Seq<LocalRegionIndex>)
    ensures
        compiled_spec(lists, ordered).len() <= ordered.len(),
        forall|k: int| 0 <= k < compiled_spec(lists, ordered).len() ==> {
            &&& 0 <= #[trigger] compiled_source(lists, ordered, k) < ordered.len()
            &&& compiled_spec(lists, ordered)[k] == lists[ordered[compiled_source(lists, ordered, k)].index as int]
            &&& !view_empty(compiled_spec(lists, ordered)[k])
        },
        forall|k1: int, k2: int| 0 <= k1 < k2 < compiled_spec(lists, ordered).len() ==>
            #[trigger] compiled_source(lists, ordered, k1) < #[trigger] compiled_source(lists, ordered, k2),
    decreases ordered.len(),
{
    if ordered.len() > 0 {
        lemma_compiled_members(lists, ordered.drop_last());
        let prev = ordered.drop_last();
        let cur = compiled_spec(lists, ordered);
        let before = compiled_spec(lists, prev);
        assert forall|k: int| 0 <= k < cur.len() implies {
            &&& 0 <= #[trigger] compiled_source(lists, ordered, k) < ordered.len()
            &&& cur[k] == lists[ordered[compiled_source(lists, ordered, k)].index as int]
            &&& !view_empty(cur[k])
        } by {
            if k < before.len() {
                assert(compiled_source(lists, ordered, k) == compiled_source(lists, prev, k));
                assert(cur[k] == before[k]);
                assert(ordered[compiled_source(lists, prev, k)] == prev[compiled_source(lists, prev, k)]);
            }
        }
        assert forall|k1: int, k2: int| 0 <= k1 < k2 < cur.len() implies
            #[trigger] compiled_source(lists, ordered, k1) < #[trigger] compiled_source(lists, ordered, k2) by {
            assert(compiled_source(lists, ordered, k1) == compiled_source(lists, prev, k1));
            if k2 < before.len() {
                assert(compiled_source(lists, ordered, k2) == compiled_source(lists, prev, k2));
            }
        }
    }
}

/// A non-empty list of a slot that `ordered` names is among the compiled lists.
pub proof fn lemma_compiled_complete(lists: Seq<RegionListView>, ordered: Seq<LocalRegionIndex>, j: int)
    requires
        0 <= j < ordered.len(),
        !view_empty(lists[ordered[j].index as int]),
    ensures
        exists|k: int| 0 <= k < compiled_spec(lists, ordered).len() && #[trigger] compiled_spec(lists, ordered)[k]
            == lists[ordered[j].index as int],
    decreases ordered.len(),
{
    let prev = ordered.drop_last();
    if j < ordered.len() - 1 {
        lemma_compiled_complete(lists, prev, j);
        assert(prev[j] == ordered[j]);
        let k = choose|k: int| 0 <= k < compiled_spec(lists, prev).len() && #[trigger] compiled_spec(lists, prev)[k]
            == lists[prev[j].index as int];
        assert(compiled_spec(lists, ordered)[k] == compiled_spec(lists, prev)[k]);
    } else {
        let k = compiled_spec(lists, prev).len() as int;
        assert(compiled_spec(lists, ordered)[k] == lists[ordered[j].index as int]);
    }
}

/// The list of the first slot that `ordered` names comes first, if it is non-empty.
pub proof fn lemma_compiled_first(lists: Seq<RegionListView>, ordered: Seq<LocalRegionIndex>)
    requires
        ordered.len() > 0,
        !view_empty(lists[ordered[0].index as int]),
    ensures
        compiled_spec(lists, ordered).len() > 0,
        compiled_spec(lists, ordered)[0] == lists[ordered[0].index as int],
    decreases ordered.len(),
{
    let prev = ordered.drop_last();
    if ordered.len() > 1 {
        assert(prev[0] == ordered[0]);
        lemma_compiled_first(lists, prev);
        assert(compiled_spec(lists, ordered)[0] == compiled_spec(lists, prev)[0]);
    } else {
        assert(prev.len() == 0);
        assert(compiled_spec(lists, prev) == Seq::<RegionListView>::empty());
        assert(ordered.last() == ordered[0]);
    }
}

/// The place in `ordered` of the slot that the `k`-th compiled list came from.
pub open spec fn compiled_source(lists: Seq<RegionListView>, ordered: Seq<LocalRegionIndex>, k: int) -> int
    decreases ordered.len(),
{
    if ordered.len() == 0 {
        0
    } else {
        let prev = compiled_spec(lists, ordered.drop_last());
        if k < prev.len() { compiled_source(lists, ordered.drop_last(), k) } else { ordered.len() - 1 }
    }
}

/// Render lists of every region slot, and the slots in the order they were first touched.
pub struct StagingRegionRenderLists {
    pub ordered_region_indices: Vec<LocalRegionIndex>,
    pub region_render_lists: Vec<RegionRenderList>,
}

impl StagingRegionRenderLists {
    /// Every slot in the order list is in use, and none is listed twice.
    pub open spec fn wf(&self) -> bool {
        &&& self.region_render_lists@.len() == REGIONS_IN_GRAPH
        &&& forall|j: int| 0 <= j < self.ordered_region_indices@.len() ==> {
            &&& (#[trigger] self.ordered_region_indices@[j]).index < REGIONS_IN_GRAPH
            &&& self.region_render_lists@[self.ordered_region_indices@[j].index as int].initialized_spec()
        }
        &&& forall|j: int, k: int| 0 <= j < k < self.ordered_region_indices@.len() ==>
            #[trigger] self.ordered_region_indices@[j] != #[trigger] self.ordered_region_indices@[k]
    }

    /// Nothing touched: no slot in use, every bucket empty.
    pub open spec fn is_clean(&self) -> bool {
        &&& self.region_render_lists@.len() == REGIONS_IN_GRAPH
        &&& self.ordered_region_indices@.len() == 0
        &&& forall|r: int| 0 <= r < REGIONS_IN_GRAPH ==> (#[trigger] self.region_render_lists@[r]).cleared_spec()
    }

    pub open spec fn list_views(&self) -> Seq<RegionListView> {
        views(self.region_render_lists@)
    }

    pub fn new() -> (r: Self)
        ensures
            r.wf(),
            r.is_clean(),
    {
        let mut lists: Vec<RegionRenderList> = Vec::new();
        let mut i: usize = 0;
        while i < REGIONS_IN_GRAPH
            invariant
                i <= REGIONS_IN_GRAPH,
                lists@.len() == i,
                forall|r: int| 0 <= r < i ==> (#[trigger] lists@[r]).cleared_spec(),
            decreases REGIONS_IN_GRAPH - i,
        {
            lists.push(RegionRenderList::new());
            i = i + 1;
        }
        StagingRegionRenderLists { ordered_region_indices: Vec::new(), region_render_lists: lists }
    }

    /// Registers the region of section `c`: on its first touch the slot takes the
    /// region's global coordinates and joins the order list. Hands out the slot.
    pub fn touch_region(&mut self, coord_context: &LocalCoordContext, c: LocalNodeCoords) -> (r: &mut RegionRenderList)
        requires
            old(self).wf(),
            coord_context.wf(),
        ensures
            ({
                let i = region_index_spec(c);
                let was = old(self).region_render_lists@[i];
                &&& 0 <= i < REGIONS_IN_GRAPH
                &&& final(self).region_render_lists@ == old(self).region_render_lists@.update(i, *final(r))
                &&& r.sections_with_geometry@ == was.sections_with_geometry@
                &&& r.sections_with_sprites@ == was.sections_with_sprites@
                &&& r.sections_with_block_entities@ == was.sections_with_block_entities@
                &&& was.initialized_spec() ==> {
                    &&& final(self).ordered_region_indices@ == old(self).ordered_region_indices@
                    &&& r.region_coords == was.region_coords
                }
                &&& !was.initialized_spec() ==> {
                    &&& final(self).ordered_region_indices@ == old(self).ordered_region_indices@.push(
                        LocalRegionIndex { index: i as u16 })
                    &&& r.region_coords == region_coords_spec(coord_context.origin_region_coords, c)
                }
            }),
            final(r).region_coords == r.region_coords ==> final(self).wf(),
    {
        let local_region_index = LocalRegionIndex::from_local_section(c);
        let i = local_region_index.index as usize;
        let origin = coord_context.origin_region_coords;
        let global = IVec3 { x: origin.x + (c.x / 8) as i32, y: origin.y + (c.y / 4) as i32, z: origin.z + (c.z / 8) as i32 };
        if !self.region_render_lists[i].is_initialized() {
            self.region_render_lists[i].initialize(global);
            self.ordered_region_indices.push(local_region_index);
        }
        &mut self.region_render_lists[i]
    }

    /// Appends, in first-touch order, a copy of every touched region that holds a section.
    pub fn compile_render_lists(&self, results: &mut Vec<RegionRenderList>)
        requires
            self.wf(),
        ensures
            views(final(results)@) == views(old(results)@) + compiled_spec(self.list_views(),
                self.ordered_region_indices@),
    {
        let ghost base = views(results@);
        let mut j: usize = 0;
        while j < self.ordered_region_indices.len()
            invariant
                self.wf(),
                j <= self.ordered_region_indices@.len(),
                views(results@) == base + compiled_spec(self.list_views(),
                    self.ordered_region_indices@.subrange(0, j as int)),
            decreases self.ordered_region_indices@.len() - j,
        {
            let r = self.ordered_region_indices[j].index as usize;
            let ghost prefix = self.ordered_region_indices@.subrange(0, j as int);
            assert(self.ordered_region_indices@.subrange(0, j + 1).drop_last() == prefix);
            let list = &self.region_render_lists[r];
            let ghost before = results@;
            assert(self.ordered_region_indices@.subrange(0, j + 1).last() == self.ordered_region_indices@[j as int]);
            assert(self.list_views()[r as int] == list@);
            if !list.is_empty() {
                let snap = list.snapshot();
                results.push(snap);
                assert(views(results@) =~= views(before).push(snap@));
            }
            assert(views(results@) =~= base + compiled_spec(self.list_views(),
                self.ordered_region_indices@.subrange(0, j + 1)));
            j = j + 1;
        }
        assert(self.ordered_region_indices@.subrange(0, j as int) == self.ordered_region_indices@);
    }

    /// Returns every slot to disuse and empties the order list.
    pub fn clear(&mut self)
        requires
            old(self).region_render_lists@.len() == REGIONS_IN_GRAPH,
        ensures
            final(self).wf(),
            final(self).is_clean(),
    {
        self.ordered_region_indices.clear();
        let mut i: usize = 0;
        while i < REGIONS_IN_GRAPH
            invariant
                i <= REGIONS_IN_GRAPH,
                self.region_render_lists@.len() == REGIONS_IN_GRAPH,
                self.ordered_region_indices@.len() == 0,
                forall|r: int| 0 <= r < i ==> (#[trigger] self.region_render_lists@[r]).cleared_spec(),
            decreases REGIONS_IN_GRAPH - i,
        {
            self.region_render_lists[i].clear();
            i = i + 1;
        }
    }
}

} // verus!
