use sodium_culling::octree::LinearBitOctree;
use sodium_culling::local::{neighbor, IVec3, LocalCoordContext, LocalNodeCoords, LocalNodeIndex, BoundsCheckResult};
use sodium_culling::queue::BfsQueue;
use sodium_culling::region::{LocalRegionIndex, RegionRenderList, RegionSectionIndex, SectionFlagSet, StagingRegionRenderLists};
use sodium_culling::visibility::{opposite, GraphDirectionSet, VisibilityData, NEG_X, NEG_Y, NEG_Z, POS_X, POS_Y, POS_Z};

fn c(x: u8, y: u8, z: u8) -> LocalNodeCoords {
    LocalNodeCoords { x, y, z }
}

#[test]
fn direction_set_operations() {
    let mut s = GraphDirectionSet::none();
    assert!(s.is_empty());
    s.add(POS_Y);
    s.add(NEG_Z);
    assert!(s.contains(POS_Y) && s.contains(NEG_Z) && !s.contains(POS_X));
    assert_eq!(s.bits, 0b011000);
    let all = GraphDirectionSet::all();
    assert_eq!(all.bits, 0x3f);
    let i = s.intersect(GraphDirectionSet::single(NEG_Z));
    assert_eq!(i, GraphDirectionSet::single(NEG_Z));
    let mut u = GraphDirectionSet::single(NEG_X);
    u.add_all(s);
    assert_eq!(u.bits, 0b011001);
}

#[test]
fn opposite_flips_sign() {
    assert_eq!(opposite(NEG_X), POS_X);
    assert_eq!(opposite(POS_X), NEG_X);
    assert_eq!(opposite(NEG_Y), POS_Y);
    assert_eq!(opposite(POS_Z), NEG_Z);
}

#[test]
fn outgoing_is_union_of_rows() {
    let n = GraphDirectionSet::none();
    let rows = [GraphDirectionSet::single(POS_X), n, GraphDirectionSet::single(NEG_Z), n, n, GraphDirectionSet::single(POS_Y)];
    let v = VisibilityData::from_rows(rows);
    let mut incoming = GraphDirectionSet::single(NEG_X);
    incoming.add(NEG_Y);
    let out = v.get_outgoing_directions(incoming);
    let mut expect = GraphDirectionSet::single(POS_X);
    expect.add(NEG_Z);
    assert_eq!(out, expect);
    assert!(VisibilityData::opaque().get_outgoing_directions(GraphDirectionSet::all()).is_empty());
    assert_eq!(VisibilityData::transparent().get_outgoing_directions(GraphDirectionSet::single(POS_Z)), GraphDirectionSet::all());
}

#[test]
fn pack_and_unpack() {
    let i = LocalNodeIndex::pack(c(1, 2, 3));
    // y and z bit 1, x and z bit 0: 0b11101
    assert_eq!(i.index, 29);
    // a level-3 node is one aligned run of 512 indices
    assert_eq!(LocalNodeIndex::pack(c(7, 7, 7)).index, 511);
    assert_eq!(LocalNodeIndex::pack(c(8, 0, 0)).index, 1 << 19);
    assert_eq!(LocalNodeIndex::pack(c(0, 0, 8)).index, 1 << 9);
    assert_eq!(LocalNodeIndex { index: 1 << 14 }.unpack(), c(0, 8, 0));
    assert_eq!(i.unpack(), c(1, 2, 3));
    assert_eq!(LocalNodeIndex::pack(c(255, 255, 255)).index, 16777215);
    assert_eq!(neighbor(c(5, 5, 5), POS_X), c(6, 5, 5));
    assert_eq!(neighbor(c(5, 5, 5), NEG_Y), c(5, 4, 5));
}

#[test]
fn region_indices() {
    let s = c(0b10101_011, 0b101010_01, 0b00011_110);
    assert_eq!(LocalRegionIndex::from_local_section(s).index, (0b10101 << 11) | (0b101010 << 5) | 0b00011);
    assert_eq!(RegionSectionIndex::from_local_section(s).index, (0b011 << 5) | (0b110 << 2) | 0b01);
}

#[test]
fn render_list_flags_and_clear() {
    let mut l = RegionRenderList::new();
    assert!(!l.is_initialized());
    assert!(l.is_empty());
    l.initialize(IVec3 { x: 1, y: 2, z: 3 });
    assert!(l.is_initialized());
    l.add_section(SectionFlagSet { bits: 0b101 }, c(1, 1, 1));
    assert_eq!(l.sections_with_geometry, vec![RegionSectionIndex { index: 32 + 4 + 1 }]);
    assert!(l.sections_with_sprites.is_empty());
    assert_eq!(l.sections_with_block_entities.len(), 1);
    assert!(!l.is_empty());
    l.clear();
    assert!(!l.is_initialized() && l.is_empty());
    assert!(SectionFlagSet::all().contains(1));
}

#[test]
fn staging_keeps_first_touch_order() {
    let ctx = LocalCoordContext::new(c(0, 0, 0), 4, c(0, 0, 0), c(255, 255, 255), IVec3 { x: 0, y: 0, z: 0 });
    let mut st = StagingRegionRenderLists::new();
    st.touch_region(&ctx, c(9, 0, 0)).add_section(SectionFlagSet::all(), c(9, 0, 0));
    st.touch_region(&ctx, c(0, 0, 0));
    st.touch_region(&ctx, c(10, 1, 1)).add_section(SectionFlagSet::all(), c(10, 1, 1));
    st.touch_region(&ctx, c(0, 5, 0)).add_section(SectionFlagSet::all(), c(0, 5, 0));
    let order: Vec<u16> = st.ordered_region_indices.iter().map(|r| r.index).collect();
    assert_eq!(order, vec![2048, 0, 32]);
    let mut out = Vec::new();
    st.compile_render_lists(&mut out);
    // the region at 0 holds no section and is skipped
    assert_eq!(out.len(), 2);
    assert_eq!(out[0].region_coords, IVec3 { x: 1, y: 0, z: 0 });
    assert_eq!(out[0].sections_with_geometry.len(), 2);
    assert_eq!(out[1].region_coords, IVec3 { x: 0, y: 1, z: 0 });
    st.clear();
    assert!(st.ordered_region_indices.is_empty());
}

#[test]
fn queue_is_first_in_first_out() {
    let mut q = BfsQueue::new();
    assert!(q.pop().is_none());
    q.push(LocalNodeIndex { index: 5 });
    q.push_conditionally(LocalNodeIndex { index: 6 }, false);
    q.push_conditionally(LocalNodeIndex { index: 7 }, true);
    assert_eq!(q.pop(), Some(LocalNodeIndex { index: 5 }));
    assert_eq!(q.pop(), Some(LocalNodeIndex { index: 7 }));
    assert!(q.is_empty());
    q.push(LocalNodeIndex { index: 8 });
    q.reset();
    assert!(q.pop().is_none());
}

#[test]
fn node_test_against_box() {
    let ctx = LocalCoordContext::new(c(20, 20, 20), 8, c(8, 8, 8), c(19, 19, 19), IVec3 { x: 0, y: 0, z: 0 });
    assert_eq!(ctx.test_node(3, c(8, 8, 8)), BoundsCheckResult::Inside);
    assert_eq!(ctx.test_node(3, c(16, 16, 16)), BoundsCheckResult::Partial);
    assert_eq!(ctx.test_node(3, c(24, 8, 8)), BoundsCheckResult::Outside);
    assert_eq!(ctx.test_node(0, c(19, 19, 19)), BoundsCheckResult::Inside);
    let v = ctx.get_valid_directions(c(12, 28, 28));
    assert!(v.contains(POS_X) && !v.contains(NEG_X));
    assert!(!v.contains(POS_Y) && v.contains(NEG_Y) && !v.contains(POS_Z) && v.contains(NEG_Z));
}

#[test]
fn octree_nodes_at_every_level() {
    let mut bits = LinearBitOctree::new();
    bits.set_node(2, c(4, 4, 4), true);
    assert!(bits.get(LocalNodeIndex::pack(c(7, 7, 7))));
    assert!(bits.get(LocalNodeIndex::pack(c(4, 4, 4))));
    assert!(!bits.get(LocalNodeIndex::pack(c(3, 3, 3))));
    assert!(!bits.get(LocalNodeIndex::pack(c(8, 4, 4))));
    assert!(bits.get_node(3, c(0, 0, 0)));
    assert!(!bits.get_node(3, c(8, 0, 0)));
    assert!(bits.get_node(1, c(6, 4, 6)));
    assert!(!bits.get_node(1, c(2, 2, 2)));
    assert!(bits.get_node(0, c(5, 6, 7)));
    bits.set_node(1, c(6, 6, 6), false);
    assert!(!bits.get_node(1, c(6, 6, 6)));
    assert!(bits.get_node(2, c(4, 4, 4)));
    bits.clear();
    assert!(!bits.get_node(3, c(0, 0, 0)));
}
