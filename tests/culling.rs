use sodium_culling::graph::{get_bfs_queue_max_size, Graph, BFS_QUEUE_SIZE, MAX_VIEW_DISTANCE, MAX_WORLD_HEIGHT};
use sodium_culling::local::{IVec3, LocalCoordContext, LocalNodeCoords, LocalNodeIndex, SECTIONS_IN_GRAPH};
use sodium_culling::region::RegionRenderList;
use sodium_culling::visibility::VisibilityData;

const ORIGIN: IVec3 = IVec3 { x: 100, y: -10, z: 7 };

fn c(x: u8, y: u8, z: u8) -> LocalNodeCoords {
    LocalNodeCoords { x, y, z }
}

fn full_bounds_context(camera: LocalNodeCoords, view_distance: u8) -> LocalCoordContext {
    LocalCoordContext::new(camera, view_distance, c(0, 0, 0), c(255, 255, 255), ORIGIN)
}

/// The window coordinates of every section in the output, region by region.
fn sections_of(out: &Vec<RegionRenderList>) -> Vec<Vec<LocalNodeCoords>> {
    let mut all = Vec::new();
    for list in out {
        let rx = (list.region_coords.x - ORIGIN.x) as u32;
        let ry = (list.region_coords.y - ORIGIN.y) as u32;
        let rz = (list.region_coords.z - ORIGIN.z) as u32;
        let mut region = Vec::new();
        for s in &list.sections_with_geometry {
            let e = s.index as u32;
            region.push(c(
                (rx * 8 + e / 32) as u8,
                (ry * 4 + e % 4) as u8,
                (rz * 8 + (e / 4) % 8) as u8,
            ));
        }
        all.push(region);
    }
    all
}

fn flat(out: &Vec<RegionRenderList>) -> Vec<LocalNodeCoords> {
    sections_of(out).into_iter().flatten().collect()
}

fn world(l: LocalNodeCoords) -> IVec3 {
    IVec3 { x: l.x as i32, y: l.y as i32 - 128, z: l.z as i32 }
}

fn assert_clean(graph: &Graph) {
    for i in 0..SECTIONS_IN_GRAPH {
        assert_eq!(graph.bfs_cached_state.incoming_directions[i].bits, 0);
    }
    for i in (0..SECTIONS_IN_GRAPH).step_by(4099) {
        assert!(!graph.frustum_fog_cached_state.section_is_visible_bits.get(LocalNodeIndex { index: i as u32 }));
    }
    assert!(graph.bfs_cached_state.queue_1.is_empty());
    assert!(graph.bfs_cached_state.queue_2.is_empty());
    assert!(graph.bfs_cached_state.staging_render_lists.ordered_region_indices.is_empty());
    for list in &graph.bfs_cached_state.staging_render_lists.region_render_lists {
        assert!(!list.is_initialized());
        assert!(list.is_empty());
    }
}

#[test]
fn queue_size_for_largest_view() {
    assert_eq!(get_bfs_queue_max_size(MAX_VIEW_DISTANCE, MAX_WORLD_HEIGHT) as usize, BFS_QUEUE_SIZE);
    assert_eq!(BFS_QUEUE_SIZE, 64516);
}

#[test]
fn queue_size_small_views() {
    // one layer: the six neighbours of the camera section
    assert_eq!(get_bfs_queue_max_size(1, 254), 6);
    // 2 + 4 * (w - 1) * w + 4 * w with w = 3
    assert_eq!(get_bfs_queue_max_size(3, 254), 2 + 24 + 12);
    // height caps the walk: h = 4 gives max height 1, layer 2
    assert_eq!(get_bfs_queue_max_size(3, 4), 4 * 1 * 4 + 12);
}

#[test]
fn empty_world_emits_only_camera_section() {
    let mut graph = Graph::new_boxed();
    let camera = c(0, 128, 0);
    let ctx = full_bounds_context(camera, 1);
    let out = graph.cull_and_sort(&ctx, true);
    assert_eq!(out.len(), 1);
    assert_eq!(out[0].region_coords, IVec3 { x: ORIGIN.x, y: ORIGIN.y + 32, z: ORIGIN.z });
    assert_eq!(sections_of(out), vec![vec![camera]]);
    assert_eq!(out[0].sections_with_sprites.len(), 1);
    assert_eq!(out[0].sections_with_block_entities.len(), 1);
}

#[test]
fn opaque_wall_on_positive_x_stops_the_walk() {
    let mut graph = Graph::new_boxed();
    let camera = c(20, 130, 20);
    let vd: u8 = 3;
    for x in 17u8..=23 {
        for y in 127u8..=133 {
            for z in 17u8..=23 {
                if x != 21 {
                    graph.set_section(world(c(x, y, z)), VisibilityData::transparent());
                }
            }
        }
    }
    let ctx = full_bounds_context(camera, vd);
    let out = flat(graph.cull_and_sort(&ctx, true));
    assert!(out.contains(&camera));
    assert!(out.iter().all(|s| s.x <= 21));
    assert!(out.contains(&c(19, 130, 20)));
}

#[test]
fn transparent_view_without_occlusion_covers_window() {
    let mut graph = Graph::new_boxed();
    let camera = c(50, 100, 60);
    let ctx = full_bounds_context(camera, 4);
    let out = graph.cull_and_sort(&ctx, false);
    let regions = sections_of(out);
    assert!(regions[0].contains(&camera));
    let mut all = flat(out);
    assert_eq!(all.len(), 9 * 9 * 9);
    all.sort_by_key(|s| (s.x, s.y, s.z));
    all.dedup();
    assert_eq!(all.len(), 9 * 9 * 9);
    assert!(all.iter().all(|s| s.x.abs_diff(50) <= 4 && s.y.abs_diff(100) <= 4 && s.z.abs_diff(60) <= 4));
}

#[test]
fn bounds_box_limits_output() {
    let mut graph = Graph::new_boxed();
    let camera = c(50, 100, 60);
    let ctx = LocalCoordContext::new(camera, 4, c(48, 96, 56), c(52, 103, 63), ORIGIN);
    let out = flat(graph.cull_and_sort(&ctx, false));
    assert!(out.iter().all(|s| (48..=52).contains(&s.x) && (96..=103).contains(&s.y) && (56..=63).contains(&s.z)));
    // the box clipped to the window: x 48..52, y 96..103 ∩ 96..104, z 56..63 ∩ 56..64
    assert_eq!(out.len(), 5 * 8 * 8);
}

#[test]
fn parallel_corridors_only_camera_corridor() {
    let mut graph = Graph::new_boxed();
    let camera = c(40, 128, 40);
    for x in 30u8..=50 {
        graph.set_section(world(c(x, 128, 40)), VisibilityData::transparent());
        graph.set_section(world(c(x, 128, 42)), VisibilityData::transparent());
    }
    let ctx = full_bounds_context(camera, 10);
    let out = flat(graph.cull_and_sort(&ctx, true));
    for x in 30u8..=50 {
        assert!(out.contains(&c(x, 128, 40)));
    }
    assert!(out.iter().all(|s| s.z != 42));
}

#[test]
fn camera_at_window_edge_does_not_wrap() {
    let mut graph = Graph::new_boxed();
    let camera = c(255, 128, 0);
    let ctx = full_bounds_context(camera, 2);
    let out = flat(graph.cull_and_sort(&ctx, false));
    assert!(out.iter().all(|s| s.x >= 253 && s.z <= 2));
    assert_eq!(out.len(), 3 * 5 * 3);
}

#[test]
fn back_to_back_calls_are_identical_and_clean() {
    let mut graph = Graph::new_boxed();
    let camera = c(30, 120, 30);
    for x in 26u8..=34 {
        for z in 26u8..=34 {
            graph.set_section(world(c(x, 120, z)), VisibilityData::transparent());
        }
    }
    let ctx = full_bounds_context(camera, 4);
    let first: Vec<RegionRenderList> = graph.cull_and_sort(&ctx, true).iter().map(|l| l.snapshot()).collect();
    assert_clean(&graph);
    let second: Vec<RegionRenderList> = graph.cull_and_sort(&ctx, true).iter().map(|l| l.snapshot()).collect();
    assert_clean(&graph);
    assert_eq!(format!("{:?}", first), format!("{:?}", second));
    assert!(!first.is_empty());
}

#[test]
fn removed_section_blocks_again() {
    let mut graph = Graph::new_boxed();
    let camera = c(10, 128, 10);
    graph.set_section(world(camera), VisibilityData::transparent());
    graph.set_section(world(c(11, 128, 10)), VisibilityData::transparent());
    let ctx = full_bounds_context(camera, 3);
    let out = flat(graph.cull_and_sort(&ctx, true));
    assert!(out.contains(&c(12, 128, 10)));
    graph.remove_section(world(c(11, 128, 10)));
    let out = flat(graph.cull_and_sort(&ctx, true));
    assert!(out.contains(&c(11, 128, 10)));
    assert!(!out.contains(&c(12, 128, 10)));
}

#[test]
fn regions_appear_once_in_first_touch_order() {
    let mut graph = Graph::new_boxed();
    let camera = c(7, 131, 7);
    let ctx = full_bounds_context(camera, 3);
    let out = graph.cull_and_sort(&ctx, false);
    let mut coords: Vec<(i32, i32, i32)> = out.iter().map(|l| (l.region_coords.x, l.region_coords.y, l.region_coords.z)).collect();
    assert_eq!(coords[0], (ORIGIN.x, ORIGIN.y + 32, ORIGIN.z));
    let n = coords.len();
    coords.sort();
    coords.dedup();
    assert_eq!(coords.len(), n);
    // the window 4..10 x 128..134 x 4..10 meets regions x 0..1, y 32..33, z 0..1
    assert_eq!(n, 8);
}

#[test]
fn empty_visible_volume_gives_empty_output() {
    let mut graph = Graph::new_boxed();
    let camera = c(40, 128, 40);
    let ctx = LocalCoordContext::new(camera, 3, c(10, 10, 10), c(9, 200, 200), ORIGIN);
    let out = graph.cull_and_sort(&ctx, false);
    assert!(out.is_empty());
    assert_clean(&graph);
}
