use std::collections::BTreeSet;
use voxel_flyer::chunk_store::ChunkStore;
use voxel_flyer::point::Point3;
use voxel_flyer::spawner::{ChunkOperation, CubeSpawner, LoadSignal, PlayerSample, SpawnerSettings};

fn p(x: i32, y: i32, z: i32) -> Point3 {
    Point3::new(x, y, z)
}

fn box_around(c: Point3, r: i32) -> BTreeSet<(i32, i32, i32)> {
    let mut s = BTreeSet::new();
    for x in c.x - r..c.x + r {
        for y in c.y - r..c.y + r {
            for z in c.z - r..c.z + r {
                s.insert((x, y, z));
            }
        }
    }
    s
}

fn loaded_set(s: &CubeSpawner<u32>) -> BTreeSet<(i32, i32, i32)> {
    s.loaded_positions().iter().map(|q| (q.x, q.y, q.z)).collect()
}

/// Serves every pending operation, building each requested chunk with no blocks.
fn build_empty(s: &mut CubeSpawner<u32>, pos: Point3, payload: u32) {
    let n = s.spawn_candidates(pos).len();
    let b = s.make_chunk(pos, &vec![false; n], payload);
    assert!(b.blocks.is_empty());
}

fn drain(s: &mut CubeSpawner<u32>, built: &mut u32, freed: &mut Vec<u32>) {
    loop {
        let work = s.try_operate();
        freed.extend(work.removed);
        match work.create {
            Some(pos) => {
                *built += 1;
                build_empty(s, pos, *built);
            }
            None => break,
        }
    }
}

#[test]
fn chunk_store_is_a_map() {
    let mut st: ChunkStore<&str> = ChunkStore::new();
    assert_eq!(st.insert(p(1, 0, 0), "a"), None);
    assert_eq!(st.insert(p(2, 0, 0), "b"), None);
    assert_eq!(st.insert(p(1, 0, 0), "c"), Some("a"));
    assert_eq!(st.get(p(1, 0, 0)), Some(&"c"));
    assert_eq!(st.len(), 2);
    assert_eq!(st.key_at(0), p(1, 0, 0));
    assert_eq!(st.remove(p(1, 0, 0)), Some("c"));
    assert_eq!(st.remove(p(1, 0, 0)), None);
    assert!(!st.contains_key(p(1, 0, 0)));
    assert!(st.contains_key(p(2, 0, 0)));
    assert_eq!(st.len(), 1);
}

#[test]
fn new_spawner_defaults() {
    let s: CubeSpawner<u32> = CubeSpawner::new();
    assert_eq!(s.settings(), SpawnerSettings { mesh_size: 1, no_spawn: 10, view_range: 5 });
    assert!(s.is_first_load());
    assert_eq!(s.last_chunk_seen(), p(0, 0, 0));
    assert!(s.pending_operations().is_empty());
    assert!(s.loaded_positions().is_empty());
}

#[test]
fn ready_forgets_the_last_chunk() {
    let mut s: CubeSpawner<u32> = CubeSpawner::new();
    s.ready();
    assert_eq!(s.last_chunk_seen(), p(i32::MAX, i32::MAX, i32::MAX));
}

#[test]
fn poll_without_change_does_nothing() {
    let mut s: CubeSpawner<u32> = CubeSpawner::new();
    assert_eq!(s.poll_chunk_changed(false, p(0, 0, 0)), None);
    // a dead player is seen at the origin chunk
    assert_eq!(s.poll_chunk_changed(true, p(7, 7, 7)), None);
    assert!(s.pending_operations().is_empty());
}

#[test]
fn poll_queues_the_view_in_loop_order() {
    let mut s: CubeSpawner<u32> = CubeSpawner::new();
    s.set_settings(SpawnerSettings { mesh_size: 1, no_spawn: 10, view_range: 1 });
    assert_eq!(s.poll_chunk_changed(false, p(5, 0, 0)), Some(p(5, 0, 0)));
    assert_eq!(s.last_chunk_seen(), p(5, 0, 0));
    let ops = s.pending_operations();
    let expected: Vec<ChunkOperation> = vec![
        p(4, -1, -1), p(4, -1, 0), p(4, 0, -1), p(4, 0, 0),
        p(5, -1, -1), p(5, -1, 0), p(5, 0, -1), p(5, 0, 0),
    ]
    .into_iter()
    .map(|q| ChunkOperation { create: true, position: q })
    .collect();
    assert_eq!(ops, expected);
}

#[test]
fn dead_player_recentres_on_origin() {
    let mut s: CubeSpawner<u32> = CubeSpawner::new();
    s.ready();
    s.set_settings(SpawnerSettings { mesh_size: 1, no_spawn: 10, view_range: 2 });
    assert_eq!(s.poll_chunk_changed(true, p(100, 100, 100)), Some(p(0, 0, 0)));
    assert_eq!(s.pending_operations().len(), 64);
}

#[test]
fn zero_view_range_requests_nothing() {
    let mut s: CubeSpawner<u32> = CubeSpawner::new();
    s.set_settings(SpawnerSettings { mesh_size: 1, no_spawn: 10, view_range: 0 });
    assert_eq!(s.poll_chunk_changed(false, p(1, 1, 1)), Some(p(1, 1, 1)));
    assert!(s.pending_operations().is_empty());
}

#[test]
fn try_operate_serves_the_top_of_the_stack() {
    let mut s: CubeSpawner<u32> = CubeSpawner::new();
    s.set_settings(SpawnerSettings { mesh_size: 1, no_spawn: 10, view_range: 1 });
    s.poll_chunk_changed(false, p(5, 0, 0));
    let w = s.try_operate();
    assert!(w.removed.is_empty());
    assert_eq!(w.create, Some(p(5, 0, 0)));
    assert_eq!(s.pending_operations().len(), 7);
    build_empty(&mut s, p(5, 0, 0), 1);
    assert!(s.is_loaded(p(5, 0, 0)));
}

#[test]
fn try_operate_skips_loaded_and_absent_chunks() {
    let mut s: CubeSpawner<u32> = CubeSpawner::new();
    s.set_settings(SpawnerSettings { mesh_size: 1, no_spawn: 10, view_range: 1 });
    build_empty(&mut s, p(5, 0, 0), 1);
    build_empty(&mut s, p(9, 9, 9), 2);
    s.poll_chunk_changed(false, p(5, 0, 0));
    // bottom: unload (9,9,9); top: loads of the view, the first of which is loaded
    let ops = s.pending_operations();
    assert_eq!(ops[0], ChunkOperation { create: false, position: p(9, 9, 9) });
    assert_eq!(ops.len(), 9);
    let w = s.try_operate();
    assert_eq!(w.create, Some(p(5, 0, -1)));
    assert_eq!(s.pending_operations().len(), 7);
}

#[test]
fn unloads_hand_back_payloads_and_continue() {
    let mut s: CubeSpawner<u32> = CubeSpawner::new();
    s.set_settings(SpawnerSettings { mesh_size: 1, no_spawn: 10, view_range: 0 });
    build_empty(&mut s, p(1, 0, 0), 10);
    build_empty(&mut s, p(2, 0, 0), 20);
    s.poll_chunk_changed(false, p(3, 3, 3));
    assert_eq!(s.pending_operations().len(), 2);
    let w = s.try_operate();
    // the stack is served from the top: the last queued unload first
    assert_eq!(w.removed, vec![20, 10]);
    assert_eq!(w.create, None);
    assert!(s.loaded_positions().is_empty());
    assert!(s.pending_operations().is_empty());
}

#[test]
fn empty_queue_does_nothing() {
    let mut s: CubeSpawner<u32> = CubeSpawner::new();
    let w = s.try_operate();
    assert!(w.removed.is_empty());
    assert_eq!(w.create, None);
}

#[test]
fn load_status_reports_progress_then_completes_once() {
    let mut s: CubeSpawner<u32> = CubeSpawner::new();
    s.set_settings(SpawnerSettings { mesh_size: 1, no_spawn: 10, view_range: 1 });
    s.poll_chunk_changed(false, p(1, 0, 0));
    assert_eq!(s.load_status(), LoadSignal::Progress(8));
    let mut built = 0;
    let mut freed = vec![];
    drain(&mut s, &mut built, &mut freed);
    assert_eq!(s.load_status(), LoadSignal::Complete);
    assert!(!s.is_first_load());
    assert_eq!(s.load_status(), LoadSignal::Silent);
    s.poll_chunk_changed(false, p(2, 0, 0));
    assert_eq!(s.load_status(), LoadSignal::Silent);
}

#[test]
fn view_converges_after_draining() {
    let mut s: CubeSpawner<u32> = CubeSpawner::new();
    s.ready();
    s.set_settings(SpawnerSettings { mesh_size: 1, no_spawn: 10, view_range: 2 });
    let mut built = 0;
    let mut freed = vec![];
    s.poll_chunk_changed(false, p(0, 0, 0));
    drain(&mut s, &mut built, &mut freed);
    assert_eq!(loaded_set(&s), box_around(p(0, 0, 0), 2));
    assert_eq!(built, 64);
    assert!(freed.is_empty());
    s.poll_chunk_changed(false, p(1, 0, 0));
    drain(&mut s, &mut built, &mut freed);
    assert_eq!(loaded_set(&s), box_around(p(1, 0, 0), 2));
    // one slab of 16 chunks left, one came in
    assert_eq!(built, 80);
    assert_eq!(freed.len(), 16);
}

#[test]
fn process_runs_one_frame() {
    let mut s: CubeSpawner<u32> = CubeSpawner::new();
    s.ready();
    s.set_settings(SpawnerSettings { mesh_size: 1, no_spawn: 10, view_range: 1 });
    let f = s.process(Some(PlayerSample { dead: false, chunk: p(0, 0, 0) }));
    assert_eq!(f.chunk_changed, Some(p(0, 0, 0)));
    assert_eq!(f.work.create, Some(p(0, 0, 0)));
    assert_eq!(f.load, LoadSignal::Progress(7));
    let f2 = s.process(None);
    assert_eq!(f2.chunk_changed, None);
    assert_eq!(f2.work.create, Some(p(0, 0, -1)));
}

#[test]
fn spawn_candidates_skip_the_safe_zone() {
    let s: CubeSpawner<u32> = CubeSpawner::new();
    let c = s.spawn_candidates(p(0, 0, 0));
    // 16^3 cells, of which the 11^3 with every coordinate <= 10 are kept free
    assert_eq!(c.len(), 4096 - 1331);
    assert_eq!(c[0], p(0, 0, 11));
    let far = s.spawn_candidates(p(1, 0, 0));
    assert_eq!(far.len(), 4096);
    assert_eq!(far[0], p(16, 0, 0));
    assert_eq!(far[4095], p(31, 15, 15));
}

#[test]
fn spawn_candidates_scale_with_block_size() {
    let mut s: CubeSpawner<u32> = CubeSpawner::new();
    s.set_settings(SpawnerSettings { mesh_size: 2, no_spawn: -1, view_range: 5 });
    let c = s.spawn_candidates(p(-1, 0, 0));
    assert_eq!(c.len(), 4096);
    assert_eq!(c[0], p(-32, 0, 0));
    assert_eq!(c[1], p(-32, 0, 2));
}

#[test]
fn make_chunk_keeps_the_chosen_candidates() {
    let mut s: CubeSpawner<u32> = CubeSpawner::new();
    let n = s.spawn_candidates(p(2, 0, 0)).len();
    assert_eq!(n, 4096);
    let mut keep = vec![false; n];
    keep[0] = true;
    keep[1] = true;
    keep[16] = true;
    let b = s.make_chunk(p(2, 0, 0), &keep, 5);
    assert_eq!(b.blocks, vec![p(32, 0, 0), p(32, 0, 1), p(32, 1, 0)]);
    // (32,0,0) touches both others: 3 * 6 - 2 * 2 = 14 faces
    assert_eq!(b.mesh.vertices.len(), 14 * 4);
    assert_eq!(b.mesh.indices.len(), 14 * 6);
    assert!(s.is_loaded(p(2, 0, 0)));
}

#[test]
fn make_chunk_never_places_blocks_in_the_safe_zone() {
    let mut s: CubeSpawner<u32> = CubeSpawner::new();
    let n = s.spawn_candidates(p(0, 0, 0)).len();
    let b = s.make_chunk(p(0, 0, 0), &vec![true; n], 1);
    assert_eq!(b.blocks.len(), 4096 - 1331);
    assert!(b
        .blocks
        .iter()
        .all(|w| w.x.abs() > 10 || w.y.abs() > 10 || w.z.abs() > 10));
    assert!(b.blocks.iter().all(|w| (0..16).contains(&w.x) && (0..16).contains(&w.y) && (0..16).contains(&w.z)));
}

#[test]
fn unchanged_centre_is_accepted_at_the_edge_of_the_world() {
    let mut s: CubeSpawner<u32> = CubeSpawner::new();
    s.ready();
    let edge = p(i32::MAX, i32::MAX, i32::MAX);
    assert_eq!(s.poll_chunk_changed(false, edge), None);
    let f = s.process(Some(PlayerSample { dead: false, chunk: edge }));
    assert_eq!(f.chunk_changed, None);
    assert_eq!(f.work.create, None);
    assert_eq!(f.load, LoadSignal::Complete);
}

#[test]
fn wider_safe_zone_offers_fewer_cells() {
    let mut s: CubeSpawner<u32> = CubeSpawner::new();
    let narrow = s.spawn_candidates(p(0, 0, 0));
    s.set_settings(SpawnerSettings { mesh_size: 1, no_spawn: 12, view_range: 5 });
    let wide = s.spawn_candidates(p(0, 0, 0));
    assert_eq!(wide.len(), 4096 - 13 * 13 * 13);
    assert!(wide.iter().all(|w| narrow.contains(w)));
}
