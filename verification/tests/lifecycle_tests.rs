use zing_fog2d::chunk::manage_chunks;
use zing_fog2d::chunk::update_chunk_visibility;
use zing_fog2d::chunk::ChunkCoord;
use zing_fog2d::chunk::ChunkVisibility;
use zing_fog2d::chunk::FogChunk;
use zing_fog2d::chunk::FogChunkManager;
use zing_fog2d::chunk::VisionProvider;
use zing_fog2d::chunk::WorldPos;
use zing_fog2d::fog::FogOfWarConfig;

fn coord(x: i32, y: i32) -> ChunkCoord {
    ChunkCoord { x, y }
}

fn pos(x: i32, y: i32) -> WorldPos {
    WorldPos { x, y }
}

fn sorted(mut list: Vec<ChunkCoord>) -> Vec<(i32, i32)> {
    let mut pairs: Vec<(i32, i32)> = list.drain(..).map(|c| (c.x, c.y)).collect();
    pairs.sort();
    pairs
}

fn config_100() -> FogOfWarConfig {
    FogOfWarConfig::new(100, 3).unwrap()
}

#[test]
fn eviction_timing() {
    // A chunk far from the camera goes out of sight at t0.
    let config = config_100();
    let far = coord(50, 50);
    let t0: u64 = 10_000;
    let mut manager = FogChunkManager::new();
    manager.upsert(far, ChunkVisibility::Visible, 0);
    update_chunk_visibility(&mut manager, &[], &config, t0);
    assert_eq!(
        manager.get(far),
        Some(FogChunk { visibility: ChunkVisibility::Explored, last_visible_time: t0 })
    );
    let camera = Some(pos(0, 0));
    manage_chunks(&mut manager, camera, &config, t0 + 59_000);
    assert!(manager.get(far).is_some());
    manage_chunks(&mut manager, camera, &config, t0 + 60_000);
    assert!(manager.get(far).is_some());
    manage_chunks(&mut manager, camera, &config, t0 + 61_000);
    assert_eq!(manager.get(far), None);
    assert!(manager.active_chunks().is_empty());
}

#[test]
fn evicted_chunk_stays_explored() {
    let config = config_100();
    let mut manager = FogChunkManager::new();
    let away = [VisionProvider { position: pos(5_050, 5_050), range: 10 }];
    update_chunk_visibility(&mut manager, &away, &config, 1_000);
    assert!(manager.is_visible(coord(50, 50)));
    let t0: u64 = 2_000;
    update_chunk_visibility(&mut manager, &[], &config, t0);
    manage_chunks(&mut manager, Some(pos(0, 0)), &config, t0 + 59_000);
    assert!(manager.get(coord(50, 50)).is_some());
    manage_chunks(&mut manager, Some(pos(0, 0)), &config, t0 + 61_000);
    assert_eq!(manager.get(coord(50, 50)), None);
    assert!(manager.is_explored(coord(50, 50)));
    assert_eq!(sorted(manager.explored_chunks()), vec![(50, 50)]);
    assert!(manager.visible_chunks().is_empty());
}

#[test]
fn visible_chunk_is_never_evicted() {
    let config = config_100().with_grace_period(0);
    let mut manager = FogChunkManager::new();
    let away = [VisionProvider { position: pos(1_000_050, -1_000_050), range: 10 }];
    update_chunk_visibility(&mut manager, &away, &config, 0);
    let seen = coord(10_000, -10_001);
    assert!(manager.is_visible(seen));
    for now in [0u64, 1, 60_001, 1_000_000_000_000, u64::MAX] {
        manage_chunks(&mut manager, Some(pos(0, 0)), &config, now);
        manage_chunks(&mut manager, Some(pos(i32::MIN, i32::MAX)), &config, now);
        assert_eq!(
            manager.get(seen),
            Some(FogChunk { visibility: ChunkVisibility::Visible, last_visible_time: 0 })
        );
        assert!(manager.is_visible(seen));
    }
}

#[test]
fn unexplored_chunk_beyond_the_load_range_is_evicted_at_once() {
    let config = config_100();
    let mut manager = FogChunkManager::new();
    manager.upsert(coord(50, 0), ChunkVisibility::Unexplored, 1_000);
    manager.upsert(coord(1, 0), ChunkVisibility::Unexplored, 1_000);
    manage_chunks(&mut manager, Some(pos(0, 0)), &config, 1_000);
    assert_eq!(manager.get(coord(50, 0)), None);
    assert!(manager.get(coord(1, 0)).is_some());
}

#[test]
fn no_camera_no_eviction() {
    let config = config_100();
    let mut manager = FogChunkManager::new();
    manager.upsert(coord(50, 0), ChunkVisibility::Unexplored, 0);
    manager.upsert(coord(0, 70), ChunkVisibility::Explored, 0);
    manage_chunks(&mut manager, None, &config, u64::MAX);
    assert_eq!(sorted(manager.active_chunks()), vec![(0, 70), (50, 0)]);
}

#[test]
fn empty_registry_stays_empty() {
    let config = config_100();
    let mut manager = FogChunkManager::new();
    manage_chunks(&mut manager, Some(pos(0, 0)), &config, 100_000);
    assert!(manager.active_chunks().is_empty());
    assert!(manager.visible_chunks().is_empty());
    assert!(manager.explored_chunks().is_empty());
}

#[test]
fn load_range_is_view_range_plus_two_and_round() {
    // View range 3: chunks up to 5 away are kept, by the straight line.
    let config = config_100();
    let mut manager = FogChunkManager::new();
    let placed = [
        coord(5, 0),
        coord(0, -5),
        coord(3, 4),
        coord(-4, 3),
        coord(6, 0),
        coord(0, 6),
        coord(4, 4),
        coord(5, 1),
        coord(-5, -5),
    ];
    for c in placed {
        manager.upsert(c, ChunkVisibility::Unexplored, 0);
    }
    manage_chunks(&mut manager, Some(pos(50, 50)), &config, 0);
    assert_eq!(sorted(manager.active_chunks()), vec![(-4, 3), (0, -5), (3, 4), (5, 0)]);
}

#[test]
fn load_range_follows_the_camera_chunk() {
    let config = FogOfWarConfig::new(100, 0).unwrap();
    let mut manager = FogChunkManager::new();
    for x in -6..=6 {
        manager.upsert(coord(x, -1), ChunkVisibility::Unexplored, 0);
    }
    // The camera stands in chunk (-3, -1); the load range is 2.
    manage_chunks(&mut manager, Some(pos(-201, -1)), &config, 0);
    assert_eq!(
        sorted(manager.active_chunks()),
        vec![(-5, -1), (-4, -1), (-3, -1), (-2, -1), (-1, -1)]
    );
}

#[test]
fn explored_chunk_within_the_load_range_outlives_the_grace_period() {
    let config = config_100();
    let mut manager = FogChunkManager::new();
    manager.upsert(coord(5, 0), ChunkVisibility::Explored, 0);
    manager.upsert(coord(6, 0), ChunkVisibility::Explored, 0);
    manage_chunks(&mut manager, Some(pos(0, 0)), &config, 1_000_000);
    assert_eq!(sorted(manager.active_chunks()), vec![(5, 0)]);
}

#[test]
fn grace_period_is_strict_and_configurable() {
    let config = config_100().with_grace_period(500);
    let mut manager = FogChunkManager::new();
    manager.upsert(coord(9, 9), ChunkVisibility::Explored, 1_000);
    manage_chunks(&mut manager, Some(pos(0, 0)), &config, 1_500);
    assert!(manager.get(coord(9, 9)).is_some());
    manage_chunks(&mut manager, Some(pos(0, 0)), &config, 1_501);
    assert_eq!(manager.get(coord(9, 9)), None);
}

#[test]
fn clock_behind_the_time_stamp_evicts_nothing() {
    let config = config_100().with_grace_period(0);
    let mut manager = FogChunkManager::new();
    manager.upsert(coord(9, 9), ChunkVisibility::Explored, 1_000);
    manage_chunks(&mut manager, Some(pos(0, 0)), &config, 999);
    assert!(manager.get(coord(9, 9)).is_some());
    manage_chunks(&mut manager, Some(pos(0, 0)), &config, 1_000);
    assert!(manager.get(coord(9, 9)).is_some());
    manage_chunks(&mut manager, Some(pos(0, 0)), &config, 1_001);
    assert_eq!(manager.get(coord(9, 9)), None);
}

#[test]
fn reloaded_chunk_with_time_zero_is_evicted_after_the_grace_period_from_zero() {
    let config = config_100();
    let mut manager = FogChunkManager::new();
    let away = [VisionProvider { position: pos(5_050, 5_050), range: 10 }];
    update_chunk_visibility(&mut manager, &away, &config, 0);
    update_chunk_visibility(&mut manager, &[], &config, 1_000);
    manage_chunks(&mut manager, Some(pos(0, 0)), &config, 62_000);
    assert_eq!(manager.get(coord(50, 50)), None);
    update_chunk_visibility(&mut manager, &[], &config, 62_016);
    assert_eq!(
        manager.get(coord(50, 50)),
        Some(FogChunk { visibility: ChunkVisibility::Explored, last_visible_time: 0 })
    );
    manage_chunks(&mut manager, Some(pos(0, 0)), &config, 62_016);
    assert_eq!(manager.get(coord(50, 50)), None);
}

#[test]
fn widest_view_range_is_still_round() {
    // The load range is 2^32 + 1 chunks: every chunk on the camera's row or
    // column is within it, the opposite corner of the grid is not.
    let config = FogOfWarConfig::new(1, u32::MAX).unwrap();
    let mut manager = FogChunkManager::new();
    manager.upsert(coord(i32::MAX, i32::MAX), ChunkVisibility::Unexplored, 0);
    manager.upsert(coord(i32::MIN, i32::MAX), ChunkVisibility::Unexplored, 0);
    manager.upsert(coord(i32::MAX, i32::MIN), ChunkVisibility::Unexplored, 0);
    manage_chunks(&mut manager, Some(pos(i32::MIN, i32::MIN)), &config, 0);
    assert_eq!(
        sorted(manager.active_chunks()),
        vec![(i32::MIN, i32::MAX), (i32::MAX, i32::MIN)]
    );
}

#[test]
fn farthest_chunks_are_beyond_a_small_load_range() {
    let config = FogOfWarConfig::new(1, 0).unwrap();
    let mut manager = FogChunkManager::new();
    manager.upsert(coord(i32::MAX, i32::MAX), ChunkVisibility::Unexplored, 0);
    manager.upsert(coord(i32::MIN + 2, i32::MIN), ChunkVisibility::Unexplored, 0);
    manage_chunks(&mut manager, Some(pos(i32::MIN, i32::MIN)), &config, 0);
    assert_eq!(sorted(manager.active_chunks()), vec![(i32::MIN + 2, i32::MIN)]);
}

#[test]
fn beyond_compares_squares() {
    let origin = coord(0, 0);
    assert!(!coord(3, 4).beyond(origin, 5));
    assert!(coord(3, 4).beyond(origin, 4));
    assert!(coord(-4, -4).beyond(origin, 5));
    assert!(!coord(0, 0).beyond(origin, 0));
    assert!(coord(0, 1).beyond(origin, 0));
    assert!(!coord(i32::MIN, i32::MIN).beyond(coord(i32::MAX, i32::MAX), u64::MAX));
    assert!(coord(i32::MIN, i32::MIN).beyond(coord(i32::MAX, i32::MAX), 0xffff_ffff));
    assert!(!coord(i32::MIN, 7).beyond(coord(i32::MAX, 7), 0xffff_ffff));
}

#[test]
fn droppable_by_state() {
    let at = |visibility, last_visible_time| FogChunk { visibility, last_visible_time };
    assert!(at(ChunkVisibility::Unexplored, 0).droppable(0, 60_000));
    assert!(!at(ChunkVisibility::Visible, 0).droppable(u64::MAX, 0));
    assert!(!at(ChunkVisibility::Explored, 100).droppable(60_100, 60_000));
    assert!(at(ChunkVisibility::Explored, 100).droppable(60_101, 60_000));
    assert!(!at(ChunkVisibility::Explored, 100).droppable(50, 0));
    assert!(!at(ChunkVisibility::Explored, 0).droppable(u64::MAX, u64::MAX));
    assert!(at(ChunkVisibility::Explored, 0).droppable(u64::MAX, u64::MAX - 1));
}

#[test]
fn ticks_keep_visible_chunks_explored_and_loaded() {
    let config = config_100().with_grace_period(30);
    let mut manager = FogChunkManager::new();
    let mut explored_before: Vec<ChunkCoord> = Vec::new();
    for tick in 0u64..40 {
        let x = (tick as i32) * 90 - 800;
        let providers = if tick % 7 == 6 {
            vec![]
        } else {
            vec![
                VisionProvider { position: pos(x, 30), range: 160 },
                VisionProvider { position: pos(-x, -2 * x), range: 75 },
            ]
        };
        let now = tick * 16;
        update_chunk_visibility(&mut manager, &providers, &config, now);
        manage_chunks(&mut manager, Some(pos(x / 2, 0)), &config, now);
        for c in manager.visible_chunks() {
            assert!(manager.is_explored(c));
            assert_eq!(manager.get(c).map(|e| e.visibility), Some(ChunkVisibility::Visible));
        }
        for c in manager.active_chunks() {
            let entry = manager.get(c).unwrap();
            assert_ne!(entry.visibility, ChunkVisibility::Unexplored);
            assert_eq!(entry.visibility == ChunkVisibility::Visible, manager.is_visible(c));
        }
        for c in &explored_before {
            assert!(manager.is_explored(*c));
        }
        explored_before = manager.explored_chunks();
    }
    assert!(explored_before.len() > 20);
}
