use zing_fog2d::chunk::ChunkCoord;
use zing_fog2d::chunk::ChunkVisibility;
use zing_fog2d::chunk::FogChunk;
use zing_fog2d::chunk::FogChunkManager;

fn coord(x: i32, y: i32) -> ChunkCoord {
    ChunkCoord { x, y }
}

#[test]
fn new_registry_is_empty() {
    let manager = FogChunkManager::new();
    assert!(manager.active_chunks().is_empty());
    assert!(manager.visible_chunks().is_empty());
    assert!(manager.explored_chunks().is_empty());
    assert_eq!(manager.get(coord(0, 0)), None);
    assert!(!manager.is_visible(coord(0, 0)));
    assert!(!manager.is_explored(coord(0, 0)));
    let other = FogChunkManager::default();
    assert!(other.active_chunks().is_empty());
}

#[test]
fn upsert_then_get() {
    let mut manager = FogChunkManager::new();
    manager.upsert(coord(3, -4), ChunkVisibility::Explored, 77);
    assert_eq!(
        manager.get(coord(3, -4)),
        Some(FogChunk { visibility: ChunkVisibility::Explored, last_visible_time: 77 })
    );
    assert_eq!(manager.get(coord(-4, 3)), None);
    assert_eq!(manager.get(coord(3, 4)), None);
    manager.upsert(coord(3, -4), ChunkVisibility::Visible, 78);
    assert_eq!(
        manager.get(coord(3, -4)),
        Some(FogChunk { visibility: ChunkVisibility::Visible, last_visible_time: 78 })
    );
    assert_eq!(manager.active_chunks(), vec![coord(3, -4)]);
    assert!(!manager.is_visible(coord(3, -4)));
    assert!(!manager.is_explored(coord(3, -4)));
}

#[test]
fn remove_returns_what_was_there() {
    let mut manager = FogChunkManager::new();
    manager.upsert(coord(1, 2), ChunkVisibility::Unexplored, 5);
    manager.upsert(coord(2, 1), ChunkVisibility::Explored, 6);
    assert_eq!(manager.remove(coord(9, 9)), None);
    assert_eq!(
        manager.remove(coord(1, 2)),
        Some(FogChunk { visibility: ChunkVisibility::Unexplored, last_visible_time: 5 })
    );
    assert_eq!(manager.remove(coord(1, 2)), None);
    assert_eq!(manager.get(coord(1, 2)), None);
    assert_eq!(manager.active_chunks(), vec![coord(2, 1)]);
}

#[test]
fn chunks_that_differ_in_one_part_are_kept_apart() {
    let mut manager = FogChunkManager::new();
    let all = [
        coord(0, 0),
        coord(0, 1),
        coord(1, 0),
        coord(-1, 0),
        coord(0, -1),
        coord(i32::MAX, i32::MIN),
        coord(i32::MIN, i32::MAX),
    ];
    for (n, c) in all.iter().enumerate() {
        manager.upsert(*c, ChunkVisibility::Explored, n as u64);
    }
    assert_eq!(manager.active_chunks().len(), all.len());
    for (n, c) in all.iter().enumerate() {
        assert_eq!(manager.get(*c).map(|e| e.last_visible_time), Some(n as u64));
    }
}
