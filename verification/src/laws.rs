use vstd::prelude::*;
use crate::chunk::ChunkCoord;
use crate::chunk::ChunkVisibility;
use crate::chunk::FogChunk;
use crate::chunk::FogState;
use crate::chunk::WorldPos;
use crate::chunk::load_range;
use crate::fog::FogOfWarConfig;

verus! {

/// The steps a loaded chunk may take in one pass: none, into sight from
/// unexplored or explored, or out of sight to explored.
pub open spec fn allowed_step(before: ChunkVisibility, after: ChunkVisibility) -> bool {
    ||| before == after
    ||| before == ChunkVisibility::Unexplored && after == ChunkVisibility::Visible
    ||| before == ChunkVisibility::Explored && after == ChunkVisibility::Visible
    ||| before == ChunkVisibility::Visible && after == ChunkVisibility::Explored
}

/// The registry after one tick: a visibility pass at `now`, then a
/// lifecycle pass at the same time.
pub open spec fn after_tick(
    state: FogState,
    seen: Set<ChunkCoord>,
    camera: Option<WorldPos>,
    config: FogOfWarConfig,
    now: u64,
) -> FogState {
    state.after_visibility(seen, now).after_eviction(camera, config, now)
}

/// A chunk's state after a pass is visible exactly if the pass found the
/// chunk in sight, whatever it was before; the step it took is an allowed
/// one, and its time stamp changed only if it went out of sight.
pub proof fn law_observe_steps(chunk: FogChunk, seen: bool, now: u64)
    ensures
        allowed_step(chunk.visibility, chunk.spec_observe(seen, now).visibility),
        seen ==> chunk.spec_observe(seen, now).visibility == ChunkVisibility::Visible,
        !seen ==> chunk.spec_observe(seen, now).visibility != ChunkVisibility::Visible,
        chunk.visibility != ChunkVisibility::Unexplored ==> chunk.spec_observe(
            seen,
            now,
        ).visibility != ChunkVisibility::Unexplored,
        chunk.spec_observe(seen, now).last_visible_time != chunk.last_visible_time ==> {
            &&& chunk.visibility == ChunkVisibility::Visible
            &&& chunk.spec_observe(seen, now).visibility == ChunkVisibility::Explored
            &&& chunk.spec_observe(seen, now).last_visible_time == now
        },
{
}

/// After a visibility pass the registry is settled: every visible chunk is
/// explored and loaded, and the loaded chunks marked visible are the
/// visible ones. This holds whatever the registry held before.
pub proof fn law_visibility_settles(state: FogState, seen: Set<ChunkCoord>, now: u64)
    ensures
        state.after_visibility(seen, now).settled(),
        state.after_visibility(seen, now).visible.subset_of(
            state.after_visibility(seen, now).explored,
        ),
        state.after_visibility(seen, now).explored.subset_of(
            state.after_visibility(seen, now).active.dom(),
        ),
{
}

/// A lifecycle pass keeps a settled registry settled.
pub proof fn law_eviction_keeps_settled(
    state: FogState,
    camera: Option<WorldPos>,
    config: FogOfWarConfig,
    now: u64,
)
    requires
        state.settled(),
    ensures
        state.after_eviction(camera, config, now).settled(),
{
    let after = state.after_eviction(camera, config, now);
    assert forall|c: ChunkCoord| after.visible.contains(c) implies #[trigger] after.active.dom().contains(
        c,
    ) by {
        assert(state.active.dom().contains(c));
        assert(state.active.contains_key(c));
    }
}

/// At the end of every tick each visible chunk is an explored one.
pub proof fn law_visible_within_explored(
    state: FogState,
    seen: Set<ChunkCoord>,
    camera: Option<WorldPos>,
    config: FogOfWarConfig,
    now: u64,
)
    ensures
        after_tick(state, seen, camera, config, now).visible.subset_of(
            after_tick(state, seen, camera, config, now).explored,
        ),
        after_tick(state, seen, camera, config, now).settled(),
{
    law_visibility_settles(state, seen, now);
    law_eviction_keeps_settled(state.after_visibility(seen, now), camera, config, now);
}

/// No loaded chunk that was explored or visible is unexplored after a
/// tick: a chunk that is still loaded took an allowed step, and its time
/// stamp changed only if it went out of sight, to the time of the tick.
pub proof fn law_no_return_to_unexplored(
    state: FogState,
    seen: Set<ChunkCoord>,
    camera: Option<WorldPos>,
    config: FogOfWarConfig,
    now: u64,
    coord: ChunkCoord,
)
    requires
        state.active.contains_key(coord),
        after_tick(state, seen, camera, config, now).active.contains_key(coord),
    ensures
        allowed_step(
            state.active[coord].visibility,
            after_tick(state, seen, camera, config, now).active[coord].visibility,
        ),
        state.active[coord].visibility != ChunkVisibility::Unexplored ==> after_tick(
            state,
            seen,
            camera,
            config,
            now,
        ).active[coord].visibility != ChunkVisibility::Unexplored,
        after_tick(state, seen, camera, config, now).active[coord].last_visible_time
            != state.active[coord].last_visible_time ==> {
            &&& state.active[coord].visibility == ChunkVisibility::Visible
            &&& after_tick(state, seen, camera, config, now).active[coord].visibility
                == ChunkVisibility::Explored
            &&& after_tick(state, seen, camera, config, now).active[coord].last_visible_time
                == now
        },
{
    law_observe_steps(state.active[coord], seen.contains(coord), now);
    let mid = state.after_visibility(seen, now);
    assert(mid.active.contains_key(coord));
    assert(mid.active[coord] == state.active[coord].spec_observe(seen.contains(coord), now));
}

/// The explored set only grows: neither pass takes a chunk out of it.
pub proof fn law_explored_grows(
    state: FogState,
    seen: Set<ChunkCoord>,
    camera: Option<WorldPos>,
    config: FogOfWarConfig,
    now: u64,
)
    ensures
        state.explored.subset_of(state.after_visibility(seen, now).explored),
        seen.subset_of(state.after_visibility(seen, now).explored),
        state.after_eviction(camera, config, now).explored == state.explored,
        state.explored.subset_of(after_tick(state, seen, camera, config, now).explored),
{
}

/// A second visibility pass over the same chunks in sight changes nothing,
/// at whatever time it runs: the visible set is the same and no chunk
/// changes state or time stamp.
pub proof fn law_visibility_idempotent(
    state: FogState,
    seen: Set<ChunkCoord>,
    now: u64,
    again: u64,
)
    ensures
        state.after_visibility(seen, now).after_visibility(seen, again) == state.after_visibility(
            seen,
            now,
        ),
{
    let once = state.after_visibility(seen, now);
    let twice = once.after_visibility(seen, again);
    assert(twice.visible =~= once.visible);
    assert(twice.explored =~= once.explored);
    assert(twice.active =~= once.active);
}

/// A visible chunk is never unloaded, however far from the camera it lies
/// and however long ago it was stamped.
pub proof fn law_visible_never_evicted(
    state: FogState,
    camera: Option<WorldPos>,
    config: FogOfWarConfig,
    now: u64,
    coord: ChunkCoord,
)
    requires
        state.active.contains_key(coord),
        state.active[coord].visibility == ChunkVisibility::Visible,
    ensures
        state.after_eviction(camera, config, now).active.contains_key(coord),
        state.after_eviction(camera, config, now).active[coord] == state.active[coord],
{
}

/// A lifecycle pass changes no chunk that it keeps, keeps every chunk
/// within the load range of the camera's chunk, and loads none.
pub proof fn law_eviction_only_unloads(
    state: FogState,
    camera: WorldPos,
    config: FogOfWarConfig,
    now: u64,
    coord: ChunkCoord,
)
    ensures
        state.after_eviction(Some(camera), config, now).active.contains_key(coord)
            ==> state.active.contains_key(coord) && state.after_eviction(
            Some(camera),
            config,
            now,
        ).active[coord] == state.active[coord],
        state.active.contains_key(coord) && !coord.spec_beyond(
            ChunkCoord::spec_of(camera, config.chunk_size()),
            load_range(config.view_range()),
        ) ==> state.after_eviction(Some(camera), config, now).active.contains_key(coord),
{
}

} // verus!
