use vstd::prelude::*;

verus! {

/// Why a configuration was turned down.
#[derive(Clone, Copy, Debug, PartialEq, Eq, Structural)]
pub enum ConfigError {
    /// The chunk size was zero.
    ZeroChunkSize,
}

/// Settings of the fog of war, fixed once they are built.
///
/// Lengths are in world units, times in milliseconds. The chunk size is
/// positive in every value of this type.
#[derive(Clone, Copy, Debug)]
pub struct FogOfWarConfig {
    chunk_size: u32,
    view_range: u32,
    grace_period: u64,
    radius_safety_percent: u32,
    debug_draw: bool,
}

/// Side length of a chunk unless another is asked for.
pub const DEFAULT_CHUNK_SIZE: u32 = 256;

/// Chunks kept around the camera unless another range is asked for.
pub const DEFAULT_VIEW_RANGE: u32 = 3;

/// Time an explored chunk outlives its last sighting, in milliseconds.
pub const DEFAULT_GRACE_PERIOD: u64 = 60_000;

/// Search window around a provider, in hundredths of its range.
pub const DEFAULT_RADIUS_SAFETY_PERCENT: u32 = 150;

impl FogOfWarConfig {
    /// The chunk size is positive.
    #[verifier::type_invariant]
    pub closed spec fn wf(self) -> bool {
        self.chunk_size > 0
    }

    pub closed spec fn spec_chunk_size(&self) -> u32 {
        self.chunk_size
    }

    pub closed spec fn spec_view_range(&self) -> u32 {
        self.view_range
    }

    pub closed spec fn spec_grace_period(&self) -> u64 {
        self.grace_period
    }

    pub closed spec fn spec_radius_safety_percent(&self) -> u32 {
        self.radius_safety_percent
    }

    pub closed spec fn spec_debug_draw(&self) -> bool {
        self.debug_draw
    }

    /// A well-formed configuration has a positive chunk size.
    pub proof fn lemma_wf_chunk_size(self)
        ensures
            self.wf() <==> self.chunk_size() > 0,
    {
    }

    /// A configuration with the given chunk size and view range and the
    /// default grace period, safety factor and debug switch. A chunk size
    /// of zero is refused.
    pub fn new(chunk_size: u32, view_range: u32) -> (r: Result<FogOfWarConfig, ConfigError>)
        ensures
            chunk_size == 0 <==> r == Err::<FogOfWarConfig, ConfigError>(
                ConfigError::ZeroChunkSize,
            ),
            chunk_size > 0 <==> r is Ok,
            r matches Ok(c) ==> {
                &&& c.wf()
                &&& c.chunk_size() == chunk_size
                &&& c.view_range() == view_range
                &&& c.grace_period() == DEFAULT_GRACE_PERIOD
                &&& c.radius_safety_percent() == DEFAULT_RADIUS_SAFETY_PERCENT
                &&& c.debug_draw()
            },
    {
        if chunk_size == 0 {
            Err(ConfigError::ZeroChunkSize)
        } else {
            Ok(
                FogOfWarConfig {
                    chunk_size,
                    view_range,
                    grace_period: DEFAULT_GRACE_PERIOD,
                    radius_safety_percent: DEFAULT_RADIUS_SAFETY_PERCENT,
                    debug_draw: true,
                },
            )
        }
    }

    /// The same configuration with another grace period, in milliseconds.
    pub fn with_grace_period(self, grace_period: u64) -> (c: FogOfWarConfig)
        ensures
            c.wf(),
            c.chunk_size() == self.chunk_size(),
            c.view_range() == self.view_range(),
            c.grace_period() == grace_period,
            c.radius_safety_percent() == self.radius_safety_percent(),
            c.debug_draw() == self.debug_draw(),
    {
        proof {
            use_type_invariant(&self);
        }
        FogOfWarConfig { grace_period, ..self }
    }

    /// The same configuration with another safety factor, in hundredths.
    pub fn with_radius_safety_percent(self, radius_safety_percent: u32) -> (c: FogOfWarConfig)
        ensures
            c.wf(),
            c.chunk_size() == self.chunk_size(),
            c.view_range() == self.view_range(),
            c.grace_period() == self.grace_period(),
            c.radius_safety_percent() == radius_safety_percent,
            c.debug_draw() == self.debug_draw(),
    {
        proof {
            use_type_invariant(&self);
        }
        FogOfWarConfig { radius_safety_percent, ..self }
    }

    /// The same configuration with the debug switch set as given.
    pub fn with_debug_draw(self, debug_draw: bool) -> (c: FogOfWarConfig)
        ensures
            c.wf(),
            c.chunk_size() == self.chunk_size(),
            c.view_range() == self.view_range(),
            c.grace_period() == self.grace_period(),
            c.radius_safety_percent() == self.radius_safety_percent(),
            c.debug_draw() == debug_draw,
    {
        proof {
            use_type_invariant(&self);
        }
        FogOfWarConfig { debug_draw, ..self }
    }

    /// Side length of a chunk, in world units.
    #[verifier::when_used_as_spec(spec_chunk_size)]
    pub fn chunk_size(&self) -> (s: u32)
        ensures
            s == self.chunk_size(),
            s > 0,
            self.wf(),
    {
        proof {
            use_type_invariant(self);
        }
        self.chunk_size
    }

    /// Number of chunks around the camera that are always kept.
    #[verifier::when_used_as_spec(spec_view_range)]
    pub fn view_range(&self) -> (r: u32)
        ensures
            r == self.view_range(),
    {
        self.view_range
    }

    /// Time an explored chunk outlives its last sighting, in milliseconds.
    #[verifier::when_used_as_spec(spec_grace_period)]
    pub fn grace_period(&self) -> (g: u64)
        ensures
            g == self.grace_period(),
    {
        self.grace_period
    }

    /// Width of the search window around a provider, in hundredths of its
    /// range.
    #[verifier::when_used_as_spec(spec_radius_safety_percent)]
    pub fn radius_safety_percent(&self) -> (p: u32)
        ensures
            p == self.radius_safety_percent(),
    {
        self.radius_safety_percent
    }

    /// Whether debug drawing is asked for.
    #[verifier::when_used_as_spec(spec_debug_draw)]
    pub fn debug_draw(&self) -> (d: bool)
        ensures
            d == self.debug_draw(),
    {
        self.debug_draw
    }
}

impl Default for FogOfWarConfig {
    /// Chunks of 256 units, a view range of 3, one minute of grace, a safety
    /// factor of one and a half, debug drawing on.
    fn default() -> (c: FogOfWarConfig)
        ensures
            c.wf(),
            c.chunk_size() == DEFAULT_CHUNK_SIZE,
            c.view_range() == DEFAULT_VIEW_RANGE,
            c.grace_period() == DEFAULT_GRACE_PERIOD,
            c.radius_safety_percent() == DEFAULT_RADIUS_SAFETY_PERCENT,
            c.debug_draw(),
    {
        FogOfWarConfig {
            chunk_size: DEFAULT_CHUNK_SIZE,
            view_range: DEFAULT_VIEW_RANGE,
            grace_period: DEFAULT_GRACE_PERIOD,
            radius_safety_percent: DEFAULT_RADIUS_SAFETY_PERCENT,
            debug_draw: true,
        }
    }
}

/// Where the fog settings of one view start in the uniform buffer that all
/// views share, in bytes.
#[derive(Clone, Copy, Debug, PartialEq, Eq, Structural)]
pub struct ViewFogOfWarUniformOffset {
    pub offset: u32,
}

} // verus!
