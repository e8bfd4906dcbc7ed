//! Value types for generations and the compaction configuration.
use vstd::prelude::*;

verus! {

/// Nanoseconds in one second.
pub const NANOS_PER_SEC: i64 = 1_000_000_000;

/// Identifier of a generation; unique within one registry.
#[derive(Clone, Copy, Debug, PartialEq, Eq, Hash, Structural)]
pub struct GenerationId(pub u64);

impl GenerationId {
    pub fn as_u64(&self) -> (r: u64)
        ensures
            r == self.0,
    {
        self.0
    }
}

impl From<u64> for GenerationId {
    fn from(id: u64) -> (r: GenerationId)
        ensures
            r.0 == id,
    {
        GenerationId(id)
    }
}

impl vstd::std_specs::convert::FromSpecImpl<u64> for GenerationId {
    open spec fn obeys_from_spec() -> bool {
        true
    }

    open spec fn from_spec(id: u64) -> GenerationId {
        GenerationId(id)
    }
}

/// The tier of a generation: 1 for raw files, 2 and up for compacted tiers.
#[derive(Clone, Copy, Debug, PartialEq, Eq, Hash, Structural)]
pub struct GenerationLevel(pub u8);

impl GenerationLevel {
    pub fn new(level: u8) -> (r: GenerationLevel)
        ensures
            r.0 == level,
    {
        GenerationLevel(level)
    }

    pub fn one() -> (r: GenerationLevel)
        ensures
            r.0 == 1,
    {
        GenerationLevel(1)
    }

    pub fn two() -> (r: GenerationLevel)
        ensures
            r.0 == 2,
    {
        GenerationLevel(2)
    }

    pub open spec fn spec_is_under_two(self) -> bool {
        self.0 < 2
    }

    pub fn is_under_two(&self) -> (r: bool)
        ensures
            r == self.spec_is_under_two(),
    {
        self.0 < 2
    }

    pub fn as_u8(&self) -> (r: u8)
        ensures
            r == self.0,
    {
        self.0
    }
}

/// A time-aligned group of files at one level.
#[derive(Clone, Copy, Debug, PartialEq, Eq, Hash, Structural)]
pub struct Generation {
    pub id: GenerationId,
    pub level: GenerationLevel,
    /// Aligned block start, in seconds.
    pub start_time_secs: i64,
    /// Exclusive upper bound on the row timestamps, in nanoseconds.
    pub max_time: i64,
}

/// Order used to arrange candidate generations: by block start, then id.
pub open spec fn gen_le(a: Generation, b: Generation) -> bool {
    a.start_time_secs < b.start_time_secs || (a.start_time_secs == b.start_time_secs && a.id.0
        <= b.id.0)
}

/// Whether `s` is arranged by block start, then id.
pub open spec fn gens_sorted(s: Seq<Generation>) -> bool {
    forall|i: int, j: int| 0 <= i < j < s.len() ==> gen_le(#[trigger] s[i], #[trigger] s[j])
}

/// Largest duration, in seconds, that a level may be configured with (about 31 years).
pub const MAX_DURATION_SECS: u64 = 1_000_000_000;

/// Start of the block of length `d` seconds that contains `t`.
pub open spec fn block_start(t: int, d: int) -> int {
    t - t % d
}

/// `t` clamped into the range of `i64`.
pub open spec fn clamp_i64(t: int) -> int {
    if t > i64::MAX {
        i64::MAX as int
    } else if t < i64::MIN {
        i64::MIN as int
    } else {
        t
    }
}

/// Per-level block durations: `generation_durations[k]` is the duration of level `k + 2`.
#[derive(Clone, Debug)]
pub struct CompactionConfig {
    pub generation_durations: Vec<u64>,
}

impl CompactionConfig {
    /// Every configured duration is positive and bounded.
    pub open spec fn wf(&self) -> bool {
        forall|k: int|
            0 <= k < self.generation_durations@.len() ==> 0 < #[trigger] self.generation_durations@[k]
                <= MAX_DURATION_SECS
    }

    /// Duration in seconds of a level, where one is configured.
    pub open spec fn spec_duration(&self, level: int) -> Option<int> {
        if 2 <= level < self.generation_durations@.len() + 2 {
            Some(self.generation_durations@[level - 2] as int)
        } else {
            None
        }
    }

    /// Block start of `t` at `level`; `t` itself where the level has no duration. Where
    /// the block would start below `i64::MIN`, the next block boundary is taken.
    pub open spec fn spec_start_time(&self, level: int, t: int) -> int {
        match self.spec_duration(level) {
            Some(d) => if block_start(t, d) < i64::MIN {
                block_start(t, d) + d
            } else {
                block_start(t, d)
            },
            None => t,
        }
    }

    /// A configuration from per-level durations, the first being level 2's.
    /// Fails where a duration is zero or over `MAX_DURATION_SECS`.
    pub fn new(generation_durations: Vec<u64>) -> (r: Result<CompactionConfig, ConfigError>)
        ensures
            r is Ok <==> (forall|k: int|
                0 <= k < generation_durations@.len() ==> 0 < #[trigger] generation_durations@[k]
                    <= MAX_DURATION_SECS),
            r matches Ok(c) ==> c.generation_durations@ == generation_durations@ && c.wf(),
    {
        let mut k: usize = 0;
        while k < generation_durations.len()
            invariant
                k <= generation_durations@.len(),
                forall|j: int|
                    0 <= j < k ==> 0 < #[trigger] generation_durations@[j] <= MAX_DURATION_SECS,
            decreases generation_durations@.len() - k,
        {
            let d = generation_durations[k];
            if d == 0 || d > MAX_DURATION_SECS {
                return Err(ConfigError::InvalidDuration { level_index: k });
            }
            k += 1;
        }
        Ok(CompactionConfig { generation_durations })
    }

    /// The default tiers: 20 minutes, 1 hour, 4 hours and 1 day for levels 2 to 5.
    pub fn default_config() -> (r: CompactionConfig)
        ensures
            r.wf(),
            r.generation_durations@ == seq![1200u64, 3600, 14400, 86400],
    {
        let v: Vec<u64> = vec![1200, 3600, 14400, 86400];
        assert(v@ == seq![1200u64, 3600, 14400, 86400]);
        CompactionConfig { generation_durations: v }
    }

    /// Duration in seconds of `level`, or `None` where the level has none.
    pub fn generation_duration(&self, level: GenerationLevel) -> (r: Option<u64>)
        ensures
            r matches Some(d) ==> self.spec_duration(level.0 as int) == Some(d as int),
            r is None ==> self.spec_duration(level.0 as int) is None,
    {
        if level.0 >= 2 && ((level.0 - 2) as usize) < self.generation_durations.len() {
            Some(self.generation_durations[(level.0 - 2) as usize])
        } else {
            None
        }
    }

    /// Rounds `t_secs` down to the start of its block at `level`.
    pub fn generation_start_time(&self, level: GenerationLevel, t_secs: i64) -> (r: i64)
        requires
            self.wf(),
        ensures
            r == self.spec_start_time(level.0 as int, t_secs as int),
    {
        match self.generation_duration(level) {
            Some(d) => {
                let di = d as i64;
                let rem = t_secs.checked_rem_euclid(di).unwrap();
                match t_secs.checked_sub(rem) {
                    Some(start) => start,
                    None => t_secs + (di - rem),
                }
            },
            None => t_secs,
        }
    }
}

impl Default for CompactionConfig {
    fn default() -> (r: CompactionConfig)
        ensures
            r.wf(),
            r.generation_durations@ == seq![1200u64, 3600, 14400, 86400],
    {
        CompactionConfig::default_config()
    }
}

/// Errors in building a configuration.
#[derive(Clone, Copy, Debug, PartialEq, Eq, Structural)]
pub enum ConfigError {
    /// The duration at this position (level `level_index + 2`) is zero or too long.
    InvalidDuration { level_index: usize },
}

} // verus!
