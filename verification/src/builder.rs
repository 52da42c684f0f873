//! Fluent construction of a pipeline.

use vstd::prelude::*;
use crate::blocks::{
    BlockState, SinkBlock, SourceBlock, StreamBlock, spec_descriptors, spec_pipeline, views,
};
use crate::engine::Engine;
use crate::jitter::JitteringDuration;
use crate::model::{EngineState, StageConfig, StageKind, config_wf};

verus! {

/// Why a stage cannot be added.
#[derive(Clone, Copy, Debug, PartialEq, Eq, Structural)]
pub enum ConfigError {
    /// A bounded stage needs room for at least one unit.
    ZeroConcurrency,
    /// A retain ratio lies between nothing and everything: at most 1000
    /// thousandths.
    RatioOutOfRange,
}

/// Largest number of stages between source and sink: the sink's identifier
/// has to fit its type.
pub const MAX_STAGES: usize = 0xFFFF_FFFE;

/// A pipeline under construction: a source and the stages added so far.
pub struct StreamVisBuilder {
    pub(crate) size: u32,
    pub(crate) configs: Vec<StageConfig>,
    pub(crate) blocks: Vec<StreamBlock>,
}

impl StreamVisBuilder {
    /// Number of units that the source will produce.
    pub closed spec fn spec_size(&self) -> nat {
        self.size as nat
    }

    /// The configurations of the stages added so far, in order.
    pub closed spec fn spec_configs(&self) -> Seq<StageConfig> {
        self.configs@
    }

    /// The descriptors of the source and of the stages added so far.
    pub closed spec fn spec_blocks(&self) -> Seq<BlockState> {
        views(self.blocks@)
    }

    /// The descriptors are those of the configurations, every configuration
    /// is valid, and the sink can still be numbered.
    pub open spec fn wf(&self) -> bool {
        &&& self.spec_blocks() == spec_descriptors(self.spec_configs())
        &&& self.spec_configs().len() <= MAX_STAGES
        &&& forall|j: int|
            0 <= j < self.spec_configs().len() ==> config_wf(#[trigger] self.spec_configs()[j])
    }

    /// Another stage can be added.
    pub open spec fn spec_has_room(&self) -> bool {
        self.spec_configs().len() < MAX_STAGES
    }

    /// Number of stages added so far.
    pub fn stage_count(&self) -> (n: usize)
        ensures
            n == self.spec_configs().len(),
    {
        self.configs.len()
    }

    /// Another stage can be added.
    #[verifier::when_used_as_spec(spec_has_room)]
    pub fn has_room(&self) -> (r: bool)
        ensures
            r == self.spec_has_room(),
    {
        self.configs.len() < MAX_STAGES
    }

    /// Begins a pipeline whose source produces the units `0` to `size - 1`.
    pub fn source(size: usize) -> (b: Self)
        requires
            size <= u32::MAX,
        ensures
            b.wf(),
            b.spec_size() == size,
            b.spec_configs() == Seq::<StageConfig>::empty(),
    {
        let mut blocks: Vec<StreamBlock> = Vec::new();
        blocks.push(StreamBlock::Source(SourceBlock { id: 0 }));
        let b = StreamVisBuilder { size: size as u32, configs: Vec::new(), blocks };
        proof {
            assert(b.spec_blocks() =~= spec_descriptors(b.spec_configs()));
        }
        b
    }

    /// Adds the stage that `config` describes under the next identifier.
    fn add_stage(self, config: StageConfig) -> (b: Self)
        requires
            self.wf(),
            self.spec_has_room(),
            config_wf(config),
        ensures
            b.wf(),
            b.spec_size() == self.spec_size(),
            b.spec_configs() == self.spec_configs().push(config),
    {
        let mut next = self;
        let id: u32 = next.blocks.len() as u32;
        assert(views(next.blocks@).len() == next.blocks@.len());
        next.blocks.push(StreamBlock::describe(&config, id));
        next.configs.push(config);
        proof {
            assert(next.spec_blocks() =~= spec_descriptors(next.spec_configs())) by {
                assert forall|i: int| 0 <= i < next.blocks@.len() implies views(next.blocks@)[i]
                    == spec_descriptors(next.configs@)[i] by {
                    if i < self.blocks@.len() {
                        assert(views(self.blocks@)[i] == spec_descriptors(self.configs@)[i]);
                    }
                }
            }
        }
        next
    }

    /// Appends a filter that works for `async_duration` on each unit and
    /// keeps `filter_ratio` thousandths of them.
    pub fn filter(self, async_duration: JitteringDuration, filter_ratio: u32) -> (r: Result<
        Self,
        ConfigError,
    >)
        requires
            self.wf(),
            self.spec_has_room(),
        ensures
            filter_ratio > 1000 <==> r == Err::<Self, ConfigError>(ConfigError::RatioOutOfRange),
            filter_ratio <= 1000 ==> r is Ok && r->Ok_0.wf() && r->Ok_0.spec_size()
                == self.spec_size() && r->Ok_0.spec_configs() == self.spec_configs().push(
                StageConfig {
                    kind: StageKind::Filter,
                    capacity: 1,
                    ratio: filter_ratio,
                    duration: async_duration,
                },
            ),
    {
        if filter_ratio > 1000 {
            return Err(ConfigError::RatioOutOfRange);
        }
        Ok(
            self.add_stage(
                StageConfig {
                    kind: StageKind::Filter,
                    capacity: 1,
                    ratio: filter_ratio,
                    duration: async_duration,
                },
            ),
        )
    }

    /// Appends an ordered map that works on up to `buffered` units at once.
    pub fn map_buffered(self, async_duration: JitteringDuration, buffered: usize) -> (r: Result<
        Self,
        ConfigError,
    >)
        requires
            self.wf(),
            self.spec_has_room(),
        ensures
            buffered == 0 <==> r == Err::<Self, ConfigError>(ConfigError::ZeroConcurrency),
            buffered >= 1 ==> r is Ok && r->Ok_0.wf() && r->Ok_0.spec_size() == self.spec_size()
                && r->Ok_0.spec_configs() == self.spec_configs().push(
                StageConfig {
                    kind: StageKind::Ordered,
                    capacity: buffered,
                    ratio: 1000,
                    duration: async_duration,
                },
            ),
    {
        if buffered == 0 {
            return Err(ConfigError::ZeroConcurrency);
        }
        Ok(
            self.add_stage(
                StageConfig {
                    kind: StageKind::Ordered,
                    capacity: buffered,
                    ratio: 1000,
                    duration: async_duration,
                },
            ),
        )
    }

    /// Appends an unordered map that works on up to `buffered` units at
    /// once.
    pub fn map_buffer_unordered(self, async_duration: JitteringDuration, buffered: usize) -> (r:
        Result<Self, ConfigError>)
        requires
            self.wf(),
            self.spec_has_room(),
        ensures
            buffered == 0 <==> r == Err::<Self, ConfigError>(ConfigError::ZeroConcurrency),
            buffered >= 1 ==> r is Ok && r->Ok_0.wf() && r->Ok_0.spec_size() == self.spec_size()
                && r->Ok_0.spec_configs() == self.spec_configs().push(
                StageConfig {
                    kind: StageKind::Unordered,
                    capacity: buffered,
                    ratio: 1000,
                    duration: async_duration,
                },
            ),
    {
        if buffered == 0 {
            return Err(ConfigError::ZeroConcurrency);
        }
        Ok(
            self.add_stage(
                StageConfig {
                    kind: StageKind::Unordered,
                    capacity: buffered,
                    ratio: 1000,
                    duration: async_duration,
                },
            ),
        )
    }

    /// Closes the pipeline with its sink. Gives the descriptors of all
    /// stages, source and sink included, and the pipeline itself, with
    /// nothing done yet.
    pub fn sink(self) -> (r: (Vec<StreamBlock>, Engine))
        requires
            self.wf(),
        ensures
            r.0@.len() == self.spec_configs().len() + 2,
            views(r.0@) == spec_pipeline(self.spec_configs()),
            r.1@ == EngineState::initial(self.spec_size(), self.spec_configs()),
            r.1.inv(),
    {
        let sink_id: u32 = (self.configs.len() + 1) as u32;
        let engine = Engine::new(self.size, &self.configs);
        let mut blocks = self.blocks;
        assert(views(blocks@).len() == blocks@.len());
        blocks.push(StreamBlock::Sink(SinkBlock { id: sink_id }));
        proof {
            assert(views(blocks@) =~= spec_pipeline(self.configs@)) by {
                assert forall|i: int| 0 <= i < blocks@.len() implies views(blocks@)[i]
                    == spec_pipeline(self.configs@)[i] by {
                    if i < self.blocks@.len() {
                        assert(views(self.blocks@)[i] == spec_descriptors(self.configs@)[i]);
                    }
                }
            }
        }
        (blocks, engine)
    }
}

} // verus!
