use stream_vis::blocks::StreamBlock;
use stream_vis::builder::{ConfigError, StreamVisBuilder};
use stream_vis::jitter::JitteringDuration;

#[test]
fn stage_ids_are_sequential_from_zero() {
    let builder = StreamVisBuilder::source(3)
        .map_buffered(JitteringDuration::from_millis(500, 3000), 5)
        .unwrap()
        .filter(JitteringDuration::from_millis(1200, 1000), 500)
        .unwrap();
    let (blocks, _engine) = builder.sink();
    let ids: Vec<u32> = blocks.iter().map(|b| b.id()).collect();
    assert_eq!(ids, vec![0, 1, 2, 3]);
    assert!(matches!(blocks[0], StreamBlock::Source(_)));
    assert!(matches!(blocks[1], StreamBlock::MapBuffer(_)));
    assert!(matches!(blocks[2], StreamBlock::FilterBlock(_)));
    assert!(matches!(blocks[3], StreamBlock::Sink(_)));
}

#[test]
fn zero_concurrency_is_rejected() {
    let r = StreamVisBuilder::source(3).map_buffered(JitteringDuration::from_millis(500, 0), 0);
    assert!(matches!(r, Err(ConfigError::ZeroConcurrency)));
    let r = StreamVisBuilder::source(3)
        .map_buffer_unordered(JitteringDuration::from_millis(500, 0), 0);
    assert!(matches!(r, Err(ConfigError::ZeroConcurrency)));
}

#[test]
fn ratio_above_one_is_rejected() {
    let r = StreamVisBuilder::source(3).filter(JitteringDuration::from_millis(500, 0), 1001);
    assert!(matches!(r, Err(ConfigError::RatioOutOfRange)));
    let r = StreamVisBuilder::source(3).filter(JitteringDuration::from_millis(500, 0), 1000);
    assert!(r.is_ok());
}

#[test]
fn builder_counts_its_stages() {
    let b = StreamVisBuilder::source(0);
    assert_eq!(b.stage_count(), 0);
    assert!(b.has_room());
    let b = b.filter(JitteringDuration::from_millis(1, 0), 0).unwrap();
    let b = b.map_buffered(JitteringDuration::from_millis(1, 0), 1).unwrap();
    assert_eq!(b.stage_count(), 2);
    let (blocks, engine) = b.sink();
    assert_eq!(blocks.len(), 4);
    assert_eq!(engine.sink_id(), 3);
    assert_eq!(engine.size(), 0);
}
