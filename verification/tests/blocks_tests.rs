use std::collections::VecDeque;

use stream_vis::blocks::{
    slot_count, BufferBlock, BufferUnrderedBlock, FilterBlock, SinkBlock, SourceBlock, StreamBlock,
};
use stream_vis::builder::StreamVisBuilder;
use stream_vis::events::{StreamUpdate, UnitAdvanceBlockEvent};
use stream_vis::jitter::JitteringDuration;

fn advance(id: u32, from: u32, to: u32) -> UnitAdvanceBlockEvent {
    UnitAdvanceBlockEvent { id, block_id: to, from_block_id: from }
}

#[test]
fn block_id_of_every_kind() {
    assert_eq!(StreamBlock::Source(SourceBlock { id: 0 }).id(), 0);
    assert_eq!(StreamBlock::Sink(SinkBlock { id: 9 }).id(), 9);
    assert_eq!(StreamBlock::FilterBlock(FilterBlock { id: 4, duration: 10 }).id(), 4);
    let ordered = BufferBlock { id: 2, duration: 10, buffered: 3, units: VecDeque::new() };
    assert_eq!(StreamBlock::MapBuffer(ordered).id(), 2);
    let unordered = BufferUnrderedBlock::new(3, 6, 10, 2);
    assert_eq!(StreamBlock::MapBufferUnordered(unordered).id(), 3);
}

#[test]
fn new_unordered_block_has_free_slots() {
    let b = BufferUnrderedBlock::new(7, 6, 250, 2);
    assert_eq!(b.id, 7);
    assert_eq!(b.duration, 250);
    assert_eq!(b.buffered, 2);
    assert_eq!(b.slots, VecDeque::from(vec![None; 6]));
    let empty = BufferUnrderedBlock::new(1, 0, 0, 0);
    assert!(empty.slots.is_empty());
}

#[test]
fn slot_count_is_three_per_unit() {
    assert_eq!(slot_count(0), 0);
    assert_eq!(slot_count(5), 15);
    assert_eq!(slot_count(usize::MAX), usize::MAX);
    assert_eq!(slot_count(usize::MAX / 3), usize::MAX / 3 * 3);
}

#[test]
fn ordered_block_queues_units() {
    let mut b = BufferBlock { id: 1, duration: 10, buffered: 3, units: VecDeque::new() };
    b.enter(4);
    b.enter(2);
    b.enter(9);
    assert_eq!(b.units, VecDeque::from(vec![4, 2, 9]));
    b.leave(2);
    assert_eq!(b.units, VecDeque::from(vec![4, 9]));
    b.leave(7);
    assert_eq!(b.units, VecDeque::from(vec![4, 9]));
    b.leave(4);
    b.leave(9);
    assert!(b.units.is_empty());
}

#[test]
fn unordered_block_fills_first_free_slot() {
    let mut b = BufferUnrderedBlock::new(1, 3, 10, 1);
    assert!(b.enter(5));
    assert!(b.enter(6));
    assert_eq!(b.slots, VecDeque::from(vec![Some(5), Some(6), None]));
    b.leave(5);
    assert_eq!(b.slots, VecDeque::from(vec![None, Some(6), None]));
    assert!(b.enter(7));
    assert_eq!(b.slots, VecDeque::from(vec![Some(7), Some(6), None]));
    assert!(b.enter(8));
    assert!(!b.enter(9));
    assert_eq!(b.slots, VecDeque::from(vec![Some(7), Some(6), Some(8)]));
    b.leave(1);
    assert_eq!(b.slots, VecDeque::from(vec![Some(7), Some(6), Some(8)]));
}

#[test]
fn reconcile_lets_units_enter_before_units_leave() {
    let mut b = StreamBlock::MapBuffer(BufferBlock {
        id: 2,
        duration: 10,
        buffered: 3,
        units: VecDeque::from(vec![0]),
    });
    let batch = vec![advance(0, 2, 3), advance(1, 1, 2), advance(5, 0, 1), advance(2, 1, 2)];
    assert!(b.reconcile(&batch));
    match b {
        StreamBlock::MapBuffer(state) => assert_eq!(state.units, VecDeque::from(vec![1, 2])),
        _ => unreachable!(),
    }
}

#[test]
fn reconcile_reports_a_unit_without_a_slot() {
    let mut b = StreamBlock::MapBufferUnordered(BufferUnrderedBlock::new(1, 1, 10, 1));
    assert!(b.reconcile(&vec![advance(0, 0, 1)]));
    assert!(!b.reconcile(&vec![advance(0, 1, 2), advance(1, 0, 1)]));
    assert!(b.reconcile(&vec![advance(1, 0, 1)]));
    match b {
        StreamBlock::MapBufferUnordered(state) => {
            assert_eq!(state.slots, VecDeque::from(vec![Some(1)]))
        }
        _ => unreachable!(),
    }
}

#[test]
fn reconcile_leaves_other_kinds_alone() {
    let mut source = StreamBlock::Source(SourceBlock { id: 0 });
    assert!(source.reconcile(&vec![advance(0, 0, 1)]));
    assert!(matches!(source, StreamBlock::Source(SourceBlock { id: 0 })));
    let mut filter = StreamBlock::FilterBlock(FilterBlock { id: 1, duration: 5 });
    assert!(filter.enter(3));
    filter.leave(3);
    assert!(matches!(filter, StreamBlock::FilterBlock(FilterBlock { id: 1, duration: 5 })));
}

#[test]
fn occupancy_follows_the_events_of_a_run() {
    let (mut blocks, mut engine) = StreamVisBuilder::source(12)
        .map_buffer_unordered(JitteringDuration::from_millis(500, 3000), 4)
        .unwrap()
        .map_buffered(JitteringDuration::from_millis(300, 2000), 3)
        .unwrap()
        .sink();
    let mut seed = 99u64;
    let mut now = 0u64;
    loop {
        seed = seed.wrapping_mul(6364136223846793005).wrapping_add(1442695040888963407);
        let step = engine.step(now, (seed >> 32) as u32);
        if let stream_vis::model::Action::Wait { until } = step.action {
            now = until;
        }
        let batch: Vec<UnitAdvanceBlockEvent> = step
            .events
            .iter()
            .filter_map(|e| match e {
                StreamUpdate::AdvanceBlock(a) => Some(*a),
                _ => None,
            })
            .collect();
        for block in blocks.iter_mut().rev() {
            assert!(block.reconcile(&batch));
        }
        for block in &blocks {
            match block {
                StreamBlock::MapBuffer(b) => {
                    assert_eq!(b.units.len(), engine.in_flight(b.id));
                    assert!(b.units.len() <= b.buffered);
                }
                StreamBlock::MapBufferUnordered(b) => {
                    let shown = b.slots.iter().filter(|s| s.is_some()).count();
                    assert_eq!(shown, engine.in_flight(b.id));
                    assert!(shown <= b.buffered);
                }
                _ => {}
            }
        }
        if matches!(step.action, stream_vis::model::Action::Finish) {
            break;
        }
    }
}

#[test]
fn descriptors_show_what_was_configured() {
    let (blocks, _) = StreamVisBuilder::source(10)
        .map_buffer_unordered(JitteringDuration::from_millis(500, 3000), 5)
        .unwrap()
        .map_buffered(JitteringDuration::from_millis(800, 4000), 2)
        .unwrap()
        .filter(JitteringDuration::from_millis(1200, 1000), 500)
        .unwrap()
        .sink();
    assert_eq!(blocks.len(), 5);
    match &blocks[1] {
        StreamBlock::MapBufferUnordered(b) => {
            assert_eq!((b.id, b.duration, b.buffered), (1, 500, 5));
            assert_eq!(b.slots, VecDeque::from(vec![None; 15]));
        }
        _ => unreachable!(),
    }
    match &blocks[2] {
        StreamBlock::MapBuffer(b) => {
            assert_eq!((b.id, b.duration, b.buffered), (2, 800, 2));
            assert!(b.units.is_empty());
        }
        _ => unreachable!(),
    }
    match &blocks[3] {
        StreamBlock::FilterBlock(b) => assert_eq!((b.id, b.duration), (3, 1200)),
        _ => unreachable!(),
    }
    assert!(matches!(blocks[4], StreamBlock::Sink(SinkBlock { id: 4 })));
}

#[test]
fn building_twice_gives_the_same_descriptors() {
    let build = || {
        StreamVisBuilder::source(10)
            .map_buffer_unordered(JitteringDuration::from_millis(500, 3000), 5)
            .unwrap()
            .filter(JitteringDuration::from_millis(1200, 1000), 500)
            .unwrap()
            .map_buffered(JitteringDuration::from_millis(800, 4000), 2)
            .unwrap()
            .sink()
            .0
    };
    let first = format!("{:?}", build());
    let second = format!("{:?}", build());
    assert_eq!(first, second);
}
