use stream_vis::builder::StreamVisBuilder;
use stream_vis::engine::Engine;
use stream_vis::events::{Progress, StreamUpdate, UnitValueKind, TICKS};
use stream_vis::jitter::JitteringDuration;
use stream_vis::model::Action;

fn lcg(seed: &mut u64) -> u32 {
    *seed = seed.wrapping_mul(6364136223846793005).wrapping_add(1442695040888963407);
    (*seed >> 32) as u32
}

fn draws(seed: u64, n: usize) -> Vec<u32> {
    let mut s = seed;
    (0..n).map(|_| lcg(&mut s)).collect()
}

fn run_all(engine: &mut Engine, seed: u64, n: usize) -> Vec<StreamUpdate> {
    let r = engine.run(0, &draws(seed, n));
    assert!(r.finished);
    assert!(engine.is_finished());
    r.events
}

fn created_ids(events: &[StreamUpdate]) -> Vec<u32> {
    events
        .iter()
        .filter_map(|e| match e {
            StreamUpdate::Created(c) => Some(c.id),
            _ => None,
        })
        .collect()
}

fn entered(events: &[StreamUpdate], stage: u32) -> Vec<u32> {
    events
        .iter()
        .filter_map(|e| match e {
            StreamUpdate::AdvanceBlock(a) if a.block_id == stage => Some(a.id),
            _ => None,
        })
        .collect()
}

fn left(events: &[StreamUpdate], stage: u32) -> Vec<u32> {
    events
        .iter()
        .filter_map(|e| match e {
            StreamUpdate::AdvanceBlock(a) if a.from_block_id == stage => Some(a.id),
            _ => None,
        })
        .collect()
}

fn rejected(events: &[StreamUpdate]) -> Vec<u32> {
    events
        .iter()
        .filter_map(|e| match e {
            StreamUpdate::FilteredOut(f) => Some(f.id),
            _ => None,
        })
        .collect()
}

#[test]
fn filter_scenario_three_units() {
    let (blocks, mut engine) = StreamVisBuilder::source(3)
        .filter(JitteringDuration::from_millis(100, 0), 500)
        .unwrap()
        .sink();
    assert_eq!(blocks.len(), 3);
    let events = run_all(&mut engine, 7, 200);
    assert_eq!(created_ids(&events), vec![0, 1, 2]);
    for id in 0..3u32 {
        let into_filter = events
            .iter()
            .filter(|e| matches!(e, StreamUpdate::AdvanceBlock(a) if a.id == id && a.block_id == 1 && a.from_block_id == 0))
            .count();
        assert_eq!(into_filter, 1);
        let pending = events
            .iter()
            .filter(|e| matches!(e, StreamUpdate::ChangeValue(c) if c.id == id && matches!(c.value, UnitValueKind::PendingFuture(_))))
            .count();
        assert_eq!(pending, 1);
        let progress: Vec<Progress> = events
            .iter()
            .filter_map(|e| match e {
                StreamUpdate::ChangeValue(c) if c.id == id => match c.value {
                    UnitValueKind::RunningFuture(p) => Some(p),
                    _ => None,
                },
                _ => None,
            })
            .collect();
        let expected: Vec<Progress> = (0..=5).map(|k| Progress { tick: k, ticks: 5 }).collect();
        assert_eq!(progress, expected);
        let dropped = events
            .iter()
            .filter(|e| matches!(e, StreamUpdate::FilteredOut(f) if f.id == id))
            .count();
        let sunk = events
            .iter()
            .filter(|e| matches!(e, StreamUpdate::AdvanceBlock(a) if a.id == id && a.block_id == 2))
            .count();
        assert_eq!(dropped + sunk, 1);
    }
}

#[test]
fn filter_that_keeps_all_and_filter_that_keeps_none() {
    let (_, mut engine) = StreamVisBuilder::source(4)
        .filter(JitteringDuration::from_millis(50, 0), 1000)
        .unwrap()
        .sink();
    let events = run_all(&mut engine, 1, 200);
    assert_eq!(rejected(&events), Vec::<u32>::new());
    assert_eq!(entered(&events, 2), vec![0, 1, 2, 3]);

    let (_, mut engine) = StreamVisBuilder::source(4)
        .filter(JitteringDuration::from_millis(50, 0), 0)
        .unwrap()
        .sink();
    let events = run_all(&mut engine, 1, 200);
    assert_eq!(rejected(&events), vec![0, 1, 2, 3]);
    assert_eq!(entered(&events, 2), Vec::<u32>::new());
}

#[test]
fn first_events_of_a_filter_pipeline() {
    let (_, mut engine) = StreamVisBuilder::source(1)
        .filter(JitteringDuration::from_millis(100, 0), 1000)
        .unwrap()
        .sink();
    let s = engine.step(0, 0);
    assert_eq!(s.action, Action::Admit { stage: 1, slot: 0 });
    assert_eq!(
        s.events,
        vec![
            stream_vis::events::created(0),
            stream_vis::events::advanced(0, 0, 1),
            stream_vis::events::pending(0, 1),
        ]
    );
    let s = engine.step(0, 0);
    assert_eq!(s.action, Action::Start { stage: 1, slot: 0 });
    assert_eq!(s.events, vec![stream_vis::events::progressed(0, 0)]);
    let mut now = 0;
    for k in 1..=TICKS {
        let s = engine.step(now, 0);
        assert_eq!(s.action, Action::Wait { until: 20 * k as u64 });
        assert!(s.events.is_empty());
        now = 20 * k as u64;
        let s = engine.step(now, 0);
        assert_eq!(s.action, Action::Tick { stage: 1, slot: 0 });
        assert_eq!(s.events, vec![stream_vis::events::progressed(0, k)]);
    }
    let s = engine.step(now, 0);
    assert_eq!(s.action, Action::Admit { stage: 2, slot: 0 });
    assert_eq!(s.events, vec![stream_vis::events::advanced(0, 1, 2)]);
    let s = engine.step(now, 0);
    assert_eq!(s.action, Action::Finish);
    assert!(engine.is_finished());
}

#[test]
fn created_ids_are_zero_to_n() {
    let (_, mut engine) = StreamVisBuilder::source(15)
        .map_buffer_unordered(JitteringDuration::from_millis(500, 3000), 5)
        .unwrap()
        .sink();
    let events = run_all(&mut engine, 11, 2000);
    assert_eq!(created_ids(&events), (0..15).collect::<Vec<u32>>());
    assert_eq!(engine.created(), 15);
    assert_eq!(engine.size(), 15);
}

#[test]
fn ordered_stage_hands_on_in_order_of_arrival() {
    for seed in 0..20u64 {
        let (_, mut engine) = StreamVisBuilder::source(15)
            .map_buffered(JitteringDuration::from_millis(800, 4000), 5)
            .unwrap()
            .sink();
        let events = run_all(&mut engine, seed, 2000);
        assert_eq!(entered(&events, 1), (0..15).collect::<Vec<u32>>());
        assert_eq!(left(&events, 1), entered(&events, 1));
    }
}

#[test]
fn ordered_stage_after_unordered_stage_keeps_arrival_order() {
    let mut reordered = false;
    for seed in 0..20u64 {
        let (_, mut engine) = StreamVisBuilder::source(12)
            .map_buffer_unordered(JitteringDuration::from_millis(500, 3000), 4)
            .unwrap()
            .map_buffered(JitteringDuration::from_millis(300, 2000), 3)
            .unwrap()
            .sink();
        let events = run_all(&mut engine, seed, 4000);
        let into_second = entered(&events, 2);
        assert_eq!(left(&events, 2), into_second);
        assert_eq!(left(&events, 1), into_second);
        let mut sorted = into_second.clone();
        sorted.sort();
        assert_eq!(sorted, (0..12).collect::<Vec<u32>>());
        if into_second != sorted {
            reordered = true;
        }
    }
    assert!(reordered);
}

#[test]
fn stage_never_works_on_more_than_its_bound() {
    for seed in 0..10u64 {
        let (_, mut engine) = StreamVisBuilder::source(20)
            .map_buffer_unordered(JitteringDuration::from_millis(500, 3000), 5)
            .unwrap()
            .map_buffered(JitteringDuration::from_millis(200, 1000), 2)
            .unwrap()
            .sink();
        let events = run_all(&mut engine, seed, 6000);
        let bounds = [0usize, 5, 2];
        let mut stage_of = vec![0u32; 20];
        let mut running = vec![false; 20];
        let mut peak = [0usize; 3];
        for e in &events {
            match e {
                StreamUpdate::AdvanceBlock(a) => stage_of[a.id as usize] = a.block_id,
                StreamUpdate::ChangeValue(c) => {
                    running[c.id as usize] = match c.value {
                        UnitValueKind::RunningFuture(p) => p.tick < p.ticks,
                        _ => false,
                    }
                }
                _ => {}
            }
            for stage in 1..3u32 {
                let n = (0..20).filter(|&i| running[i] && stage_of[i] == stage).count();
                assert!(n <= bounds[stage as usize]);
                if n > peak[stage as usize] {
                    peak[stage as usize] = n;
                }
            }
        }
        assert_eq!(peak[1], 5);
    }
}

#[test]
fn every_unit_visits_the_stages_in_order_and_ends_in_the_sink_or_dropped() {
    let (blocks, mut engine) = StreamVisBuilder::source(10)
        .map_buffered(JitteringDuration::from_millis(500, 3000), 5)
        .unwrap()
        .filter(JitteringDuration::from_millis(1200, 1000), 500)
        .unwrap()
        .sink();
    let sink = blocks.last().unwrap().id();
    assert_eq!(sink, 3);
    assert_eq!(engine.sink_id(), 3);
    let events = run_all(&mut engine, 3, 4000);
    let dropped = rejected(&events);
    for id in 0..10u32 {
        let visits: Vec<u32> = events
            .iter()
            .filter_map(|e| match e {
                StreamUpdate::AdvanceBlock(a) if a.id == id => Some(a.block_id),
                _ => None,
            })
            .collect();
        for pair in visits.windows(2) {
            assert!(pair[0] < pair[1]);
        }
        if dropped.contains(&id) {
            assert_eq!(visits, vec![1, 2]);
            let last = events.iter().rposition(|e| e.unit_id() == id).unwrap();
            assert_eq!(events[last], stream_vis::events::rejected(id));
        } else {
            assert_eq!(visits, vec![1, 2, 3]);
        }
    }
    assert!(!dropped.is_empty());
    assert!(dropped.len() < 10);
}

#[test]
fn rejected_count_is_within_three_deviations() {
    let (_, mut engine) = StreamVisBuilder::source(1000)
        .filter(JitteringDuration::from_millis(10, 0), 300)
        .unwrap()
        .sink();
    let events = run_all(&mut engine, 2024, 40000);
    let n = 1000.0f64;
    let q = 0.7f64;
    let mean = n * q;
    let sigma = (n * q * (1.0 - q)).sqrt();
    let count = rejected(&events).len() as f64;
    assert!((count - mean).abs() <= 3.0 * sigma);
}

#[test]
fn random_steps_drain_the_pipeline() {
    let (_, mut engine) = StreamVisBuilder::source(10)
        .map_buffer_unordered(JitteringDuration::from_millis(500, 3000), 5)
        .unwrap()
        .filter(JitteringDuration::from_millis(100, 1000), 500)
        .unwrap()
        .sink();
    let mut now = 0u64;
    let mut events = Vec::new();
    let mut steps = 0;
    loop {
        let s = engine.step_random(now);
        steps += 1;
        assert!(steps < 100000);
        match s.action {
            Action::Finish => break,
            Action::Wait { until } => {
                assert!(until > now);
                now = until;
            }
            _ => events.extend(s.events),
        }
    }
    assert_eq!(created_ids(&events), (0..10).collect::<Vec<u32>>());
    let dropped = rejected(&events).len();
    let sunk = entered(&events, 3).len();
    assert_eq!(dropped + sunk, 10);
}

#[test]
fn empty_pipeline_finishes_at_once() {
    let (blocks, mut engine) = StreamVisBuilder::source(0).sink();
    assert_eq!(blocks.len(), 2);
    assert!(engine.is_finished());
    assert_eq!(engine.next_action(0), Action::Finish);
    let r = engine.run(0, &vec![1, 2, 3]);
    assert!(r.finished);
    assert!(r.events.is_empty());
}

#[test]
fn source_straight_into_sink() {
    let (_, mut engine) = StreamVisBuilder::source(2).sink();
    let r = engine.run(0, &vec![0; 5]);
    assert!(r.finished);
    assert_eq!(
        r.events,
        vec![
            stream_vis::events::created(0),
            stream_vis::events::advanced(0, 0, 1),
            stream_vis::events::created(1),
            stream_vis::events::advanced(1, 0, 1),
        ]
    );
}

#[test]
fn sequential_stage_works_on_one_unit_at_a_time() {
    let (_, mut engine) = StreamVisBuilder::source(3)
        .map_buffered(JitteringDuration::from_millis(500, 0), 1)
        .unwrap()
        .sink();
    let r = engine.run(0, &vec![0; 200]);
    assert!(r.finished);
    assert_eq!(r.now, 1500);
    let order: Vec<u32> = r
        .events
        .iter()
        .filter_map(|e| match e {
            StreamUpdate::AdvanceBlock(a) => Some(a.id * 10 + a.block_id),
            _ => None,
        })
        .collect();
    assert_eq!(order, vec![1, 2, 11, 12, 21, 22]);
}

#[test]
fn bounded_stage_takes_in_no_more_than_its_bound() {
    let (_, mut engine) = StreamVisBuilder::source(10)
        .map_buffered(JitteringDuration::from_millis(500, 0), 3)
        .unwrap()
        .sink();
    let mut taken = 0;
    loop {
        let s = engine.step(0, 0);
        match s.action {
            Action::Wait { until } => {
                assert_eq!(until, 100);
                break;
            }
            Action::Admit { stage, .. } => {
                assert_eq!(stage, 1);
                taken += 1;
            }
            _ => {}
        }
    }
    assert_eq!(taken, 3);
    assert_eq!(engine.in_flight(1), 3);
    assert_eq!(engine.created(), 3);
}

#[test]
fn run_with_enough_draws_always_drains() {
    let size = 6usize;
    let stages = 3usize;
    let budget = 2 * (size * (stages * 7 + 1)) + 2;
    for seed in 0..10u64 {
        let (_, mut engine) = StreamVisBuilder::source(size)
            .map_buffer_unordered(JitteringDuration::from_millis(300, 2000), 2)
            .unwrap()
            .filter(JitteringDuration::from_millis(100, 500), 700)
            .unwrap()
            .map_buffered(JitteringDuration::from_millis(200, 1000), 3)
            .unwrap()
            .sink();
        let r = engine.run(0, &draws(seed, budget));
        assert!(r.finished);
        assert_eq!(created_ids(&r.events), (0..6).collect::<Vec<u32>>());
    }
}

#[test]
fn run_that_is_cut_short_reports_it() {
    let (_, mut engine) = StreamVisBuilder::source(3)
        .map_buffered(JitteringDuration::from_millis(100, 0), 2)
        .unwrap()
        .sink();
    let first = engine.run(0, &vec![0; 5]);
    assert!(!first.finished);
    assert!(!engine.is_finished());
    let rest = engine.run(first.now, &vec![0; 200]);
    assert!(rest.finished);
    let mut all = first.events;
    all.extend(rest.events);
    assert_eq!(entered(&all, 2), vec![0, 1, 2]);
}

#[test]
fn next_action_changes_nothing() {
    let (_, mut engine) = StreamVisBuilder::source(2)
        .map_buffer_unordered(JitteringDuration::from_millis(100, 0), 2)
        .unwrap()
        .sink();
    assert_eq!(engine.next_action(0), Action::Admit { stage: 1, slot: 0 });
    assert_eq!(engine.next_action(5), Action::Admit { stage: 1, slot: 0 });
    assert_eq!(engine.created(), 0);
    let s = engine.step(0, 0);
    assert_eq!(s.action, Action::Admit { stage: 1, slot: 0 });
    assert_eq!(engine.created(), 1);
    assert_eq!(engine.in_flight(1), 1);
    assert_eq!(engine.in_flight(0), 0);
    assert_eq!(engine.in_flight(2), 0);
}

#[test]
fn unordered_stage_hands_on_the_unit_that_is_done_first() {
    let (_, mut engine) = StreamVisBuilder::source(2)
        .map_buffer_unordered(JitteringDuration::from_millis(100, 1000), 2)
        .unwrap()
        .sink();
    // Both units enter; the first draws the longest duration, the second the
    // shortest.
    let mut script = vec![0u32, 0, 0xFFFF_FFFF, 0];
    script.extend(vec![0u32; 100]);
    let r = engine.run(0, &script);
    assert!(r.finished);
    assert_eq!(entered(&r.events, 1), vec![0, 1]);
    assert_eq!(entered(&r.events, 2), vec![1, 0]);
    assert_eq!(r.now, 195);
}

#[test]
fn ordered_stage_holds_back_a_unit_that_is_done_early() {
    let (_, mut engine) = StreamVisBuilder::source(2)
        .map_buffered(JitteringDuration::from_millis(100, 1000), 2)
        .unwrap()
        .sink();
    let mut script = vec![0u32, 0, 0xFFFF_FFFF, 0];
    script.extend(vec![0u32; 100]);
    let r = engine.run(0, &script);
    assert!(r.finished);
    assert_eq!(entered(&r.events, 2), vec![0, 1]);
    let last_tick_of_second = r
        .events
        .iter()
        .position(|e| *e == stream_vis::events::progressed(1, 5))
        .unwrap();
    let first_leaves = r
        .events
        .iter()
        .position(|e| *e == stream_vis::events::advanced(0, 1, 2))
        .unwrap();
    assert!(last_tick_of_second < first_leaves);
}

#[test]
fn filter_behind_a_map_stalls_the_map_while_it_works() {
    let (_, mut engine) = StreamVisBuilder::source(2)
        .map_buffered(JitteringDuration::from_millis(50, 0), 1)
        .unwrap()
        .filter(JitteringDuration::from_millis(500, 0), 1000)
        .unwrap()
        .sink();
    let r = engine.run(0, &vec![0; 400]);
    assert!(r.finished);
    // The second unit enters the map only when the filter asks again, after
    // it has let the first one through.
    let first_through = r
        .events
        .iter()
        .position(|e| *e == stream_vis::events::advanced(0, 2, 3))
        .unwrap();
    let second_in = r
        .events
        .iter()
        .position(|e| *e == stream_vis::events::advanced(1, 0, 1))
        .unwrap();
    assert!(first_through < second_in);
    assert_eq!(r.now, 1100);
}
