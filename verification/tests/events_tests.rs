use stream_vis::events::{
    advanced, created, pending, progressed, rejected, stage_color, white, Color, FilteredOutEvent,
    Progress, StreamUpdate, UnitAdvanceBlockEvent, UnitCreatedEvent, UnitValueKind,
    UnitValueUpdateEvent, TICKS,
};

#[test]
fn palette_repeats_every_four_stages() {
    assert_eq!(stage_color(0), Color { red: 50, green: 27, blue: 45 });
    assert_eq!(stage_color(1), Color { red: 66, green: 39, blue: 39 });
    assert_eq!(stage_color(2), Color { red: 61, green: 27, blue: 27 });
    assert_eq!(stage_color(3), Color { red: 26, green: 46, blue: 42 });
    assert_eq!(stage_color(4), stage_color(0));
    assert_eq!(stage_color(u32::MAX), stage_color(3));
    assert_eq!(white(), Color { red: 100, green: 100, blue: 100 });
}

#[test]
fn progress_is_final_at_the_last_tick() {
    assert_eq!(TICKS, 5);
    assert!(!Progress { tick: 0, ticks: 5 }.is_final());
    assert!(!Progress { tick: 4, ticks: 5 }.is_final());
    assert!(Progress { tick: 5, ticks: 5 }.is_final());
}

#[test]
fn events_are_built_as_described() {
    assert_eq!(
        created(3),
        StreamUpdate::Created(UnitCreatedEvent {
            id: 3,
            block_id: 0,
            value: UnitValueKind::Value(white()),
        })
    );
    assert_eq!(
        advanced(3, 1, 2),
        StreamUpdate::AdvanceBlock(UnitAdvanceBlockEvent { id: 3, block_id: 2, from_block_id: 1 })
    );
    assert_eq!(
        pending(3, 2),
        StreamUpdate::ChangeValue(UnitValueUpdateEvent {
            id: 3,
            value: UnitValueKind::PendingFuture(stage_color(2)),
        })
    );
    assert_eq!(
        progressed(3, 4),
        StreamUpdate::ChangeValue(UnitValueUpdateEvent {
            id: 3,
            value: UnitValueKind::RunningFuture(Progress { tick: 4, ticks: 5 }),
        })
    );
    assert_eq!(rejected(3), StreamUpdate::FilteredOut(FilteredOutEvent { id: 3 }));
}

#[test]
fn every_event_names_its_unit() {
    assert_eq!(created(7).unit_id(), 7);
    assert_eq!(advanced(8, 0, 1).unit_id(), 8);
    assert_eq!(pending(9, 1).unit_id(), 9);
    assert_eq!(progressed(10, 2).unit_id(), 10);
    assert_eq!(rejected(11).unit_id(), 11);
}
