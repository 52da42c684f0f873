use stream_vis::jitter::{retains, JitteringDuration};

#[test]
fn jittered_adds_the_drawn_share_of_the_jitter() {
    let d = JitteringDuration::from_millis(1000, 500);
    assert_eq!(d.duration, 1000);
    assert_eq!(d.jitter, 500);
    assert_eq!(d.jittered(0), 1000);
    assert_eq!(d.jittered(0x8000_0000), 1250);
    assert_eq!(d.jittered(0xFFFF_FFFF), 1499);
    let triple = JitteringDuration::from_millis(500, 3000);
    assert_eq!(triple.jittered(0x4000_0000), 875);
}

#[test]
fn jittered_without_jitter_is_the_base() {
    let d = JitteringDuration::from_millis(100, 0);
    assert_eq!(d.jittered(0), 100);
    assert_eq!(d.jittered(0xFFFF_FFFF), 100);
    assert_eq!(d.get(), 100);
}

#[test]
fn jittered_saturates() {
    let d = JitteringDuration::from_millis(u64::MAX, 2000);
    assert_eq!(d.jittered(0xFFFF_FFFF), u64::MAX);
    assert_eq!(d.jittered(0), u64::MAX);
}

#[test]
fn get_stays_within_the_jitter() {
    let d = JitteringDuration::from_millis(1000, 2000);
    let mut distinct = std::collections::BTreeSet::new();
    for _ in 0..200 {
        let v = d.get();
        assert!(v >= 1000);
        assert!(v < 3000);
        distinct.insert(v);
    }
    assert!(distinct.len() > 1);
}

#[test]
fn retains_compares_the_draw_with_the_ratio() {
    assert!(retains(500, 0));
    assert!(retains(500, 0x7FFF_FFFF));
    assert!(!retains(500, 0x8000_0000));
    assert!(!retains(500, 0xFFFF_FFFF));
    assert!(!retains(0, 0));
    assert!(retains(1000, 0xFFFF_FFFF));
    assert!(retains(1, 0));
    assert!(!retains(1, 4_294_968));
    assert!(retains(1, 4_294_967));
}
