use tiny_terminal_snake::speed::Speed;

#[test]
fn speed_starts_at_the_slowest_level() {
    let s = Speed::new(2);
    assert_eq!(s.current, 10);
    assert_eq!(s.last_len, 2);
    assert_eq!(s.multiples, vec![40, 20, 16, 14, 12, 11, 11]);
}

#[test]
fn below_threshold_nothing_changes() {
    let mut s = Speed::new(2);
    s.adjust(7);
    assert_eq!(s.current, 10);
    assert_eq!(s.last_len, 2);
    assert_eq!(s.multiples.len(), 7);
}

#[test]
fn each_crossed_threshold_drops_the_level_exactly_once() {
    let mut s = Speed::new(2);
    // Ratio 8/2 reaches 4.0: one level, reference resets to 8.
    s.adjust(8);
    assert_eq!((s.current, s.last_len), (9, 8));
    // 15/8 stays below 2.0.
    s.adjust(15);
    assert_eq!((s.current, s.last_len), (9, 8));
    // 16/8 reaches 2.0.
    s.adjust(16);
    assert_eq!((s.current, s.last_len), (8, 16));
    // 25/16 stays below 1.6; 26/16 reaches it.
    s.adjust(25);
    assert_eq!((s.current, s.last_len), (8, 16));
    s.adjust(26);
    assert_eq!((s.current, s.last_len), (7, 26));
    // 37/26 reaches 1.4.
    s.adjust(37);
    assert_eq!((s.current, s.last_len), (6, 37));
    // 45/37 reaches 1.2.
    s.adjust(45);
    assert_eq!((s.current, s.last_len), (5, 45));
    // 50/45 reaches 1.1, twice over the last two thresholds.
    s.adjust(50);
    assert_eq!((s.current, s.last_len), (4, 50));
    s.adjust(55);
    assert_eq!((s.current, s.last_len), (3, 55));
    assert!(s.multiples.is_empty());
}

#[test]
fn exhausted_thresholds_fix_the_speed_for_good() {
    let mut s = Speed::new(2);
    for len in [8, 16, 26, 37, 45, 50, 55] {
        s.adjust(len);
    }
    assert_eq!(s.current, 3);
    s.adjust(100000);
    assert_eq!(s.current, 3);
    s.adjust(100000);
    assert_eq!(s.current, 3);
}
