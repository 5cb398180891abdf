use strip_chart::{Sample, SampleWindow, VALUE_SCALE};

#[test]
fn window_never_exceeds_capacity() {
    let mut w = SampleWindow::new(10);
    for e in 0..25u64 {
        w.push(e, (e as u32) * 1000);
        assert!(w.len() <= 10);
    }
    assert_eq!(w.len(), 10);
    for i in 0..10usize {
        let s = w.get(i);
        assert_eq!(s, Sample { epoch: 15 + i as u64, value: (15 + i as u32) * 1000 });
    }
}

#[test]
fn window_keeps_everything_below_capacity() {
    let mut w = SampleWindow::new(10);
    for e in 0..7u64 {
        w.push(e, 5);
    }
    assert_eq!(w.len(), 7);
    assert_eq!(w.get(0).epoch, 0);
    assert_eq!(w.get(6).epoch, 6);
}

#[test]
fn window_exactly_at_capacity_evicts_nothing() {
    let mut w = SampleWindow::new(3);
    w.push(1, 10);
    w.push(2, 20);
    w.push(3, 30);
    assert_eq!(w.len(), 3);
    w.push(4, 40);
    assert_eq!(w.len(), 3);
    assert_eq!(w.get(0), Sample { epoch: 2, value: 20 });
    assert_eq!(w.get(2), Sample { epoch: 4, value: 40 });
}

#[test]
fn window_of_capacity_zero_stays_empty() {
    let mut w = SampleWindow::new(0);
    w.push(0, 1);
    assert!(w.is_empty());
    assert_eq!(w.capacity(), 0);
}

#[test]
fn window_latest_epoch() {
    let mut w = SampleWindow::new(10);
    assert_eq!(w.latest_epoch(), 0);
    w.push(4, VALUE_SCALE - 1);
    w.push(9, 0);
    assert_eq!(w.latest_epoch(), 9);
}

#[test]
fn pairs_of_empty_and_single() {
    let mut w = SampleWindow::new(10);
    assert_eq!(w.pairs().len(), 0);
    w.push(0, 100);
    assert_eq!(w.pairs().len(), 0);
}

#[test]
fn pairs_are_consecutive_in_arrival_order() {
    let mut w = SampleWindow::new(10);
    for e in 0..4u64 {
        w.push(e, (e as u32) + 1);
    }
    let p = w.pairs();
    assert_eq!(p.len(), 3);
    for i in 0..3usize {
        assert_eq!(p[i].0, w.get(i));
        assert_eq!(p[i].1, w.get(i + 1));
    }
}

#[test]
fn pairs_after_eviction() {
    let mut w = SampleWindow::new(2);
    w.push(0, 1);
    w.push(1, 2);
    w.push(2, 3);
    let p = w.pairs();
    assert_eq!(p, vec![(Sample { epoch: 1, value: 2 }, Sample { epoch: 2, value: 3 })]);
}
