use strip_chart::{next_state, LoopState, SampleSource, Session, CAPACITY, VALUE_SCALE};

#[test]
fn next_state_table() {
    assert_eq!(next_state(LoopState::Running, true, false), LoopState::Running);
    assert_eq!(next_state(LoopState::Running, false, false), LoopState::Stopped);
    assert_eq!(next_state(LoopState::Running, true, true), LoopState::Stopped);
    assert_eq!(next_state(LoopState::Stopped, true, false), LoopState::Stopped);
}

#[test]
fn running_step_records_one_sample() {
    let mut src = SampleSource::new();
    let mut s = Session::new(CAPACITY);
    assert!(s.step(&mut src, true, false));
    assert!(s.step(&mut src, true, false));
    assert_eq!(s.epoch(), 2);
    assert_eq!(s.samples().len(), 2);
    assert_eq!(s.samples().get(0).epoch, 0);
    assert_eq!(s.samples().get(1).epoch, 1);
    assert!(s.samples().get(1).value < VALUE_SCALE);
    assert_eq!(s.state(), LoopState::Running);
}

#[test]
fn closed_window_stops_without_sampling() {
    let mut src = SampleSource::new();
    let mut s = Session::new(CAPACITY);
    assert!(s.step(&mut src, true, false));
    assert!(!s.step(&mut src, false, false));
    assert_eq!(s.state(), LoopState::Stopped);
    assert_eq!(s.epoch(), 1);
    assert_eq!(s.samples().len(), 1);
    assert!(!s.step(&mut src, true, false));
    assert_eq!(s.epoch(), 1);
    assert_eq!(s.samples().len(), 1);
}

#[test]
fn exit_key_stops_without_sampling() {
    let mut src = SampleSource::new();
    let mut s = Session::new(CAPACITY);
    assert!(!s.step(&mut src, true, true));
    assert_eq!(s.state(), LoopState::Stopped);
    assert_eq!(s.samples().len(), 0);
}

#[test]
fn long_run_keeps_capacity() {
    let mut src = SampleSource::new();
    let mut s = Session::new(CAPACITY);
    for _ in 0..30 {
        assert!(s.step(&mut src, true, false));
    }
    assert_eq!(s.samples().len(), CAPACITY);
    assert_eq!(s.samples().get(0).epoch, 20);
    assert_eq!(s.samples().latest_epoch(), 29);
}

#[test]
fn source_values_lie_in_unit_interval() {
    let mut src = SampleSource::with_rng(rand::thread_rng());
    let n = 20_000u64;
    let mut sum = 0u64;
    let mut lo = u32::MAX;
    let mut hi = 0u32;
    for _ in 0..n {
        let v = src.next();
        assert!(v < VALUE_SCALE);
        sum += v as u64;
        lo = lo.min(v);
        hi = hi.max(v);
    }
    let mean = sum as f64 / n as f64 / VALUE_SCALE as f64;
    assert!(mean > 0.45 && mean < 0.55);
    assert!((lo as f64) < 0.01 * VALUE_SCALE as f64);
    assert!((hi as f64) > 0.99 * VALUE_SCALE as f64);
}
