use stm32f3_oscilloscope::timebase::{Timebase, TICK_RELOAD};

#[test]
fn tick_period_is_eight_thousand_cycles() {
    assert_eq!(TICK_RELOAD, 8000);
}

#[test]
fn timebase_starts_expired() {
    let timebase = Timebase::new();
    assert_eq!(timebase.remaining(), 0);
    assert!(timebase.expired());
}

#[test]
fn start_loads_the_countdown() {
    let mut timebase = Timebase::new();
    timebase.start(100);
    assert_eq!(timebase.remaining(), 100);
    assert!(!timebase.expired());
}

#[test]
fn each_tick_counts_down_by_one() {
    let mut timebase = Timebase::new();
    timebase.start(5);
    timebase.tick();
    assert_eq!(timebase.remaining(), 4);
    timebase.tick();
    timebase.tick();
    assert_eq!(timebase.remaining(), 2);
    assert!(!timebase.expired());
}

#[test]
fn countdown_reaches_zero_after_exactly_its_length() {
    let lengths: [u32; 4] = [1, 2, 100, 1000];
    for length in lengths {
        let mut timebase = Timebase::new();
        timebase.start(length);
        let mut ticks: u32 = 0;
        while !timebase.expired() {
            timebase.tick();
            ticks += 1;
        }
        assert_eq!(ticks, length);
    }
}

#[test]
fn countdown_saturates_at_zero() {
    let mut timebase = Timebase::new();
    timebase.start(1);
    timebase.tick();
    assert_eq!(timebase.remaining(), 0);
    timebase.tick();
    timebase.tick();
    assert_eq!(timebase.remaining(), 0);
    assert!(timebase.expired());
}

#[test]
fn tick_at_rest_changes_nothing() {
    let mut timebase = Timebase::new();
    timebase.tick();
    assert_eq!(timebase.remaining(), 0);
}

#[test]
fn start_zero_is_expired_at_once() {
    let mut timebase = Timebase::new();
    timebase.start(7);
    timebase.start(0);
    assert!(timebase.expired());
}

#[test]
fn restart_overwrites_the_countdown() {
    let mut timebase = Timebase::new();
    timebase.start(10);
    timebase.tick();
    timebase.start(3);
    assert_eq!(timebase.remaining(), 3);
}

#[test]
fn longest_countdown_steps_down_from_the_top() {
    let mut timebase = Timebase::new();
    timebase.start(u32::MAX);
    timebase.tick();
    assert_eq!(timebase.remaining(), u32::MAX - 1);
}
