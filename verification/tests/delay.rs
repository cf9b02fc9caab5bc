use stm32f3_oscilloscope::delay::delay_ms;
use stm32f3_oscilloscope::shared::{button_wiring, SharedState};

fn fresh() -> SharedState {
    SharedState::new(button_wiring())
}

#[test]
fn delay_of_zero_returns_without_a_tick() {
    let mut shared = fresh();
    let reads: Vec<u32> = vec![0xe000; 10];
    assert_eq!(delay_ms(&mut shared, 0, &reads), 0);
    assert!(shared.delay_elapsed());
    assert!(!shared.channels()[0].changed());
}

#[test]
fn delay_of_zero_returns_where_no_tick_comes() {
    let mut shared = fresh();
    assert_eq!(delay_ms(&mut shared, 0, &[]), 0);
    assert!(shared.delay_elapsed());
}

#[test]
fn delay_takes_exactly_the_ticks_asked_for() {
    let reads: Vec<u32> = vec![0xf000; 500];
    let lengths: [u32; 5] = [1, 2, 50, 100, 500];
    for ms in lengths {
        let mut shared = fresh();
        assert_eq!(delay_ms(&mut shared, ms, &reads), ms as usize);
        assert!(shared.delay_elapsed());
        assert_eq!(shared.remaining(), 0);
    }
}

#[test]
fn delay_stays_pending_where_ticks_run_out() {
    let mut shared = fresh();
    let reads: Vec<u32> = vec![0xf000; 30];
    assert_eq!(delay_ms(&mut shared, 100, &reads), 30);
    assert!(!shared.delay_elapsed());
    assert_eq!(shared.remaining(), 70);
}

#[test]
fn delay_stays_pending_for_ever_without_ticks() {
    let mut shared = fresh();
    assert_eq!(delay_ms(&mut shared, 5, &[]), 0);
    assert!(!shared.delay_elapsed());
    assert_eq!(shared.remaining(), 5);
}

#[test]
fn inputs_are_debounced_while_the_delay_runs() {
    let mut shared = fresh();
    let mut reads: Vec<u32> = vec![0xf000; 100];
    reads[40] = 0xb000;
    assert_eq!(delay_ms(&mut shared, 100, &reads), 100);
    let channels = shared.channels();
    assert!(channels[2].changed());
    assert!(channels[2].stable_state());
    assert_eq!(channels[2].debounce_ticks(), 41);
    assert!(!channels[0].changed());
}

#[test]
fn delay_equals_the_same_ticks_delivered_by_hand() {
    let mut delayed = fresh();
    let mut stepped = fresh();
    let mut reads: Vec<u32> = Vec::new();
    let mut k: u32 = 0;
    while k < 300 {
        reads.push((k.wrapping_mul(40503) >> 3) & 0xf000);
        k += 1;
    }
    let ticks = delay_ms(&mut delayed, 250, &reads);
    stepped.start_delay(250);
    for port_bits in &reads[..ticks] {
        stepped.on_tick(*port_bits);
    }
    assert_eq!(ticks, 250);
    assert_eq!(delayed.remaining(), stepped.remaining());
    let a = delayed.channels();
    let b = stepped.channels();
    let mut i: usize = 0;
    while i < 4 {
        assert_eq!(a[i].stable_state(), b[i].stable_state());
        assert_eq!(a[i].changed(), b[i].changed());
        assert_eq!(a[i].debounce_ticks(), b[i].debounce_ticks());
        i += 1;
    }
}

#[test]
fn delay_restarts_a_running_countdown() {
    let mut shared = fresh();
    let reads: Vec<u32> = vec![0xf000; 10];
    shared.start_delay(1000);
    assert_eq!(delay_ms(&mut shared, 4, &reads), 4);
    assert!(shared.delay_elapsed());
}
