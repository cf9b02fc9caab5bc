use stm32f3_oscilloscope::debounce::COOLDOWN_TICKS;
use stm32f3_oscilloscope::shared::{button_wiring, SharedState, FIRST_BUTTON_PIN, INPUT_COUNT};
use stm32f3_oscilloscope::wiring::{Polarity, Wiring};

const IDLE: u32 = 0xf000;

fn board() -> SharedState {
    SharedState::new(button_wiring())
}

fn pressed(input: usize) -> u32 {
    IDLE & !(1 << (12 + input))
}

#[test]
fn there_are_four_inputs() {
    assert_eq!(INPUT_COUNT, 4);
}

#[test]
fn pushbuttons_sit_on_pins_twelve_to_fifteen_active_low() {
    assert_eq!(FIRST_BUTTON_PIN, 12);
    assert_eq!(
        button_wiring(),
        [
            Wiring { pin: 12, polarity: Polarity::ActiveLow },
            Wiring { pin: 13, polarity: Polarity::ActiveLow },
            Wiring { pin: 14, polarity: Polarity::ActiveLow },
            Wiring { pin: 15, polarity: Polarity::ActiveLow },
        ]
    );
}

#[test]
fn boot_state_is_at_rest() {
    let shared = board();
    assert_eq!(shared.remaining(), 0);
    assert!(shared.delay_elapsed());
    for channel in shared.channels() {
        assert!(!channel.stable_state());
        assert!(!channel.changed());
        assert_eq!(channel.debounce_ticks(), 0);
    }
}

#[test]
fn wiring_is_kept_as_given() {
    let shared = board();
    let wiring = shared.wiring();
    let mut i: usize = 0;
    while i < INPUT_COUNT {
        assert_eq!(wiring[i], Wiring { pin: 12 + i as u32, polarity: Polarity::ActiveLow });
        i += 1;
    }
}

#[test]
fn idle_port_changes_nothing() {
    let mut shared = board();
    let mut tick: u32 = 0;
    while tick < 250 {
        shared.on_tick(IDLE);
        tick += 1;
    }
    for channel in shared.channels() {
        assert!(!channel.stable_state());
        assert!(!channel.changed());
    }
}

#[test]
fn press_is_reported_on_the_first_tick_and_not_again() {
    let mut shared = board();
    shared.on_tick(pressed(0));
    assert!(shared.channels()[0].changed());
    assert!(shared.channels()[0].stable_state());
    assert_eq!(shared.channels()[0].debounce_ticks(), 100);

    let updates = shared.drain_changes();
    assert_eq!(updates, [Some(true), None, None, None]);
    assert!(!shared.channels()[0].changed());

    let mut tick: u32 = 2;
    while tick <= 200 {
        shared.on_tick(pressed(0));
        assert!(!shared.channels()[0].changed());
        assert!(shared.channels()[0].stable_state());
        tick += 1;
    }
    assert_eq!(shared.drain_changes(), [None, None, None, None]);
}

#[test]
fn bounce_inside_the_cooldown_is_not_seen() {
    let mut shared = board();
    let bounce: [u32; 10] = [
        pressed(1),
        pressed(1),
        pressed(1),
        IDLE,
        IDLE,
        IDLE,
        pressed(1),
        pressed(1),
        pressed(1),
        pressed(1),
    ];
    for port_bits in bounce {
        shared.on_tick(port_bits);
        assert!(shared.channels()[1].stable_state());
    }
    assert_eq!(shared.channels()[1].debounce_ticks(), 91);
    assert_eq!(shared.drain_changes(), [None, Some(true), None, None]);
    assert_eq!(shared.drain_changes(), [None, None, None, None]);
    assert!(shared.channels()[1].stable_state());
}

#[test]
fn each_input_follows_its_own_pin() {
    let mut input: usize = 0;
    while input < INPUT_COUNT {
        let mut shared = board();
        shared.on_tick(pressed(input));
        let channels = shared.channels();
        let mut other: usize = 0;
        while other < INPUT_COUNT {
            assert_eq!(channels[other].stable_state(), other == input);
            assert_eq!(channels[other].changed(), other == input);
            other += 1;
        }
        input += 1;
    }
}

#[test]
fn inputs_debounce_independently() {
    let mut shared = board();
    shared.on_tick(pressed(0));
    let mut tick: u32 = 0;
    while tick < 40 {
        shared.on_tick(pressed(0));
        tick += 1;
    }
    shared.on_tick(pressed(0) & pressed(2));
    let channels = shared.channels();
    assert_eq!(channels[0].debounce_ticks(), 59);
    assert_eq!(channels[2].debounce_ticks(), 100);
    assert!(channels[2].stable_state());
    assert_eq!(shared.drain_changes(), [Some(true), None, Some(true), None]);
}

#[test]
fn release_is_reported_after_the_cooldown() {
    let mut shared = board();
    shared.on_tick(pressed(3));
    shared.drain_changes();
    let mut tick: u32 = 0;
    while tick < COOLDOWN_TICKS {
        shared.on_tick(IDLE);
        assert_eq!(shared.drain_changes(), [None, None, None, None]);
        tick += 1;
    }
    shared.on_tick(IDLE);
    assert_eq!(shared.drain_changes(), [None, None, None, Some(false)]);
}

#[test]
fn tick_counts_the_timebase_down_and_runs_the_inputs() {
    let mut shared = board();
    shared.start_delay(3);
    assert_eq!(shared.remaining(), 3);
    assert!(!shared.delay_elapsed());
    shared.on_tick(pressed(2));
    assert_eq!(shared.remaining(), 2);
    assert!(shared.channels()[2].changed());
    shared.on_tick(IDLE);
    shared.on_tick(IDLE);
    assert!(shared.delay_elapsed());
    shared.on_tick(IDLE);
    assert_eq!(shared.remaining(), 0);
}

#[test]
fn start_delay_leaves_the_inputs_alone() {
    let mut shared = board();
    shared.on_tick(pressed(1));
    shared.on_tick(pressed(1));
    shared.start_delay(100);
    let channels = shared.channels();
    assert!(channels[1].changed());
    assert!(channels[1].stable_state());
    assert_eq!(channels[1].debounce_ticks(), 99);
    assert!(!channels[0].changed());
}

#[test]
fn drain_leaves_timebase_states_and_cooldowns_alone() {
    let mut shared = board();
    shared.start_delay(10);
    shared.on_tick(pressed(0) & pressed(3));
    shared.on_tick(IDLE);
    shared.drain_changes();
    assert_eq!(shared.remaining(), 8);
    let channels = shared.channels();
    assert!(channels[0].stable_state());
    assert!(channels[3].stable_state());
    assert!(!channels[1].stable_state());
    assert_eq!(channels[0].debounce_ticks(), 99);
    assert_eq!(channels[3].debounce_ticks(), 99);
    assert_eq!(shared.wiring()[0].pin, 12);
}

#[test]
fn active_high_input_reads_the_opposite_level() {
    let mut shared = SharedState::new([
        Wiring { pin: 0, polarity: Polarity::ActiveHigh },
        Wiring { pin: 1, polarity: Polarity::ActiveLow },
        Wiring { pin: 2, polarity: Polarity::ActiveHigh },
        Wiring { pin: 3, polarity: Polarity::ActiveLow },
    ]);
    shared.on_tick(0b1101);
    assert_eq!(shared.drain_changes(), [Some(true), Some(true), Some(true), None]);
}

#[test]
fn input_on_a_pin_beyond_the_port_reads_low_for_ever() {
    let mut shared = SharedState::new([
        Wiring { pin: 32, polarity: Polarity::ActiveHigh },
        Wiring { pin: 32, polarity: Polarity::ActiveLow },
        Wiring { pin: 200, polarity: Polarity::ActiveHigh },
        Wiring { pin: 200, polarity: Polarity::ActiveLow },
    ]);
    shared.on_tick(u32::MAX);
    assert_eq!(shared.drain_changes(), [None, Some(true), None, Some(true)]);
}
