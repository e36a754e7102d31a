use stimulus::flicker::{Acquisition, FillColor, FlickerDriver, FrameAction};

#[test]
fn new_driver_has_the_flag_unset() {
    let driver = FlickerDriver::new();
    assert!(!driver.flag());
    assert_eq!(driver.select(), FillColor::ColorB);
}

#[test]
fn select_follows_the_flag() {
    let mut driver = FlickerDriver::new();
    driver.cycle(Acquisition::Acquired);
    assert!(driver.flag());
    assert_eq!(driver.select(), FillColor::ColorA);
}

#[test]
fn select_does_not_flip() {
    let driver = FlickerDriver::new();
    assert_eq!(driver.select(), driver.select());
    assert!(!driver.flag());
}

#[test]
fn successful_cycles_alternate() {
    let mut driver = FlickerDriver::new();
    let mut previous = None;
    for cycle in 0..64 {
        let action = driver.cycle(Acquisition::Acquired);
        let expected = if cycle % 2 == 0 {
            FillColor::ColorB
        } else {
            FillColor::ColorA
        };
        assert_eq!(action, FrameAction::Present(expected));
        assert_ne!(Some(action), previous);
        previous = Some(action);
    }
}

#[test]
fn failed_cycle_is_skipped_and_flips() {
    let mut driver = FlickerDriver::new();
    assert_eq!(driver.cycle(Acquisition::Failed), FrameAction::Skip);
    assert!(driver.flag());
    assert_eq!(
        driver.cycle(Acquisition::Acquired),
        FrameAction::Present(FillColor::ColorA)
    );
}

#[test]
fn failure_does_not_shift_the_sequence() {
    for failing in 0..10 {
        let mut clean = FlickerDriver::new();
        let mut faulty = FlickerDriver::new();
        for cycle in 0..12 {
            let expected = clean.cycle(Acquisition::Acquired);
            if cycle == failing {
                assert_eq!(faulty.cycle(Acquisition::Failed), FrameAction::Skip);
            } else {
                assert_eq!(faulty.cycle(Acquisition::Acquired), expected);
            }
            assert_eq!(faulty.flag(), clean.flag());
        }
    }
}

#[test]
fn repeated_failures_keep_flipping() {
    let mut driver = FlickerDriver::new();
    for cycle in 0..7 {
        assert_eq!(driver.flag(), cycle % 2 == 1);
        assert_eq!(driver.cycle(Acquisition::Failed), FrameAction::Skip);
    }
    assert!(driver.flag());
}
