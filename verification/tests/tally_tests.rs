use depsize::tally::{SizeTally, WalkAction, WalkEvent};

#[test]
fn a_new_tally_is_empty() {
    assert_eq!(SizeTally::new().total(), 0);
}

#[test]
fn only_regular_files_are_measured() {
    let mut tally = SizeTally::new();
    assert_eq!(tally.step(WalkEvent::Entry { regular_file: true }), WalkAction::Measure);
    assert_eq!(tally.step(WalkEvent::Entry { regular_file: false }), WalkAction::Next);
    assert_eq!(tally.total(), 0);
}

#[test]
fn an_unreadable_entry_is_reported_and_passed_over() {
    let mut tally = SizeTally::new();
    assert_eq!(tally.step(WalkEvent::Measured { len: 7 }), WalkAction::Next);
    assert_eq!(tally.step(WalkEvent::EntryFailed), WalkAction::Report);
    assert_eq!(tally.total(), 7);
    assert_eq!(tally.step(WalkEvent::Measured { len: 5 }), WalkAction::Next);
    assert_eq!(tally.total(), 12);
}

#[test]
fn a_failed_read_ends_the_walk() {
    let mut tally = SizeTally::new();
    assert_eq!(tally.step(WalkEvent::Measured { len: 7 }), WalkAction::Next);
    assert_eq!(tally.step(WalkEvent::MeasureFailed), WalkAction::Fail);
    assert_eq!(tally.total(), 7);
}

fn walk(events: &[WalkEvent]) -> u64 {
    let mut tally = SizeTally::new();
    for event in events {
        let action = tally.step(*event);
        assert!(action != WalkAction::Fail && action != WalkAction::Overflow);
    }
    tally.total()
}

#[test]
fn the_total_is_the_sum_of_the_files_in_any_order() {
    let file = WalkEvent::Entry { regular_file: true };
    let dir = WalkEvent::Entry { regular_file: false };
    let forwards = [
        dir,
        file,
        WalkEvent::Measured { len: 10 },
        WalkEvent::EntryFailed,
        file,
        WalkEvent::Measured { len: 0 },
        dir,
        file,
        WalkEvent::Measured { len: 4096 },
        file,
        WalkEvent::Measured { len: 1 },
    ];
    let backwards = [
        file,
        WalkEvent::Measured { len: 1 },
        file,
        WalkEvent::Measured { len: 4096 },
        dir,
        file,
        WalkEvent::Measured { len: 0 },
        WalkEvent::EntryFailed,
        dir,
        file,
        WalkEvent::Measured { len: 10 },
    ];
    assert_eq!(walk(&forwards), 4107);
    assert_eq!(walk(&backwards), 4107);
}

#[test]
fn a_total_beyond_64_bits_is_refused() {
    let mut tally = SizeTally::new();
    assert_eq!(tally.step(WalkEvent::Measured { len: u64::MAX - 1 }), WalkAction::Next);
    assert_eq!(tally.step(WalkEvent::Measured { len: 2 }), WalkAction::Overflow);
    assert_eq!(tally.total(), u64::MAX - 1);
    assert_eq!(tally.step(WalkEvent::Measured { len: 1 }), WalkAction::Next);
    assert_eq!(tally.total(), u64::MAX);
}
