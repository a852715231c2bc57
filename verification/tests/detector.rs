use birdwatcher::detector::ScanState;
use birdwatcher::store::StoreError;

fn appended(n: u64) -> Result<u64, StoreError> {
    Ok(n)
}

#[test]
fn change_suppression_emits_only_first_and_changed_counts() {
    // Counts over eight ticks: a summary appears on the very first tick
    // and whenever the count changes, three times in all.
    let counts: [u64; 8] = [0, 0, 0, 3, 3, 5, 5, 5];
    let mut state = ScanState::new();
    let mut emitted: Vec<(usize, u64)> = Vec::new();
    for (tick, count) in counts.iter().enumerate() {
        if let Some(shown) = state.tick(&appended(*count)) {
            emitted.push((tick, shown));
        }
    }
    assert_eq!(emitted, vec![(0, 0), (3, 3), (5, 5)]);
}

#[test]
fn first_tick_always_emits() {
    let mut state = ScanState::new();
    assert_eq!(state.tick(&appended(0)), Some(0));
    assert_eq!(state.tick(&appended(0)), None);
}

#[test]
fn failed_append_counts_as_zero_and_does_not_stop_the_loop() {
    let mut state = ScanState::new();
    assert_eq!(state.tick(&appended(3)), Some(3));
    let failed: Result<u64, StoreError> = Err(StoreError::Backend(String::from("write refused")));
    // The failure is booked as zero found: a change, so it is shown.
    assert_eq!(state.tick(&failed), Some(0));
    // The loop goes on; a stable zero stays quiet.
    assert_eq!(state.tick(&appended(0)), None);
    assert_eq!(state.tick(&appended(3)), Some(3));
}
