use birdwatcher::lifecycle::{exit_code, install_outcome, RunOutcome};
use birdwatcher::store::StoreError;

#[test]
fn destroy_failure_is_tolerated_when_create_succeeds() {
    // The table may legitimately not exist yet: a failed destroy does not
    // make the install fatal.
    let destroy: Result<u64, StoreError> =
        Err(StoreError::Backend(String::from("table does not exist")));
    let create: Result<u64, StoreError> = Ok(0);
    let outcome = install_outcome(&destroy, &create);
    assert!(matches!(outcome, RunOutcome::Success));
}

#[test]
fn create_failure_is_fatal() {
    let destroy: Result<u64, StoreError> = Ok(0);
    let create: Result<u64, StoreError> =
        Err(StoreError::Backend(String::from("permission denied")));
    let outcome = install_outcome(&destroy, &create);
    assert!(matches!(outcome, RunOutcome::Fatal));
}

#[test]
fn exit_codes_follow_the_outcome() {
    assert_eq!(exit_code(&RunOutcome::Success), 0);
    assert_eq!(exit_code(&RunOutcome::Fatal), 1);
}
