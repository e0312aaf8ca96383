use wdrlib::zk::{ZkFailure, BAD_ARGUMENTS, SESSION_TIMEOUT_SECS, SYSTEM_ERROR};

#[test]
fn failures_keep_their_code() {
    assert_eq!(ZkFailure::from_code(BAD_ARGUMENTS), ZkFailure { code: -8 });
    assert_eq!(ZkFailure::from_code(SYSTEM_ERROR), ZkFailure { code: -1 });
    assert_eq!(ZkFailure::from_code(-101).code, -101);
}

#[test]
fn sessions_time_out_after_fifteen_seconds() {
    assert_eq!(SESSION_TIMEOUT_SECS, 15);
}
