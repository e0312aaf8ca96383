use wdrlib::service::{found_reply, session_reply, written_reply, Status};
use wdrlib::zk::{ZkFailure, BAD_ARGUMENTS, SYSTEM_ERROR};

#[test]
fn no_session_is_an_internal_error() {
    for code in [BAD_ARGUMENTS, SYSTEM_ERROR] {
        match session_reply(Err(ZkFailure { code })) {
            Err(status) => assert_eq!(status, Status::InternalServerError),
            Ok(client) => {
                std::mem::forget(client);
                panic!("no session was opened");
            }
        }
    }
}

#[test]
fn replies_to_lookups_and_writes() {
    assert_eq!(found_reply(Some(3)), Ok(3));
    assert_eq!(found_reply::<u8>(None), Err(Status::NotFound));
    assert_eq!(written_reply(true), Status::Success);
    assert_eq!(written_reply(false), Status::InternalServerError);
}
