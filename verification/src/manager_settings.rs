use vstd::prelude::*;

use crate::settings::{lookup_setting, setting_value, DEFAULT_ZK_CONNECT_STRING, ZK_CONNECT_STRING_KEY};

verus! {

/// The address that the manager's HTTP service listens on.
pub const ADDRESS: &'static str = "127.0.0.1:8080";

/// The settings that the manager runs with: only where ZooKeeper is.
#[derive(Debug, Clone)]
pub struct ManagerSettings {
    pub zk_connect_string: String,
}

/// The manager's settings from the loaded entries (from the settings file
/// and the environment, the later entry winning); the connect string falls
/// back to its default where no entry sets it, and no other entry is read.
pub fn init(loaded: &Vec<(String, String)>) -> (r: ManagerSettings)
    ensures
        r.zk_connect_string@ == setting_value(
            loaded@,
            ZK_CONNECT_STRING_KEY@,
            DEFAULT_ZK_CONNECT_STRING@,
        ),
{
    ManagerSettings {
        zk_connect_string: lookup_setting(loaded, ZK_CONNECT_STRING_KEY, DEFAULT_ZK_CONNECT_STRING),
    }
}

} // verus!
