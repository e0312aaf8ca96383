use vstd::prelude::*;
use vstd::string::*;

verus! {

/// The host name used where the machine's cannot be read.
pub const UNKNOWN_HOST: &'static str = "UNKNOWN_HOST";

/// The address used where the machine's cannot be found.
pub const UNKNOWN_IP_ADDR: &'static str = "UNKNOWN_IP_ADDR";

/// The setting that names the directory where processes are downloaded and run.
pub const WORKSPACE_KEY: &'static str = "workspace";

/// The setting that lists the ZooKeeper servers.
pub const ZK_CONNECT_STRING_KEY: &'static str = "zk_connect_string";

/// The workspace directory where no setting names one.
pub const DEFAULT_WORKSPACE: &'static str = "workspace";

/// The ZooKeeper servers where no setting lists them.
pub const DEFAULT_ZK_CONNECT_STRING: &'static str = "localhost:2181";

/// Reads the machine's host name with `gethostname::gethostname`, as a
/// `String` where it is valid Unicode. Nothing is claimed of it: it is the
/// machine's.
#[verifier::external_body]
fn read_host_name() -> (r: Option<String>) {
    gethostname::gethostname().into_string().ok()
}

/// Finds the machine's outward IP address with `local_ipaddress::get`.
/// Nothing is claimed of it: it is the machine's and the network's.
#[verifier::external_body]
fn read_ip_addr() -> (r: Option<String>) {
    local_ipaddress::get()
}

/// The text of `s`, or `fallback` where there is none.
pub open spec fn or_fallback(s: Option<String>, fallback: Seq<char>) -> Seq<char> {
    match s {
        Some(v) => v@,
        None => fallback,
    }
}

/// The name of a node: its host name, a dash, and its IP address.
pub open spec fn node_name_of(host: Seq<char>, ip: Seq<char>) -> Seq<char> {
    host + seq!['-'] + ip
}

/// The name of the node on `host` at `ip`.
pub fn wdr_node_name(host: &str, ip: &str) -> (r: String)
    ensures
        r@ == node_name_of(host@, ip@),
{
    let mut r = String::new();
    r.append(host);
    r.append("-");
    r.append(ip);
    proof {
        reveal_strlit("-");
        assert(r@ =~= node_name_of(host@, ip@));
    }
    r
}

/// The name of a node from what was read of its host name and address,
/// each replaced by its "unknown" marker where it could not be read.
pub fn node_name_from(host: Option<String>, ip: Option<String>) -> (r: String)
    ensures
        r@ == node_name_of(or_fallback(host, UNKNOWN_HOST@), or_fallback(ip, UNKNOWN_IP_ADDR@)),
{
    let host_name = match host {
        Some(h) => h,
        None => UNKNOWN_HOST.to_owned(),
    };
    let ip_addr = match ip {
        Some(i) => i,
        None => UNKNOWN_IP_ADDR.to_owned(),
    };
    wdr_node_name(host_name.as_str(), ip_addr.as_str())
}

/// The name of this node: its host name and IP address joined by a dash.
/// The machine's values are read on each call, so a program that needs one
/// name for its whole run calls this once and keeps the result.
pub fn get_wdr_node_name() -> (r: String)
    ensures
        exists|host: Option<String>, ip: Option<String>|
            r@ == node_name_of(
                #[trigger] or_fallback(host, UNKNOWN_HOST@),
                #[trigger] or_fallback(ip, UNKNOWN_IP_ADDR@),
            ),
{
    let host = read_host_name();
    let ip = read_ip_addr();
    let ghost (h, i) = (host, ip);
    let r = node_name_from(host, ip);
    proof {
        assert(r@ == node_name_of(or_fallback(h, UNKNOWN_HOST@), or_fallback(i, UNKNOWN_IP_ADDR@)));
    }
    r
}

/// The value that `entries` give to `key`: that of the last entry with
/// that key, or `default` where none has it.
pub open spec fn setting_value(
    entries: Seq<(String, String)>,
    key: Seq<char>,
    default: Seq<char>,
) -> Seq<char>
    decreases entries.len(),
{
    if entries.len() == 0 {
        default
    } else if entries.last().0@ == key {
        entries.last().1@
    } else {
        setting_value(entries.drop_last(), key, default)
    }
}

/// `entries[i]` is the last entry that sets `key`.
pub open spec fn is_last_entry(entries: Seq<(String, String)>, key: Seq<char>, i: int) -> bool {
    &&& 0 <= i < entries.len()
    &&& entries[i].0@ == key
    &&& forall|j: int| i < j < entries.len() ==> #[trigger] entries[j].0@ != key
}

/// Some entry of `entries` sets `key`.
pub open spec fn has_key(entries: Seq<(String, String)>, key: Seq<char>) -> bool {
    exists|i: int| 0 <= i < entries.len() && #[trigger] entries[i].0@ == key
}

/// The value of a setting is that of the last entry that sets it, wherever
/// that entry stands; the default is used exactly where no entry sets it.
pub proof fn lemma_setting_value_law(entries: Seq<(String, String)>, key: Seq<char>, default: Seq<char>)
    ensures
        has_key(entries, key) ==> exists|i: int|
            #[trigger] is_last_entry(entries, key, i) && setting_value(entries, key, default)
                == entries[i].1@,
        !has_key(entries, key) ==> setting_value(entries, key, default) == default,
    decreases entries.len(),
{
    if entries.len() > 0 {
        let d = entries.drop_last();
        let n = entries.len() - 1;
        lemma_setting_value_law(d, key, default);
        if entries[n].0@ == key {
            assert(is_last_entry(entries, key, n));
        } else {
            if has_key(entries, key) {
                let i = choose|i: int| 0 <= i < entries.len() && #[trigger] entries[i].0@ == key;
                assert(d[i] == entries[i]);
                assert(has_key(d, key));
                let k = choose|k: int|
                    #[trigger] is_last_entry(d, key, k) && setting_value(d, key, default) == d[k].1@;
                assert(d[k] == entries[k]);
                assert forall|j: int| k < j < entries.len() implies #[trigger] entries[j].0@ != key by {
                    if j < n {
                        assert(d[j] == entries[j]);
                    }
                }
                assert(is_last_entry(entries, key, k));
            } else {
                assert forall|i: int| 0 <= i < d.len() implies #[trigger] d[i].0@ != key by {
                    assert(d[i] == entries[i]);
                }
            }
        }
    }
}

/// The value that `entries` give to `key`, or `default`.
pub fn lookup_setting(entries: &Vec<(String, String)>, key: &str, default: &str) -> (r: String)
    ensures
        r@ == setting_value(entries@, key@, default@),
        has_key(entries@, key@) ==> exists|i: int|
            #[trigger] is_last_entry(entries@, key@, i) && r@ == entries@[i].1@,
        !has_key(entries@, key@) ==> r@ == default@,
{
    proof {
        lemma_setting_value_law(entries@, key@, default@);
    }
    let key_string = key.to_owned();
    let mut k: usize = entries.len();
    proof {
        assert(entries@.subrange(0, k as int) =~= entries@);
    }
    while k > 0
        invariant
            k <= entries.len(),
            key_string@ == key@,
            setting_value(entries@, key@, default@) == setting_value(
                entries@.subrange(0, k as int),
                key@,
                default@,
            ),
        decreases k,
    {
        let ghost prefix = entries@.subrange(0, k as int);
        if entries[k - 1].0 == key_string {
            proof {
                assert(prefix.last() == entries@[k - 1]);
                lemma_setting_value_law(entries@, key@, default@);
            }
            return entries[k - 1].1.clone();
        }
        proof {
            assert(prefix.last() == entries@[k - 1]);
            assert(prefix.drop_last() =~= entries@.subrange(0, k - 1));
        }
        k = k - 1;
    }
    proof {
        assert(entries@.subrange(0, 0) =~= Seq::<(String, String)>::empty());
    }
    default.to_owned()
}

/// The settings that a node runs with.
#[derive(Debug, Clone)]
pub struct Settings {
    pub workspace: String,
    pub zk_connect_string: String,
}

/// The node's settings from the loaded entries (from the settings file and
/// the environment, the later entry winning), each falling back to its
/// default where no entry sets it.
pub fn init(loaded: &Vec<(String, String)>) -> (r: Settings)
    ensures
        r.workspace@ == setting_value(loaded@, WORKSPACE_KEY@, DEFAULT_WORKSPACE@),
        r.zk_connect_string@ == setting_value(
            loaded@,
            ZK_CONNECT_STRING_KEY@,
            DEFAULT_ZK_CONNECT_STRING@,
        ),
{
    Settings {
        workspace: lookup_setting(loaded, WORKSPACE_KEY, DEFAULT_WORKSPACE),
        zk_connect_string: lookup_setting(loaded, ZK_CONNECT_STRING_KEY, DEFAULT_ZK_CONNECT_STRING),
    }
}

} // verus!
