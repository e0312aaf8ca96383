use wdrlib::manager_settings::{self, ADDRESS};
use wdrlib::settings::{get_wdr_node_name, init, lookup_setting, node_name_from, wdr_node_name};

#[test]
fn node_name_joins_host_and_address() {
    assert_eq!(wdr_node_name("node-a", "192.66.66.66"), "node-a-192.66.66.66");
    assert_eq!(
        node_name_from(Some("h".to_string()), Some("10.0.0.1".to_string())),
        "h-10.0.0.1"
    );
    assert_eq!(node_name_from(None, None), "UNKNOWN_HOST-UNKNOWN_IP_ADDR");
    assert_eq!(node_name_from(Some("h".to_string()), None), "h-UNKNOWN_IP_ADDR");
}

#[test]
fn this_node_has_a_dashed_name() {
    let name = get_wdr_node_name();
    assert!(name.contains('-'));
}

fn kv(k: &str, v: &str) -> (String, String) {
    (k.to_string(), v.to_string())
}

#[test]
fn settings_fall_back_to_defaults() {
    let s = init(&vec![]);
    assert_eq!(s.workspace, "workspace");
    assert_eq!(s.zk_connect_string, "localhost:2181");
}

#[test]
fn settings_take_the_last_entry_of_a_key() {
    let entries = vec![
        kv("zk_connect_string", "zk1:2181"),
        kv("workspace", "/tmp/ws"),
        kv("zk_connect_string", "zk2:2181"),
    ];
    let s = init(&entries);
    assert_eq!(s.workspace, "/tmp/ws");
    assert_eq!(s.zk_connect_string, "zk2:2181");
    assert_eq!(lookup_setting(&entries, "other", "dflt"), "dflt");
}

#[test]
fn manager_settings_hold_only_the_connect_string() {
    assert_eq!(manager_settings::init(&vec![]).zk_connect_string, "localhost:2181");
    let entries = vec![kv("workspace", "/tmp/ws"), kv("zk_connect_string", "zk9:2181")];
    assert_eq!(manager_settings::init(&entries).zk_connect_string, "zk9:2181");
    assert_eq!(ADDRESS, "127.0.0.1:8080");
}
