use wdrlib::paths::{parent_path, zk_node_info_path, zk_node_path, ZK_CONFIG_PATH, ZK_INFO_PATH, ZK_NODE_PATH};

#[test]
fn zk_layout_paths() {
    assert_eq!(ZK_CONFIG_PATH, "/config");
    assert_eq!(ZK_NODE_PATH, "/node");
    assert_eq!(ZK_INFO_PATH, "/info");
    assert_eq!(zk_node_path("node-a-192.66.66.66"), "/node/node-a-192.66.66.66");
    assert_eq!(zk_node_info_path("node-b"), "/info/node-b");
}

#[test]
fn parent_path_is_what_precedes_the_last_slash() {
    assert_eq!(parent_path("/node/host-ip"), "/node");
    assert_eq!(parent_path("/node"), "");
    assert_eq!(parent_path("/a/b/c"), "/a/b");
    assert_eq!(parent_path("/a/"), "/a");
    assert_eq!(parent_path("plain"), "");
    assert_eq!(parent_path(""), "");
    assert_eq!(parent_path("/ä/ö"), "/ä");
}

#[test]
fn chain_of_parents_is_at_most_one_longer_than_the_slashes() {
    for path in ["/a/b/c", "/node/host-ip", "plain", "a/b", "/a/", "//", ""] {
        let mut steps = 0;
        let mut p = path.to_string();
        while !p.is_empty() {
            p = parent_path(&p);
            steps += 1;
        }
        assert!(steps <= path.matches('/').count() + 1, "{}", path);
    }
    let mut p = "/a/b/c".to_string();
    let mut steps = 0;
    while !p.is_empty() {
        p = parent_path(&p);
        steps += 1;
    }
    assert_eq!(steps, 3);
}
