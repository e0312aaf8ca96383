use wdrlib::config::{ProcessConfig, WdrConfig};
use wdrlib::manager::{text_of, ConfigWatch};
use wdrlib::zk::ZkFailure;

fn cfg(version: &str) -> WdrConfig {
    WdrConfig {
        configs: vec![ProcessConfig {
            name: "hello".to_string(),
            version: version.to_string(),
            resource: "https://example.com/path/to/hello".to_string(),
            cmd: "./hello".to_string(),
        }],
    }
}

#[test]
fn stored_text_decodes_utf8_only() {
    assert_eq!(text_of(Ok(b"{\"configs\": []}".to_vec())), Some("{\"configs\": []}".to_string()));
    assert_eq!(text_of(Ok("héllo".as_bytes().to_vec())), Some("héllo".to_string()));
    assert_eq!(text_of(Ok(vec![0xff, 0xfe])), None);
    assert_eq!(text_of(Ok(vec![])), Some(String::new()));
}

#[test]
fn watch_flushes_each_new_configuration_once() {
    let mut watch = ConfigWatch::new();
    assert!(watch.on_config(None).is_none());
    assert!(watch.on_config(Some(WdrConfig::default())).is_none());
    let flush = watch.on_config(Some(cfg("1"))).expect("a new configuration is flushed");
    assert_eq!(flush.len(), 1);
    assert_eq!(flush[0].version, "1");
    assert!(watch.on_config(Some(cfg("1"))).is_none());
    assert!(watch.on_config(None).is_none());
    let flush = watch.on_config(Some(cfg("2"))).expect("a changed configuration is flushed");
    assert_eq!(flush[0].version, "2");
    assert!(watch.on_config(Some(WdrConfig::default())).is_some());
}

#[test]
fn text_of_a_read() {
    assert_eq!(text_of(Ok(b"abc".to_vec())), Some("abc".to_string()));
    assert_eq!(text_of(Ok(vec![0xc3])), None);
    assert_eq!(text_of(Err(ZkFailure { code: -101 })), None);
}
