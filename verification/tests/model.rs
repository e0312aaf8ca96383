use wdrlib::config::{ProcessConfig, WdrConfig};
use wdrlib::info::{NodeInfo, ProcessInfo, State};

fn pc(name: &str, version: &str) -> ProcessConfig {
    ProcessConfig {
        name: name.to_string(),
        version: version.to_string(),
        resource: format!("https://example.com/path/to/{}", name),
        cmd: format!("./{}", name),
    }
}

#[test]
fn process_config_equality_is_field_by_field() {
    let a = pc("hello", "1");
    assert!(a.equals(&pc("hello", "1")));
    assert!(!a.equals(&pc("hello", "2")));
    let mut c = pc("hello", "1");
    c.cmd = "./other".to_string();
    assert!(!a.equals(&c));
    assert!(a.duplicate().equals(&a));
}

#[test]
fn wdr_config_equality_depends_on_order_and_length() {
    let a = WdrConfig { configs: vec![pc("hello", "1"), pc("world", "1")] };
    let b = WdrConfig { configs: vec![pc("hello", "1"), pc("world", "1")] };
    let swapped = WdrConfig { configs: vec![pc("world", "1"), pc("hello", "1")] };
    let shorter = WdrConfig { configs: vec![pc("hello", "1")] };
    assert!(a.equals(&b));
    assert!(!a.equals(&swapped));
    assert!(!a.equals(&shorter));
    assert!(WdrConfig::default().equals(&WdrConfig { configs: vec![] }));
    assert!(WdrConfig { configs: a.configs.clone() }.equals(&a));
}

fn pi(name: &str, version: &str, state: State) -> ProcessInfo {
    ProcessInfo { name: name.to_string(), version: version.to_string(), state }
}

#[test]
fn node_info_record_replaces_report_of_same_name() {
    let mut info = NodeInfo::new();
    info.record(pi("hello", "1", State::Init));
    info.record(pi("world", "1", State::Downloading));
    info.record(pi("hello", "1", State::Running));
    assert_eq!(info.process_info_list.len(), 2);
    assert_eq!(info.process_info_list[0].name, "hello");
    assert_eq!(info.process_info_list[0].state, State::Running);
    assert_eq!(info.process_info_list[1].name, "world");
    assert_eq!(info.process_info_list[1].state, State::Downloading);
    info.record(pi("what", "2", State::Stopped));
    assert_eq!(info.process_info_list.len(), 3);
    assert_eq!(info.process_info_list[2].version, "2");
}

#[test]
fn a_run_of_reports_keeps_the_last_of_each_process() {
    let run = vec![
        pi("a", "1", State::Init),
        pi("b", "1", State::Init),
        pi("a", "1", State::Ready),
        pi("c", "3", State::Downloading),
        pi("b", "2", State::Running),
        pi("a", "1", State::Running),
    ];
    let mut info = NodeInfo::new();
    for report in run {
        info.record(report);
    }
    let got: Vec<(String, String, State)> = info
        .process_info_list
        .iter()
        .map(|p| (p.name.clone(), p.version.clone(), p.state))
        .collect();
    assert_eq!(
        got,
        vec![
            ("a".to_string(), "1".to_string(), State::Running),
            ("b".to_string(), "2".to_string(), State::Running),
            ("c".to_string(), "3".to_string(), State::Downloading),
        ]
    );
}
