use crossbeam::channel::{bounded, Receiver};
use wdrlib::config::ProcessConfig;
use wdrlib::workers::{valid_process_names, Worker, Workers};

fn pc(name: &str, version: &str) -> ProcessConfig {
    ProcessConfig {
        name: name.to_string(),
        version: version.to_string(),
        resource: String::new(),
        cmd: String::new(),
    }
}

fn worker(version: &str) -> (Worker, Receiver<()>) {
    let (tx, rx) = bounded(1);
    (Worker::new(version.to_string(), tx), rx)
}

#[test]
fn flush_starts_only_what_is_not_running() {
    let mut workers = Workers::new();
    assert!(workers.begin_flush(&pc("hello", "1")));
    let (w, rx) = worker("1");
    workers.insert("hello".to_string(), w);
    assert!(!workers.begin_flush(&pc("hello", "1")));
    assert!(rx.try_recv().is_err());
    assert!(workers.begin_flush(&pc("hello", "2")));
    assert!(rx.try_recv().is_ok());
}

#[test]
fn insert_replaces_and_drops_the_old_worker() {
    let mut workers = Workers::new();
    let (w1, rx1) = worker("1");
    workers.insert("hello".to_string(), w1);
    let (w2, _rx2) = worker("2");
    workers.insert("hello".to_string(), w2);
    assert_eq!(rx1.try_recv(), Err(crossbeam::channel::TryRecvError::Disconnected));
    assert!(!workers.begin_flush(&pc("hello", "2")));
    assert_eq!(workers.stop_all(), 1);
}

#[test]
fn clear_stops_and_removes_workers_not_configured() {
    let mut workers = Workers::new();
    let (wa, rxa) = worker("1");
    let (wb, rxb) = worker("1");
    let (wc, rxc) = worker("1");
    workers.insert("a".to_string(), wa);
    workers.insert("b".to_string(), wb);
    workers.insert("c".to_string(), wc);
    let names = valid_process_names(&vec![pc("b", "1"), pc("d", "1")]);
    assert_eq!(names, vec!["b".to_string(), "d".to_string()]);
    workers.clear_useless_processes(&names);
    assert!(rxa.try_recv().is_ok());
    assert!(rxb.try_recv().is_err());
    assert!(rxc.try_recv().is_ok());
    assert!(!workers.begin_flush(&pc("b", "1")));
    assert!(workers.begin_flush(&pc("a", "1")));
    assert_eq!(workers.stop_all(), 1);
    assert!(rxb.try_recv().is_ok());
}

#[test]
fn reconcile_pass_leaves_exactly_the_configuration() {
    let mut workers = Workers::new();
    let mut receivers = Vec::new();
    for (n, v) in [("old", "1"), ("hello", "1"), ("world", "0")] {
        let (w, rx) = worker(v);
        workers.insert(n.to_string(), w);
        receivers.push(rx);
    }
    let configs = vec![pc("hello", "1"), pc("world", "1")];
    for c in &configs {
        if workers.begin_flush(c) {
            let (w, rx) = worker(&c.version);
            workers.insert(c.name.clone(), w);
            receivers.push(rx);
        }
    }
    workers.clear_useless_processes(&valid_process_names(&configs));
    for c in &configs {
        assert!(!workers.begin_flush(c));
    }
    assert_eq!(workers.stop_all(), 2);
}

#[test]
fn stop_all_signals_each_worker_once() {
    let mut workers = Workers::new();
    let (wa, rxa) = worker("1");
    let (wb, rxb) = worker("2");
    workers.insert("a".to_string(), wa);
    workers.insert("b".to_string(), wb);
    assert_eq!(workers.stop_all(), 2);
    assert!(rxa.try_recv().is_ok());
    assert!(rxa.try_recv().is_err());
    assert!(rxb.try_recv().is_ok());
    assert!(rxb.try_recv().is_err());
}

#[test]
fn second_clear_stops_nothing() {
    let mut workers = Workers::new();
    let (wa, rxa) = worker("1");
    let (wb, rxb) = worker("1");
    workers.insert("hello".to_string(), wa);
    workers.insert("what".to_string(), wb);
    let names = vec!["hello".to_string(), "world".to_string()];
    workers.clear_useless_processes(&names);
    assert!(rxa.try_recv().is_err());
    assert!(rxb.try_recv().is_ok());
    assert!(rxb.try_recv().is_err());
    workers.clear_useless_processes(&names);
    assert!(rxa.try_recv().is_err());
    assert!(!workers.begin_flush(&pc("hello", "1")));
    assert!(workers.begin_flush(&pc("world", "1")));
    assert!(rxa.try_recv().is_err());
}
