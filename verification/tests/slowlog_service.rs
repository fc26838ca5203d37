//! Slow-request records and the broker service facade.

use undermoon::cluster::SlotRangeTag;
use undermoon::protocol::{Array, BulkStr, Resp};
use undermoon::service::{MemBrokerConfig, MemBrokerService, ProxyResource};
use undermoon::slowlog::{Command, Slowlog, SlowRequestLogger, TaskEvent};
use undermoon::store::MigrationType;

fn bulk(s: &str) -> Resp {
    Resp::Bulk(BulkStr::Str(s.as_bytes().to_vec()))
}

#[test]
fn brief_command_keeps_five_tokens() {
    let cmd = Command::new(Resp::Arr(Array::Arr(vec![
        bulk("MSET"),
        bulk("a"),
        bulk("1"),
        bulk("b"),
        bulk("2"),
        bulk("c"),
        bulk("3"),
    ])));
    let log = Slowlog::from_command(&cmd, 7);
    assert_eq!(log.session_id, 7);
    assert_eq!(log.command, vec!["MSET", "a", "1", "b", "2"]);
}

#[test]
fn brief_command_truncates_long_tokens() {
    let long = "x".repeat(150);
    let cmd = Command::new(Resp::Arr(Array::Arr(vec![bulk("GET"), bulk(&long)])));
    let log = Slowlog::from_command(&cmd, 0);
    let mut expected = "x".repeat(100);
    expected.push_str("(150chars)");
    assert_eq!(log.command, vec!["GET".to_string(), expected]);
}

#[test]
fn brief_command_renders_binary_payloads() {
    let cmd = Command::new(Resp::Arr(Array::Arr(vec![
        bulk("SET"),
        Resp::Bulk(BulkStr::Str(vec![0xff, 1, 2])),
        Resp::Bulk(BulkStr::Nil),
    ])));
    let log = Slowlog::from_command(&cmd, 0);
    assert_eq!(log.command, vec!["SET", "[255, 1, 2]", "(nil)"]);
    let plain = Command::new(bulk("PING"));
    let log = Slowlog::from_command(&plain, 0);
    assert_eq!(log.command, vec!["(non-array)"]);
}

#[test]
fn used_time_measures_from_creation() {
    let cmd = Command::new(Resp::Arr(Array::Arr(vec![bulk("GET"), bulk("k")])));
    let mut log = Slowlog::from_command(&cmd, 1);
    assert_eq!(log.event_map.get_used_time(TaskEvent::WaitDone), 0);
    log.event_map.set_event_time(TaskEvent::Created, 1_000);
    log.event_map.set_event_time(TaskEvent::WaitDone, 5_500);
    assert_eq!(log.event_map.get_used_time(TaskEvent::WaitDone), 4_500);
    assert_eq!(log.event_map.get_used_time(TaskEvent::SentToBackend), 0);
}

#[test]
fn logger_keeps_only_slow_requests() {
    let cmd = Command::new(Resp::Arr(Array::Arr(vec![bulk("GET"), bulk("k")])));
    let mut logger = SlowRequestLogger::new(4, 1_000);
    let mut fast = Slowlog::from_command(&cmd, 1);
    fast.event_map.set_event_time(TaskEvent::Created, 0);
    fast.event_map.set_event_time(TaskEvent::WaitDone, 500);
    logger.add_slow_log(fast);
    assert!(logger.get(None).is_empty());
    let mut slow = Slowlog::from_command(&cmd, 2);
    slow.event_map.set_event_time(TaskEvent::Created, 0);
    slow.event_map.set_event_time(TaskEvent::WaitDone, 5_000);
    logger.add_slow_log(slow);
    let kept = logger.get(None);
    assert_eq!(kept.len(), 1);
    assert_eq!(kept[0].session_id, 2);
    assert_eq!(logger.get(Some(0)).len(), 0);
    logger.reset();
    assert!(logger.get(None).is_empty());
}

fn service() -> MemBrokerService {
    MemBrokerService::new(MemBrokerConfig {
        address: "127.0.0.1:7799".to_string(),
        failure_ttl: 60,
    })
}

#[test]
fn service_drives_the_store() {
    let mut broker = service();
    broker
        .add_hosts(ProxyResource {
            proxy_address: "p1".to_string(),
            nodes: vec!["n1a".to_string(), "n1b".to_string()],
        })
        .unwrap();
    broker
        .add_hosts(ProxyResource {
            proxy_address: "p2".to_string(),
            nodes: vec!["n2a".to_string(), "n2b".to_string()],
        })
        .unwrap();
    assert_eq!(
        broker.get_host_addresses(),
        vec!["p1".to_string(), "p2".to_string()]
    );
    broker.add_cluster("c1".to_string()).unwrap();
    assert_eq!(broker.get_cluster_names(), vec!["c1".to_string()]);
    broker.auto_add_node("c1".to_string()).unwrap();
    broker.auto_add_node("c1".to_string()).unwrap();
    let cluster = broker.get_cluster_by_name(&"c1".to_string()).unwrap();
    assert_eq!(cluster.nodes.len(), 4);
    broker
        .migrate_slots(
            "c1".to_string(),
            "n1a".to_string(),
            "n2a".to_string(),
            MigrationType::All,
        )
        .unwrap();
    let cluster = broker.get_cluster_by_name(&"c1".to_string()).unwrap();
    let n1a = cluster.nodes.iter().find(|n| n.address == "n1a").unwrap();
    assert!(matches!(n1a.slots[0].tag, SlotRangeTag::Migrating(_)));
    broker
        .stop_migrations("c1".to_string(), "n1a".to_string(), "n2a".to_string())
        .unwrap();
    assert!(broker.validate_meta().is_ok());
    // Reporting a failure twice through the service meets the quorum.
    broker.add_failure("p1".to_string(), "r1".to_string());
    broker.add_failure("p1".to_string(), "r2".to_string());
    assert_eq!(broker.get_failures(), vec!["p1".to_string()]);
    let snapshot = broker.get_all_data();
    assert_eq!(snapshot.clusters.len(), 1);
}
