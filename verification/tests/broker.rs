//! End-to-end scenarios against the metadata store.

use undermoon::cluster::{Node, Role, SlotRange, SlotRangeTag, MigrationTaskMeta};
use undermoon::store::{MetaStore, MetaStoreError, MigrationType};

fn two_node_proxy(store: &mut MetaStore, proxy: &str, n1: &str, n2: &str) {
    store
        .add_hosts(proxy.to_string(), vec![n1.to_string(), n2.to_string()])
        .unwrap();
}

fn cluster_node<'a>(store: &'a MetaStore, cluster: usize, addr: &str) -> &'a Node {
    store.clusters[cluster]
        .nodes
        .iter()
        .find(|n| n.address == addr)
        .expect("node not found")
}

fn setup_two_proxies() -> MetaStore {
    let mut store = MetaStore::new();
    two_node_proxy(&mut store, "p1", "n1a", "n1b");
    two_node_proxy(&mut store, "p2", "n2a", "n2b");
    store.add_cluster("c1".to_string()).unwrap();
    let added = store.auto_add_nodes("c1".to_string()).unwrap();
    assert_eq!(added.len(), 2);
    store.auto_add_nodes("c1".to_string()).unwrap();
    store
}

#[test]
fn add_hosts_validates_input() {
    let mut store = MetaStore::new();
    let r = store.add_hosts("p1".to_string(), vec!["n1".to_string()]);
    assert!(matches!(r, Err(MetaStoreError::InvalidNodeCount)));
    two_node_proxy(&mut store, "p1", "n1a", "n1b");
    let r = store.add_hosts("p1".to_string(), vec!["x".to_string(), "y".to_string()]);
    assert!(matches!(r, Err(MetaStoreError::AlreadyExists)));
    assert_eq!(store.get_hosts(), vec!["p1".to_string()]);
}

#[test]
fn add_cluster_twice_rejected() {
    let mut store = MetaStore::new();
    store.add_cluster("c1".to_string()).unwrap();
    let r = store.add_cluster("c1".to_string());
    assert!(matches!(r, Err(MetaStoreError::AlreadyExists)));
    let r = store.remove_cluster("missing".to_string());
    assert!(matches!(r, Err(MetaStoreError::NotFound)));
}

#[test]
fn remove_proxy_respects_membership() {
    let mut store = setup_two_proxies();
    let r = store.remove_proxy("p1".to_string());
    assert!(matches!(r, Err(MetaStoreError::InUse)));
    two_node_proxy(&mut store, "p3", "n3a", "n3b");
    store.remove_proxy("p3".to_string()).unwrap();
    assert!(store.get_host_by_address(&"p3".to_string()).is_none());
}

#[test]
fn auto_add_without_free_proxy_fails() {
    let mut store = setup_two_proxies();
    let r = store.auto_add_nodes("c1".to_string());
    assert!(matches!(r, Err(MetaStoreError::NoAvailableResource)));
}

#[test]
fn first_auto_add_splits_keyspace() {
    let store = setup_two_proxies();
    assert_eq!(store.clusters[0].nodes.len(), 4);
    let n1a = cluster_node(&store, 0, "n1a");
    assert_eq!(n1a.slots.len(), 1);
    assert_eq!((n1a.slots[0].start, n1a.slots[0].end), (0, 8191));
    assert!(matches!(n1a.slots[0].tag, SlotRangeTag::Normal));
    let n1b = cluster_node(&store, 0, "n1b");
    assert_eq!((n1b.slots[0].start, n1b.slots[0].end), (8192, 16383));
    let n2a = cluster_node(&store, 0, "n2a");
    assert!(n2a.slots.is_empty());
    assert!(store.validate().is_ok());
}

#[test]
fn create_and_migrate_half() {
    let mut store = setup_two_proxies();
    let epoch_before = store.global_epoch;
    store
        .migrate_slots(
            "c1".to_string(),
            "n1a".to_string(),
            "n2a".to_string(),
            MigrationType::Half,
        )
        .unwrap();
    assert!(store.global_epoch > epoch_before);
    let n1a = cluster_node(&store, 0, "n1a");
    assert_eq!(n1a.slots.len(), 2);
    assert_eq!((n1a.slots[0].start, n1a.slots[0].end), (0, 4095));
    assert!(matches!(n1a.slots[0].tag, SlotRangeTag::Normal));
    assert_eq!((n1a.slots[1].start, n1a.slots[1].end), (4096, 8191));
    let epoch = match &n1a.slots[1].tag {
        SlotRangeTag::Migrating(m) => {
            assert_eq!(m.src_node_address, "n1a");
            assert_eq!(m.dst_node_address, "n2a");
            assert_eq!(m.src_proxy_address, "p1");
            assert_eq!(m.dst_proxy_address, "p2");
            m.epoch
        }
        _ => panic!("expected a migrating range"),
    };
    assert_eq!(epoch, store.global_epoch);
    let n2a = cluster_node(&store, 0, "n2a");
    assert_eq!(n2a.slots.len(), 1);
    assert_eq!((n2a.slots[0].start, n2a.slots[0].end), (4096, 8191));
    match &n2a.slots[0].tag {
        SlotRangeTag::Importing(m) => assert_eq!(m.epoch, epoch),
        _ => panic!("expected an importing range"),
    }
    assert!(store.validate().is_ok());
}

fn migration_task_of(store: &MetaStore, src: &str) -> MigrationTaskMeta {
    let node = cluster_node(store, 0, src);
    let range = node
        .slots
        .iter()
        .find(|r| matches!(r.tag, SlotRangeTag::Migrating(_)))
        .expect("no migrating range");
    MigrationTaskMeta {
        db_name: "c1".to_string(),
        slot_range: range.clone(),
    }
}

#[test]
fn commit_retires_migration() {
    let mut store = setup_two_proxies();
    store
        .migrate_slots(
            "c1".to_string(),
            "n1a".to_string(),
            "n2a".to_string(),
            MigrationType::Half,
        )
        .unwrap();
    let task = migration_task_of(&store, "n1a");
    store.commit_migration(task).unwrap();
    let n1a = cluster_node(&store, 0, "n1a");
    assert_eq!(n1a.slots.len(), 1);
    assert_eq!((n1a.slots[0].start, n1a.slots[0].end), (0, 4095));
    let n2a = cluster_node(&store, 0, "n2a");
    let normals: Vec<&SlotRange> = n2a
        .slots
        .iter()
        .filter(|r| {
            matches!(r.tag, SlotRangeTag::Normal) && r.start == 4096 && r.end == 8191
        })
        .collect();
    assert_eq!(normals.len(), 1);
    assert!(store.validate().is_ok());
}

#[test]
fn stale_commit_rejected() {
    let mut store = setup_two_proxies();
    store
        .migrate_slots(
            "c1".to_string(),
            "n1a".to_string(),
            "n2a".to_string(),
            MigrationType::Half,
        )
        .unwrap();
    let mut task = migration_task_of(&store, "n1a");
    // Another mutation bumps the cluster epoch; the recorded epoch
    // still matches, so only a tampered epoch is stale.
    store.add_cluster("c2".to_string()).unwrap();
    if let SlotRangeTag::Migrating(m) = &mut task.slot_range.tag {
        m.epoch -= 1;
    }
    let r = store.commit_migration(task);
    assert!(matches!(r, Err(MetaStoreError::NotFound)));
}

#[test]
fn stop_migration_reverts_ranges() {
    let mut store = setup_two_proxies();
    store
        .migrate_slots(
            "c1".to_string(),
            "n1a".to_string(),
            "n2a".to_string(),
            MigrationType::All,
        )
        .unwrap();
    store
        .stop_migrations("c1".to_string(), "n1a".to_string(), "n2a".to_string())
        .unwrap();
    let n1a = cluster_node(&store, 0, "n1a");
    assert_eq!(n1a.slots.len(), 1);
    assert!(matches!(n1a.slots[0].tag, SlotRangeTag::Normal));
    assert_eq!((n1a.slots[0].start, n1a.slots[0].end), (0, 8191));
    let n2a = cluster_node(&store, 0, "n2a");
    assert!(n2a.slots.is_empty());
    let r = store.stop_migrations("c1".to_string(), "n1a".to_string(), "n2a".to_string());
    assert!(matches!(r, Err(MetaStoreError::NotFound)));
    assert!(store.validate().is_ok());
}

#[test]
fn migrate_rejects_bad_input() {
    let mut store = setup_two_proxies();
    let r = store.migrate_slots(
        "missing".to_string(),
        "n1a".to_string(),
        "n2a".to_string(),
        MigrationType::Half,
    );
    assert!(matches!(r, Err(MetaStoreError::NotFound)));
    let r = store.migrate_slots(
        "c1".to_string(),
        "n1a".to_string(),
        "n1a".to_string(),
        MigrationType::Half,
    );
    assert!(matches!(r, Err(MetaStoreError::InvalidKind)));
    let r = store.migrate_slots(
        "c1".to_string(),
        "n2a".to_string(),
        "n1a".to_string(),
        MigrationType::Half,
    );
    // The destination-to-be has no Normal range to shed.
    assert!(matches!(r, Err(MetaStoreError::NotFound)));
}

#[test]
fn remove_cluster_refuses_running_migration() {
    let mut store = setup_two_proxies();
    store
        .migrate_slots(
            "c1".to_string(),
            "n1a".to_string(),
            "n2a".to_string(),
            MigrationType::Half,
        )
        .unwrap();
    let r = store.remove_cluster("c1".to_string());
    assert!(matches!(r, Err(MetaStoreError::MigrationRunning)));
    store
        .stop_migrations("c1".to_string(), "n1a".to_string(), "n2a".to_string())
        .unwrap();
    store.remove_cluster("c1".to_string()).unwrap();
    let p1 = store.get_host_by_address(&"p1".to_string()).unwrap();
    assert!(p1.cluster_name.is_none());
    assert_eq!(p1.free_nodes, vec!["n1a".to_string(), "n1b".to_string()]);
}

#[test]
fn assign_replica_binds_and_checks_roles() {
    let mut store = setup_two_proxies();
    store
        .assign_replica("c1".to_string(), "n1a".to_string(), "n2a".to_string())
        .unwrap();
    let n2a = cluster_node(&store, 0, "n2a");
    assert!(matches!(n2a.role, Role::Replica));
    assert_eq!(n2a.repl_meta.masters, vec!["n1a".to_string()]);
    assert!(store.validate().is_ok());
    // A node that already holds slots cannot become a replica.
    let r = store.assign_replica("c1".to_string(), "n2b".to_string(), "n1a".to_string());
    assert!(matches!(r, Err(MetaStoreError::RoleConflict)));
    // Nor can a node replicate itself.
    let r = store.assign_replica("c1".to_string(), "n2b".to_string(), "n2b".to_string());
    assert!(matches!(r, Err(MetaStoreError::RoleConflict)));
}

#[test]
fn replace_failed_proxy_relocates_assignments() {
    let mut store = setup_two_proxies();
    two_node_proxy(&mut store, "p3", "n3a", "n3b");
    store.add_failure("p1".to_string(), "r1".to_string(), 10);
    store.add_failure("p1".to_string(), "r2".to_string(), 11);
    let new_proxy = store.replace_failed_proxy("p1".to_string()).unwrap();
    assert_eq!(new_proxy.address, "p3");
    assert_eq!(new_proxy.cluster_name, Some("c1".to_string()));
    assert!(store.get_host_by_address(&"p1".to_string()).is_none());
    let n3a = cluster_node(&store, 0, "n3a");
    assert_eq!(n3a.slots.len(), 1);
    assert_eq!((n3a.slots[0].start, n3a.slots[0].end), (0, 8191));
    let n3b = cluster_node(&store, 0, "n3b");
    assert_eq!((n3b.slots[0].start, n3b.slots[0].end), (8192, 16383));
    let failures = store.get_failures(i64::MAX, 100);
    assert!(failures.is_empty());
    assert!(store.validate().is_ok());
}

#[test]
fn replace_failed_proxy_needs_a_free_one() {
    let mut store = setup_two_proxies();
    let r = store.replace_failed_proxy("p1".to_string());
    assert!(matches!(r, Err(MetaStoreError::NoAvailableResource)));
    let r = store.replace_failed_proxy("missing".to_string());
    assert!(matches!(r, Err(MetaStoreError::NotFound)));
}

#[test]
fn failure_detector_quorum_and_expiry() {
    let mut store = MetaStore::new();
    store.add_failure("p1".to_string(), "r1".to_string(), 50);
    // One reporter is not a quorum.
    assert!(store.get_failures(i64::MAX, 100).is_empty());
    store.add_failure("p1".to_string(), "r2".to_string(), 60);
    assert_eq!(store.get_failures(i64::MAX, 100), vec!["p1".to_string()]);
    // The same reporter twice is still one reporter.
    store.add_failure("p2".to_string(), "r1".to_string(), 50);
    store.add_failure("p2".to_string(), "r1".to_string(), 60);
    let found = store.get_failures(i64::MAX, 100);
    assert_eq!(found, vec!["p1".to_string()]);
    // Waiting past the TTL purges the reports.
    assert!(store.get_failures(10, 100).is_empty());
    assert!(store.failures.is_empty());
}

#[test]
fn remove_proxy_from_cluster_frees_nodes() {
    let mut store = setup_two_proxies();
    // Removing the proxy whose nodes own all slots while other nodes
    // stay behind breaks coverage and rolls back.
    let r = store.remove_proxy_from_cluster("c1".to_string(), "p1".to_string());
    assert!(matches!(r, Err(MetaStoreError::Inconsistent(_))));
    assert_eq!(store.clusters[0].nodes.len(), 4);
    assert!(store.validate().is_ok());
    // The second proxy's nodes hold no slots, so they leave cleanly.
    store
        .remove_proxy_from_cluster("c1".to_string(), "p2".to_string())
        .unwrap();
    assert_eq!(store.clusters[0].nodes.len(), 2);
    let p2 = store.get_host_by_address(&"p2".to_string()).unwrap();
    assert!(p2.cluster_name.is_none());
    assert!(store.validate().is_ok());
    // With nobody else left, the last proxy leaves an empty cluster.
    store
        .remove_proxy_from_cluster("c1".to_string(), "p1".to_string())
        .unwrap();
    assert!(store.clusters[0].nodes.is_empty());
    assert!(store.validate().is_ok());
}

#[test]
fn validate_reports_broken_coverage() {
    let mut store = setup_two_proxies();
    assert!(store.validate().is_ok());
    // Tamper with a range behind the store's back.
    let node = store.clusters[0]
        .nodes
        .iter_mut()
        .find(|n| n.address == "n1a")
        .unwrap();
    node.slots[0].end = 100;
    assert!(store.validate().is_err());
}
