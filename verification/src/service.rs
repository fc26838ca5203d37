//! The broker service: the store behind one handle, plus the runtime
//! configuration. The transport adapter maps each route onto one of
//! these methods; no business logic lives here, so every method simply
//! forwards to the store, supplying the clock reading where the store
//! needs one. The store's contracts carry the semantics.

use vstd::prelude::*;
use crate::cluster::{Cluster, Node, Proxy};
use crate::store::{InconsistentError, MetaStore, MetaStoreError, MigrationType, after_add_cluster,
    after_add_proxy, after_assign_replica, after_auto_add, after_migrate, after_remove_cluster,
    after_remove_proxy, after_remove_proxy_from_cluster, after_settle, add_failure_shape,
    all_normal, cluster_has_node, commit_meta_of, count_nodes_of, exact_range_at, free_proxy,
    has_cluster_named, has_proxy_addr, joined_nodes, migrating_between_at, proxy_no_worse,
    quorum_met, range_size, store_inv, store_wf, FailureV};
use crate::cluster::MigrationTaskMeta;
use crate::cluster::{str_views, SlotRangeTag};
use crate::store::{node_relocated, range_no_worse};
use crate::utils::now_nanos;

verus! {

/// Runtime configuration of the broker.
#[derive(Debug, Clone)]
pub struct MemBrokerConfig {
    pub address: String,
    pub failure_ttl: u64,  // in seconds
}

/// One proxy registration as the transport hands it over.
#[derive(Debug, Clone)]
pub struct ProxyResource {
    pub proxy_address: String,
    pub nodes: Vec<String>,
}

/// Whether `fs1` is `fs0` purged of every report older than `ttl` at
/// the clock reading `now`.
pub open spec fn purged_at(fs0: Seq<FailureV>, fs1: Seq<FailureV>, now: int, ttl: int) -> bool {
    fs1 == fs0.filter(|f: FailureV| now - f.time <= ttl)
}

/// The failure TTL in nanoseconds, saturated at the largest
/// representable span.
pub open spec fn spec_ttl_nanos(c: MemBrokerConfig) -> int {
    if c.failure_ttl > (i64::MAX as u64) / 1_000_000_000 {
        i64::MAX as int
    } else {
        c.failure_ttl * 1_000_000_000
    }
}

/// The broker: configuration plus the metadata store it owns.
#[derive(Debug)]
pub struct MemBrokerService {
    pub config: MemBrokerConfig,
    pub store: MetaStore,
}

impl MemBrokerService {
    /// A broker over an empty store.
    pub fn new(config: MemBrokerConfig) -> (r: MemBrokerService)
        ensures
            r.store@.clusters.len() == 0,
            r.store@.proxies.len() == 0,
            r.store@.failures.len() == 0,
            r.store@.global_epoch == 0,
            store_inv(r.store@),
            r.config == config,
    {
        MemBrokerService { config, store: MetaStore::new() }
    }

    /// A deep copy of the whole store.
    pub fn get_all_data(&self) -> (r: MetaStore)
        ensures
            r@ == self.store@,
    {
        self.store.get_all_data()
    }

    /// All registered proxy addresses.
    pub fn get_host_addresses(&self) -> (r: Vec<String>)
        ensures
            crate::cluster::str_views(r@) == self.store@.proxies.map_values(
                |p: crate::cluster::ProxyV| p.address,
            ),
    {
        self.store.get_hosts()
    }

    /// A deep copy of the proxy with the given address.
    pub fn get_host_by_address(&self, address: &String) -> (r: Option<Proxy>)
        ensures
            r is Some <==> exists|i: int|
                0 <= i < self.store@.proxies.len() && (#[trigger] self.store@.proxies[i]).address
                    == address@,
            r matches Option::Some(p) ==> exists|i: int|
                0 <= i < self.store@.proxies.len() && #[trigger] self.store@.proxies[i] == p@
                    && p@.address == address@,
    {
        self.store.get_host_by_address(address)
    }

    /// All cluster names.
    pub fn get_cluster_names(&self) -> (r: Vec<String>)
        ensures
            crate::cluster::str_views(r@) == self.store@.clusters.map_values(
                |c: crate::cluster::ClusterV| c.name,
            ),
    {
        self.store.get_cluster_names()
    }

    /// A deep copy of the cluster with the given name.
    pub fn get_cluster_by_name(&self, name: &String) -> (r: Option<Cluster>)
        ensures
            r is Some <==> exists|i: int|
                0 <= i < self.store@.clusters.len() && (#[trigger] self.store@.clusters[i]).name
                    == name@,
            r matches Option::Some(c) ==> exists|i: int|
                0 <= i < self.store@.clusters.len() && #[trigger] self.store@.clusters[i] == c@
                    && c@.name == name@,
    {
        self.store.get_cluster_by_name(name)
    }

    /// Registers a proxy and its two nodes.
    pub fn add_hosts(&mut self, host_resource: ProxyResource) -> (r: Result<(), MetaStoreError>)
        requires
            old(self).store.global_epoch < u64::MAX,
        ensures
            final(self).config == old(self).config,
            r == Result::<(), MetaStoreError>::Err(MetaStoreError::InvalidNodeCount) <==> host_resource.nodes@.len() != 2,
            r == Result::<(), MetaStoreError>::Err(MetaStoreError::AlreadyExists) <==> (
            host_resource.nodes@.len() == 2 && exists|i: int|
                0 <= i < old(self).store@.proxies.len() && (#[trigger] old(self).store@.proxies[i]).address
                    == host_resource.proxy_address@),
            r is Ok <==> host_resource.nodes@.len() == 2 && (forall|i: int|
                0 <= i < old(self).store@.proxies.len() ==> (#[trigger] old(self).store@.proxies[i]).address
                    != host_resource.proxy_address@),
            r is Err ==> final(self).store@ == old(self).store@,
            r is Ok ==> final(self).store@ == after_add_proxy(old(self).store@, host_resource.proxy_address@, str_views(host_resource.nodes@)),
            store_inv(old(self).store@) ==> store_inv(final(self).store@),
    {
        let ProxyResource { proxy_address, nodes } = host_resource;
        self.store.add_hosts(proxy_address, nodes)
    }

    /// Creates an empty cluster.
    pub fn add_cluster(&mut self, cluster_name: String) -> (r: Result<(), MetaStoreError>)
        requires
            old(self).store.global_epoch < u64::MAX,
        ensures
            final(self).config == old(self).config,
            r is Err <==> exists|i: int|
                0 <= i < old(self).store@.clusters.len() && (#[trigger] old(self).store@.clusters[i]).name
                    == cluster_name@,
            r is Err ==> r == Result::<(), MetaStoreError>::Err(MetaStoreError::AlreadyExists)
                && final(self).store@ == old(self).store@,
            r is Ok ==> final(self).store@ == after_add_cluster(old(self).store@, cluster_name@),
            store_inv(old(self).store@) ==> store_inv(final(self).store@),
    {
        self.store.add_cluster(cluster_name)
    }

    /// Deletes a cluster, returning its nodes to the free pools.
    pub fn remove_cluster(&mut self, cluster_name: String) -> (r: Result<(), MetaStoreError>)
        requires
            old(self).store.global_epoch < u64::MAX,
        ensures
            final(self).config == old(self).config,
            r == Result::<(), MetaStoreError>::Err(MetaStoreError::NotFound) <==> (forall|i: int|
                0 <= i < old(self).store@.clusters.len() ==> (#[trigger] old(self).store@.clusters[i]).name
                    != cluster_name@),
            store_wf(old(self).store@) ==> (r == Result::<(), MetaStoreError>::Err(
                MetaStoreError::MigrationRunning,
            ) <==> (exists|ci: int|
                0 <= ci < old(self).store@.clusters.len() && (#[trigger] old(self).store@.clusters[ci]).name
                    == cluster_name@ && !all_normal(old(self).store@.clusters[ci]))),
            (r matches Result::Err(MetaStoreError::Inconsistent(e))) ==> exists|ci: int|
                0 <= ci < old(self).store@.clusters.len() && (#[trigger] old(self).store@.clusters[ci]).name
                    == cluster_name@ && all_normal(old(self).store@.clusters[ci]) && !store_inv(
                    after_remove_cluster(old(self).store@, ci, cluster_name@),
                ),
            r is Err ==> r == Result::<(), MetaStoreError>::Err(MetaStoreError::NotFound) || r
                == Result::<(), MetaStoreError>::Err(MetaStoreError::MigrationRunning) || (
            r matches Result::Err(MetaStoreError::Inconsistent(e))),
            r is Err ==> final(self).store@ == old(self).store@,
            r is Ok ==> store_inv(final(self).store@) && exists|ci: int|
                0 <= ci < old(self).store@.clusters.len() && (#[trigger] old(self).store@.clusters[ci]).name
                    == cluster_name@ && all_normal(old(self).store@.clusters[ci]) && final(self).store@
                    == after_remove_cluster(old(self).store@, ci, cluster_name@),
            store_inv(old(self).store@) ==> store_inv(final(self).store@),
    {
        self.store.remove_cluster(cluster_name)
    }

    /// Joins the best free proxy to the cluster.
    pub fn auto_add_node(&mut self, cluster_name: String) -> (r: Result<Vec<Node>, MetaStoreError>)
        requires
            old(self).store.global_epoch < u64::MAX,
        ensures
            final(self).config == old(self).config,
            r == Result::<Vec<Node>, MetaStoreError>::Err(MetaStoreError::NotFound) <==> (forall|
                i: int,
            |
                0 <= i < old(self).store@.clusters.len() ==> (#[trigger] old(self).store@.clusters[i]).name
                    != cluster_name@),
            store_wf(old(self).store@) ==> (r == Result::<Vec<Node>, MetaStoreError>::Err(
                MetaStoreError::NoAvailableResource,
            ) <==> (exists|i: int|
                0 <= i < old(self).store@.clusters.len() && (#[trigger] old(self).store@.clusters[i]).name
                    == cluster_name@) && (forall|q: int|
                0 <= q < old(self).store@.proxies.len() ==> !free_proxy(
                    #[trigger] old(self).store@.proxies[q],
                ))),
            (r matches Result::Err(MetaStoreError::Inconsistent(e))) ==> exists|ci: int, pi: int|
                #![auto]
                0 <= ci < old(self).store@.clusters.len() && 0 <= pi < old(self).store@.proxies.len()
                    && old(self).store@.clusters[ci].name == cluster_name@ && free_proxy(
                    old(self).store@.proxies[pi],
                ) && !store_inv(after_auto_add(old(self).store@, ci, pi)),
            r is Err ==> r == Result::<Vec<Node>, MetaStoreError>::Err(MetaStoreError::NotFound)
                || r == Result::<Vec<Node>, MetaStoreError>::Err(
                MetaStoreError::NoAvailableResource,
            ) || (r matches Result::Err(MetaStoreError::Inconsistent(e))),
            r is Err ==> final(self).store@ == old(self).store@,
            r is Ok ==> store_inv(final(self).store@) && exists|ci: int, pi: int|
                #![auto]
                0 <= ci < old(self).store@.clusters.len() && 0 <= pi < old(self).store@.proxies.len() && old(self).store@.clusters[ci].name == cluster_name@ && free_proxy(old(self).store@.proxies[pi]) && (
                forall|q: int|
                    0 <= q < old(self).store@.proxies.len() && free_proxy(
                        #[trigger] old(self).store@.proxies[q],
                    ) ==> proxy_no_worse(old(self).store@.proxies[pi], old(self).store@.proxies[q]))
                    && final(self).store@ == after_auto_add(old(self).store@, ci, pi)
                    && r->Ok_0@.map_values(|n: Node| n@)
                    == joined_nodes(
                    old(self).store@.proxies[pi],
                    cluster_name@,
                    old(self).store@.clusters[ci].nodes.len() == 0,
                ),    {
        self.store.auto_add_nodes(cluster_name)
    }

    /// Removes a proxy's nodes from its cluster and frees the proxy.
    pub fn remove_proxy_from_cluster(
        &mut self,
        cluster_name: String,
        proxy_address: String,
    ) -> (r: Result<(), MetaStoreError>)
        requires
            old(self).store.global_epoch < u64::MAX,
        ensures
            final(self).config == old(self).config,
            (forall|i: int|
                0 <= i < old(self).store@.clusters.len() ==> (#[trigger] old(self).store@.clusters[i]).name
                    != cluster_name@) ==> r == Result::<(), MetaStoreError>::Err(
                MetaStoreError::NotFound,
            ),
            r == Result::<(), MetaStoreError>::Err(MetaStoreError::NotFound) ==> !has_cluster_named(
                old(self).store@,
                cluster_name@,
            ) || !has_proxy_addr(old(self).store@, proxy_address@) || (exists|pi: int|
                #![auto]
                0 <= pi < old(self).store@.proxies.len() && old(self).store@.proxies[pi].address
                    == proxy_address@ && old(self).store@.proxies[pi].cluster_name != Option::Some(
                    cluster_name@,
                )),
            r == Result::<(), MetaStoreError>::Err(MetaStoreError::MigrationRunning) ==> exists|
                ci: int,
                ni: int,
                k2: int,
            |
                #![auto]
                0 <= ci < old(self).store@.clusters.len() && old(self).store@.clusters[ci].name
                    == cluster_name@ && 0 <= ni < old(self).store@.clusters[ci].nodes.len() && old(self).store@.clusters[ci].nodes[ni].proxy_address == proxy_address@ && 0 <= k2 < old(self).store@.clusters[ci].nodes[ni].slots.len() && !(old(self).store@.clusters[ci].nodes[ni].slots[k2].tag is Normal),
            (r matches Result::Err(MetaStoreError::Inconsistent(e))) ==> exists|ci: int, pi: int|
                #![auto]
                0 <= ci < old(self).store@.clusters.len() && 0 <= pi < old(self).store@.proxies.len()
                    && old(self).store@.clusters[ci].name == cluster_name@ && old(self).store@.proxies[pi].address == proxy_address@ && !store_inv(
                    after_remove_proxy_from_cluster(old(self).store@, ci, pi),
                ),
            r is Err ==> r == Result::<(), MetaStoreError>::Err(MetaStoreError::NotFound) || r
                == Result::<(), MetaStoreError>::Err(MetaStoreError::MigrationRunning) || (
            r matches Result::Err(MetaStoreError::Inconsistent(e))),
            r is Err ==> final(self).store@ == old(self).store@,
            r is Ok ==> store_inv(final(self).store@) && exists|ci: int, pi: int|
                #![auto]
                0 <= ci < old(self).store@.clusters.len() && 0 <= pi < old(self).store@.proxies.len() && old(self).store@.clusters[ci].name == cluster_name@ && old(self).store@.proxies[pi].address
                    == proxy_address@ && final(self).store@ == after_remove_proxy_from_cluster(
                    old(self).store@,
                    ci,
                    pi,
                ),    {
        self.store.remove_proxy_from_cluster(cluster_name, proxy_address)
    }

    /// Unregisters an unassigned proxy.
    pub fn remove_proxy(&mut self, proxy_address: String) -> (r: Result<(), MetaStoreError>)
        requires
            old(self).store.global_epoch < u64::MAX,
        ensures
            final(self).config == old(self).config,
            r == Result::<(), MetaStoreError>::Err(MetaStoreError::NotFound) <==> (forall|i: int|
                0 <= i < old(self).store@.proxies.len() ==> (#[trigger] old(self).store@.proxies[i]).address
                    != proxy_address@),
            r is Err ==> final(self).store@ == old(self).store@,
            r is Ok ==> exists|i: int|
                0 <= i < old(self).store@.proxies.len() && (#[trigger] old(self).store@.proxies[i]).address
                    == proxy_address@ && old(self).store@.proxies[i].cluster_name is None && final(self).store@
                    == after_remove_proxy(old(self).store@, i),
            store_wf(old(self).store@) ==> (r == Result::<(), MetaStoreError>::Err(
                MetaStoreError::InUse,
            ) <==> (exists|i: int|
                0 <= i < old(self).store@.proxies.len() && (#[trigger] old(self).store@.proxies[i]).address
                    == proxy_address@ && old(self).store@.proxies[i].cluster_name is Some)),
            store_wf(old(self).store@) ==> (r is Ok <==> (exists|i: int|
                0 <= i < old(self).store@.proxies.len() && (#[trigger] old(self).store@.proxies[i]).address
                    == proxy_address@ && old(self).store@.proxies[i].cluster_name is None)),
            store_inv(old(self).store@) ==> store_inv(final(self).store@),
    {
        self.store.remove_proxy(proxy_address)
    }

    /// Starts a migration between two nodes of a cluster.
    pub fn migrate_slots(
        &mut self,
        cluster_name: String,
        src_node_address: String,
        dst_node_address: String,
        migration_type: MigrationType,
    ) -> (r: Result<(), MetaStoreError>)
        requires
            old(self).store.global_epoch < u64::MAX,
        ensures
            final(self).config == old(self).config,
            (forall|i: int|
                0 <= i < old(self).store@.clusters.len() ==> (#[trigger] old(self).store@.clusters[i]).name
                    != cluster_name@) ==> r == Result::<(), MetaStoreError>::Err(
                MetaStoreError::NotFound,
            ),
            r == Result::<(), MetaStoreError>::Err(MetaStoreError::NotFound) ==> !has_cluster_named(
                old(self).store@,
                cluster_name@,
            ) || (exists|ci: int|
                #![auto]
                0 <= ci < old(self).store@.clusters.len() && old(self).store@.clusters[ci].name
                    == cluster_name@ && (!cluster_has_node(old(self).store@.clusters[ci], src_node_address@)
                    || !cluster_has_node(old(self).store@.clusters[ci], dst_node_address@) || (exists|
                    si: int,
                    di: int,
                |
                    #![auto]
                    0 <= si < old(self).store@.clusters[ci].nodes.len() && 0 <= di < old(self).store@.clusters[ci].nodes.len() && old(self).store@.clusters[ci].nodes[si].address
                        == src_node_address@ && old(self).store@.clusters[ci].nodes[di].address
                        == dst_node_address@ && si != di && (!(old(self).store@.clusters[ci].nodes[si].role is Master) || !(old(self).store@.clusters[ci].nodes[di].role is Master))) || (exists|si: int|
                    #![auto]
                    0 <= si < old(self).store@.clusters[ci].nodes.len() && old(self).store@.clusters[ci].nodes[si].address == src_node_address@ && (forall|x: int|
                        0 <= x < old(self).store@.clusters[ci].nodes[si].slots.len() ==> !((
                        #[trigger] old(self).store@.clusters[ci].nodes[si].slots[x]).tag is Normal))))),
            r == Result::<(), MetaStoreError>::Err(MetaStoreError::InvalidKind)
                ==> src_node_address@ == dst_node_address@ || (migration_type is Half && exists|
                ci: int,
                si: int,
                kk: int,
            |
                #![auto]
                0 <= ci < old(self).store@.clusters.len() && old(self).store@.clusters[ci].name
                    == cluster_name@ && 0 <= si < old(self).store@.clusters[ci].nodes.len() && old(self).store@.clusters[ci].nodes[si].address == src_node_address@ && 0 <= kk < old(self).store@.clusters[ci].nodes[si].slots.len() && old(self).store@.clusters[ci].nodes[si].slots[kk].tag is Normal && range_size(
                    old(self).store@.clusters[ci].nodes[si].slots[kk],
                ) < 2),
            (r matches Result::Err(MetaStoreError::Inconsistent(e))) ==> exists|
                ci: int,
                si: int,
                di: int,
                k: int,
            |
                #![trigger after_migrate(old(self).store@, ci, si, di, k, migration_type is Half)]
                0 <= ci < old(self).store@.clusters.len() && old(self).store@.clusters[ci].name
                    == cluster_name@ && 0 <= si < old(self).store@.clusters[ci].nodes.len() && 0 <= di
                    < old(self).store@.clusters[ci].nodes.len() && si != di && 0 <= k < old(self).store@.clusters[ci].nodes[si].slots.len() && !store_inv(
                    after_migrate(old(self).store@, ci, si, di, k, migration_type is Half),
                ),
            r is Err ==> r == Result::<(), MetaStoreError>::Err(MetaStoreError::NotFound) || r
                == Result::<(), MetaStoreError>::Err(MetaStoreError::InvalidKind) || (
            r matches Result::Err(MetaStoreError::Inconsistent(e))),
            r is Err ==> final(self).store@ == old(self).store@,
            r is Ok ==> store_inv(final(self).store@) && exists|ci: int, si: int, di: int, k: int|
                #![auto]
                0 <= ci < old(self).store@.clusters.len() && old(self).store@.clusters[ci].name
                    == cluster_name@ && 0 <= si < old(self).store@.clusters[ci].nodes.len() && 0 <= di
                    < old(self).store@.clusters[ci].nodes.len() && si != di && old(self).store@.clusters[ci].nodes[si].address == src_node_address@ && old(self).store@.clusters[ci].nodes[di].address == dst_node_address@ && old(self).store@.clusters[ci].nodes[si].role is Master && old(self).store@.clusters[ci].nodes[di].role is Master && 0 <= k < old(self).store@.clusters[ci].nodes[si].slots.len() && old(self).store@.clusters[ci].nodes[si].slots[k].tag is Normal && (forall|x: int|
                    0 <= x < old(self).store@.clusters[ci].nodes[si].slots.len() && (#[trigger] old(self).store@.clusters[ci].nodes[si].slots[x]).tag is Normal ==> range_no_worse(
                        old(self).store@.clusters[ci].nodes[si].slots[k],
                        old(self).store@.clusters[ci].nodes[si].slots[x],
                    )) && (migration_type is Half ==> range_size(
                    old(self).store@.clusters[ci].nodes[si].slots[k],
                ) >= 2) && final(self).store@ == after_migrate(
                    old(self).store@,
                    ci,
                    si,
                    di,
                    k,
                    migration_type is Half,
                ),    {
        self.store.migrate_slots(cluster_name, src_node_address, dst_node_address, migration_type)
    }

    /// Cancels a pending migration.
    pub fn stop_migrations(
        &mut self,
        cluster_name: String,
        src_node_address: String,
        dst_node_address: String,
    ) -> (r: Result<(), MetaStoreError>)
        requires
            old(self).store.global_epoch < u64::MAX,
        ensures
            final(self).config == old(self).config,
            r == Result::<(), MetaStoreError>::Err(MetaStoreError::NotFound) ==> !has_cluster_named(
                old(self).store@,
                cluster_name@,
            ) || (exists|ci: int|
                #![auto]
                0 <= ci < old(self).store@.clusters.len() && old(self).store@.clusters[ci].name
                    == cluster_name@ && ((forall|i2: int, k2: int|
                    !migrating_between_at(
                        old(self).store@.clusters[ci],
                        i2,
                        k2,
                        src_node_address@,
                        dst_node_address@,
                    )) || (exists|si: int, k2: int|
                    #![auto]
                    migrating_between_at(
                        old(self).store@.clusters[ci],
                        si,
                        k2,
                        src_node_address@,
                        dst_node_address@,
                    ) && (forall|di: int, l: int|
                        !exact_range_at(
                            old(self).store@.clusters[ci],
                            di,
                            l,
                            true,
                            old(self).store@.clusters[ci].nodes[si].slots[k2].tag->Migrating_0,
                            old(self).store@.clusters[ci].nodes[si].slots[k2].start,
                            old(self).store@.clusters[ci].nodes[si].slots[k2].end,
                        ))))),
            (r matches Result::Err(MetaStoreError::Inconsistent(e))) ==> exists|
                ci: int,
                si: int,
                k: int,
                di: int,
                l: int,
            |
                #![auto]
                0 <= ci < old(self).store@.clusters.len() && old(self).store@.clusters[ci].name
                    == cluster_name@ && migrating_between_at(
                    old(self).store@.clusters[ci],
                    si,
                    k,
                    src_node_address@,
                    dst_node_address@,
                ) && !store_inv(after_settle(old(self).store@, ci, si, k, di, l)),
            r is Err ==> r == Result::<(), MetaStoreError>::Err(MetaStoreError::NotFound) || (
            r matches Result::Err(MetaStoreError::Inconsistent(e))),
            r is Err ==> final(self).store@ == old(self).store@,
            r is Ok ==> store_inv(final(self).store@) && exists|ci: int, si: int, k: int, di: int, l: int|
                #![auto]
                0 <= ci < old(self).store@.clusters.len() && old(self).store@.clusters[ci].name
                    == cluster_name@ && migrating_between_at(
                    old(self).store@.clusters[ci],
                    si,
                    k,
                    src_node_address@,
                    dst_node_address@,
                ) && final(self).store@ == after_settle(old(self).store@, ci, si, k, di, l),    {
        self.store.stop_migrations(cluster_name, src_node_address, dst_node_address)
    }

    /// Binds a replica to a master inside a cluster.
    pub fn assign_replica(
        &mut self,
        cluster_name: String,
        master_node_address: String,
        replica_node_address: String,
    ) -> (r: Result<(), MetaStoreError>)
        requires
            old(self).store.global_epoch < u64::MAX,
        ensures
            final(self).config == old(self).config,
            (forall|i: int|
                0 <= i < old(self).store@.clusters.len() ==> (#[trigger] old(self).store@.clusters[i]).name
                    != cluster_name@) ==> r == Result::<(), MetaStoreError>::Err(
                MetaStoreError::NotFound,
            ),
            r == Result::<(), MetaStoreError>::Err(MetaStoreError::NotFound) ==> !has_cluster_named(
                old(self).store@,
                cluster_name@,
            ) || (exists|ci: int|
                #![auto]
                0 <= ci < old(self).store@.clusters.len() && old(self).store@.clusters[ci].name
                    == cluster_name@ && (!cluster_has_node(
                    old(self).store@.clusters[ci],
                    master_node_address@,
                ) || !cluster_has_node(old(self).store@.clusters[ci], replica_node_address@))),
            r == Result::<(), MetaStoreError>::Err(MetaStoreError::RoleConflict) ==> exists|
                ci: int,
                mi: int,
                ri: int,
            |
                #![auto]
                0 <= ci < old(self).store@.clusters.len() && old(self).store@.clusters[ci].name
                    == cluster_name@ && 0 <= mi < old(self).store@.clusters[ci].nodes.len() && 0 <= ri
                    < old(self).store@.clusters[ci].nodes.len() && old(self).store@.clusters[ci].nodes[mi].address == master_node_address@ && old(self).store@.clusters[ci].nodes[ri].address == replica_node_address@ && (mi == ri || !(old(self).store@.clusters[ci].nodes[mi].role is Master) || !(old(self).store@.clusters[ci].nodes[ri].role is Master) || old(self).store@.clusters[ci].nodes[ri].slots.len() != 0 || old(self).store@.clusters[ci].nodes[ri].masters.len() != 0),
            (r matches Result::Err(MetaStoreError::Inconsistent(e))) ==> exists|
                ci: int,
                mi: int,
                ri: int,
            |
                #![auto]
                0 <= ci < old(self).store@.clusters.len() && old(self).store@.clusters[ci].name
                    == cluster_name@ && 0 <= mi < old(self).store@.clusters[ci].nodes.len() && 0 <= ri
                    < old(self).store@.clusters[ci].nodes.len() && mi != ri && !store_inv(
                    after_assign_replica(old(self).store@, ci, mi, ri),
                ),
            r is Err ==> r == Result::<(), MetaStoreError>::Err(MetaStoreError::NotFound) || r
                == Result::<(), MetaStoreError>::Err(MetaStoreError::RoleConflict) || (
            r matches Result::Err(MetaStoreError::Inconsistent(e))),
            r is Err ==> final(self).store@ == old(self).store@,
            r is Ok ==> store_inv(final(self).store@) && exists|ci: int, mi: int, ri: int|
                #![auto]
                0 <= ci < old(self).store@.clusters.len() && old(self).store@.clusters[ci].name
                    == cluster_name@ && 0 <= mi < old(self).store@.clusters[ci].nodes.len() && 0 <= ri
                    < old(self).store@.clusters[ci].nodes.len() && mi != ri && old(self).store@.clusters[ci].nodes[mi].address == master_node_address@ && old(self).store@.clusters[ci].nodes[ri].address == replica_node_address@
                    && old(self).store@.clusters[ci].nodes[mi].role is Master
                    && old(self).store@.clusters[ci].nodes[ri].role is Master
                    && old(self).store@.clusters[ci].nodes[ri].slots.len() == 0
                    && old(self).store@.clusters[ci].nodes[ri].masters.len() == 0
                    && final(self).store@ == after_assign_replica(old(self).store@, ci, mi, ri),    {
        self.store.assign_replica(cluster_name, master_node_address, replica_node_address)
    }

    /// Purges reports older than the configured TTL at the clock's
    /// current reading, then returns each proxy that at least two
    /// distinct reporters still accuse.
    pub fn get_failures(&mut self) -> (r: Vec<String>)
        ensures
            final(self).config == old(self).config,
            final(self).store@.clusters == old(self).store@.clusters,
            final(self).store@.proxies == old(self).store@.proxies,
            final(self).store@.global_epoch == old(self).store@.global_epoch,
            exists|now: int|
                #![trigger purged_at(old(self).store@.failures, final(self).store@.failures, now, spec_ttl_nanos(old(self).config))]
                purged_at(
                    old(self).store@.failures,
                    final(self).store@.failures,
                    now,
                    spec_ttl_nanos(old(self).config),
                ),
            forall|addr: Seq<char>|
                (exists|k: int| 0 <= k < r@.len() && (#[trigger] r@[k])@ == addr) <==> quorum_met(
                    final(self).store@.failures,
                    addr,
                ),
            forall|a: int, b: int| 0 <= a < b < r@.len() ==> (#[trigger] r@[a])@ != (#[trigger] r@[b])@,
    {
        let ttl_nanos: i64 = if self.config.failure_ttl > (i64::MAX as u64) / 1_000_000_000 {
            i64::MAX
        } else {
            (self.config.failure_ttl as i64) * 1_000_000_000
        };
        proof {
            assert(ttl_nanos as int == spec_ttl_nanos(self.config));
        }
        let now = now_nanos();
        let r = self.store.get_failures(ttl_nanos, now);
        proof {
            assert(purged_at(
                old(self).store@.failures,
                self.store@.failures,
                now as int,
                spec_ttl_nanos(old(self).config),
            ));
        }
        r
    }

    /// Records or refreshes a failure report at the clock's current
    /// reading: one entry per (proxy, reporter) pair, the matching
    /// entry refreshed in place or a fresh pair appended.
    pub fn add_failure(&mut self, address: String, reporter_id: String)
        ensures
            final(self).config == old(self).config,
            final(self).store@.clusters == old(self).store@.clusters,
            final(self).store@.proxies == old(self).store@.proxies,
            final(self).store@.global_epoch == old(self).store@.global_epoch,
            add_failure_shape(
                old(self).store@.failures,
                final(self).store@.failures,
                address@,
                reporter_id@,
            ),
    {
        let now = now_nanos();
        self.store.add_failure(address, reporter_id, now)
    }

    /// Commits a finished migration.
    pub fn commit_migration(&mut self, task: MigrationTaskMeta) -> (r: Result<
        (),
        MetaStoreError,
    >)
        requires
            old(self).store.global_epoch < u64::MAX,
        ensures
            final(self).config == old(self).config,
            store_wf(old(self).store@) ==> (r == Result::<(), MetaStoreError>::Err(
                MetaStoreError::NotFound,
            ) <==> (task.slot_range.tag is Normal || !has_cluster_named(old(self).store@, task.db_name@)
                || (exists|ci: int|
                #![auto]
                0 <= ci < old(self).store@.clusters.len() && old(self).store@.clusters[ci].name
                    == task.db_name@ && ((forall|si: int, k: int|
                    !exact_range_at(
                        old(self).store@.clusters[ci],
                        si,
                        k,
                        false,
                        commit_meta_of(task)@,
                        task.slot_range.start as nat,
                        task.slot_range.end as nat,
                    )) || (forall|di: int, l: int|
                    !exact_range_at(
                        old(self).store@.clusters[ci],
                        di,
                        l,
                        true,
                        commit_meta_of(task)@,
                        task.slot_range.start as nat,
                        task.slot_range.end as nat,
                    )))))),
            (r matches Result::Err(MetaStoreError::Inconsistent(e))) ==> exists|
                ci: int,
                si: int,
                k: int,
                di: int,
                l: int,
            |
                #![auto]
                0 <= ci < old(self).store@.clusters.len() && old(self).store@.clusters[ci].name
                    == task.db_name@ && exact_range_at(
                    old(self).store@.clusters[ci],
                    si,
                    k,
                    false,
                    commit_meta_of(task)@,
                    task.slot_range.start as nat,
                    task.slot_range.end as nat,
                ) && exact_range_at(
                    old(self).store@.clusters[ci],
                    di,
                    l,
                    true,
                    commit_meta_of(task)@,
                    task.slot_range.start as nat,
                    task.slot_range.end as nat,
                ) && !store_inv(after_settle(old(self).store@, ci, di, l, si, k)),
            r is Err ==> r == Result::<(), MetaStoreError>::Err(MetaStoreError::NotFound) || (
            r matches Result::Err(MetaStoreError::Inconsistent(e))),
            r is Err ==> final(self).store@ == old(self).store@,
            r is Ok ==> store_inv(final(self).store@) && exists|ci: int, si: int, k: int, di: int, l: int|
                #![auto]
                0 <= ci < old(self).store@.clusters.len() && old(self).store@.clusters[ci].name
                    == task.db_name@ && (task.slot_range.tag matches SlotRangeTag::Migrating(m)
                    ==> exact_range_at(
                    old(self).store@.clusters[ci],
                    si,
                    k,
                    false,
                    m@,
                    task.slot_range.start as nat,
                    task.slot_range.end as nat,
                )) && exact_range_at(
                    old(self).store@.clusters[ci],
                    di,
                    l,
                    true,
                    commit_meta_of(task)@,
                    task.slot_range.start as nat,
                    task.slot_range.end as nat,
                ) && exact_range_at(
                    old(self).store@.clusters[ci],
                    si,
                    k,
                    false,
                    commit_meta_of(task)@,
                    task.slot_range.start as nat,
                    task.slot_range.end as nat,
                ) && final(self).store@ == after_settle(old(self).store@, ci, di, l, si, k),    {
        self.store.commit_migration(task)
    }

    /// Moves a failed proxy's assignments onto a free proxy.
    pub fn replace_failed_node(&mut self, failed_proxy_address: String) -> (r: Result<
        Proxy,
        MetaStoreError,
    >)
        requires
            old(self).store.global_epoch < u64::MAX,
        ensures
            final(self).config == old(self).config,
            (forall|i: int|
                0 <= i < old(self).store@.proxies.len() ==> (#[trigger] old(self).store@.proxies[i]).address
                    != failed_proxy_address@) ==> r == Result::<Proxy, MetaStoreError>::Err(
                MetaStoreError::NotFound,
            ),
            r == Result::<Proxy, MetaStoreError>::Err(MetaStoreError::NotFound)
                ==> !has_proxy_addr(old(self).store@, failed_proxy_address@) || (exists|fi: int|
                #![auto]
                0 <= fi < old(self).store@.proxies.len() && old(self).store@.proxies[fi].address
                    == failed_proxy_address@ && (old(self).store@.proxies[fi].cluster_name is None || (
                old(self).store@.proxies[fi].cluster_name matches Option::Some(cn)
                    && !has_cluster_named(old(self).store@, cn)))),
            r == Result::<Proxy, MetaStoreError>::Err(MetaStoreError::NoAvailableResource) ==> (
            forall|q: int|
                0 <= q < old(self).store@.proxies.len() ==> !free_proxy(
                    #[trigger] old(self).store@.proxies[q],
                )) || (exists|ci: int, pi: int|
                #![auto]
                0 <= ci < old(self).store@.clusters.len() && 0 <= pi < old(self).store@.proxies.len()
                    && free_proxy(old(self).store@.proxies[pi]) && count_nodes_of(
                    old(self).store@.clusters[ci].nodes,
                    failed_proxy_address@,
                ) > old(self).store@.proxies[pi].nodes.len()),
            r == Result::<Proxy, MetaStoreError>::Err(MetaStoreError::MigrationRunning) ==> exists|
                ci: int,
                ni: int,
                k2: int,
            |
                #![auto]
                0 <= ci < old(self).store@.clusters.len() && 0 <= ni < old(self).store@.clusters[ci].nodes.len() && old(self).store@.clusters[ci].nodes[ni].proxy_address
                    == failed_proxy_address@ && 0 <= k2 < old(self).store@.clusters[ci].nodes[ni].slots.len() && !(old(self).store@.clusters[ci].nodes[ni].slots[k2].tag is Normal),
            r is Err ==> r == Result::<Proxy, MetaStoreError>::Err(MetaStoreError::NotFound) || r
                == Result::<Proxy, MetaStoreError>::Err(MetaStoreError::NoAvailableResource) || r
                == Result::<Proxy, MetaStoreError>::Err(MetaStoreError::MigrationRunning) || (
            r matches Result::Err(MetaStoreError::Inconsistent(e))),
            r is Err ==> final(self).store@ == old(self).store@,
            r is Ok ==> store_inv(final(self).store@) && final(self).store@.global_epoch == old(self).store@.global_epoch + 1 && (forall|i: int|
                0 <= i < final(self).store@.failures.len() ==> (#[trigger] final(self).store@.failures[i]).proxy != failed_proxy_address@) && (exists|i: int|
                0 <= i < final(self).store@.proxies.len() && (#[trigger] final(self).store@.proxies[i])
                    == r->Ok_0@) && r->Ok_0@.cluster_name is Some && r->Ok_0@.epoch == old(self).store@.global_epoch + 1 && final(self).store@.failures == old(self).store@.failures.filter(
                |f: FailureV| f.proxy != failed_proxy_address@,
            ) && (exists|pi: int|
                #![auto]
                0 <= pi < old(self).store@.proxies.len() && free_proxy(old(self).store@.proxies[pi]) && (
                forall|q: int|
                    0 <= q < old(self).store@.proxies.len() && free_proxy(
                        #[trigger] old(self).store@.proxies[q],
                    ) ==> proxy_no_worse(old(self).store@.proxies[pi], old(self).store@.proxies[q]))
                    && r->Ok_0@.address == old(self).store@.proxies[pi].address && (exists|ci: int|
                    #![auto]
                    0 <= ci < old(self).store@.clusters.len() && final(self).store@.clusters.len() == old(self).store@.clusters.len() && (forall|c2: int|
                        0 <= c2 < old(self).store@.clusters.len() && c2 != ci ==> #[trigger] final(self).store@.clusters[c2] == old(self).store@.clusters[c2]) && final(self).store@.clusters[ci].name == old(self).store@.clusters[ci].name && final(self).store@.clusters[ci].epoch == old(self).store@.global_epoch + 1 && final(self).store@.clusters[ci].nodes.len() == old(self).store@.clusters[ci].nodes.len() && (forall|
                        x: int,
                    |
                        0 <= x < old(self).store@.clusters[ci].nodes.len() ==> node_relocated(
                            #[trigger] old(self).store@.clusters[ci].nodes[x],
                            final(self).store@.clusters[ci].nodes[x],
                            failed_proxy_address@,
                            old(self).store@.proxies[pi].nodes,
                            old(self).store@.proxies[pi].address,
                        )))),
            r is Ok && store_wf(old(self).store@) ==> (forall|i: int|
                0 <= i < final(self).store@.proxies.len() ==> (#[trigger] final(self).store@.proxies[i]).address != failed_proxy_address@),
    {
        self.store.replace_failed_proxy(failed_proxy_address)
    }

    /// Recomputes the invariants; `Ok` exactly when they all hold.
    pub fn validate_meta(&self) -> (r: Result<(), InconsistentError>)
        ensures
            r is Ok <==> crate::store::inv_topology(self.store@),
    {
        self.store.validate()
    }
}

} // verus!
