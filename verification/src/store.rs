//! The metadata store: single source of truth for cluster topology.
//!
//! The store owns clusters, proxies, the global epoch and the failure
//! reports. Every mutation bumps the global epoch, stamps the objects
//! it touches, and must leave the structural invariants intact:
//!
//! 1. in every cluster with nodes, the slots `0..16384` are covered
//!    exactly once by the `Normal` and `Migrating` ranges of masters;
//! 2. every `Migrating` range is paired with an `Importing` range of
//!    the same migration, bounds and cluster, and conversely;
//! 3. a node address appears in exactly one cluster and role;
//! 4. every node's proxy is registered and assigned to the node's
//!    cluster;
//! 5. every replica's master bindings name masters of its cluster.
//!
//! Mutations that reshape slot ownership run the full check afterwards
//! and roll back on violation, exactly as `validate` reports it.

use vstd::prelude::*;
use crate::cluster::{Cluster, ClusterV, MigrationMeta, MigrationTaskMeta, Node, NodeV, Proxy,
    ProxyV, ReplMeta, Role, SlotRange, SlotRangeTag, SlotRangeTagV, SlotRangeV, dup_nodes,
    dup_ranges, dup_strings, dup_opt_str, opt_str_eq, opt_str_view, str_views};
use crate::slot::SLOT_COUNT;

verus! {

/// One failure report: a reporter claims a proxy is unreachable.
#[derive(Debug, Clone)]
pub struct FailureReport {
    pub proxy_address: String,
    pub reporter_id: String,
    pub report_time: i64,
}

/// Spec-level image of a failure report.
pub struct FailureV {
    pub proxy: Seq<char>,
    pub reporter: Seq<char>,
    pub time: int,
}

impl View for FailureReport {
    type V = FailureV;

    open spec fn view(&self) -> FailureV {
        FailureV { proxy: self.proxy_address@, reporter: self.reporter_id@, time: self.report_time as int }
    }
}

/// How much of the source range one migration moves.
#[derive(Debug, Clone, Copy, PartialEq, Eq, Structural)]
pub enum MigrationType {
    Half,
    All,
}

/// The invariant a mutation would have broken, as `validate` found it,
/// or a breach of the store's structural well-formedness.
#[derive(Debug, Clone, Copy, PartialEq, Eq, Structural)]
pub enum InconsistentError {
    SlotCoverage,
    MigrationPairBroken,
    DuplicateNodeAddress,
    ProxyBindingBroken,
    ReplicaMasterMissing,
    StructureBroken,
}

/// Errors of store mutations.
#[derive(Debug, Clone, Copy, PartialEq, Eq, Structural)]
pub enum MetaStoreError {
    AlreadyExists,
    NotFound,
    InvalidNodeCount,
    InvalidKind,
    RoleConflict,
    NoAvailableResource,
    InUse,
    MigrationRunning,
    Inconsistent(InconsistentError),
}

/// The store itself.
#[derive(Debug)]
pub struct MetaStore {
    pub clusters: Vec<Cluster>,
    pub proxies: Vec<Proxy>,
    pub global_epoch: u64,
    pub failures: Vec<FailureReport>,
}

/// Spec-level image of the store.
pub struct StoreV {
    pub clusters: Seq<ClusterV>,
    pub proxies: Seq<ProxyV>,
    pub global_epoch: nat,
    pub failures: Seq<FailureV>,
}

impl View for MetaStore {
    type V = StoreV;

    open spec fn view(&self) -> StoreV {
        StoreV {
            clusters: self.clusters@.map_values(|c: Cluster| c@),
            proxies: self.proxies@.map_values(|p: Proxy| p@),
            global_epoch: self.global_epoch as nat,
            failures: self.failures@.map_values(|f: FailureReport| f@),
        }
    }
}

/// Whether a range counts towards the coverage of its own node: a
/// range being imported is not owned yet.
pub open spec fn range_counted(r: SlotRangeV) -> bool {
    r.tag is Normal || r.tag is Migrating
}

/// Whether `s` lies in the inclusive range.
pub open spec fn in_range_v(r: SlotRangeV, s: int) -> bool {
    r.start <= s <= r.end
}

/// How many counted ranges of one node cover `s`.
pub open spec fn node_cover_count(slots: Seq<SlotRangeV>, s: int) -> nat
    decreases slots.len(),
{
    if slots.len() == 0 {
        0
    } else {
        node_cover_count(slots.drop_last(), s) + if range_counted(slots.last()) && in_range_v(
            slots.last(),
            s,
        ) {
            1nat
        } else {
            0nat
        }
    }
}

/// How many counted master ranges of a cluster cover `s`.
pub open spec fn cluster_cover_count(nodes: Seq<NodeV>, s: int) -> nat
    decreases nodes.len(),
{
    if nodes.len() == 0 {
        0
    } else {
        cluster_cover_count(nodes.drop_last(), s) + if nodes.last().role is Master {
            node_cover_count(nodes.last().slots, s)
        } else {
            0nat
        }
    }
}

/// Invariant 1 for one cluster: once it has nodes, every slot is
/// covered exactly once.
pub open spec fn inv_coverage(c: ClusterV) -> bool {
    c.nodes.len() == 0 || forall|s: int|
        0 <= s < SLOT_COUNT ==> #[trigger] cluster_cover_count(c.nodes, s) == 1
}

/// All nodes of all clusters, in cluster order.
pub open spec fn flat_nodes(clusters: Seq<ClusterV>) -> Seq<NodeV>
    decreases clusters.len(),
{
    if clusters.len() == 0 {
        Seq::empty()
    } else {
        flat_nodes(clusters.drop_last()) + clusters.last().nodes
    }
}

/// Whether the range `(j, l)` is the peer of a migration: tagged the
/// stated way for migration `m`, with the stated bounds, on the node
/// the migration names, in the stated cluster.
pub open spec fn peer_at(
    ns: Seq<NodeV>,
    importing: bool,
    m: crate::cluster::MigrationMetaV,
    start: nat,
    end: nat,
    cname: Option<Seq<char>>,
    j: int,
    l: int,
) -> bool {
    &&& 0 <= j < ns.len()
    &&& 0 <= l < ns[j].slots.len()
    &&& ns[j].slots[l].tag == if importing {
        SlotRangeTagV::Importing(m)
    } else {
        SlotRangeTagV::Migrating(m)
    }
    &&& ns[j].slots[l].start == start
    &&& ns[j].slots[l].end == end
    &&& ns[j].address == if importing {
        m.dst_node
    } else {
        m.src_node
    }
    &&& ns[j].cluster_name == cname
}

/// Whether some range of `ns` is the stated peer.
pub open spec fn has_peer(
    ns: Seq<NodeV>,
    importing: bool,
    m: crate::cluster::MigrationMetaV,
    start: nat,
    end: nat,
    cname: Option<Seq<char>>,
) -> bool {
    exists|j: int, l: int| #[trigger] peer_at(ns, importing, m, start, end, cname, j, l)
}

/// Invariant 2 over the flat node list: a `Migrating` range names its
/// node as source and has an `Importing` peer of the same migration,
/// bounds and cluster on the destination node, and conversely.
pub open spec fn migration_paired(ns: Seq<NodeV>, i: int, k: int) -> bool {
    let r = ns[i].slots[k];
    match r.tag {
        SlotRangeTagV::Migrating(m) => ns[i].address == m.src_node && has_peer(
            ns,
            true,
            m,
            r.start,
            r.end,
            ns[i].cluster_name,
        ),
        SlotRangeTagV::Importing(m) => ns[i].address == m.dst_node && has_peer(
            ns,
            false,
            m,
            r.start,
            r.end,
            ns[i].cluster_name,
        ),
        SlotRangeTagV::Normal => true,
    }
}

/// Invariant 2 for the whole store.
pub open spec fn inv_pairing(ns: Seq<NodeV>) -> bool {
    forall|i: int, k: int|
        0 <= i < ns.len() && 0 <= k < ns[i].slots.len() ==> #[trigger] migration_paired(ns, i, k)
}

/// Invariant 3: node addresses are unique across the whole store.
pub open spec fn inv_unique_nodes(ns: Seq<NodeV>) -> bool {
    forall|i: int, j: int|
        0 <= i < j < ns.len() ==> (#[trigger] ns[i]).address != (#[trigger] ns[j]).address
}

/// Some registered proxy carries node `i`'s proxy address and cluster.
pub open spec fn node_proxy_bound(ns: Seq<NodeV>, ps: Seq<ProxyV>, i: int) -> bool {
    exists|p: int|
        #![auto]
        0 <= p < ps.len() && ps[p].address == ns[i].proxy_address && ps[p].cluster_name
            == ns[i].cluster_name
}

/// Invariant 4: every node's proxy is registered and assigned to the
/// node's own cluster.
pub open spec fn inv_proxy_binding(ns: Seq<NodeV>, ps: Seq<ProxyV>) -> bool {
    forall|i: int| 0 <= i < ns.len() ==> #[trigger] node_proxy_bound(ns, ps, i)
}

/// Some master of node `i`'s cluster carries the bound address
/// `ns[i].masters[mi]`.
pub open spec fn master_bound(ns: Seq<NodeV>, i: int, mi: int) -> bool {
    exists|j: int|
        #![auto]
        0 <= j < ns.len() && ns[j].role is Master && ns[j].address == ns[i].masters[mi]
            && ns[j].cluster_name == ns[i].cluster_name
}

/// Invariant 5: every master binding of a replica names a master node
/// of the same cluster.
pub open spec fn inv_replicas(ns: Seq<NodeV>) -> bool {
    forall|i: int, mi: int|
        0 <= i < ns.len() && ns[i].role is Replica && 0 <= mi < ns[i].masters.len()
            ==> #[trigger] master_bound(ns, i, mi)
}

/// Cluster names are unique.
pub open spec fn wf_cluster_names(sv: StoreV) -> bool {
    forall|a: int, b: int|
        0 <= a < b < sv.clusters.len() ==> (#[trigger] sv.clusters[a]).name != (
        #[trigger] sv.clusters[b]).name
}

/// Proxy addresses are unique.
pub open spec fn wf_proxy_addrs(sv: StoreV) -> bool {
    forall|a: int, b: int|
        0 <= a < b < sv.proxies.len() ==> (#[trigger] sv.proxies[a]).address != (
        #[trigger] sv.proxies[b]).address
}

/// Every node is stamped with the name of the cluster holding it.
pub open spec fn wf_stamps(sv: StoreV) -> bool {
    forall|c: int, i: int|
        0 <= c < sv.clusters.len() && 0 <= i < (#[trigger] sv.clusters[c]).nodes.len() ==> (
        #[trigger] sv.clusters[c].nodes[i]).cluster_name == Option::Some(sv.clusters[c].name)
}

/// Every slot range lies inside the keyspace.
pub open spec fn wf_ranges(sv: StoreV) -> bool {
    forall|c: int, i: int, k: int|
        0 <= c < sv.clusters.len() && 0 <= i < sv.clusters[c].nodes.len() && 0 <= k
            < sv.clusters[c].nodes[i].slots.len() ==> valid_range(
            #[trigger] sv.clusters[c].nodes[i].slots[k],
        )
}

/// No object epoch runs ahead of the global epoch.
pub open spec fn wf_epochs(sv: StoreV) -> bool {
    &&& forall|c: int|
        0 <= c < sv.clusters.len() ==> (#[trigger] sv.clusters[c]).epoch <= sv.global_epoch
    &&& forall|p: int|
        0 <= p < sv.proxies.len() ==> (#[trigger] sv.proxies[p]).epoch <= sv.global_epoch
}

/// Every proxy holds two nodes, free exactly while unassigned.
pub open spec fn wf_shapes(sv: StoreV) -> bool {
    forall|p: int| 0 <= p < sv.proxies.len() ==> proxy_shape(#[trigger] sv.proxies[p])
}

/// No two entries of `fs` name the same (proxy, reporter) pair.
pub open spec fn pairs_distinct(fs: Seq<FailureV>) -> bool {
    forall|a: int, b: int|
        0 <= a < b < fs.len() ==> !((#[trigger] fs[a]).proxy == (#[trigger] fs[b]).proxy
            && fs[a].reporter == fs[b].reporter)
}

/// At most one failure entry per (proxy, reporter) pair.
pub open spec fn wf_failures(sv: StoreV) -> bool {
    pairs_distinct(sv.failures)
}

/// Structural well-formedness: unique cluster names and proxy
/// addresses, nodes stamped with their cluster's name, valid ranges,
/// object epochs at or below the global epoch, proxies holding two
/// nodes that are free exactly while unassigned, and one failure entry
/// per (proxy, reporter) pair.
pub open spec fn store_wf(sv: StoreV) -> bool {
    &&& wf_cluster_names(sv)
    &&& wf_proxy_addrs(sv)
    &&& wf_stamps(sv)
    &&& wf_ranges(sv)
    &&& wf_epochs(sv)
    &&& wf_shapes(sv)
    &&& wf_failures(sv)
}

/// A slot range lies inside the keyspace and is not reversed.
pub open spec fn valid_range(r: SlotRangeV) -> bool {
    r.start <= r.end < SLOT_COUNT
}

/// A proxy holds exactly two nodes; they are free exactly while the
/// proxy is unassigned.
pub open spec fn proxy_shape(p: ProxyV) -> bool {
    &&& p.nodes.len() == 2
    &&& if p.cluster_name is None {
        p.free_nodes == p.nodes
    } else {
        p.free_nodes.len() == 0
    }
}

/// The topology invariants (1)-(5).
pub open spec fn inv_topology(sv: StoreV) -> bool {
    &&& forall|c: int| 0 <= c < sv.clusters.len() ==> inv_coverage(#[trigger] sv.clusters[c])
    &&& inv_pairing(flat_nodes(sv.clusters))
    &&& inv_unique_nodes(flat_nodes(sv.clusters))
    &&& inv_proxy_binding(flat_nodes(sv.clusters), sv.proxies)
    &&& inv_replicas(flat_nodes(sv.clusters))
}

/// Everything the store promises to preserve.
pub open spec fn store_inv(sv: StoreV) -> bool {
    store_wf(sv) && inv_topology(sv)
}

impl MetaStore {
    /// An empty store.
    pub fn new() -> (r: MetaStore)
        ensures
            r@.clusters.len() == 0,
            r@.proxies.len() == 0,
            r@.failures.len() == 0,
            r@.global_epoch == 0,
            store_inv(r@),
    {
        let r = MetaStore {
            clusters: Vec::new(),
            proxies: Vec::new(),
            global_epoch: 0,
            failures: Vec::new(),
        };
        proof {
            assert(flat_nodes(r@.clusters) =~= Seq::<NodeV>::empty());
        }
        r
    }

    /// Index of the cluster with the given name.
    pub fn find_cluster(&self, name: &String) -> (r: Option<usize>)
        ensures
            match r {
                Option::Some(i) => i < self@.clusters.len() && self@.clusters[i as int].name
                    == name@,
                Option::None => forall|i: int|
                    0 <= i < self@.clusters.len() ==> (#[trigger] self@.clusters[i]).name
                        != name@,
            },
    {
        let n = self.clusters.len();
        let mut i: usize = 0;
        while i < n
            invariant
                0 <= i <= n,
                n == self@.clusters.len(),
                forall|k: int| 0 <= k < i ==> (#[trigger] self@.clusters[k]).name != name@,
            decreases n - i,
        {
            if self.clusters[i].name.eq(name) {
                return Some(i);
            }
            i = i + 1;
        }
        None
    }

    /// Index of the proxy with the given address.
    pub fn find_proxy(&self, address: &String) -> (r: Option<usize>)
        ensures
            match r {
                Option::Some(i) => i < self@.proxies.len() && self@.proxies[i as int].address
                    == address@,
                Option::None => forall|i: int|
                    0 <= i < self@.proxies.len() ==> (#[trigger] self@.proxies[i]).address
                        != address@,
            },
    {
        let n = self.proxies.len();
        let mut i: usize = 0;
        while i < n
            invariant
                0 <= i <= n,
                n == self@.proxies.len(),
                forall|k: int| 0 <= k < i ==> (#[trigger] self@.proxies[k]).address != address@,
            decreases n - i,
        {
            if self.proxies[i].address.eq(address) {
                return Some(i);
            }
            i = i + 1;
        }
        None
    }

    /// All registered proxy addresses, in registration order.
    pub fn get_hosts(&self) -> (r: Vec<String>)
        ensures
            str_views(r@) == self@.proxies.map_values(|p: ProxyV| p.address),
    {
        let mut r: Vec<String> = Vec::new();
        let n = self.proxies.len();
        let mut i: usize = 0;
        while i < n
            invariant
                0 <= i <= n,
                n == self@.proxies.len(),
                r@.len() == i,
                forall|k: int| 0 <= k < i ==> (#[trigger] r@[k])@ == self@.proxies[k].address,
            decreases n - i,
        {
            r.push(self.proxies[i].address.clone());
            i = i + 1;
        }
        proof {
            assert(str_views(r@) =~= self@.proxies.map_values(|p: ProxyV| p.address));
        }
        r
    }

    /// A deep copy of the proxy with the given address.
    pub fn get_host_by_address(&self, address: &String) -> (r: Option<Proxy>)
        ensures
            match r {
                Option::Some(p) => exists|i: int|
                    0 <= i < self@.proxies.len() && #[trigger] self@.proxies[i] == p@
                        && p@.address == address@,
                Option::None => forall|i: int|
                    0 <= i < self@.proxies.len() ==> (#[trigger] self@.proxies[i]).address
                        != address@,
            },
    {
        match self.find_proxy(address) {
            Some(i) => Some(self.proxies[i].duplicate()),
            None => None,
        }
    }

    /// All cluster names, in creation order.
    pub fn get_cluster_names(&self) -> (r: Vec<String>)
        ensures
            str_views(r@) == self@.clusters.map_values(|c: ClusterV| c.name),
    {
        let mut r: Vec<String> = Vec::new();
        let n = self.clusters.len();
        let mut i: usize = 0;
        while i < n
            invariant
                0 <= i <= n,
                n == self@.clusters.len(),
                r@.len() == i,
                forall|k: int| 0 <= k < i ==> (#[trigger] r@[k])@ == self@.clusters[k].name,
            decreases n - i,
        {
            r.push(self.clusters[i].name.clone());
            i = i + 1;
        }
        proof {
            assert(str_views(r@) =~= self@.clusters.map_values(|c: ClusterV| c.name));
        }
        r
    }

    /// A deep copy of the cluster with the given name.
    pub fn get_cluster_by_name(&self, name: &String) -> (r: Option<Cluster>)
        ensures
            match r {
                Option::Some(c) => exists|i: int|
                    0 <= i < self@.clusters.len() && #[trigger] self@.clusters[i] == c@
                        && c@.name == name@,
                Option::None => forall|i: int|
                    0 <= i < self@.clusters.len() ==> (#[trigger] self@.clusters[i]).name
                        != name@,
            },
    {
        match self.find_cluster(name) {
            Some(i) => Some(self.clusters[i].duplicate()),
            None => None,
        }
    }

    /// A deep copy of the whole store.
    pub fn get_all_data(&self) -> (r: MetaStore)
        ensures
            r@ == self@,
    {
        let mut clusters: Vec<Cluster> = Vec::new();
        let n = self.clusters.len();
        let mut i: usize = 0;
        while i < n
            invariant
                0 <= i <= n,
                n == self@.clusters.len(),
                clusters@.len() == i,
                forall|k: int| 0 <= k < i ==> (#[trigger] clusters@[k])@ == self@.clusters[k],
            decreases n - i,
        {
            clusters.push(self.clusters[i].duplicate());
            i = i + 1;
        }
        let mut proxies: Vec<Proxy> = Vec::new();
        let m = self.proxies.len();
        let mut j: usize = 0;
        while j < m
            invariant
                0 <= j <= m,
                m == self@.proxies.len(),
                proxies@.len() == j,
                forall|k: int| 0 <= k < j ==> (#[trigger] proxies@[k])@ == self@.proxies[k],
            decreases m - j,
        {
            proxies.push(self.proxies[j].duplicate());
            j = j + 1;
        }
        let mut failures: Vec<FailureReport> = Vec::new();
        let fcount = self.failures.len();
        let mut t: usize = 0;
        while t < fcount
            invariant
                0 <= t <= fcount,
                fcount == self@.failures.len(),
                failures@.len() == t,
                forall|k: int| 0 <= k < t ==> (#[trigger] failures@[k])@ == self@.failures[k],
            decreases fcount - t,
        {
            let f = &self.failures[t];
            failures.push(
                FailureReport {
                    proxy_address: f.proxy_address.clone(),
                    reporter_id: f.reporter_id.clone(),
                    report_time: f.report_time,
                },
            );
            t = t + 1;
        }
        let r = MetaStore { clusters, proxies, global_epoch: self.global_epoch, failures };
        proof {
            assert(r@.clusters =~= self@.clusters);
            assert(r@.proxies =~= self@.proxies);
            assert(r@.failures =~= self@.failures);
        }
        r
    }

    /// Records or refreshes a failure report at the given time.
    pub fn add_failure(&mut self, address: String, reporter_id: String, now: i64)
        ensures
            final(self)@.clusters == old(self)@.clusters,
            final(self)@.proxies == old(self)@.proxies,
            final(self)@.global_epoch == old(self)@.global_epoch,
            (exists|i: int|
                0 <= i < old(self)@.failures.len() && fail_match(
                    #[trigger] old(self)@.failures[i],
                    address@,
                    reporter_id@,
                )) ==> exists|i: int|
                0 <= i < old(self)@.failures.len() && fail_match(
                    #[trigger] old(self)@.failures[i],
                    address@,
                    reporter_id@,
                ) && final(self)@.failures == old(self)@.failures.update(
                    i,
                    FailureV { proxy: address@, reporter: reporter_id@, time: now as int },
                ),
            (forall|i: int|
                0 <= i < old(self)@.failures.len() ==> !fail_match(
                    #[trigger] old(self)@.failures[i],
                    address@,
                    reporter_id@,
                )) ==> final(self)@.failures == old(self)@.failures.push(
                FailureV { proxy: address@, reporter: reporter_id@, time: now as int },
            ),
            add_failure_shape(old(self)@.failures, final(self)@.failures, address@, reporter_id@),
    {
        let n = self.failures.len();
        let mut i: usize = 0;
        while i < n
            invariant
                0 <= i <= n,
                n == self@.failures.len(),
                self@ == old(self)@,
                forall|k: int|
                    0 <= k < i ==> !((#[trigger] self@.failures[k]).proxy == address@
                        && self@.failures[k].reporter == reporter_id@),
            decreases n - i,
        {
            if self.failures[i].proxy_address.eq(&address) && self.failures[i].reporter_id.eq(
                &reporter_id,
            ) {
                proof {
                    assert(fail_match(old(self)@.failures[i as int], address@, reporter_id@));
                }
                let f = FailureReport {
                    proxy_address: address,
                    reporter_id,
                    report_time: now,
                };
                self.failures.set(i, f);
                proof {
                    assert(self@.failures =~= old(self)@.failures.update(
                        i as int,
                        FailureV { proxy: address@, reporter: reporter_id@, time: now as int },
                    ));
                    assert(self@.clusters =~= old(self)@.clusters);
                    assert(self@.proxies =~= old(self)@.proxies);
                    assert(self@.failures[i as int].time == now as int);
                    assert(self@.failures == old(self)@.failures.update(
                        i as int,
                        FailureV {
                            proxy: address@,
                            reporter: reporter_id@,
                            time: self@.failures[i as int].time,
                        },
                    ));
                    assert(add_failure_shape(
                        old(self)@.failures,
                        self@.failures,
                        address@,
                        reporter_id@,
                    ));
                }
                return ;
            }
            i = i + 1;
        }
        self.failures.push(
            FailureReport { proxy_address: address, reporter_id, report_time: now },
        );
        proof {
            assert(self@.failures =~= old(self)@.failures.push(
                FailureV { proxy: address@, reporter: reporter_id@, time: now as int },
            ));
            assert(self@.clusters =~= old(self)@.clusters);
            assert(self@.proxies =~= old(self)@.proxies);
            assert(self@.failures.drop_last() =~= old(self)@.failures);
            assert(add_failure_shape(
                old(self)@.failures,
                self@.failures,
                address@,
                reporter_id@,
            ));
        }
    }

    /// Purges reports older than `ttl` (both in the caller's time
    /// unit), then returns each proxy that at least two distinct
    /// reporters still accuse.
    pub fn get_failures(&mut self, ttl: i64, now: i64) -> (r: Vec<String>)
        ensures
            final(self)@.clusters == old(self)@.clusters,
            final(self)@.proxies == old(self)@.proxies,
            final(self)@.global_epoch == old(self)@.global_epoch,
            final(self)@.failures == old(self)@.failures.filter(
                |f: FailureV| now - f.time <= ttl,
            ),
            forall|addr: Seq<char>|
                (exists|k: int| 0 <= k < r@.len() && (#[trigger] r@[k])@ == addr) <==> quorum_met(
                    final(self)@.failures,
                    addr,
                ),
            forall|a: int, b: int| 0 <= a < b < r@.len() ==> (#[trigger] r@[a])@ != (#[trigger] r@[b])@,
            pairs_distinct(old(self)@.failures) ==> pairs_distinct(final(self)@.failures),
    {
        let mut kept: Vec<FailureReport> = Vec::new();
        let n = self.failures.len();
        let mut i: usize = 0;
        proof {
            assert(self@.failures.take(0).filter(|f: FailureV| now - f.time <= ttl)
                =~= Seq::<FailureV>::empty());
        }
        while i < n
            invariant
                0 <= i <= n,
                n == self@.failures.len(),
                self@ == old(self)@,
                kept@.map_values(|f: FailureReport| f@) == self@.failures.take(i as int).filter(
                    |f: FailureV| now - f.time <= ttl,
                ),
                forall|x: int|
                    0 <= x < kept@.len() ==> exists|y: int|
                        0 <= y < i && (#[trigger] kept@[x])@ == self@.failures[y],
                pairs_distinct(self@.failures) ==> pairs_distinct(
                    kept@.map_values(|f: FailureReport| f@),
                ),
            decreases n - i,
        {
            let f = &self.failures[i];
            let age_ok: bool = (now as i128) - (f.report_time as i128) <= (ttl as i128);
            proof {
                let t = self@.failures.take(i as int + 1);
                assert(t.drop_last() =~= self@.failures.take(i as int));
                assert(t.last() == self@.failures[i as int]);
                reveal(Seq::filter);
            }
            if age_ok {
                let ghost kept0 = kept@;
                kept.push(
                    FailureReport {
                        proxy_address: f.proxy_address.clone(),
                        reporter_id: f.reporter_id.clone(),
                        report_time: f.report_time,
                    },
                );
                proof {
                    assert(kept@.map_values(|x: FailureReport| x@) =~= self@.failures.take(
                        i as int + 1,
                    ).filter(|x: FailureV| now - x.time <= ttl));
                    assert(kept@[kept@.len() - 1]@ == self@.failures[i as int]);
                    assert forall|x: int| 0 <= x < kept@.len() implies exists|y: int|
                        0 <= y < i + 1 && (#[trigger] kept@[x])@ == self@.failures[y] by {
                        if x < kept@.len() - 1 {
                            assert(kept@[x] == kept0[x]);
                            let y = choose|y: int|
                                0 <= y < i && (#[trigger] kept0[x])@ == self@.failures[y];
                            assert((kept@[x])@ == self@.failures[y]);
                        } else {
                            assert((kept@[x])@ == self@.failures[i as int]);
                        }
                    }
                    if pairs_distinct(self@.failures) {
                        let km = kept@.map_values(|x: FailureReport| x@);
                        assert forall|a: int, b: int| 0 <= a < b < km.len() implies !((
                        #[trigger] km[a]).proxy == (#[trigger] km[b]).proxy && km[a].reporter
                            == km[b].reporter) by {
                            let ya = choose|y: int|
                                0 <= y < i + 1 && (#[trigger] kept@[a])@ == self@.failures[y];
                            let yb = choose|y: int|
                                0 <= y < i + 1 && (#[trigger] kept@[b])@ == self@.failures[y];
                            assert(km[a] == self@.failures[ya]);
                            assert(km[b] == self@.failures[yb]);
                            if ya == yb {
                                assert(kept0.map_values(|x: FailureReport| x@)
                                    == self@.failures.take(i as int).filter(
                                    |x: FailureV| now - x.time <= ttl,
                                ));
                            }
                        }
                    }
                }
            } else {
                proof {
                    assert(kept@.map_values(|x: FailureReport| x@) =~= self@.failures.take(
                        i as int + 1,
                    ).filter(|x: FailureV| now - x.time <= ttl));
                }
            }
            i = i + 1;
        }
        proof {
            assert(self@.failures.take(n as int) =~= self@.failures);
        }
        self.failures = kept;
        let fs = &self.failures;
        let m = fs.len();
        let mut r: Vec<String> = Vec::new();
        let mut a: usize = 0;
        while a < m
            invariant
                0 <= a <= m,
                m == fs@.len(),
                fs == &self.failures,
                forall|addr: Seq<char>|
                    (exists|k: int| 0 <= k < r@.len() && (#[trigger] r@[k])@ == addr) ==> quorum_met(
                        self@.failures,
                        addr,
                    ),
                forall|x: int|
                    0 <= x < a && quorum_met(self@.failures, (#[trigger] fs@[x])@.proxy) ==> exists|
                        k: int,
                    | 0 <= k < r@.len() && (#[trigger] r@[k])@ == fs@[x]@.proxy,
                forall|p: int, q: int|
                    0 <= p < q < r@.len() ==> (#[trigger] r@[p])@ != (#[trigger] r@[q])@,
            decreases m - a,
        {
            proof {
                assert(self@.failures =~= fs@.map_values(|f: FailureReport| f@));
                assert(self@.failures[a as int] == fs@[a as int]@);
                lemma_quorum_at(self@.failures, a as int);
            }
            let addr = &fs[a].proxy_address;
            let second = Self::has_second_reporter(fs, a);
            let ghost old_rv = r@;
            if second {
                if !contains_string(&r, addr) {
                    r.push(addr.clone());
                    proof {
                        let rv = r@;
                        assert(rv[rv.len() - 1]@ == fs@[a as int]@.proxy);
                        assert forall|x: int|
                            0 <= x < a + 1 && quorum_met(
                                self@.failures,
                                (#[trigger] fs@[x])@.proxy,
                            ) implies exists|k: int|
                            0 <= k < rv.len() && (#[trigger] rv[k])@ == fs@[x]@.proxy by {
                            if x < a {
                                let k = choose|k: int|
                                    0 <= k < old_rv.len() && (#[trigger] old_rv[k])@
                                        == fs@[x]@.proxy;
                                assert(rv[k]@ == fs@[x]@.proxy);
                            } else {
                                assert(rv[rv.len() - 1]@ == fs@[x]@.proxy);
                            }
                        }
                    }
                }
            }
            a = a + 1;
        }
        r
    }

    /// Whether some other report accuses the same proxy through a
    /// different reporter.
    fn has_second_reporter(fs: &Vec<FailureReport>, a: usize) -> (r: bool)
        requires
            a < fs@.len(),
        ensures
            r == quorum_met_at(fs@.map_values(|f: FailureReport| f@), a as int),
    {
        let n = fs.len();
        let mut j: usize = 0;
        let ghost fsv = fs@.map_values(|f: FailureReport| f@);
        while j < n
            invariant
                0 <= j <= n,
                a < n,
                n == fs@.len(),
                fsv == fs@.map_values(|f: FailureReport| f@),
                forall|k: int|
                    0 <= k < j ==> !((#[trigger] fsv[k]).proxy == fsv[a as int].proxy
                        && fsv[k].reporter != fsv[a as int].reporter),
            decreases n - j,
        {
            if fs[j].proxy_address.eq(&fs[a].proxy_address) && !fs[j].reporter_id.eq(
                &fs[a].reporter_id,
            ) {
                proof {
                    assert(fsv[j as int] == fs@[j as int]@);
                    assert(fsv[a as int] == fs@[a as int]@);
                    assert(quorum_met_at(fsv, a as int));
                }
                return true;
            }
            proof {
                assert(fsv[j as int] == fs@[j as int]@);
                assert(fsv[a as int] == fs@[a as int]@);
            }
            j = j + 1;
        }
        false
    }
}

/// `n` capped at two: enough to tell "exactly once" from "never" and
/// "more than once".
pub open spec fn min2(n: nat) -> nat {
    if n >= 2 {
        2
    } else {
        n
    }
}

/// Whether two migration identities are equal.
pub fn meta_eq(a: &MigrationMeta, b: &MigrationMeta) -> (r: bool)
    ensures
        r == (a@ == b@),
{
    a.epoch == b.epoch && a.src_proxy_address.eq(&b.src_proxy_address) && a.src_node_address.eq(
        &b.src_node_address,
    ) && a.dst_proxy_address.eq(&b.dst_proxy_address) && a.dst_node_address.eq(
        &b.dst_node_address,
    )
}

impl MetaStore {
    /// All nodes of all clusters, flattened in cluster order.
    pub fn collect_nodes(&self) -> (v: Vec<Node>)
        ensures
            v@.map_values(|n: Node| n@) == flat_nodes(self@.clusters),
    {
        let mut v: Vec<Node> = Vec::new();
        let n = self.clusters.len();
        let mut c: usize = 0;
        proof {
            assert(self@.clusters.take(0) =~= Seq::<ClusterV>::empty());
            assert(v@.map_values(|x: Node| x@) =~= flat_nodes(self@.clusters.take(0)));
        }
        while c < n
            invariant
                0 <= c <= n,
                n == self@.clusters.len(),
                v@.map_values(|x: Node| x@) == flat_nodes(self@.clusters.take(c as int)),
            decreases n - c,
        {
            let cluster = &self.clusters[c];
            let m = cluster.nodes.len();
            let mut i: usize = 0;
            while i < m
                invariant
                    0 <= i <= m,
                    c < n,
                    n == self@.clusters.len(),
                    m == cluster.nodes@.len(),
                    cluster == &self.clusters[c as int],
                    v@.map_values(|x: Node| x@) == flat_nodes(self@.clusters.take(c as int))
                        + self@.clusters[c as int].nodes.take(i as int),
                decreases m - i,
            {
                let nd = cluster.nodes[i].duplicate();
                proof {
                    assert(nd@ == cluster.nodes@[i as int]@);
                    assert(self@.clusters[c as int].nodes[i as int] == cluster.nodes@[
                        i as int
                    ]@);
                }
                let ghost prev = v@.map_values(|x: Node| x@);
                v.push(nd);
                proof {
                    assert(v@.map_values(|x: Node| x@) =~= prev.push(nd@));
                    assert(self@.clusters[c as int].nodes.take(i as int + 1)
                        =~= self@.clusters[c as int].nodes.take(i as int).push(
                        self@.clusters[c as int].nodes[i as int],
                    ));
                    assert(v@.map_values(|x: Node| x@) =~= flat_nodes(self@.clusters.take(
                        c as int,
                    )) + self@.clusters[c as int].nodes.take(i as int + 1));
                }
                i = i + 1;
            }
            proof {
                let t = self@.clusters.take(c as int + 1);
                assert(t.drop_last() =~= self@.clusters.take(c as int));
                assert(t.last() == self@.clusters[c as int]);
                assert(self@.clusters[c as int].nodes.take(m as int) =~= self@.clusters[
                    c as int
                ].nodes);
                assert(v@.map_values(|x: Node| x@) == flat_nodes(t));
            }
            c = c + 1;
        }
        proof {
            assert(self@.clusters.take(n as int) =~= self@.clusters);
        }
        v
    }
}

/// Counts the counted master ranges of `nodes` covering slot `s`,
/// capped at two.
fn cover_count_capped(nodes: &Vec<Node>, s: usize) -> (c: u8)
    ensures
        c as nat == min2(cluster_cover_count(nodes@.map_values(|n: Node| n@), s as int)),
{
    let ghost ns = nodes@.map_values(|n: Node| n@);
    let mut cnt: u8 = 0;
    let n = nodes.len();
    let mut i: usize = 0;
    proof {
        assert(ns.take(0) =~= Seq::<NodeV>::empty());
    }
    while i < n
        invariant
            0 <= i <= n,
            n == nodes@.len(),
            ns == nodes@.map_values(|x: Node| x@),
            cnt as nat == min2(cluster_cover_count(ns.take(i as int), s as int)),
        decreases n - i,
    {
        let node = &nodes[i];
        proof {
            assert(ns[i as int] == nodes@[i as int]@);
        }
        if matches!(node.role, Role::Master) {
            let ghost sl = ns[i as int].slots;
            let m = node.slots.len();
            let mut k: usize = 0;
            proof {
                assert(sl.take(0) =~= Seq::<SlotRangeV>::empty());
            }
            while k < m
                invariant
                    0 <= k <= m,
                    i < n,
                    n == nodes@.len(),
                    m == node.slots@.len(),
                    node == &nodes[i as int],
                    ns == nodes@.map_values(|x: Node| x@),
                    ns[i as int] == nodes@[i as int]@,
                    sl == ns[i as int].slots,
                    cnt as nat == min2(
                        cluster_cover_count(ns.take(i as int), s as int) + node_cover_count(
                            sl.take(k as int),
                            s as int,
                        ),
                    ),
                decreases m - k,
            {
                let range = &node.slots[k];
                proof {
                    assert(sl[k as int] == node.slots@[k as int]@);
                    let t = sl.take(k as int + 1);
                    assert(t.drop_last() =~= sl.take(k as int));
                    assert(t.last() == sl[k as int]);
                }
                let counted = matches!(range.tag, SlotRangeTag::Normal | SlotRangeTag::Migrating(_));
                if counted && range.start <= s && s <= range.end {
                    if cnt < 2 {
                        cnt = cnt + 1;
                    }
                } else {
                }
                k = k + 1;
            }
            proof {
                assert(sl.take(m as int) =~= sl);
                let t = ns.take(i as int + 1);
                assert(t.drop_last() =~= ns.take(i as int));
                assert(t.last() == ns[i as int]);
            }
        } else {
            proof {
                let t = ns.take(i as int + 1);
                assert(t.drop_last() =~= ns.take(i as int));
                assert(t.last() == ns[i as int]);
            }
        }
        i = i + 1;
    }
    proof {
        assert(ns.take(n as int) =~= ns);
    }
    cnt
}

/// Checks invariant 1 for one cluster.
fn check_coverage(cluster: &Cluster) -> (r: bool)
    ensures
        r == inv_coverage(cluster@),
{
    if cluster.nodes.len() == 0 {
        return true;
    }
    let mut s: usize = 0;
    while s < SLOT_COUNT
        invariant
            0 <= s <= SLOT_COUNT,
            cluster.nodes@.len() > 0,
            forall|x: int|
                0 <= x < s ==> #[trigger] cluster_cover_count(cluster@.nodes, x) == 1,
        decreases SLOT_COUNT - s,
    {
        let c = cover_count_capped(&cluster.nodes, s);
        if c != 1 {
            proof {
                assert(cluster_cover_count(cluster@.nodes, s as int) != 1);
            }
            return false;
        }
        s = s + 1;
    }
    true
}

/// Looks for the peer range of a migration in the flat node list.
fn find_peer(
    flat: &Vec<Node>,
    importing: bool,
    m: &MigrationMeta,
    start: usize,
    end: usize,
    cname: &Option<String>,
) -> (r: bool)
    ensures
        r == has_peer(
            flat@.map_values(|n: Node| n@),
            importing,
            m@,
            start as nat,
            end as nat,
            opt_str_view(*cname),
        ),
{
    let ghost ns = flat@.map_values(|n: Node| n@);
    let n = flat.len();
    let mut j: usize = 0;
    while j < n
        invariant
            0 <= j <= n,
            n == flat@.len(),
            ns == flat@.map_values(|x: Node| x@),
            forall|a: int, b: int|
                0 <= a < j && 0 <= b ==> !(#[trigger] peer_at(
                    ns,
                    importing,
                    m@,
                    start as nat,
                    end as nat,
                    opt_str_view(*cname),
                    a,
                    b,
                )),
        decreases n - j,
    {
        let node = &flat[j];
        proof {
            assert(ns[j as int] == flat@[j as int]@);
        }
        let m2 = node.slots.len();
        let mut l: usize = 0;
        while l < m2
            invariant
                0 <= l <= m2,
                j < n,
                n == flat@.len(),
                m2 == node.slots@.len(),
                node == &flat[j as int],
                ns == flat@.map_values(|x: Node| x@),
                ns[j as int] == flat@[j as int]@,
                forall|b: int|
                    0 <= b < l ==> !(#[trigger] peer_at(
                        ns,
                        importing,
                        m@,
                        start as nat,
                        end as nat,
                        opt_str_view(*cname),
                        j as int,
                        b,
                    )),
            decreases m2 - l,
        {
            let range = &node.slots[l];
            proof {
                assert(ns[j as int].slots =~= node.slots@.map_values(|x: SlotRange| x@));
                assert(ns[j as int].slots.len() == m2);
                assert(ns[j as int].slots[l as int] == node.slots@[l as int]@);
            }
            let ghost pa = peer_at(
                ns,
                importing,
                m@,
                start as nat,
                end as nat,
                opt_str_view(*cname),
                j as int,
                l as int,
            );
            let mut hit = false;
            match &range.tag {
                SlotRangeTag::Importing(m3) => {
                    if importing && meta_eq(m3, m) && range.start == start && range.end == end
                        && node.address.eq(&m.dst_node_address) && opt_str_eq(
                        &node.cluster_name,
                        cname,
                    ) {
                        hit = true;
                        proof {
                            assert(pa);
                        }
                    } else {
                        proof {
                            assert(!pa);
                        }
                    }
                },
                SlotRangeTag::Migrating(m3) => {
                    if !importing && meta_eq(m3, m) && range.start == start && range.end == end
                        && node.address.eq(&m.src_node_address) && opt_str_eq(
                        &node.cluster_name,
                        cname,
                    ) {
                        hit = true;
                        proof {
                            assert(pa);
                        }
                    } else {
                        proof {
                            assert(!pa);
                        }
                    }
                },
                SlotRangeTag::Normal => {
                    proof {
                        assert(!pa);
                    }
                },
            }
            if hit {
                return true;
            }
            l = l + 1;
        }
        j = j + 1;
    }
    false
}

/// Checks invariant 2 over the flat node list.
fn check_pairing(flat: &Vec<Node>) -> (r: bool)
    ensures
        r == inv_pairing(flat@.map_values(|n: Node| n@)),
{
    let ghost ns = flat@.map_values(|n: Node| n@);
    let n = flat.len();
    let mut i: usize = 0;
    while i < n
        invariant
            0 <= i <= n,
            n == flat@.len(),
            ns == flat@.map_values(|x: Node| x@),
            forall|a: int, b: int|
                0 <= a < i && 0 <= b < ns[a].slots.len() ==> #[trigger] migration_paired(
                    ns,
                    a,
                    b,
                ),
        decreases n - i,
    {
        let node = &flat[i];
        proof {
            assert(ns[i as int] == flat@[i as int]@);
        }
        let m2 = node.slots.len();
        let mut k: usize = 0;
        while k < m2
            invariant
                0 <= k <= m2,
                i < n,
                n == flat@.len(),
                m2 == node.slots@.len(),
                node == &flat[i as int],
                ns == flat@.map_values(|x: Node| x@),
                ns[i as int] == flat@[i as int]@,
                forall|b: int| 0 <= b < k ==> #[trigger] migration_paired(ns, i as int, b),
            decreases m2 - k,
        {
            let range = &node.slots[k];
            proof {
                assert(ns[i as int].slots =~= node.slots@.map_values(|x: SlotRange| x@));
                assert(ns[i as int].slots.len() == m2);
                assert(ns[i as int].slots[k as int] == node.slots@[k as int]@);
            }
            let ghost mp = migration_paired(ns, i as int, k as int);
            let mut ok = true;
            match &range.tag {
                SlotRangeTag::Normal => {
                    proof {
                        assert(mp);
                    }
                },
                SlotRangeTag::Migrating(m) => {
                    if node.address.eq(&m.src_node_address) && find_peer(
                        flat,
                        true,
                        m,
                        range.start,
                        range.end,
                        &node.cluster_name,
                    ) {
                        proof {
                            assert(mp);
                        }
                    } else {
                        ok = false;
                        proof {
                            assert(!mp);
                        }
                    }
                },
                SlotRangeTag::Importing(m) => {
                    if node.address.eq(&m.dst_node_address) && find_peer(
                        flat,
                        false,
                        m,
                        range.start,
                        range.end,
                        &node.cluster_name,
                    ) {
                        proof {
                            assert(mp);
                        }
                    } else {
                        ok = false;
                        proof {
                            assert(!mp);
                        }
                    }
                },
            }
            if !ok {
                return false;
            }
            k = k + 1;
        }
        i = i + 1;
    }
    true
}

/// Checks invariant 3 over the flat node list.
fn check_unique(flat: &Vec<Node>) -> (r: bool)
    ensures
        r == inv_unique_nodes(flat@.map_values(|n: Node| n@)),
{
    let ghost ns = flat@.map_values(|n: Node| n@);
    let n = flat.len();
    let mut i: usize = 0;
    while i < n
        invariant
            0 <= i <= n,
            n == flat@.len(),
            ns == flat@.map_values(|x: Node| x@),
            forall|a: int, b: int|
                0 <= a < b < n && a < i ==> (#[trigger] ns[a]).address != (
                #[trigger] ns[b]).address,
        decreases n - i,
    {
        proof {
            assert(ns[i as int] == flat@[i as int]@);
        }
        let mut j: usize = i + 1;
        while j < n
            invariant
                i < j <= n,
                i < n,
                n == flat@.len(),
                ns == flat@.map_values(|x: Node| x@),
                ns[i as int] == flat@[i as int]@,
                forall|b: int|
                    i < b < j ==> (#[trigger] ns[b]).address != ns[i as int].address,
            decreases n - j,
        {
            proof {
                assert(ns[j as int] == flat@[j as int]@);
            }
            if flat[i].address.eq(&flat[j].address) {
                proof {
                    assert(ns[i as int].address == ns[j as int].address);
                }
                return false;
            }
            j = j + 1;
        }
        i = i + 1;
    }
    true
}

/// Checks invariant 4 over the flat node list.
fn check_binding(flat: &Vec<Node>, proxies: &Vec<Proxy>) -> (r: bool)
    ensures
        r == inv_proxy_binding(
            flat@.map_values(|n: Node| n@),
            proxies@.map_values(|p: Proxy| p@),
        ),
{
    let ghost ns = flat@.map_values(|n: Node| n@);
    let ghost ps = proxies@.map_values(|p: Proxy| p@);
    let n = flat.len();
    let mut i: usize = 0;
    while i < n
        invariant
            0 <= i <= n,
            n == flat@.len(),
            ns == flat@.map_values(|x: Node| x@),
            ps == proxies@.map_values(|x: Proxy| x@),
            forall|a: int| 0 <= a < i ==> #[trigger] node_proxy_bound(ns, ps, a),
        decreases n - i,
    {
        let node = &flat[i];
        proof {
            assert(ns[i as int] == flat@[i as int]@);
        }
        let m = proxies.len();
        let mut p: usize = 0;
        let mut found = false;
        while p < m
            invariant
                0 <= p <= m,
                i < n,
                n == flat@.len(),
                m == proxies@.len(),
                node == &flat[i as int],
                ns == flat@.map_values(|x: Node| x@),
                ps == proxies@.map_values(|x: Proxy| x@),
                ns[i as int] == flat@[i as int]@,
                found ==> node_proxy_bound(ns, ps, i as int),
                !found ==> forall|b: int|
                    0 <= b < p ==> !((#[trigger] ps[b]).address == ns[i as int].proxy_address
                        && ps[b].cluster_name == ns[i as int].cluster_name),
            decreases m - p,
        {
            proof {
                assert(ps[p as int] == proxies@[p as int]@);
            }
            if proxies[p].address.eq(&node.proxy_address) && opt_str_eq(
                &proxies[p].cluster_name,
                &node.cluster_name,
            ) {
                found = true;
                proof {
                    assert(node_proxy_bound(ns, ps, i as int));
                }
            }
            p = p + 1;
        }
        if !found {
            proof {
                assert(!node_proxy_bound(ns, ps, i as int));
            }
            return false;
        }
        i = i + 1;
    }
    true
}

/// Checks invariant 5 over the flat node list.
fn check_replicas(flat: &Vec<Node>) -> (r: bool)
    ensures
        r == inv_replicas(flat@.map_values(|n: Node| n@)),
{
    let ghost ns = flat@.map_values(|n: Node| n@);
    let n = flat.len();
    let mut i: usize = 0;
    while i < n
        invariant
            0 <= i <= n,
            n == flat@.len(),
            ns == flat@.map_values(|x: Node| x@),
            forall|a: int, b: int|
                0 <= a < i && ns[a].role is Replica && 0 <= b < ns[a].masters.len()
                    ==> #[trigger] master_bound(ns, a, b),
        decreases n - i,
    {
        let node = &flat[i];
        proof {
            assert(ns[i as int] == flat@[i as int]@);
        }
        if matches!(node.role, Role::Replica) {
            let mcount = node.repl_meta.masters.len();
            proof {
                assert(ns[i as int].masters =~= node.repl_meta.masters@.map_values(
                    |s: String| s@,
                ));
            }
            let mut mi: usize = 0;
            while mi < mcount
                invariant
                    0 <= mi <= mcount,
                    i < n,
                    n == flat@.len(),
                    mcount == node.repl_meta.masters@.len(),
                    node == &flat[i as int],
                    ns == flat@.map_values(|x: Node| x@),
                    ns[i as int] == flat@[i as int]@,
                    ns[i as int].role is Replica,
                    ns[i as int].masters.len() == mcount,
                    forall|b: int| 0 <= b < mi ==> #[trigger] master_bound(ns, i as int, b),
                decreases mcount - mi,
            {
                let maddr = &node.repl_meta.masters[mi];
                proof {
                    assert(ns[i as int].masters[mi as int] == node.repl_meta.masters@[
                        mi as int
                    ]@);
                }
                let mut j: usize = 0;
                let mut found = false;
                while j < n
                    invariant
                        0 <= j <= n,
                        i < n,
                        mi < mcount,
                        n == flat@.len(),
                        mcount == node.repl_meta.masters@.len(),
                        node == &flat[i as int],
                        ns == flat@.map_values(|x: Node| x@),
                        ns[i as int] == flat@[i as int]@,
                        ns[i as int].role is Replica,
                        ns[i as int].masters.len() == mcount,
                        maddr == &node.repl_meta.masters[mi as int],
                        ns[i as int].masters[mi as int] == maddr@,
                        found ==> master_bound(ns, i as int, mi as int),
                        !found ==> forall|b: int|
                            0 <= b < j ==> !((#[trigger] ns[b]).role is Master && ns[b].address
                                == ns[i as int].masters[mi as int] && ns[b].cluster_name
                                == ns[i as int].cluster_name),
                    decreases n - j,
                {
                    proof {
                        assert(ns[j as int] == flat@[j as int]@);
                    }
                    if matches!(flat[j].role, Role::Master) && flat[j].address.eq(maddr)
                        && opt_str_eq(&flat[j].cluster_name, &node.cluster_name) {
                        found = true;
                        proof {
                            assert(master_bound(ns, i as int, mi as int));
                        }
                    }
                    j = j + 1;
                }
                if !found {
                    proof {
                        assert(ns[i as int].role is Replica);
                        assert(ns[i as int].masters.len() == mcount);
                        assert(!master_bound(ns, i as int, mi as int));
                        assert(!inv_replicas(ns));
                    }
                    return false;
                }
                mi = mi + 1;
            }
        }
        i = i + 1;
    }
    true
}

impl MetaStore {
    /// Recomputes the topology invariants and reports the first
    /// violation. Returns `Ok` exactly when they all hold.
    pub fn validate(&self) -> (r: Result<(), InconsistentError>)
        ensures
            r is Ok <==> inv_topology(self@),
    {
        let n = self.clusters.len();
        let mut c: usize = 0;
        while c < n
            invariant
                0 <= c <= n,
                n == self@.clusters.len(),
                forall|x: int| 0 <= x < c ==> inv_coverage(#[trigger] self@.clusters[x]),
            decreases n - c,
        {
            proof {
                assert(self@.clusters[c as int] == self.clusters@[c as int]@);
            }
            if !check_coverage(&self.clusters[c]) {
                return Err(InconsistentError::SlotCoverage);
            }
            c = c + 1;
        }
        let flat = self.collect_nodes();
        if !check_pairing(&flat) {
            return Err(InconsistentError::MigrationPairBroken);
        }
        if !check_unique(&flat) {
            return Err(InconsistentError::DuplicateNodeAddress);
        }
        if !check_binding(&flat, &self.proxies) {
            return Err(InconsistentError::ProxyBindingBroken);
        }
        if !check_replicas(&flat) {
            return Err(InconsistentError::ReplicaMasterMissing);
        }
        Ok(())
    }
}

/// Whether two lists of names hold the same texts in the same order.
fn str_vec_eq(a: &Vec<String>, b: &Vec<String>) -> (r: bool)
    ensures
        r == (str_views(a@) == str_views(b@)),
{
    let n = a.len();
    if n != b.len() {
        proof {
            assert(str_views(a@).len() != str_views(b@).len());
        }
        return false;
    }
    let mut i: usize = 0;
    while i < n
        invariant
            0 <= i <= n,
            n == a@.len(),
            n == b@.len(),
            forall|k: int| 0 <= k < i ==> (#[trigger] a@[k])@ == b@[k]@,
        decreases n - i,
    {
        if !a[i].eq(&b[i]) {
            proof {
                assert(str_views(a@)[i as int] != str_views(b@)[i as int]);
            }
            return false;
        }
        i = i + 1;
    }
    proof {
        assert(str_views(a@) =~= str_views(b@));
    }
    true
}

impl MetaStore {
    /// Checks the structural well-formedness of the store.
    fn check_wf(&self) -> (r: bool)
        ensures
            r == store_wf(self@),
    {
        let ncl = self.clusters.len();
        let mut a: usize = 0;
        while a < ncl
            invariant
                0 <= a <= ncl,
                ncl == self@.clusters.len(),
                forall|x: int, y: int|
                    0 <= x < y < ncl && x < a ==> (#[trigger] self@.clusters[x]).name != (
                    #[trigger] self@.clusters[y]).name,
            decreases ncl - a,
        {
            proof {
                assert(self@.clusters[a as int] == self.clusters@[a as int]@);
            }
            let mut b: usize = a + 1;
            while b < ncl
                invariant
                    a < b <= ncl,
                    a < ncl,
                    ncl == self@.clusters.len(),
                    self@.clusters[a as int] == self.clusters@[a as int]@,
                    forall|y: int|
                        a < y < b ==> (#[trigger] self@.clusters[y]).name != self@.clusters[
                            a as int
                        ].name,
                decreases ncl - b,
            {
                proof {
                    assert(self@.clusters[b as int] == self.clusters@[b as int]@);
                }
                if self.clusters[a].name.eq(&self.clusters[b].name) {
                    proof {
                        assert(!wf_cluster_names(self@));
                        assert(!store_wf(self@));
                    }
                    return false;
                }
                b = b + 1;
            }
            a = a + 1;
        }
        let npx = self.proxies.len();
        let mut a2: usize = 0;
        while a2 < npx
            invariant
                0 <= a2 <= npx,
                npx == self@.proxies.len(),
                forall|x: int, y: int|
                    0 <= x < y < npx && x < a2 ==> (#[trigger] self@.proxies[x]).address != (
                    #[trigger] self@.proxies[y]).address,
            decreases npx - a2,
        {
            proof {
                assert(self@.proxies[a2 as int] == self.proxies@[a2 as int]@);
            }
            let mut b2: usize = a2 + 1;
            while b2 < npx
                invariant
                    a2 < b2 <= npx,
                    a2 < npx,
                    npx == self@.proxies.len(),
                    self@.proxies[a2 as int] == self.proxies@[a2 as int]@,
                    forall|y: int|
                        a2 < y < b2 ==> (#[trigger] self@.proxies[y]).address != self@.proxies[
                            a2 as int
                        ].address,
                decreases npx - b2,
            {
                proof {
                    assert(self@.proxies[b2 as int] == self.proxies@[b2 as int]@);
                }
                if self.proxies[a2].address.eq(&self.proxies[b2].address) {
                    proof {
                        assert(!wf_proxy_addrs(self@));
                        assert(!store_wf(self@));
                    }
                    return false;
                }
                b2 = b2 + 1;
            }
            a2 = a2 + 1;
        }
        let mut c: usize = 0;
        while c < ncl
            invariant
                0 <= c <= ncl,
                ncl == self@.clusters.len(),
                forall|x: int, i: int|
                    0 <= x < c && 0 <= i < (#[trigger] self@.clusters[x]).nodes.len() ==> (
                    #[trigger] self@.clusters[x].nodes[i]).cluster_name == Option::Some(
                        self@.clusters[x].name,
                    ),
                forall|x: int, i: int, k: int|
                    0 <= x < c && 0 <= i < self@.clusters[x].nodes.len() && 0 <= k < self@.clusters[
                        x
                    ].nodes[i].slots.len() ==> valid_range(
                        #[trigger] self@.clusters[x].nodes[i].slots[k],
                    ),
                forall|x: int|
                    0 <= x < c ==> (#[trigger] self@.clusters[x]).epoch <= self@.global_epoch,
            decreases ncl - c,
        {
            let cluster = &self.clusters[c];
            proof {
                assert(self@.clusters[c as int] == self.clusters@[c as int]@);
            }
            if cluster.epoch > self.global_epoch {
                proof {
                    assert(!wf_epochs(self@));
                    assert(!store_wf(self@));
                }
                return false;
            }
            let want = Some(cluster.name.clone());
            let nn = cluster.nodes.len();
            let mut i: usize = 0;
            while i < nn
                invariant
                    0 <= i <= nn,
                    c < ncl,
                    ncl == self@.clusters.len(),
                    nn == cluster.nodes@.len(),
                    cluster == &self.clusters[c as int],
                    self@.clusters[c as int] == self.clusters@[c as int]@,
                    opt_str_view(want) == Option::Some(self@.clusters[c as int].name),
                    forall|i2: int|
                        0 <= i2 < i ==> (#[trigger] self@.clusters[c as int].nodes[i2]).cluster_name
                            == Option::Some(self@.clusters[c as int].name),
                    forall|i2: int, k: int|
                        0 <= i2 < i && 0 <= k < self@.clusters[c as int].nodes[i2].slots.len()
                            ==> valid_range(
                            #[trigger] self@.clusters[c as int].nodes[i2].slots[k],
                        ),
                decreases nn - i,
            {
                let node = &cluster.nodes[i];
                proof {
                    assert(self@.clusters[c as int].nodes[i as int] == cluster.nodes@[i as int]@);
                }
                if !opt_str_eq(&node.cluster_name, &want) {
                    proof {
                        assert(!wf_stamps(self@));
                        assert(!store_wf(self@));
                    }
                    return false;
                }
                let ghost sl = self@.clusters[c as int].nodes[i as int].slots;
                proof {
                    assert(sl =~= node.slots@.map_values(|x: SlotRange| x@));
                }
                let nr = node.slots.len();
                let mut k: usize = 0;
                while k < nr
                    invariant
                        0 <= k <= nr,
                        c < ncl,
                        i < nn,
                        ncl == self@.clusters.len(),
                        nn == cluster.nodes@.len(),
                        nr == node.slots@.len(),
                        node == &cluster.nodes[i as int],
                        cluster == &self.clusters[c as int],
                        sl == self@.clusters[c as int].nodes[i as int].slots,
                        sl == node.slots@.map_values(|x: SlotRange| x@),
                        sl.len() == nr,
                        forall|k2: int| 0 <= k2 < k ==> valid_range(#[trigger] sl[k2]),
                    decreases nr - k,
                {
                    let range = &node.slots[k];
                    proof {
                        assert(sl[k as int] == node.slots@[k as int]@);
                    }
                    if !(range.start <= range.end && range.end < SLOT_COUNT) {
                        proof {
                            assert(!valid_range(sl[k as int]));
                            assert(!wf_ranges(self@));
                            assert(!store_wf(self@));
                        }
                        return false;
                    }
                    k = k + 1;
                }
                proof {
                    assert(forall|k2: int|
                        0 <= k2 < self@.clusters[c as int].nodes[i as int].slots.len()
                            ==> valid_range(
                            #[trigger] self@.clusters[c as int].nodes[i as int].slots[k2],
                        ));
                }
                i = i + 1;
            }
            c = c + 1;
        }
        let mut p: usize = 0;
        while p < npx
            invariant
                0 <= p <= npx,
                npx == self@.proxies.len(),
                forall|x: int|
                    0 <= x < p ==> (#[trigger] self@.proxies[x]).epoch <= self@.global_epoch,
                forall|x: int| 0 <= x < p ==> proxy_shape(#[trigger] self@.proxies[x]),
            decreases npx - p,
        {
            let proxy = &self.proxies[p];
            proof {
                assert(self@.proxies[p as int] == self.proxies@[p as int]@);
                assert(self@.proxies[p as int].nodes.len() == proxy.nodes@.len());
                assert(self@.proxies[p as int].free_nodes.len() == proxy.free_nodes@.len());
            }
            if proxy.epoch > self.global_epoch {
                proof {
                    assert(!wf_epochs(self@));
                    assert(!store_wf(self@));
                }
                return false;
            }
            if proxy.nodes.len() != 2 {
                proof {
                    assert(!proxy_shape(self@.proxies[p as int]));
                    assert(!wf_shapes(self@));
                    assert(!store_wf(self@));
                }
                return false;
            }
            let shape_ok = if proxy.cluster_name.is_none() {
                str_vec_eq(&proxy.free_nodes, &proxy.nodes)
            } else {
                proxy.free_nodes.len() == 0
            };
            if !shape_ok {
                proof {
                    assert(!proxy_shape(self@.proxies[p as int]));
                    assert(!wf_shapes(self@));
                    assert(!store_wf(self@));
                }
                return false;
            }
            p = p + 1;
        }
        let nf = self.failures.len();
        let mut f1: usize = 0;
        while f1 < nf
            invariant
                0 <= f1 <= nf,
                nf == self@.failures.len(),
                forall|x: int, y: int|
                    0 <= x < y < nf && x < f1 ==> !((#[trigger] self@.failures[x]).proxy == (
                    #[trigger] self@.failures[y]).proxy && self@.failures[x].reporter
                        == self@.failures[y].reporter),
            decreases nf - f1,
        {
            proof {
                assert(self@.failures[f1 as int] == self.failures@[f1 as int]@);
            }
            let mut f2: usize = f1 + 1;
            while f2 < nf
                invariant
                    f1 < f2 <= nf,
                    f1 < nf,
                    nf == self@.failures.len(),
                    self@.failures[f1 as int] == self.failures@[f1 as int]@,
                    forall|y: int|
                        f1 < y < f2 ==> !((#[trigger] self@.failures[y]).proxy == self@.failures[
                            f1 as int
                        ].proxy && self@.failures[y].reporter == self@.failures[f1 as int].reporter),
                decreases nf - f2,
            {
                proof {
                    assert(self@.failures[f2 as int] == self.failures@[f2 as int]@);
                }
                if self.failures[f1].proxy_address.eq(&self.failures[f2].proxy_address)
                    && self.failures[f1].reporter_id.eq(&self.failures[f2].reporter_id) {
                    proof {
                        assert(!wf_failures(self@));
                        assert(!store_wf(self@));
                    }
                    return false;
                }
                f2 = f2 + 1;
            }
            f1 = f1 + 1;
        }
        proof {
            assert(wf_cluster_names(self@));
            assert(wf_proxy_addrs(self@));
            assert(wf_stamps(self@));
            assert(wf_ranges(self@));
            assert(wf_epochs(self@));
            assert(wf_shapes(self@));
            assert(wf_failures(self@));
            assert(store_wf(self@));
        }
        true
    }

    /// Runs the full post-mutation check; keeps the new state when it
    /// passes and restores `backup` when it does not.
    fn commit_checked(&mut self, backup: MetaStore) -> (r: Result<(), InconsistentError>)
        ensures
            r is Ok ==> final(self)@ == old(self)@ && store_inv(final(self)@),
            r is Err ==> final(self)@ == backup@ && !store_inv(old(self)@),
    {
        if !self.check_wf() {
            *self = backup;
            return Err(InconsistentError::StructureBroken);
        }
        match self.validate() {
            Ok(()) => Ok(()),
            Err(e) => {
                *self = backup;
                Err(e)
            },
        }
    }
}

/// Whether some cluster carries the name.
pub open spec fn has_cluster_named(sv: StoreV, name: Seq<char>) -> bool {
    exists|i: int| 0 <= i < sv.clusters.len() && (#[trigger] sv.clusters[i]).name == name
}

/// Whether some proxy carries the address.
pub open spec fn has_proxy_addr(sv: StoreV, addr: Seq<char>) -> bool {
    exists|i: int| 0 <= i < sv.proxies.len() && (#[trigger] sv.proxies[i]).address == addr
}

/// How many nodes of the list belong to the proxy at `addr`.
pub open spec fn count_nodes_of(ns: Seq<NodeV>, addr: Seq<char>) -> nat
    decreases ns.len(),
{
    if ns.len() == 0 {
        0
    } else {
        count_nodes_of(ns.drop_last(), addr) + if ns.last().proxy_address == addr {
            1nat
        } else {
            0nat
        }
    }
}

/// How one node looks after its proxy failed over: a node of the
/// failed proxy keeps its role, slots and cluster but now sits on a
/// replacement backend under the replacement proxy; any other node
/// keeps its addresses; replica bindings are kept or follow a moved
/// master onto a replacement backend.
pub open spec fn node_relocated(
    prior: NodeV,
    now: NodeV,
    failed: Seq<char>,
    backends: Seq<Seq<char>>,
    new_proxy: Seq<char>,
) -> bool {
    &&& now.role == prior.role
    &&& now.slots == prior.slots
    &&& now.cluster_name == prior.cluster_name
    &&& now.masters.len() == prior.masters.len()
    &&& (forall|mi: int|
        0 <= mi < now.masters.len() ==> ((#[trigger] now.masters[mi]) == prior.masters[mi]
            || exists|j: int| 0 <= j < backends.len() && now.masters[mi] == #[trigger] backends[j]))
    &&& (prior.proxy_address == failed ==> now.proxy_address == new_proxy && exists|j: int|
        0 <= j < backends.len() && now.address == #[trigger] backends[j])
    &&& (prior.proxy_address != failed ==> now.proxy_address == prior.proxy_address && now.address
        == prior.address)
}

/// A prefix never counts more of the proxy's nodes than the whole.
proof fn lemma_count_nodes_take_le(ns: Seq<NodeV>, addr: Seq<char>, i: int)
    requires
        0 <= i <= ns.len(),
    ensures
        count_nodes_of(ns.take(i), addr) <= count_nodes_of(ns, addr),
    decreases ns.len() - i,
{
    if i < ns.len() {
        lemma_count_nodes_take_le(ns, addr, i + 1);
        let t = ns.take(i + 1);
        assert(t.drop_last() =~= ns.take(i));
        assert(t.last() == ns[i]);
    } else {
        assert(ns.take(i) =~= ns);
    }
}

/// Whether some node of the cluster carries the address.
pub open spec fn cluster_has_node(c: ClusterV, addr: Seq<char>) -> bool {
    exists|i: int| 0 <= i < c.nodes.len() && (#[trigger] c.nodes[i]).address == addr
}

/// The store after registering a proxy: the record appended, the
/// epoch bumped and stamped on it.
pub open spec fn after_add_proxy(sv: StoreV, addr: Seq<char>, nodes: Seq<Seq<char>>) -> StoreV {
    StoreV {
        proxies: sv.proxies.push(
            ProxyV {
                address: addr,
                epoch: sv.global_epoch + 1,
                nodes: nodes,
                free_nodes: nodes,
                cluster_name: Option::None,
            },
        ),
        global_epoch: sv.global_epoch + 1,
        ..sv
    }
}

/// The store after creating an empty cluster.
pub open spec fn after_add_cluster(sv: StoreV, name: Seq<char>) -> StoreV {
    StoreV {
        clusters: sv.clusters.push(
            ClusterV { name: name, epoch: sv.global_epoch + 1, nodes: Seq::empty() },
        ),
        global_epoch: sv.global_epoch + 1,
        ..sv
    }
}

/// The store after unregistering the proxy at index `i`.
pub open spec fn after_remove_proxy(sv: StoreV, i: int) -> StoreV {
    StoreV { proxies: sv.proxies.remove(i), global_epoch: sv.global_epoch + 1, ..sv }
}

/// Whether every range of the cluster is `Normal`.
pub open spec fn all_normal(c: ClusterV) -> bool {
    forall|i: int, k: int|
        0 <= i < c.nodes.len() && 0 <= k < c.nodes[i].slots.len() ==> (#[trigger] c.nodes[i].slots[k]).tag is Normal
}

/// A proxy record given back its free nodes, stamped with epoch `e`.
pub open spec fn proxy_reset(p: ProxyV, e: nat) -> ProxyV {
    ProxyV { epoch: e, free_nodes: p.nodes, cluster_name: Option::None, ..p }
}

/// The store after deleting the cluster at index `ci` named `name`:
/// the record is gone and every proxy assigned to it is freed.
pub open spec fn after_remove_cluster(sv: StoreV, ci: int, name: Seq<char>) -> StoreV {
    StoreV {
        clusters: sv.clusters.remove(ci),
        proxies: sv.proxies.map_values(
            |p: ProxyV|
                if p.cluster_name == Option::Some(name) {
                    proxy_reset(p, sv.global_epoch + 1)
                } else {
                    p
                },
        ),
        global_epoch: sv.global_epoch + 1,
        ..sv
    }
}

/// Checks that every range of the cluster is `Normal`.
fn check_all_normal(cluster: &Cluster) -> (r: bool)
    ensures
        r == all_normal(cluster@),
{
    let ghost cv = cluster@;
    let n = cluster.nodes.len();
    let mut i: usize = 0;
    while i < n
        invariant
            0 <= i <= n,
            n == cluster.nodes@.len(),
            cv == cluster@,
            forall|a: int, b: int|
                0 <= a < i && 0 <= b < cv.nodes[a].slots.len() ==> (
                #[trigger] cv.nodes[a].slots[b]).tag is Normal,
        decreases n - i,
    {
        let node = &cluster.nodes[i];
        proof {
            assert(cv.nodes[i as int] == cluster.nodes@[i as int]@);
            assert(cv.nodes[i as int].slots =~= node.slots@.map_values(|x: SlotRange| x@));
        }
        let m = node.slots.len();
        let mut k: usize = 0;
        while k < m
            invariant
                0 <= k <= m,
                i < n,
                n == cluster.nodes@.len(),
                m == node.slots@.len(),
                node == &cluster.nodes[i as int],
                cv == cluster@,
                cv.nodes[i as int] == cluster.nodes@[i as int]@,
                cv.nodes[i as int].slots.len() == m,
                cv.nodes[i as int].slots == node.slots@.map_values(|x: SlotRange| x@),
                forall|b: int|
                    0 <= b < k ==> (#[trigger] cv.nodes[i as int].slots[b]).tag is Normal,
            decreases m - k,
        {
            proof {
                assert(cv.nodes[i as int].slots[k as int] == node.slots@[k as int]@);
            }
            if !matches!(node.slots[k].tag, SlotRangeTag::Normal) {
                return false;
            }
            k = k + 1;
        }
        i = i + 1;
    }
    true
}

impl MetaStore {
    /// Deletes a cluster and returns its nodes to their proxies' free
    /// pools. Fails `NotFound` when the name is unknown and
    /// `MigrationRunning` while any of its ranges carries a migration
    /// tag.
    pub fn remove_cluster(&mut self, cluster_name: String) -> (r: Result<(), MetaStoreError>)
        requires
            old(self).global_epoch < u64::MAX,
        ensures
            r == Result::<(), MetaStoreError>::Err(MetaStoreError::NotFound) <==> (forall|i: int|
                0 <= i < old(self)@.clusters.len() ==> (#[trigger] old(self)@.clusters[i]).name
                    != cluster_name@),
            store_wf(old(self)@) ==> (r == Result::<(), MetaStoreError>::Err(
                MetaStoreError::MigrationRunning,
            ) <==> (exists|ci: int|
                0 <= ci < old(self)@.clusters.len() && (#[trigger] old(self)@.clusters[ci]).name
                    == cluster_name@ && !all_normal(old(self)@.clusters[ci]))),
            (r matches Result::Err(MetaStoreError::Inconsistent(e))) ==> exists|ci: int|
                0 <= ci < old(self)@.clusters.len() && (#[trigger] old(self)@.clusters[ci]).name
                    == cluster_name@ && all_normal(old(self)@.clusters[ci]) && !store_inv(
                    after_remove_cluster(old(self)@, ci, cluster_name@),
                ),
            r is Err ==> r == Result::<(), MetaStoreError>::Err(MetaStoreError::NotFound) || r
                == Result::<(), MetaStoreError>::Err(MetaStoreError::MigrationRunning) || (
            r matches Result::Err(MetaStoreError::Inconsistent(e))),
            r is Err ==> final(self)@ == old(self)@,
            r is Ok ==> store_inv(final(self)@) && exists|ci: int|
                0 <= ci < old(self)@.clusters.len() && (#[trigger] old(self)@.clusters[ci]).name
                    == cluster_name@ && all_normal(old(self)@.clusters[ci]) && final(self)@
                    == after_remove_cluster(old(self)@, ci, cluster_name@),
            store_inv(old(self)@) ==> store_inv(final(self)@),
    {
        let ci = match self.find_cluster(&cluster_name) {
            Some(i) => i,
            None => {
                return Err(MetaStoreError::NotFound);
            },
        };
        if !check_all_normal(&self.clusters[ci]) {
            return Err(MetaStoreError::MigrationRunning);
        }
        let backup = self.get_all_data();
        let ghost prev = self@;
        self.global_epoch = self.global_epoch + 1;
        self.clusters.remove(ci);
        let npx = self.proxies.len();
        let mut p: usize = 0;
        while p < npx
            invariant
                0 <= p <= npx,
                npx == self@.proxies.len(),
                self@.clusters == prev.clusters.remove(ci as int),
                self@.failures == prev.failures,
                self@.global_epoch == prev.global_epoch + 1,
                prev.global_epoch + 1 <= u64::MAX,
                prev.proxies.len() == npx,
                forall|x: int|
                    0 <= x < p ==> self@.proxies[x] == (if (#[trigger] prev.proxies[x]).cluster_name
                        == Option::Some(cluster_name@) {
                        proxy_reset(prev.proxies[x], prev.global_epoch + 1)
                    } else {
                        prev.proxies[x]
                    }),
                forall|x: int| p <= x < npx ==> self@.proxies[x] == #[trigger] prev.proxies[x],
            decreases npx - p,
        {
            proof {
                assert(self@.proxies[p as int] == self.proxies@[p as int]@);
            }
            let is_member = match &self.proxies[p].cluster_name {
                Some(cn) => cn.eq(&cluster_name),
                None => false,
            };
            if is_member {
                let old_proxy = &self.proxies[p];
                let np = Proxy {
                    address: old_proxy.address.clone(),
                    epoch: self.global_epoch,
                    nodes: dup_strings(&old_proxy.nodes),
                    free_nodes: dup_strings(&old_proxy.nodes),
                    cluster_name: None,
                };
                proof {
                    assert(np@ == proxy_reset(prev.proxies[p as int], prev.global_epoch + 1));
                }
                self.proxies.set(p, np);
            }
            p = p + 1;
        }
        proof {
            let target = after_remove_cluster(prev, ci as int, cluster_name@);
            assert(self@.proxies =~= target.proxies);
            assert(self@ == target);
        }
        match self.commit_checked(backup) {
            Ok(()) => Ok(()),
            Err(e) => Err(MetaStoreError::Inconsistent(e)),
        }
    }
}

/// Whether range `(i, k)` of the cluster is exactly the stated tagged
/// range.
pub open spec fn exact_range_at(
    c: ClusterV,
    i: int,
    k: int,
    importing: bool,
    m: crate::cluster::MigrationMetaV,
    start: nat,
    end: nat,
) -> bool {
    &&& 0 <= i < c.nodes.len()
    &&& 0 <= k < c.nodes[i].slots.len()
    &&& c.nodes[i].slots[k] == (SlotRangeV {
        start,
        end,
        tag: if importing {
            SlotRangeTagV::Importing(m)
        } else {
            SlotRangeTagV::Migrating(m)
        },
    })
}

/// Whether range `(i, k)` of the cluster is a `Migrating` range whose
/// migration runs from `src` to `dst`.
pub open spec fn migrating_between_at(c: ClusterV, i: int, k: int, src: Seq<char>, dst: Seq<
    char,
>) -> bool {
    &&& 0 <= i < c.nodes.len()
    &&& 0 <= k < c.nodes[i].slots.len()
    &&& c.nodes[i].slots[k].tag is Migrating
    &&& c.nodes[i].slots[k].tag->Migrating_0.src_node == src
    &&& c.nodes[i].slots[k].tag->Migrating_0.dst_node == dst
}

/// A node value with its slot list replaced.
pub open spec fn node_with_slots(n: NodeV, slots: Seq<SlotRangeV>) -> NodeV {
    NodeV { slots: slots, ..n }
}

/// Rebuilds a node with the given slot list, keeping everything else.
fn rebuild_node(n: &Node, slots: Vec<SlotRange>) -> (r: Node)
    ensures
        r@ == node_with_slots(n@, slots@.map_values(|x: SlotRange| x@)),
{
    Node {
        address: n.address.clone(),
        proxy_address: n.proxy_address.clone(),
        cluster_name: dup_opt_str(&n.cluster_name),
        role: n.role,
        slots,
        repl_meta: ReplMeta { masters: dup_strings(&n.repl_meta.masters) },
    }
}

/// Looks for a range equal to the stated tagged range in the cluster.
fn find_exact_range(
    cluster: &Cluster,
    importing: bool,
    m: &MigrationMeta,
    start: usize,
    end: usize,
) -> (r: Option<(usize, usize)>)
    ensures
        match r {
            Option::Some(p) => exact_range_at(
                cluster@,
                p.0 as int,
                p.1 as int,
                importing,
                m@,
                start as nat,
                end as nat,
            ),
            Option::None => forall|i: int, k: int|
                !exact_range_at(cluster@, i, k, importing, m@, start as nat, end as nat),
        },
{
    let ghost cv = cluster@;
    let n = cluster.nodes.len();
    let mut i: usize = 0;
    while i < n
        invariant
            0 <= i <= n,
            n == cluster.nodes@.len(),
            cv == cluster@,
            forall|a: int, b: int|
                0 <= a < i ==> !exact_range_at(cv, a, b, importing, m@, start as nat, end as nat),
        decreases n - i,
    {
        let node = &cluster.nodes[i];
        proof {
            assert(cv.nodes[i as int] == cluster.nodes@[i as int]@);
            assert(cv.nodes[i as int].slots =~= node.slots@.map_values(|x: SlotRange| x@));
        }
        let nr = node.slots.len();
        let mut k: usize = 0;
        while k < nr
            invariant
                0 <= k <= nr,
                i < n,
                n == cluster.nodes@.len(),
                nr == node.slots@.len(),
                node == &cluster.nodes[i as int],
                cv == cluster@,
                cv.nodes[i as int] == cluster.nodes@[i as int]@,
                cv.nodes[i as int].slots.len() == nr,
                cv.nodes[i as int].slots == node.slots@.map_values(|x: SlotRange| x@),
                forall|b: int|
                    0 <= b < k ==> !exact_range_at(
                        cv,
                        i as int,
                        b,
                        importing,
                        m@,
                        start as nat,
                        end as nat,
                    ),
            decreases nr - k,
        {
            let range = &node.slots[k];
            proof {
                assert(cv.nodes[i as int].slots[k as int] == node.slots@[k as int]@);
            }
            let ghost hit = exact_range_at(
                cv,
                i as int,
                k as int,
                importing,
                m@,
                start as nat,
                end as nat,
            );
            match &range.tag {
                SlotRangeTag::Importing(m2) => {
                    if importing && range.start == start && range.end == end && meta_eq(m2, m) {
                        proof {
                            assert(hit);
                        }
                        return Some((i, k));
                    } else {
                        proof {
                            assert(!hit);
                        }
                    }
                },
                SlotRangeTag::Migrating(m2) => {
                    if !importing && range.start == start && range.end == end && meta_eq(m2, m) {
                        proof {
                            assert(hit);
                        }
                        return Some((i, k));
                    } else {
                        proof {
                            assert(!hit);
                        }
                    }
                },
                SlotRangeTag::Normal => {
                    proof {
                        assert(!hit);
                    }
                },
            }
            k = k + 1;
        }
        i = i + 1;
    }
    None
}

/// Looks for a `Migrating` range whose migration runs from `src` to
/// `dst`.
fn find_migrating_between(cluster: &Cluster, src: &String, dst: &String) -> (r: Option<
    (usize, usize),
>)
    ensures
        match r {
            Option::Some(p) => migrating_between_at(cluster@, p.0 as int, p.1 as int, src@, dst@),
            Option::None => forall|i: int, k: int|
                !migrating_between_at(cluster@, i, k, src@, dst@),
        },
{
    let ghost cv = cluster@;
    let n = cluster.nodes.len();
    let mut i: usize = 0;
    while i < n
        invariant
            0 <= i <= n,
            n == cluster.nodes@.len(),
            cv == cluster@,
            forall|a: int, b: int|
                0 <= a < i ==> !migrating_between_at(cv, a, b, src@, dst@),
        decreases n - i,
    {
        let node = &cluster.nodes[i];
        proof {
            assert(cv.nodes[i as int] == cluster.nodes@[i as int]@);
            assert(cv.nodes[i as int].slots =~= node.slots@.map_values(|x: SlotRange| x@));
        }
        let nr = node.slots.len();
        let mut k: usize = 0;
        while k < nr
            invariant
                0 <= k <= nr,
                i < n,
                n == cluster.nodes@.len(),
                nr == node.slots@.len(),
                node == &cluster.nodes[i as int],
                cv == cluster@,
                cv.nodes[i as int] == cluster.nodes@[i as int]@,
                cv.nodes[i as int].slots.len() == nr,
                cv.nodes[i as int].slots == node.slots@.map_values(|x: SlotRange| x@),
                forall|b: int| 0 <= b < k ==> !migrating_between_at(cv, i as int, b, src@, dst@),
            decreases nr - k,
        {
            let range = &node.slots[k];
            proof {
                assert(cv.nodes[i as int].slots[k as int] == node.slots@[k as int]@);
            }
            let ghost hit = migrating_between_at(cv, i as int, k as int, src@, dst@);
            match &range.tag {
                SlotRangeTag::Migrating(m2) => {
                    if m2.src_node_address.eq(src) && m2.dst_node_address.eq(dst) {
                        proof {
                            assert(hit);
                        }
                        return Some((i, k));
                    } else {
                        proof {
                            assert(!hit);
                        }
                    }
                },
                _ => {
                    proof {
                        assert(!hit);
                    }
                },
            }
            k = k + 1;
        }
        i = i + 1;
    }
    None
}

/// The store after a commit or a stop settles migration ranges inside
/// the cluster at `ci`: first the range `(norm_i, norm_k)` becomes
/// `Normal`, then the range `(rem_i, rem_k)` disappears, with the new
/// epoch stamped on the cluster. The two steps apply in that order, so
/// both may touch the same node.
pub open spec fn after_settle(
    sv: StoreV,
    ci: int,
    norm_i: int,
    norm_k: int,
    rem_i: int,
    rem_k: int,
) -> StoreV {
    let c = sv.clusters[ci];
    let keeper = c.nodes[norm_i];
    let keeper2 = node_with_slots(
        keeper,
        keeper.slots.update(
            norm_k,
            SlotRangeV { tag: SlotRangeTagV::Normal, ..keeper.slots[norm_k] },
        ),
    );
    let nodes1 = c.nodes.update(norm_i, keeper2);
    let loser = nodes1[rem_i];
    let loser2 = node_with_slots(loser, loser.slots.remove(rem_k));
    let c2 = ClusterV {
        epoch: sv.global_epoch + 1,
        nodes: nodes1.update(rem_i, loser2),
        ..c
    };
    StoreV { clusters: sv.clusters.update(ci, c2), global_epoch: sv.global_epoch + 1, ..sv }
}

impl MetaStore {
    /// Retags range `(norm_i, norm_k)` of cluster `ci` as `Normal`,
    /// then removes range `(rem_i, rem_k)`, bumping the epochs.
    fn settle_ranges(&mut self, ci: usize, norm_i: usize, norm_k: usize, rem_i: usize, rem_k: usize)
        requires
            old(self).global_epoch < u64::MAX,
            ci < old(self)@.clusters.len(),
            norm_i < old(self)@.clusters[ci as int].nodes.len(),
            norm_k < old(self)@.clusters[ci as int].nodes[norm_i as int].slots.len(),
            rem_i < old(self)@.clusters[ci as int].nodes.len(),
            rem_k < old(self)@.clusters[ci as int].nodes[rem_i as int].slots.len(),
        ensures
            final(self)@ == after_settle(
                old(self)@,
                ci as int,
                norm_i as int,
                norm_k as int,
                rem_i as int,
                rem_k as int,
            ),
    {
        let ghost prev = self@;
        self.global_epoch = self.global_epoch + 1;
        let cluster = &self.clusters[ci];
        let ghost cv = prev.clusters[ci as int];
        proof {
            assert(cv == cluster@);
            assert(cv.nodes =~= cluster.nodes@.map_values(|x: Node| x@));
        }
        let name = cluster.name.clone();
        let mut new_nodes = dup_nodes(&cluster.nodes);
        let keeper = &cluster.nodes[norm_i];
        proof {
            assert(cv.nodes[norm_i as int] == cluster.nodes@[norm_i as int]@);
            assert(cv.nodes[norm_i as int].slots =~= keeper.slots@.map_values(
                |x: SlotRange| x@,
            ));
        }
        let mut ksl = dup_ranges(&keeper.slots);
        let kr = &keeper.slots[norm_k];
        ksl.set(norm_k, SlotRange { start: kr.start, end: kr.end, tag: SlotRangeTag::Normal });
        let new_keeper = rebuild_node(keeper, ksl);
        new_nodes.set(norm_i, new_keeper);
        let ghost keeper2 = node_with_slots(
            cv.nodes[norm_i as int],
            cv.nodes[norm_i as int].slots.update(
                norm_k as int,
                SlotRangeV {
                    tag: SlotRangeTagV::Normal,
                    ..cv.nodes[norm_i as int].slots[norm_k as int]
                },
            ),
        );
        let ghost nodes1 = cv.nodes.update(norm_i as int, keeper2);
        proof {
            assert(new_keeper@.slots =~= keeper2.slots);
            assert(new_keeper@ == keeper2);
            assert(new_nodes@.map_values(|x: Node| x@) =~= nodes1);
        }
        let loser = &new_nodes[rem_i];
        proof {
            assert(nodes1[rem_i as int] == new_nodes@[rem_i as int]@);
            assert(nodes1[rem_i as int].slots =~= loser.slots@.map_values(|x: SlotRange| x@));
        }
        let mut lsl = dup_ranges(&loser.slots);
        lsl.remove(rem_k);
        let new_loser = rebuild_node(loser, lsl);
        let ghost loser2 = node_with_slots(
            nodes1[rem_i as int],
            nodes1[rem_i as int].slots.remove(rem_k as int),
        );
        proof {
            assert(new_loser@.slots =~= loser2.slots);
            assert(new_loser@ == loser2);
        }
        new_nodes.set(rem_i, new_loser);
        proof {
            assert(new_nodes@.map_values(|x: Node| x@) =~= nodes1.update(rem_i as int, loser2));
        }
        let new_cluster = Cluster { name, epoch: self.global_epoch, nodes: new_nodes };
        self.clusters.set(ci, new_cluster);
        proof {
            let target = after_settle(
                prev,
                ci as int,
                norm_i as int,
                norm_k as int,
                rem_i as int,
                rem_k as int,
            );
            assert(new_cluster@.nodes =~= target.clusters[ci as int].nodes);
            assert(new_cluster@ == target.clusters[ci as int]);
            assert(self@.clusters =~= target.clusters);
            assert(self@.proxies =~= target.proxies);
            assert(self@.failures =~= target.failures);
            assert(self@ == target);
        }
    }
}

/// Lexicographic order on character sequences, by code point, with a
/// prefix ranking below its extensions.
pub open spec fn lex_le(a: Seq<char>, b: Seq<char>) -> bool
    decreases a.len(),
{
    if a.len() == 0 {
        true
    } else if b.len() == 0 {
        false
    } else if a[0] != b[0] {
        (a[0] as int) < (b[0] as int)
    } else {
        lex_le(a.skip(1), b.skip(1))
    }
}

/// Any two sequences compare one way or the other.
pub proof fn lemma_lex_total(a: Seq<char>, b: Seq<char>)
    ensures
        lex_le(a, b) || lex_le(b, a),
    decreases a.len(),
{
    if a.len() > 0 && b.len() > 0 && a[0] == b[0] {
        lemma_lex_total(a.skip(1), b.skip(1));
    }
}

/// The order is transitive.
pub proof fn lemma_lex_trans(a: Seq<char>, b: Seq<char>, c: Seq<char>)
    requires
        lex_le(a, b),
        lex_le(b, c),
    ensures
        lex_le(a, c),
    decreases a.len(),
{
    if a.len() > 0 && b.len() > 0 && c.len() > 0 && a[0] == b[0] && b[0] == c[0] {
        lemma_lex_trans(a.skip(1), b.skip(1), c.skip(1));
    }
}

/// Compares two names lexicographically.
fn str_lex_le(a: &String, b: &String) -> (r: bool)
    ensures
        r == lex_le(a@, b@),
{
    let alen = a.as_str().unicode_len();
    let blen = b.as_str().unicode_len();
    let mut i: usize = 0;
    proof {
        assert(a@.skip(0) =~= a@);
        assert(b@.skip(0) =~= b@);
    }
    while i < alen && i < blen
        invariant
            0 <= i,
            i <= alen,
            i <= blen,
            alen == a@.len(),
            blen == b@.len(),
            lex_le(a@, b@) == lex_le(a@.skip(i as int), b@.skip(i as int)),
            forall|x: int| 0 <= x < i ==> a@[x] == b@[x],
        decreases alen - i,
    {
        let ca = a.as_str().get_char(i);
        let cb = b.as_str().get_char(i);
        proof {
            assert(a@.skip(i as int)[0] == a@[i as int]);
            assert(b@.skip(i as int)[0] == b@[i as int]);
            assert(a@.skip(i as int).skip(1) =~= a@.skip(i as int + 1));
            assert(b@.skip(i as int).skip(1) =~= b@.skip(i as int + 1));
        }
        if ca != cb {
            return (ca as u32) < (cb as u32);
        }
        i = i + 1;
    }
    proof {
        if i >= alen {
            assert(a@.skip(i as int).len() == 0);
        } else {
            assert(b@.skip(i as int).len() == 0);
            assert(a@.skip(i as int).len() > 0);
        }
    }
    alen <= blen
}

/// Whether a proxy is unassigned and so free to join a cluster.
pub open spec fn free_proxy(p: ProxyV) -> bool {
    p.cluster_name is None
}

/// Candidate order for free proxies: lower epoch first, then
/// lexicographic address.
pub open spec fn proxy_no_worse(p: ProxyV, q: ProxyV) -> bool {
    p.epoch < q.epoch || (p.epoch == q.epoch && lex_le(p.address, q.address))
}

impl MetaStore {
    /// Picks the free proxy that comes first by (epoch, address).
    fn pick_free_proxy(&self) -> (r: Option<usize>)
        ensures
            match r {
                Option::Some(pi) => pi < self@.proxies.len() && free_proxy(
                    self@.proxies[pi as int],
                ) && forall|q: int|
                    0 <= q < self@.proxies.len() && free_proxy(#[trigger] self@.proxies[q])
                        ==> proxy_no_worse(self@.proxies[pi as int], self@.proxies[q]),
                Option::None => forall|q: int|
                    0 <= q < self@.proxies.len() ==> !free_proxy(#[trigger] self@.proxies[q]),
            },
    {
        let n = self.proxies.len();
        let mut best: Option<usize> = None;
        let mut p: usize = 0;
        while p < n
            invariant
                0 <= p <= n,
                n == self@.proxies.len(),
                match best {
                    Option::Some(bi) => bi < p && free_proxy(self@.proxies[bi as int]) && forall|
                        q: int,
                    |
                        0 <= q < p && free_proxy(#[trigger] self@.proxies[q]) ==> proxy_no_worse(
                            self@.proxies[bi as int],
                            self@.proxies[q],
                        ),
                    Option::None => forall|q: int|
                        0 <= q < p ==> !free_proxy(#[trigger] self@.proxies[q]),
                },
            decreases n - p,
        {
            proof {
                assert(self@.proxies[p as int] == self.proxies@[p as int]@);
            }
            if self.proxies[p].cluster_name.is_none() {
                match best {
                    None => {
                        proof {
                            let pv = self@.proxies[p as int];
                            lemma_lex_total(pv.address, pv.address);
                            assert(proxy_no_worse(pv, pv));
                        }
                        best = Some(p);
                    },
                    Some(bi) => {
                        let candidate_wins: bool = self.proxies[p].epoch < self.proxies[bi].epoch
                            || (self.proxies[p].epoch == self.proxies[bi].epoch && !str_lex_le(
                            &self.proxies[bi].address,
                            &self.proxies[p].address,
                        ));
                        proof {
                            assert(self@.proxies[bi as int] == self.proxies@[bi as int]@);
                        }
                        if candidate_wins {
                            proof {
                                let pv = self@.proxies[p as int];
                                let bv = self@.proxies[bi as int];
                                lemma_lex_total(bv.address, pv.address);
                                assert(proxy_no_worse(pv, bv));
                                assert forall|q: int|
                                    0 <= q < p + 1 && free_proxy(#[trigger] self@.proxies[q])
                                        implies proxy_no_worse(pv, self@.proxies[q]) by {
                                    if q < p {
                                        assert(proxy_no_worse(bv, self@.proxies[q]));
                                        if pv.epoch == self@.proxies[q].epoch {
                                            lemma_lex_trans(
                                                pv.address,
                                                bv.address,
                                                self@.proxies[q].address,
                                            );
                                        }
                                    } else {
                                        lemma_lex_total(pv.address, pv.address);
                                    }
                                }
                            }
                            best = Some(p);
                        } else {
                            proof {
                                let pv = self@.proxies[p as int];
                                let bv = self@.proxies[bi as int];
                                lemma_lex_total(bv.address, pv.address);
                                assert(proxy_no_worse(bv, pv));
                            }
                        }
                    },
                }
            }
            p = p + 1;
        }
        best
    }
}

/// Extending the proxy list never unbinds a node.
proof fn lemma_binding_extend(ns: Seq<NodeV>, ps: Seq<ProxyV>, ps2: Seq<ProxyV>)
    requires
        inv_proxy_binding(ns, ps),
        ps2.len() >= ps.len(),
        forall|p: int| 0 <= p < ps.len() ==> ps2[p] == ps[p],
    ensures
        inv_proxy_binding(ns, ps2),
{
    assert forall|i: int| 0 <= i < ns.len() implies #[trigger] node_proxy_bound(ns, ps2, i) by {
        assert(node_proxy_bound(ns, ps, i));
        let p = choose|p: int|
            #![auto]
            0 <= p < ps.len() && ps[p].address == ns[i].proxy_address && ps[p].cluster_name
                == ns[i].cluster_name;
        assert(0 <= p < ps2.len() && ps2[p].address == ns[i].proxy_address
            && ps2[p].cluster_name == ns[i].cluster_name);
    }
}

impl MetaStore {
    /// Registers a proxy contributing exactly two backend nodes, both
    /// initially free. Fails `InvalidNodeCount` unless two nodes are
    /// given, and `AlreadyExists` when the address is registered.
    pub fn add_hosts(&mut self, proxy_address: String, nodes: Vec<String>) -> (r: Result<
        (),
        MetaStoreError,
    >)
        requires
            old(self).global_epoch < u64::MAX,
        ensures
            r == Result::<(), MetaStoreError>::Err(MetaStoreError::InvalidNodeCount) <==> nodes@.len() != 2,
            r == Result::<(), MetaStoreError>::Err(MetaStoreError::AlreadyExists) <==> (
            nodes@.len() == 2 && exists|i: int|
                0 <= i < old(self)@.proxies.len() && (#[trigger] old(self)@.proxies[i]).address
                    == proxy_address@),
            r is Ok <==> nodes@.len() == 2 && (forall|i: int|
                0 <= i < old(self)@.proxies.len() ==> (#[trigger] old(self)@.proxies[i]).address
                    != proxy_address@),
            r is Err ==> final(self)@ == old(self)@,
            r is Ok ==> final(self)@ == after_add_proxy(old(self)@, proxy_address@, str_views(nodes@)),
            store_inv(old(self)@) ==> store_inv(final(self)@),
    {
        if nodes.len() != 2 {
            return Err(MetaStoreError::InvalidNodeCount);
        }
        if self.find_proxy(&proxy_address).is_some() {
            return Err(MetaStoreError::AlreadyExists);
        }
        let free_nodes = dup_strings(&nodes);
        self.global_epoch = self.global_epoch + 1;
        let p = Proxy {
            address: proxy_address,
            epoch: self.global_epoch,
            nodes,
            free_nodes,
            cluster_name: None,
        };
        let ghost pv = p@;
        self.proxies.push(p);
        proof {
            assert(self@.clusters =~= old(self)@.clusters);
            assert(self@.failures =~= old(self)@.failures);
            assert(self@.proxies =~= old(self)@.proxies.push(pv));
            if store_inv(old(self)@) {
                let ns = flat_nodes(self@.clusters);
                lemma_binding_extend(ns, old(self)@.proxies, self@.proxies);
            }
        }
        Ok(())
    }

    /// Creates an empty cluster. Fails `AlreadyExists` when the name
    /// is taken.
    pub fn add_cluster(&mut self, cluster_name: String) -> (r: Result<(), MetaStoreError>)
        requires
            old(self).global_epoch < u64::MAX,
        ensures
            r is Err <==> exists|i: int|
                0 <= i < old(self)@.clusters.len() && (#[trigger] old(self)@.clusters[i]).name
                    == cluster_name@,
            r is Err ==> r == Result::<(), MetaStoreError>::Err(MetaStoreError::AlreadyExists)
                && final(self)@ == old(self)@,
            r is Ok ==> final(self)@ == after_add_cluster(old(self)@, cluster_name@),
            store_inv(old(self)@) ==> store_inv(final(self)@),
    {
        if self.find_cluster(&cluster_name).is_some() {
            return Err(MetaStoreError::AlreadyExists);
        }
        self.global_epoch = self.global_epoch + 1;
        let c = Cluster { name: cluster_name, epoch: self.global_epoch, nodes: Vec::new() };
        self.clusters.push(c);
        proof {
            assert(self@.proxies =~= old(self)@.proxies);
            assert(self@.failures =~= old(self)@.failures);
            let cv = ClusterV {
                name: c.name@,
                epoch: old(self)@.global_epoch + 1,
                nodes: Seq::empty(),
            };
            assert(c@.nodes =~= Seq::<NodeV>::empty());
            assert(self@.clusters =~= old(self)@.clusters.push(cv));
            let cs2 = self@.clusters;
            assert(cs2.drop_last() =~= old(self)@.clusters);
            assert(flat_nodes(cs2) == flat_nodes(old(self)@.clusters) + cv.nodes);
            assert(flat_nodes(cs2) =~= flat_nodes(old(self)@.clusters));
            if store_inv(old(self)@) {
                assert forall|x: int| 0 <= x < cs2.len() implies inv_coverage(
                    #[trigger] cs2[x],
                ) by {
                    if x < cs2.len() - 1 {
                        assert(cs2[x] == old(self)@.clusters[x]);
                    }
                }
            }
        }
        Ok(())
    }

    /// Unregisters a proxy. Fails `NotFound` when the address is
    /// unknown and `InUse` while the proxy serves a cluster.
    pub fn remove_proxy(&mut self, proxy_address: String) -> (r: Result<(), MetaStoreError>)
        requires
            old(self).global_epoch < u64::MAX,
        ensures
            r == Result::<(), MetaStoreError>::Err(MetaStoreError::NotFound) <==> (forall|i: int|
                0 <= i < old(self)@.proxies.len() ==> (#[trigger] old(self)@.proxies[i]).address
                    != proxy_address@),
            r is Err ==> final(self)@ == old(self)@,
            r is Ok ==> exists|i: int|
                0 <= i < old(self)@.proxies.len() && (#[trigger] old(self)@.proxies[i]).address
                    == proxy_address@ && old(self)@.proxies[i].cluster_name is None && final(self)@
                    == after_remove_proxy(old(self)@, i),
            store_wf(old(self)@) ==> (r == Result::<(), MetaStoreError>::Err(
                MetaStoreError::InUse,
            ) <==> (exists|i: int|
                0 <= i < old(self)@.proxies.len() && (#[trigger] old(self)@.proxies[i]).address
                    == proxy_address@ && old(self)@.proxies[i].cluster_name is Some)),
            store_wf(old(self)@) ==> (r is Ok <==> (exists|i: int|
                0 <= i < old(self)@.proxies.len() && (#[trigger] old(self)@.proxies[i]).address
                    == proxy_address@ && old(self)@.proxies[i].cluster_name is None)),
            store_inv(old(self)@) ==> store_inv(final(self)@),
    {
        let i = match self.find_proxy(&proxy_address) {
            Some(i) => i,
            None => {
                return Err(MetaStoreError::NotFound);
            },
        };
        if self.proxies[i].cluster_name.is_some() {
            return Err(MetaStoreError::InUse);
        }
        self.global_epoch = self.global_epoch + 1;
        self.proxies.remove(i);
        proof {
            assert(self@.clusters =~= old(self)@.clusters);
            assert(self@.failures =~= old(self)@.failures);
            assert(self@.proxies =~= old(self)@.proxies.remove(i as int));
            if store_inv(old(self)@) {
                let ns = flat_nodes(self@.clusters);
                let ps0 = old(self)@.proxies;
                let ps2 = self@.proxies;
                assert forall|x: int| 0 <= x < ns.len() implies #[trigger] node_proxy_bound(
                    ns,
                    ps2,
                    x,
                ) by {
                    assert(node_proxy_bound(ns, ps0, x));
                    let p = choose|p: int|
                        #![auto]
                        0 <= p < ps0.len() && ps0[p].address == ns[x].proxy_address
                            && ps0[p].cluster_name == ns[x].cluster_name;
                    lemma_flat_cluster_named(old(self)@.clusters, x);
                    assert(ns[x].cluster_name is Some);
                    assert(p != i as int);
                    if p < i as int {
                        assert(ps2[p] == ps0[p]);
                    } else {
                        assert(ps2[p - 1] == ps0[p]);
                    }
                }
            }
        }
        Ok(())
    }
}

/// The node at flat index `x` belongs to some cluster, so its
/// `cluster_name` is that cluster's name.
pub open spec fn flat_in_some_cluster(clusters: Seq<ClusterV>, x: int) -> bool {
    0 <= x < flat_nodes(clusters).len() ==> flat_nodes(clusters)[x].cluster_name is Some
}

/// Under well-formedness every flattened node is stamped with the name
/// of the cluster it sits in.
proof fn lemma_flat_cluster_named(clusters: Seq<ClusterV>, x: int)
    requires
        0 <= x < flat_nodes(clusters).len(),
        forall|c: int, i: int|
            0 <= c < clusters.len() && 0 <= i < (#[trigger] clusters[c]).nodes.len() ==> (
            #[trigger] clusters[c].nodes[i]).cluster_name == Option::Some(clusters[c].name),
    ensures
        flat_nodes(clusters)[x].cluster_name is Some,
    decreases clusters.len(),
{
    if clusters.len() > 0 {
        let pre = flat_nodes(clusters.drop_last());
        if x < pre.len() {
            assert(forall|c: int, i: int|
                0 <= c < clusters.drop_last().len() && 0 <= i < (#[trigger] clusters.drop_last()[c]).nodes.len()
                    ==> (#[trigger] clusters.drop_last()[c].nodes[i]).cluster_name
                    == Option::Some(clusters.drop_last()[c].name));
            lemma_flat_cluster_named(clusters.drop_last(), x);
        } else {
            let c = clusters.len() - 1;
            let i = x - pre.len();
            assert(clusters[c].nodes[i].cluster_name == Option::Some(clusters[c].name));
            assert(flat_nodes(clusters)[x] == clusters[c].nodes[i]);
        }
    }
}

/// The two nodes a free proxy contributes when it joins a cluster:
/// both masters, and when the cluster is still empty they split the
/// whole keyspace between them.
pub open spec fn joined_nodes(p: ProxyV, cname: Seq<char>, first: bool) -> Seq<NodeV> {
    let slots0: Seq<SlotRangeV> = if first {
        seq![SlotRangeV { start: 0, end: (SLOT_COUNT - 1) as nat / 2, tag: SlotRangeTagV::Normal }]
    } else {
        Seq::empty()
    };
    let slots1: Seq<SlotRangeV> = if first {
        seq![
            SlotRangeV {
                start: (SLOT_COUNT as nat) / 2,
                end: (SLOT_COUNT - 1) as nat,
                tag: SlotRangeTagV::Normal,
            },
        ]
    } else {
        Seq::empty()
    };
    seq![
        NodeV {
            address: p.nodes[0],
            proxy_address: p.address,
            cluster_name: Option::Some(cname),
            role: Role::Master,
            slots: slots0,
            masters: Seq::empty(),
        },
        NodeV {
            address: p.nodes[1],
            proxy_address: p.address,
            cluster_name: Option::Some(cname),
            role: Role::Master,
            slots: slots1,
            masters: Seq::empty(),
        },
    ]
}

/// The store after the free proxy at `pi` joins the cluster at `ci`.
pub open spec fn after_auto_add(sv: StoreV, ci: int, pi: int) -> StoreV {
    let e = sv.global_epoch + 1;
    let c = sv.clusters[ci];
    let p = sv.proxies[pi];
    let added = joined_nodes(p, c.name, c.nodes.len() == 0);
    let c2 = ClusterV { epoch: e, nodes: c.nodes + added, ..c };
    let p2 = ProxyV {
        epoch: e,
        free_nodes: Seq::empty(),
        cluster_name: Option::Some(c.name),
        ..p
    };
    StoreV {
        clusters: sv.clusters.update(ci, c2),
        proxies: sv.proxies.update(pi, p2),
        global_epoch: e,
        ..sv
    }
}

impl MetaStore {
    /// Joins the best free proxy (lowest epoch, then lexicographic
    /// address) to the cluster, promoting its two nodes as masters.
    /// The first pair of nodes receives the whole keyspace split in
    /// half; later pairs join without slots until a migration moves
    /// some. Returns deep copies of the added nodes. Fails `NotFound`
    /// for an unknown cluster and `NoAvailableResource` when no proxy
    /// is free.
    pub fn auto_add_nodes(&mut self, cluster_name: String) -> (r: Result<Vec<Node>, MetaStoreError>)
        requires
            old(self).global_epoch < u64::MAX,
        ensures
            r == Result::<Vec<Node>, MetaStoreError>::Err(MetaStoreError::NotFound) <==> (forall|
                i: int,
            |
                0 <= i < old(self)@.clusters.len() ==> (#[trigger] old(self)@.clusters[i]).name
                    != cluster_name@),
            store_wf(old(self)@) ==> (r == Result::<Vec<Node>, MetaStoreError>::Err(
                MetaStoreError::NoAvailableResource,
            ) <==> (exists|i: int|
                0 <= i < old(self)@.clusters.len() && (#[trigger] old(self)@.clusters[i]).name
                    == cluster_name@) && (forall|q: int|
                0 <= q < old(self)@.proxies.len() ==> !free_proxy(
                    #[trigger] old(self)@.proxies[q],
                ))),
            (r matches Result::Err(MetaStoreError::Inconsistent(e))) ==> exists|ci: int, pi: int|
                #![auto]
                0 <= ci < old(self)@.clusters.len() && 0 <= pi < old(self)@.proxies.len()
                    && old(self)@.clusters[ci].name == cluster_name@ && free_proxy(
                    old(self)@.proxies[pi],
                ) && !store_inv(after_auto_add(old(self)@, ci, pi)),
            r is Err ==> r == Result::<Vec<Node>, MetaStoreError>::Err(MetaStoreError::NotFound)
                || r == Result::<Vec<Node>, MetaStoreError>::Err(
                MetaStoreError::NoAvailableResource,
            ) || (r matches Result::Err(MetaStoreError::Inconsistent(e))),
            r is Err ==> final(self)@ == old(self)@,
            r is Ok ==> store_inv(final(self)@) && exists|ci: int, pi: int|
                #![auto]
                0 <= ci < old(self)@.clusters.len() && 0 <= pi < old(self)@.proxies.len() && old(self)@.clusters[ci].name == cluster_name@ && free_proxy(old(self)@.proxies[pi]) && (
                forall|q: int|
                    0 <= q < old(self)@.proxies.len() && free_proxy(
                        #[trigger] old(self)@.proxies[q],
                    ) ==> proxy_no_worse(old(self)@.proxies[pi], old(self)@.proxies[q]))
                    && final(self)@ == after_auto_add(old(self)@, ci, pi)
                    && r->Ok_0@.map_values(|n: Node| n@)
                    == joined_nodes(
                    old(self)@.proxies[pi],
                    cluster_name@,
                    old(self)@.clusters[ci].nodes.len() == 0,
                ),
    {
        let ci = match self.find_cluster(&cluster_name) {
            Some(i) => i,
            None => {
                return Err(MetaStoreError::NotFound);
            },
        };
        let pi = match self.pick_free_proxy() {
            Some(p) => p,
            None => {
                return Err(MetaStoreError::NoAvailableResource);
            },
        };
        if self.proxies[pi].nodes.len() != 2 {
            return Err(MetaStoreError::NoAvailableResource);
        }
        let backup = self.get_all_data();
        let ghost prev = self@;
        self.global_epoch = self.global_epoch + 1;
        let e = self.global_epoch;
        let first = self.clusters[ci].nodes.len() == 0;
        let proxy = &self.proxies[pi];
        let half: usize = SLOT_COUNT / 2;
        let slots0: Vec<SlotRange> = if first {
            let mut v: Vec<SlotRange> = Vec::new();
            v.push(SlotRange { start: 0, end: half - 1, tag: SlotRangeTag::Normal });
            v
        } else {
            Vec::new()
        };
        let slots1: Vec<SlotRange> = if first {
            let mut v: Vec<SlotRange> = Vec::new();
            v.push(SlotRange { start: half, end: SLOT_COUNT - 1, tag: SlotRangeTag::Normal });
            v
        } else {
            Vec::new()
        };
        let node0 = Node {
            address: proxy.nodes[0].clone(),
            proxy_address: proxy.address.clone(),
            cluster_name: Some(cluster_name.clone()),
            role: Role::Master,
            slots: slots0,
            repl_meta: ReplMeta { masters: Vec::new() },
        };
        let node1 = Node {
            address: proxy.nodes[1].clone(),
            proxy_address: proxy.address.clone(),
            cluster_name: Some(cluster_name.clone()),
            role: Role::Master,
            slots: slots1,
            repl_meta: ReplMeta { masters: Vec::new() },
        };
        let new_proxy = Proxy {
            address: proxy.address.clone(),
            epoch: e,
            nodes: dup_strings(&proxy.nodes),
            free_nodes: Vec::new(),
            cluster_name: Some(cluster_name.clone()),
        };
        let ghost added = joined_nodes(prev.proxies[pi as int], cluster_name@, first);
        proof {
            assert(prev.proxies[pi as int] == self.proxies@[pi as int]@);
            assert(node0@.slots =~= added[0].slots);
            assert(node1@.slots =~= added[1].slots);
            assert(node0@.masters =~= added[0].masters);
            assert(node1@.masters =~= added[1].masters);
            assert(node0@ == added[0]);
            assert(node1@ == added[1]);
        }
        let result0 = node0.duplicate();
        let result1 = node1.duplicate();
        let cluster = &self.clusters[ci];
        let ghost cv = prev.clusters[ci as int];
        proof {
            assert(cv == cluster@);
        }
        let mut new_nodes = dup_nodes(&cluster.nodes);
        new_nodes.push(node0);
        new_nodes.push(node1);
        let new_cluster = Cluster { name: cluster.name.clone(), epoch: e, nodes: new_nodes };
        proof {
            assert(new_cluster@.nodes =~= cv.nodes + added);
        }
        self.clusters.set(ci, new_cluster);
        self.proxies.set(pi, new_proxy);
        proof {
            let target = after_auto_add(prev, ci as int, pi as int);
            assert(self@.clusters =~= target.clusters);
            assert(new_proxy@.free_nodes =~= Seq::<Seq<char>>::empty());
            assert(new_proxy@.nodes == prev.proxies[pi as int].nodes);
            assert(new_proxy@ == target.proxies[pi as int]);
            assert(self@.proxies =~= target.proxies);
            assert(self@.failures =~= target.failures);
            assert(self@ == target);
        }
        let mut result: Vec<Node> = Vec::new();
        result.push(result0);
        result.push(result1);
        proof {
            assert(result@.map_values(|n: Node| n@) =~= added);
        }
        match self.commit_checked(backup) {
            Ok(()) => Ok(result),
            Err(err) => Err(MetaStoreError::Inconsistent(err)),
        }
    }
}

/// The number of slots an inclusive range holds; zero for a reversed
/// range.
pub open spec fn range_size(r: SlotRangeV) -> int {
    if r.end >= r.start {
        r.end - r.start + 1
    } else {
        0
    }
}

/// The best range to shed: largest first, then lowest start.
pub open spec fn range_no_worse(a: SlotRangeV, b: SlotRangeV) -> bool {
    range_size(a) > range_size(b) || (range_size(a) == range_size(b) && a.start <= b.start)
}

/// The migration identity stamped when node `si` sheds to node `di`
/// of the cluster at `ci`.
pub open spec fn stamped_meta(sv: StoreV, ci: int, si: int, di: int) -> crate::cluster::MigrationMetaV {
    crate::cluster::MigrationMetaV {
        epoch: sv.global_epoch + 1,
        src_proxy: sv.clusters[ci].nodes[si].proxy_address,
        src_node: sv.clusters[ci].nodes[si].address,
        dst_proxy: sv.clusters[ci].nodes[di].proxy_address,
        dst_node: sv.clusters[ci].nodes[di].address,
    }
}

/// The store after node `si` of the cluster at `ci` starts shedding
/// range `k` to node `di`: for a half migration the source keeps the
/// lower half as `Normal` and sheds the upper half; for a full
/// migration the whole range is shed. The destination gains the
/// matching `Importing` range.
pub open spec fn after_migrate(sv: StoreV, ci: int, si: int, di: int, k: int, half: bool) -> StoreV {
    let e = sv.global_epoch + 1;
    let c = sv.clusters[ci];
    let src = c.nodes[si];
    let r = src.slots[k];
    let m = stamped_meta(sv, ci, si, di);
    let keep: int = range_size(r) / 2;
    let moved_start: nat = if half {
        (r.start + keep) as nat
    } else {
        r.start
    };
    let src_slots: Seq<SlotRangeV> = if half {
        src.slots.update(
            k,
            SlotRangeV { start: r.start, end: (r.start + keep - 1) as nat, tag: SlotRangeTagV::Normal },
        ).push(SlotRangeV { start: moved_start, end: r.end, tag: SlotRangeTagV::Migrating(m) })
    } else {
        src.slots.update(k, SlotRangeV { tag: SlotRangeTagV::Migrating(m), ..r })
    };
    let dst = c.nodes[di];
    let dst_slots = dst.slots.push(
        SlotRangeV { start: moved_start, end: r.end, tag: SlotRangeTagV::Importing(m) },
    );
    let c2 = ClusterV {
        epoch: e,
        nodes: c.nodes.update(si, node_with_slots(src, src_slots)).update(
            di,
            node_with_slots(dst, dst_slots),
        ),
        ..c
    };
    StoreV { clusters: sv.clusters.update(ci, c2), global_epoch: e, ..sv }
}

impl MetaStore {
    /// Index of the node with the given address in the cluster.
    fn find_node(cluster: &Cluster, address: &String) -> (r: Option<usize>)
        ensures
            match r {
                Option::Some(i) => i < cluster@.nodes.len() && cluster@.nodes[i as int].address
                    == address@,
                Option::None => forall|i: int|
                    0 <= i < cluster@.nodes.len() ==> (#[trigger] cluster@.nodes[i]).address
                        != address@,
            },
    {
        let n = cluster.nodes.len();
        let mut i: usize = 0;
        while i < n
            invariant
                0 <= i <= n,
                n == cluster.nodes@.len(),
                forall|x: int|
                    0 <= x < i ==> (#[trigger] cluster@.nodes[x]).address != address@,
            decreases n - i,
        {
            proof {
                assert(cluster@.nodes[i as int] == cluster.nodes@[i as int]@);
            }
            if cluster.nodes[i].address.eq(address) {
                return Some(i);
            }
            i = i + 1;
        }
        None
    }

    /// Picks the best `Normal` range of the node: largest, then lowest
    /// start.
    fn pick_normal_range(node: &Node) -> (r: Option<usize>)
        ensures
            match r {
                Option::Some(k) => k < node@.slots.len() && node@.slots[k as int].tag is Normal
                    && forall|x: int|
                    0 <= x < node@.slots.len() && (#[trigger] node@.slots[x]).tag is Normal
                        ==> range_no_worse(node@.slots[k as int], node@.slots[x]),
                Option::None => forall|x: int|
                    0 <= x < node@.slots.len() ==> !((#[trigger] node@.slots[x]).tag is Normal),
            },
    {
        let n = node.slots.len();
        let ghost sl = node@.slots;
        proof {
            assert(sl =~= node.slots@.map_values(|x: SlotRange| x@));
        }
        let mut best: Option<usize> = None;
        let mut k: usize = 0;
        while k < n
            invariant
                0 <= k <= n,
                n == node.slots@.len(),
                sl == node@.slots,
                sl.len() == n,
                sl == node.slots@.map_values(|x: SlotRange| x@),
                match best {
                    Option::Some(b) => b < k && sl[b as int].tag is Normal && forall|x: int|
                        0 <= x < k && (#[trigger] sl[x]).tag is Normal ==> range_no_worse(
                            sl[b as int],
                            sl[x],
                        ),
                    Option::None => forall|x: int|
                        0 <= x < k ==> !((#[trigger] sl[x]).tag is Normal),
                },
            decreases n - k,
        {
            proof {
                assert(sl[k as int] == node.slots@[k as int]@);
            }
            let range = &node.slots[k];
            if matches!(range.tag, SlotRangeTag::Normal) {
                let size: u128 = if range.end >= range.start {
                    (range.end as u128) - (range.start as u128) + 1
                } else {
                    0
                };
                match best {
                    None => {
                        best = Some(k);
                    },
                    Some(b) => {
                        let br = &node.slots[b];
                        proof {
                            assert(sl[b as int] == node.slots@[b as int]@);
                        }
                        let bsize: u128 = if br.end >= br.start {
                            (br.end as u128) - (br.start as u128) + 1
                        } else {
                            0
                        };
                        if size > bsize || (size == bsize && range.start < br.start) {
                            best = Some(k);
                        }
                    },
                }
            }
            k = k + 1;
        }
        best
    }

    /// Starts a migration: picks the source's best `Normal` range,
    /// sheds its upper half (`Half`) or all of it (`All`) to the
    /// destination node, and stamps a fresh epoch as the migration's
    /// identity. Fails `NotFound` for an unknown cluster or node or a
    /// source without a `Normal` range, and `InvalidKind` when the
    /// destination is the source or a half migration is asked of a
    /// single-slot range.
    pub fn migrate_slots(
        &mut self,
        cluster_name: String,
        src_node_address: String,
        dst_node_address: String,
        migration_type: MigrationType,
    ) -> (r: Result<(), MetaStoreError>)
        requires
            old(self).global_epoch < u64::MAX,
        ensures
            (forall|i: int|
                0 <= i < old(self)@.clusters.len() ==> (#[trigger] old(self)@.clusters[i]).name
                    != cluster_name@) ==> r == Result::<(), MetaStoreError>::Err(
                MetaStoreError::NotFound,
            ),
            r == Result::<(), MetaStoreError>::Err(MetaStoreError::NotFound) ==> !has_cluster_named(
                old(self)@,
                cluster_name@,
            ) || (exists|ci: int|
                #![auto]
                0 <= ci < old(self)@.clusters.len() && old(self)@.clusters[ci].name
                    == cluster_name@ && (!cluster_has_node(old(self)@.clusters[ci], src_node_address@)
                    || !cluster_has_node(old(self)@.clusters[ci], dst_node_address@) || (exists|
                    si: int,
                    di: int,
                |
                    #![auto]
                    0 <= si < old(self)@.clusters[ci].nodes.len() && 0 <= di < old(self)@.clusters[ci].nodes.len() && old(self)@.clusters[ci].nodes[si].address
                        == src_node_address@ && old(self)@.clusters[ci].nodes[di].address
                        == dst_node_address@ && si != di && (!(old(self)@.clusters[ci].nodes[si].role is Master) || !(old(self)@.clusters[ci].nodes[di].role is Master))) || (exists|si: int|
                    #![auto]
                    0 <= si < old(self)@.clusters[ci].nodes.len() && old(self)@.clusters[ci].nodes[si].address == src_node_address@ && (forall|x: int|
                        0 <= x < old(self)@.clusters[ci].nodes[si].slots.len() ==> !((
                        #[trigger] old(self)@.clusters[ci].nodes[si].slots[x]).tag is Normal))))),
            r == Result::<(), MetaStoreError>::Err(MetaStoreError::InvalidKind)
                ==> src_node_address@ == dst_node_address@ || (migration_type is Half && exists|
                ci: int,
                si: int,
                kk: int,
            |
                #![auto]
                0 <= ci < old(self)@.clusters.len() && old(self)@.clusters[ci].name
                    == cluster_name@ && 0 <= si < old(self)@.clusters[ci].nodes.len() && old(self)@.clusters[ci].nodes[si].address == src_node_address@ && 0 <= kk < old(self)@.clusters[ci].nodes[si].slots.len() && old(self)@.clusters[ci].nodes[si].slots[kk].tag is Normal && range_size(
                    old(self)@.clusters[ci].nodes[si].slots[kk],
                ) < 2),
            (r matches Result::Err(MetaStoreError::Inconsistent(e))) ==> exists|
                ci: int,
                si: int,
                di: int,
                k: int,
            |
                #![trigger after_migrate(old(self)@, ci, si, di, k, migration_type is Half)]
                0 <= ci < old(self)@.clusters.len() && old(self)@.clusters[ci].name
                    == cluster_name@ && 0 <= si < old(self)@.clusters[ci].nodes.len() && 0 <= di
                    < old(self)@.clusters[ci].nodes.len() && si != di && 0 <= k < old(self)@.clusters[ci].nodes[si].slots.len() && !store_inv(
                    after_migrate(old(self)@, ci, si, di, k, migration_type is Half),
                ),
            r is Err ==> r == Result::<(), MetaStoreError>::Err(MetaStoreError::NotFound) || r
                == Result::<(), MetaStoreError>::Err(MetaStoreError::InvalidKind) || (
            r matches Result::Err(MetaStoreError::Inconsistent(e))),
            r is Err ==> final(self)@ == old(self)@,
            r is Ok ==> store_inv(final(self)@) && exists|ci: int, si: int, di: int, k: int|
                #![auto]
                0 <= ci < old(self)@.clusters.len() && old(self)@.clusters[ci].name
                    == cluster_name@ && 0 <= si < old(self)@.clusters[ci].nodes.len() && 0 <= di
                    < old(self)@.clusters[ci].nodes.len() && si != di && old(self)@.clusters[ci].nodes[si].address == src_node_address@ && old(self)@.clusters[ci].nodes[di].address == dst_node_address@ && old(self)@.clusters[ci].nodes[si].role is Master && old(self)@.clusters[ci].nodes[di].role is Master && 0 <= k < old(self)@.clusters[ci].nodes[si].slots.len() && old(self)@.clusters[ci].nodes[si].slots[k].tag is Normal && (forall|x: int|
                    0 <= x < old(self)@.clusters[ci].nodes[si].slots.len() && (#[trigger] old(self)@.clusters[ci].nodes[si].slots[x]).tag is Normal ==> range_no_worse(
                        old(self)@.clusters[ci].nodes[si].slots[k],
                        old(self)@.clusters[ci].nodes[si].slots[x],
                    )) && (migration_type is Half ==> range_size(
                    old(self)@.clusters[ci].nodes[si].slots[k],
                ) >= 2) && final(self)@ == after_migrate(
                    old(self)@,
                    ci,
                    si,
                    di,
                    k,
                    migration_type is Half,
                ),
    {
        let ci = match self.find_cluster(&cluster_name) {
            Some(i) => i,
            None => {
                return Err(MetaStoreError::NotFound);
            },
        };
        let si = match Self::find_node(&self.clusters[ci], &src_node_address) {
            Some(i) => i,
            None => {
                return Err(MetaStoreError::NotFound);
            },
        };
        let di = match Self::find_node(&self.clusters[ci], &dst_node_address) {
            Some(i) => i,
            None => {
                return Err(MetaStoreError::NotFound);
            },
        };
        if si == di {
            return Err(MetaStoreError::InvalidKind);
        }
        {
            let c = &self.clusters[ci];
            proof {
                assert(self@.clusters[ci as int] == self.clusters@[ci as int]@);
                assert(self@.clusters[ci as int].nodes[si as int] == c.nodes@[si as int]@);
                assert(self@.clusters[ci as int].nodes[di as int] == c.nodes@[di as int]@);
            }
            if !matches!(c.nodes[si].role, Role::Master) {
                return Err(MetaStoreError::NotFound);
            }
            if !matches!(c.nodes[di].role, Role::Master) {
                return Err(MetaStoreError::NotFound);
            }
        }
        let k = match Self::pick_normal_range(&self.clusters[ci].nodes[si]) {
            Some(k) => k,
            None => {
                return Err(MetaStoreError::NotFound);
            },
        };
        let ghost prev = self@;
        let ghost cv = prev.clusters[ci as int];
        proof {
            assert(cv == self.clusters@[ci as int]@);
            assert(cv.nodes[si as int] == self.clusters[ci as int].nodes@[si as int]@);
            assert(cv.nodes[di as int] == self.clusters[ci as int].nodes@[di as int]@);
            assert(cv.nodes[si as int].slots[k as int] == self.clusters[ci as int].nodes@[
                si as int
            ].slots@[k as int]@);
        }
        let half = matches!(migration_type, MigrationType::Half);
        let (start, end): (usize, usize) = {
            let range = &self.clusters[ci].nodes[si].slots[k];
            (range.start, range.end)
        };
        let size: u128 = if end >= start {
            (end as u128) - (start as u128) + 1
        } else {
            0
        };
        if half && size < 2 {
            return Err(MetaStoreError::InvalidKind);
        }
        let backup = self.get_all_data();
        self.global_epoch = self.global_epoch + 1;
        let e = self.global_epoch;
        let meta = {
            let c = &self.clusters[ci];
            MigrationMeta {
                epoch: e,
                src_proxy_address: c.nodes[si].proxy_address.clone(),
                src_node_address: c.nodes[si].address.clone(),
                dst_proxy_address: c.nodes[di].proxy_address.clone(),
                dst_node_address: c.nodes[di].address.clone(),
            }
        };
        proof {
            assert(meta@ == stamped_meta(prev, ci as int, si as int, di as int));
        }
        let keep: u128 = size / 2;
        let moved_start: usize = if half {
            start + (keep as usize)
        } else {
            start
        };
        let cluster = &self.clusters[ci];
        let mut new_nodes = dup_nodes(&cluster.nodes);
        let src = &cluster.nodes[si];
        let mut ssl = dup_ranges(&src.slots);
        if half {
            ssl.set(
                k,
                SlotRange {
                    start,
                    end: start + (keep as usize) - 1,
                    tag: SlotRangeTag::Normal,
                },
            );
            ssl.push(SlotRange { start: moved_start, end, tag: SlotRangeTag::Migrating(meta.duplicate()) });
        } else {
            ssl.set(k, SlotRange { start, end, tag: SlotRangeTag::Migrating(meta.duplicate()) });
        }
        let new_src = rebuild_node(src, ssl);
        new_nodes.set(si, new_src);
        let dst = &cluster.nodes[di];
        let mut dsl = dup_ranges(&dst.slots);
        dsl.push(SlotRange { start: moved_start, end, tag: SlotRangeTag::Importing(meta) });
        let new_dst = rebuild_node(dst, dsl);
        new_nodes.set(di, new_dst);
        let new_cluster = Cluster { name: cluster.name.clone(), epoch: e, nodes: new_nodes };
        self.clusters.set(ci, new_cluster);
        proof {
            let target = after_migrate(prev, ci as int, si as int, di as int, k as int, half);
            assert(new_src@.slots =~= target.clusters[ci as int].nodes[si as int].slots);
            assert(new_dst@.slots =~= target.clusters[ci as int].nodes[di as int].slots);
            assert(new_src@ == target.clusters[ci as int].nodes[si as int]);
            assert(new_dst@ == target.clusters[ci as int].nodes[di as int]);
            assert(new_cluster@.nodes =~= target.clusters[ci as int].nodes);
            assert(new_cluster@ == target.clusters[ci as int]);
            assert(self@.clusters =~= target.clusters);
            assert(self@.proxies =~= target.proxies);
            assert(self@.failures =~= target.failures);
            assert(self@ == target);
        }
        match self.commit_checked(backup) {
            Ok(()) => Ok(()),
            Err(err) => Err(MetaStoreError::Inconsistent(err)),
        }
    }

    /// Commits a finished migration named by the record: the exact
    /// `Migrating` range disappears from the source and the paired
    /// `Importing` range becomes `Normal` on the destination. A record
    /// whose epoch or bounds do not match exactly — a stale commit —
    /// fails `NotFound`.
    pub fn commit_migration(&mut self, task: MigrationTaskMeta) -> (r: Result<(), MetaStoreError>)
        requires
            old(self).global_epoch < u64::MAX,
        ensures
            store_wf(old(self)@) ==> (r == Result::<(), MetaStoreError>::Err(
                MetaStoreError::NotFound,
            ) <==> (task.slot_range.tag is Normal || !has_cluster_named(old(self)@, task.db_name@)
                || (exists|ci: int|
                #![auto]
                0 <= ci < old(self)@.clusters.len() && old(self)@.clusters[ci].name
                    == task.db_name@ && ((forall|si: int, k: int|
                    !exact_range_at(
                        old(self)@.clusters[ci],
                        si,
                        k,
                        false,
                        commit_meta_of(task)@,
                        task.slot_range.start as nat,
                        task.slot_range.end as nat,
                    )) || (forall|di: int, l: int|
                    !exact_range_at(
                        old(self)@.clusters[ci],
                        di,
                        l,
                        true,
                        commit_meta_of(task)@,
                        task.slot_range.start as nat,
                        task.slot_range.end as nat,
                    )))))),
            (r matches Result::Err(MetaStoreError::Inconsistent(e))) ==> exists|
                ci: int,
                si: int,
                k: int,
                di: int,
                l: int,
            |
                #![auto]
                0 <= ci < old(self)@.clusters.len() && old(self)@.clusters[ci].name
                    == task.db_name@ && exact_range_at(
                    old(self)@.clusters[ci],
                    si,
                    k,
                    false,
                    commit_meta_of(task)@,
                    task.slot_range.start as nat,
                    task.slot_range.end as nat,
                ) && exact_range_at(
                    old(self)@.clusters[ci],
                    di,
                    l,
                    true,
                    commit_meta_of(task)@,
                    task.slot_range.start as nat,
                    task.slot_range.end as nat,
                ) && !store_inv(after_settle(old(self)@, ci, di, l, si, k)),
            r is Err ==> r == Result::<(), MetaStoreError>::Err(MetaStoreError::NotFound) || (
            r matches Result::Err(MetaStoreError::Inconsistent(e))),
            r is Err ==> final(self)@ == old(self)@,
            r is Ok ==> store_inv(final(self)@) && exists|ci: int, si: int, k: int, di: int, l: int|
                #![auto]
                0 <= ci < old(self)@.clusters.len() && old(self)@.clusters[ci].name
                    == task.db_name@ && (task.slot_range.tag matches SlotRangeTag::Migrating(m)
                    ==> exact_range_at(
                    old(self)@.clusters[ci],
                    si,
                    k,
                    false,
                    m@,
                    task.slot_range.start as nat,
                    task.slot_range.end as nat,
                )) && exact_range_at(
                    old(self)@.clusters[ci],
                    di,
                    l,
                    true,
                    commit_meta_of(task)@,
                    task.slot_range.start as nat,
                    task.slot_range.end as nat,
                ) && exact_range_at(
                    old(self)@.clusters[ci],
                    si,
                    k,
                    false,
                    commit_meta_of(task)@,
                    task.slot_range.start as nat,
                    task.slot_range.end as nat,
                ) && final(self)@ == after_settle(old(self)@, ci, di, l, si, k),
    {
        let meta = match &task.slot_range.tag {
            SlotRangeTag::Migrating(m) => {
                let d = m.duplicate();
                proof {
                    assert(d@ == commit_meta_of(task)@);
                }
                d
            },
            SlotRangeTag::Importing(m) => {
                let d = m.duplicate();
                proof {
                    assert(d@ == commit_meta_of(task)@);
                }
                d
            },
            SlotRangeTag::Normal => {
                return Err(MetaStoreError::NotFound);
            },
        };
        let ci = match self.find_cluster(&task.db_name) {
            Some(i) => i,
            None => {
                return Err(MetaStoreError::NotFound);
            },
        };
        let (si, k) = match find_exact_range(
            &self.clusters[ci],
            false,
            &meta,
            task.slot_range.start,
            task.slot_range.end,
        ) {
            Some(p) => p,
            None => {
                return Err(MetaStoreError::NotFound);
            },
        };
        let (di, l) = match find_exact_range(
            &self.clusters[ci],
            true,
            &meta,
            task.slot_range.start,
            task.slot_range.end,
        ) {
            Some(p) => p,
            None => {
                return Err(MetaStoreError::NotFound);
            },
        };
        proof {
            assert(self@.clusters[ci as int] == self.clusters@[ci as int]@);
            if store_wf(old(self)@) {
                assert forall|ci2: int|
                    0 <= ci2 < old(self)@.clusters.len() && (#[trigger] old(self)@.clusters[ci2]).name == task.db_name@ implies ci2 == ci as int by {
                    if ci2 < ci as int {
                        assert(old(self)@.clusters[ci2].name != old(self)@.clusters[
                            ci as int
                        ].name);
                    } else if ci2 > ci as int {
                        assert(old(self)@.clusters[ci as int].name != old(self)@.clusters[
                            ci2
                        ].name);
                    }
                }
            }
        }
        let backup = self.get_all_data();
        self.settle_ranges(ci, di, l, si, k);
        match self.commit_checked(backup) {
            Ok(()) => Ok(()),
            Err(err) => Err(MetaStoreError::Inconsistent(err)),
        }
    }

    /// Cancels a pending migration between the two nodes: the source's
    /// `Migrating` range reverts to `Normal` and the destination's
    /// paired `Importing` range disappears. Fails `NotFound` when no
    /// such migration is pending.
    pub fn stop_migrations(
        &mut self,
        cluster_name: String,
        src_node_address: String,
        dst_node_address: String,
    ) -> (r: Result<(), MetaStoreError>)
        requires
            old(self).global_epoch < u64::MAX,
        ensures
            r == Result::<(), MetaStoreError>::Err(MetaStoreError::NotFound) ==> !has_cluster_named(
                old(self)@,
                cluster_name@,
            ) || (exists|ci: int|
                #![auto]
                0 <= ci < old(self)@.clusters.len() && old(self)@.clusters[ci].name
                    == cluster_name@ && ((forall|i2: int, k2: int|
                    !migrating_between_at(
                        old(self)@.clusters[ci],
                        i2,
                        k2,
                        src_node_address@,
                        dst_node_address@,
                    )) || (exists|si: int, k2: int|
                    #![auto]
                    migrating_between_at(
                        old(self)@.clusters[ci],
                        si,
                        k2,
                        src_node_address@,
                        dst_node_address@,
                    ) && (forall|di: int, l: int|
                        !exact_range_at(
                            old(self)@.clusters[ci],
                            di,
                            l,
                            true,
                            old(self)@.clusters[ci].nodes[si].slots[k2].tag->Migrating_0,
                            old(self)@.clusters[ci].nodes[si].slots[k2].start,
                            old(self)@.clusters[ci].nodes[si].slots[k2].end,
                        ))))),
            (r matches Result::Err(MetaStoreError::Inconsistent(e))) ==> exists|
                ci: int,
                si: int,
                k: int,
                di: int,
                l: int,
            |
                #![auto]
                0 <= ci < old(self)@.clusters.len() && old(self)@.clusters[ci].name
                    == cluster_name@ && migrating_between_at(
                    old(self)@.clusters[ci],
                    si,
                    k,
                    src_node_address@,
                    dst_node_address@,
                ) && !store_inv(after_settle(old(self)@, ci, si, k, di, l)),
            r is Err ==> r == Result::<(), MetaStoreError>::Err(MetaStoreError::NotFound) || (
            r matches Result::Err(MetaStoreError::Inconsistent(e))),
            r is Err ==> final(self)@ == old(self)@,
            r is Ok ==> store_inv(final(self)@) && exists|ci: int, si: int, k: int, di: int, l: int|
                #![auto]
                0 <= ci < old(self)@.clusters.len() && old(self)@.clusters[ci].name
                    == cluster_name@ && migrating_between_at(
                    old(self)@.clusters[ci],
                    si,
                    k,
                    src_node_address@,
                    dst_node_address@,
                ) && final(self)@ == after_settle(old(self)@, ci, si, k, di, l),
    {
        let ci = match self.find_cluster(&cluster_name) {
            Some(i) => i,
            None => {
                return Err(MetaStoreError::NotFound);
            },
        };
        let (si, k) = match find_migrating_between(
            &self.clusters[ci],
            &src_node_address,
            &dst_node_address,
        ) {
            Some(p) => p,
            None => {
                return Err(MetaStoreError::NotFound);
            },
        };
        let (meta, start, end): (MigrationMeta, usize, usize) = {
            let range = &self.clusters[ci].nodes[si].slots[k];
            match &range.tag {
                SlotRangeTag::Migrating(m) => (m.duplicate(), range.start, range.end),
                _ => {
                    return Err(MetaStoreError::NotFound);
                },
            }
        };
        let (di, l) = match find_exact_range(&self.clusters[ci], true, &meta, start, end) {
            Some(p) => p,
            None => {
                return Err(MetaStoreError::NotFound);
            },
        };
        let backup = self.get_all_data();
        self.settle_ranges(ci, si, k, di, l);
        match self.commit_checked(backup) {
            Ok(()) => Ok(()),
            Err(err) => Err(MetaStoreError::Inconsistent(err)),
        }
    }
}

/// The store after the node at `ri` of the cluster at `ci` becomes a
/// replica of the master at `mi`.
pub open spec fn after_assign_replica(sv: StoreV, ci: int, mi: int, ri: int) -> StoreV {
    let e = sv.global_epoch + 1;
    let c = sv.clusters[ci];
    let rep = c.nodes[ri];
    let rep2 = NodeV { role: Role::Replica, masters: seq![c.nodes[mi].address], ..rep };
    let c2 = ClusterV { epoch: e, nodes: c.nodes.update(ri, rep2), ..c };
    StoreV { clusters: sv.clusters.update(ci, c2), global_epoch: e, ..sv }
}

impl MetaStore {
    /// Binds `replica_node_address` as a replica of
    /// `master_node_address`. Both nodes must exist in the cluster;
    /// the replica candidate must be a master holding no slots and no
    /// bindings, and distinct from its master, else `RoleConflict`.
    pub fn assign_replica(
        &mut self,
        cluster_name: String,
        master_node_address: String,
        replica_node_address: String,
    ) -> (r: Result<(), MetaStoreError>)
        requires
            old(self).global_epoch < u64::MAX,
        ensures
            (forall|i: int|
                0 <= i < old(self)@.clusters.len() ==> (#[trigger] old(self)@.clusters[i]).name
                    != cluster_name@) ==> r == Result::<(), MetaStoreError>::Err(
                MetaStoreError::NotFound,
            ),
            r == Result::<(), MetaStoreError>::Err(MetaStoreError::NotFound) ==> !has_cluster_named(
                old(self)@,
                cluster_name@,
            ) || (exists|ci: int|
                #![auto]
                0 <= ci < old(self)@.clusters.len() && old(self)@.clusters[ci].name
                    == cluster_name@ && (!cluster_has_node(
                    old(self)@.clusters[ci],
                    master_node_address@,
                ) || !cluster_has_node(old(self)@.clusters[ci], replica_node_address@))),
            r == Result::<(), MetaStoreError>::Err(MetaStoreError::RoleConflict) ==> exists|
                ci: int,
                mi: int,
                ri: int,
            |
                #![auto]
                0 <= ci < old(self)@.clusters.len() && old(self)@.clusters[ci].name
                    == cluster_name@ && 0 <= mi < old(self)@.clusters[ci].nodes.len() && 0 <= ri
                    < old(self)@.clusters[ci].nodes.len() && old(self)@.clusters[ci].nodes[mi].address == master_node_address@ && old(self)@.clusters[ci].nodes[ri].address == replica_node_address@ && (mi == ri || !(old(self)@.clusters[ci].nodes[mi].role is Master) || !(old(self)@.clusters[ci].nodes[ri].role is Master) || old(self)@.clusters[ci].nodes[ri].slots.len() != 0 || old(self)@.clusters[ci].nodes[ri].masters.len() != 0),
            (r matches Result::Err(MetaStoreError::Inconsistent(e))) ==> exists|
                ci: int,
                mi: int,
                ri: int,
            |
                #![auto]
                0 <= ci < old(self)@.clusters.len() && old(self)@.clusters[ci].name
                    == cluster_name@ && 0 <= mi < old(self)@.clusters[ci].nodes.len() && 0 <= ri
                    < old(self)@.clusters[ci].nodes.len() && mi != ri && !store_inv(
                    after_assign_replica(old(self)@, ci, mi, ri),
                ),
            r is Err ==> r == Result::<(), MetaStoreError>::Err(MetaStoreError::NotFound) || r
                == Result::<(), MetaStoreError>::Err(MetaStoreError::RoleConflict) || (
            r matches Result::Err(MetaStoreError::Inconsistent(e))),
            r is Err ==> final(self)@ == old(self)@,
            r is Ok ==> store_inv(final(self)@) && exists|ci: int, mi: int, ri: int|
                #![auto]
                0 <= ci < old(self)@.clusters.len() && old(self)@.clusters[ci].name
                    == cluster_name@ && 0 <= mi < old(self)@.clusters[ci].nodes.len() && 0 <= ri
                    < old(self)@.clusters[ci].nodes.len() && mi != ri && old(self)@.clusters[ci].nodes[mi].address == master_node_address@ && old(self)@.clusters[ci].nodes[ri].address == replica_node_address@
                    && old(self)@.clusters[ci].nodes[mi].role is Master
                    && old(self)@.clusters[ci].nodes[ri].role is Master
                    && old(self)@.clusters[ci].nodes[ri].slots.len() == 0
                    && old(self)@.clusters[ci].nodes[ri].masters.len() == 0
                    && final(self)@ == after_assign_replica(old(self)@, ci, mi, ri),
    {
        let ci = match self.find_cluster(&cluster_name) {
            Some(i) => i,
            None => {
                return Err(MetaStoreError::NotFound);
            },
        };
        let mi = match Self::find_node(&self.clusters[ci], &master_node_address) {
            Some(i) => i,
            None => {
                return Err(MetaStoreError::NotFound);
            },
        };
        let ri = match Self::find_node(&self.clusters[ci], &replica_node_address) {
            Some(i) => i,
            None => {
                return Err(MetaStoreError::NotFound);
            },
        };
        if mi == ri {
            return Err(MetaStoreError::RoleConflict);
        }
        {
            let c = &self.clusters[ci];
            proof {
                assert(self@.clusters[ci as int] == self.clusters@[ci as int]@);
                assert(self@.clusters[ci as int].nodes[mi as int] == c.nodes@[mi as int]@);
                assert(self@.clusters[ci as int].nodes[ri as int] == c.nodes@[ri as int]@);
            }
            if !matches!(c.nodes[mi].role, Role::Master) {
                return Err(MetaStoreError::RoleConflict);
            }
            if !matches!(c.nodes[ri].role, Role::Master) {
                return Err(MetaStoreError::RoleConflict);
            }
            if c.nodes[ri].slots.len() != 0 {
                proof {
                    assert(self@.clusters[ci as int].nodes[ri as int].slots.len() == c.nodes@[
                        ri as int
                    ]@.slots.len());
                }
                return Err(MetaStoreError::RoleConflict);
            }
            if c.nodes[ri].repl_meta.masters.len() != 0 {
                proof {
                    assert(self@.clusters[ci as int].nodes[ri as int].masters.len() == c.nodes@[
                        ri as int
                    ]@.masters.len());
                }
                return Err(MetaStoreError::RoleConflict);
            }
        }
        let backup = self.get_all_data();
        let ghost prev = self@;
        self.global_epoch = self.global_epoch + 1;
        let e = self.global_epoch;
        let cluster = &self.clusters[ci];
        let ghost cv = prev.clusters[ci as int];
        proof {
            assert(cv == cluster@);
        }
        let mut new_nodes = dup_nodes(&cluster.nodes);
        let rep = &cluster.nodes[ri];
        proof {
            assert(cv.nodes[ri as int] == cluster.nodes@[ri as int]@);
            assert(cv.nodes[mi as int] == cluster.nodes@[mi as int]@);
        }
        let mut masters: Vec<String> = Vec::new();
        masters.push(cluster.nodes[mi].address.clone());
        let new_rep = Node {
            address: rep.address.clone(),
            proxy_address: rep.proxy_address.clone(),
            cluster_name: dup_opt_str(&rep.cluster_name),
            role: Role::Replica,
            slots: dup_ranges(&rep.slots),
            repl_meta: ReplMeta { masters },
        };
        new_nodes.set(ri, new_rep);
        let new_cluster = Cluster { name: cluster.name.clone(), epoch: e, nodes: new_nodes };
        self.clusters.set(ci, new_cluster);
        proof {
            let target = after_assign_replica(prev, ci as int, mi as int, ri as int);
            assert(new_rep@.masters =~= seq![cv.nodes[mi as int].address]);
            assert(new_rep@.slots =~= cv.nodes[ri as int].slots);
            assert(new_rep@ == target.clusters[ci as int].nodes[ri as int]);
            assert(new_cluster@.nodes =~= target.clusters[ci as int].nodes);
            assert(new_cluster@ == target.clusters[ci as int]);
            assert(self@.clusters =~= target.clusters);
            assert(self@.proxies =~= target.proxies);
            assert(self@.failures =~= target.failures);
            assert(self@ == target);
        }
        match self.commit_checked(backup) {
            Ok(()) => Ok(()),
            Err(err) => Err(MetaStoreError::Inconsistent(err)),
        }
    }

    /// Moves every node assignment of a failed proxy onto the best
    /// free proxy (lowest epoch, then lexicographic address): the
    /// replacement's backend nodes take over address by address,
    /// slot ranges, roles and replica bindings included, and the
    /// failed proxy's record and failure reports disappear. Refuses
    /// `MigrationRunning` while any of the failed proxy's ranges
    /// carries a migration tag, and `NoAvailableResource` when no
    /// proxy is free. Returns a deep copy of the new proxy record.
    pub fn replace_failed_proxy(&mut self, failed_proxy_address: String) -> (r: Result<
        Proxy,
        MetaStoreError,
    >)
        requires
            old(self).global_epoch < u64::MAX,
        ensures
            (forall|i: int|
                0 <= i < old(self)@.proxies.len() ==> (#[trigger] old(self)@.proxies[i]).address
                    != failed_proxy_address@) ==> r == Result::<Proxy, MetaStoreError>::Err(
                MetaStoreError::NotFound,
            ),
            r == Result::<Proxy, MetaStoreError>::Err(MetaStoreError::NotFound)
                ==> !has_proxy_addr(old(self)@, failed_proxy_address@) || (exists|fi: int|
                #![auto]
                0 <= fi < old(self)@.proxies.len() && old(self)@.proxies[fi].address
                    == failed_proxy_address@ && (old(self)@.proxies[fi].cluster_name is None || (
                old(self)@.proxies[fi].cluster_name matches Option::Some(cn)
                    && !has_cluster_named(old(self)@, cn)))),
            r == Result::<Proxy, MetaStoreError>::Err(MetaStoreError::NoAvailableResource) ==> (
            forall|q: int|
                0 <= q < old(self)@.proxies.len() ==> !free_proxy(
                    #[trigger] old(self)@.proxies[q],
                )) || (exists|ci: int, pi: int|
                #![auto]
                0 <= ci < old(self)@.clusters.len() && 0 <= pi < old(self)@.proxies.len()
                    && free_proxy(old(self)@.proxies[pi]) && count_nodes_of(
                    old(self)@.clusters[ci].nodes,
                    failed_proxy_address@,
                ) > old(self)@.proxies[pi].nodes.len()),
            r == Result::<Proxy, MetaStoreError>::Err(MetaStoreError::MigrationRunning) ==> exists|
                ci: int,
                ni: int,
                k2: int,
            |
                #![auto]
                0 <= ci < old(self)@.clusters.len() && 0 <= ni < old(self)@.clusters[ci].nodes.len() && old(self)@.clusters[ci].nodes[ni].proxy_address
                    == failed_proxy_address@ && 0 <= k2 < old(self)@.clusters[ci].nodes[ni].slots.len() && !(old(self)@.clusters[ci].nodes[ni].slots[k2].tag is Normal),
            r is Err ==> r == Result::<Proxy, MetaStoreError>::Err(MetaStoreError::NotFound) || r
                == Result::<Proxy, MetaStoreError>::Err(MetaStoreError::NoAvailableResource) || r
                == Result::<Proxy, MetaStoreError>::Err(MetaStoreError::MigrationRunning) || (
            r matches Result::Err(MetaStoreError::Inconsistent(e))),
            r is Err ==> final(self)@ == old(self)@,
            r is Ok ==> store_inv(final(self)@) && final(self)@.global_epoch == old(self)@.global_epoch + 1 && (forall|i: int|
                0 <= i < final(self)@.failures.len() ==> (#[trigger] final(self)@.failures[i]).proxy != failed_proxy_address@) && (exists|i: int|
                0 <= i < final(self)@.proxies.len() && (#[trigger] final(self)@.proxies[i])
                    == r->Ok_0@) && r->Ok_0@.cluster_name is Some && r->Ok_0@.epoch == old(self)@.global_epoch + 1 && final(self)@.failures == old(self)@.failures.filter(
                |f: FailureV| f.proxy != failed_proxy_address@,
            ) && (exists|pi: int|
                #![auto]
                0 <= pi < old(self)@.proxies.len() && free_proxy(old(self)@.proxies[pi]) && (
                forall|q: int|
                    0 <= q < old(self)@.proxies.len() && free_proxy(
                        #[trigger] old(self)@.proxies[q],
                    ) ==> proxy_no_worse(old(self)@.proxies[pi], old(self)@.proxies[q]))
                    && r->Ok_0@.address == old(self)@.proxies[pi].address && (exists|ci: int|
                    #![auto]
                    0 <= ci < old(self)@.clusters.len() && final(self)@.clusters.len() == old(self)@.clusters.len() && (forall|c2: int|
                        0 <= c2 < old(self)@.clusters.len() && c2 != ci ==> #[trigger] final(self)@.clusters[c2] == old(self)@.clusters[c2]) && final(self)@.clusters[ci].name == old(self)@.clusters[ci].name && final(self)@.clusters[ci].epoch == old(self)@.global_epoch + 1 && final(self)@.clusters[ci].nodes.len() == old(self)@.clusters[ci].nodes.len() && (forall|
                        x: int,
                    |
                        0 <= x < old(self)@.clusters[ci].nodes.len() ==> node_relocated(
                            #[trigger] old(self)@.clusters[ci].nodes[x],
                            final(self)@.clusters[ci].nodes[x],
                            failed_proxy_address@,
                            old(self)@.proxies[pi].nodes,
                            old(self)@.proxies[pi].address,
                        )))),
            r is Ok && store_wf(old(self)@) ==> (forall|i: int|
                0 <= i < final(self)@.proxies.len() ==> (#[trigger] final(self)@.proxies[i]).address != failed_proxy_address@),
    {
        let fi = match self.find_proxy(&failed_proxy_address) {
            Some(i) => i,
            None => {
                return Err(MetaStoreError::NotFound);
            },
        };
        let cname = match &self.proxies[fi].cluster_name {
            Some(c) => c.clone(),
            None => {
                return Err(MetaStoreError::NotFound);
            },
        };
        let ci = match self.find_cluster(&cname) {
            Some(i) => i,
            None => {
                return Err(MetaStoreError::NotFound);
            },
        };
        let pi = match self.pick_free_proxy() {
            Some(p) => p,
            None => {
                return Err(MetaStoreError::NoAvailableResource);
            },
        };
        // The failed proxy is assigned, the replacement is free, so
        // they are different records.
        let ghost cvn = self@.clusters[ci as int].nodes;
        let moved: Vec<usize> = {
            let cluster = &self.clusters[ci];
            proof {
                assert(cvn =~= cluster.nodes@.map_values(|x: Node| x@));
                assert(cvn.take(0) =~= Seq::<NodeV>::empty());
            }
            let n = cluster.nodes.len();
            let mut v: Vec<usize> = Vec::new();
            let mut i: usize = 0;
            while i < n
                invariant
                    0 <= i <= n,
                    n == cluster.nodes@.len(),
                    v@.len() <= i,
                    forall|x: int| 0 <= x < v@.len() ==> #[trigger] v@[x] < i,
                    self@ == old(self)@,
                    fi < self@.proxies.len(),
                    self@.proxies[fi as int].address == failed_proxy_address@,
                    ci < self@.clusters.len(),
                    cluster == &self.clusters[ci as int],
                    cvn == self@.clusters[ci as int].nodes,
                    cvn == cluster.nodes@.map_values(|x: Node| x@),
                    cvn.len() == n,
                    v@.len() == count_nodes_of(cvn.take(i as int), failed_proxy_address@),
                decreases n - i,
            {
                proof {
                    assert(cvn[i as int] == cluster.nodes@[i as int]@);
                    let t = cvn.take(i as int + 1);
                    assert(t.drop_last() =~= cvn.take(i as int));
                    assert(t.last() == cvn[i as int]);
                }
                if cluster.nodes[i].proxy_address.eq(&failed_proxy_address) {
                    if !check_all_normal_node(&cluster.nodes[i]) {
                        return Err(MetaStoreError::MigrationRunning);
                    }
                    v.push(i);
                }
                i = i + 1;
            }
            proof {
                assert(cvn.take(n as int) =~= cvn);
            }
            v
        };
        if moved.len() > self.proxies[pi].nodes.len() {
            proof {
                assert(self@.proxies[pi as int] == self.proxies@[pi as int]@);
                assert(self@.proxies[pi as int].nodes.len() == self.proxies@[
                    pi as int
                ]@.nodes.len());
            }
            return Err(MetaStoreError::NoAvailableResource);
        }
        let backup = self.get_all_data();
        self.global_epoch = self.global_epoch + 1;
        let e = self.global_epoch;
        let repl_address = self.proxies[pi].address.clone();
        let repl_nodes = dup_strings(&self.proxies[pi].nodes);
        // Rebuild the cluster: relocated nodes take the replacement's
        // backend addresses in order; every replica binding that named
        // a moved node follows it.
        let ghost backends = str_views(repl_nodes@);
        proof {
            assert(backends =~= old(self)@.proxies[pi as int].nodes);
            assert(repl_address@ == old(self)@.proxies[pi as int].address);
        }
        let cluster = &self.clusters[ci];
        let n = cluster.nodes.len();
        let mut new_nodes: Vec<Node> = Vec::new();
        let mut i: usize = 0;
        let mut next_backend: usize = 0;
        proof {
            assert(cvn.take(0) =~= Seq::<NodeV>::empty());
        }
        while i < n
            invariant
                0 <= i <= n,
                n == cluster.nodes@.len(),
                new_nodes@.len() == i,
                cluster == &self.clusters[ci as int],
                ci < self@.clusters.len(),
                cvn == cluster.nodes@.map_values(|x: Node| x@),
                cvn.len() == n,
                backends == str_views(repl_nodes@),
                next_backend == count_nodes_of(cvn.take(i as int), failed_proxy_address@),
                count_nodes_of(cvn, failed_proxy_address@) <= backends.len(),
                next_backend <= backends.len(),
                forall|x: int|
                    0 <= x < i ==> node_relocated(
                        cvn[x],
                        (#[trigger] new_nodes@[x])@,
                        failed_proxy_address@,
                        backends,
                        repl_address@,
                    ),
            decreases n - i,
        {
            proof {
                assert(cvn[i as int] == cluster.nodes@[i as int]@);
                let t = cvn.take(i as int + 1);
                assert(t.drop_last() =~= cvn.take(i as int));
                assert(t.last() == cvn[i as int]);
                lemma_count_nodes_take_le(cvn, failed_proxy_address@, i as int + 1);
            }
            let node = &cluster.nodes[i];
            let is_moved = node.proxy_address.eq(&failed_proxy_address);
            let masters = Self::rewrite_masters(
                &node.repl_meta.masters,
                cluster,
                &failed_proxy_address,
                &repl_nodes,
            );
            let ghost mv = masters@;
            proof {
                assert(cvn[i as int].masters =~= str_views(node.repl_meta.masters@));
                assert forall|mi: int| 0 <= mi < mv.len() implies (str_views(mv)[mi]
                    == cvn[i as int].masters[mi] || exists|j: int|
                    0 <= j < backends.len() && str_views(mv)[mi] == #[trigger] backends[j]) by {
                    assert(str_views(mv)[mi] == mv[mi]@);
                    assert(cvn[i as int].masters[mi] == node.repl_meta.masters@[mi]@);
                    if mv[mi]@ != node.repl_meta.masters@[mi]@ {
                        let j = choose|j: int|
                            0 <= j < repl_nodes@.len() && mv[mi]@ == #[trigger] repl_nodes@[j]@;
                        assert(str_views(mv)[mi] == backends[j]);
                    }
                }
            }
            let cap = repl_nodes.len();
            let new_node: Node = if is_moved {
                proof {
                    assert(cvn.take(i as int + 1).last().proxy_address == failed_proxy_address@);
                    assert(count_nodes_of(cvn.take(i as int + 1), failed_proxy_address@)
                        == next_backend + 1);
                    assert(backends.len() == repl_nodes@.len());
                    assert(next_backend < cap);
                }
                let a = repl_nodes[next_backend].clone();
                proof {
                    assert(a@ == backends[next_backend as int]);
                }
                next_backend = next_backend + 1;
                let nn = Node {
                    address: a,
                    proxy_address: repl_address.clone(),
                    cluster_name: dup_opt_str(&node.cluster_name),
                    role: node.role,
                    slots: dup_ranges(&node.slots),
                    repl_meta: ReplMeta { masters },
                };
                proof {
                    assert(nn@.slots =~= cvn[i as int].slots);
                    assert(node_relocated(
                        cvn[i as int],
                        nn@,
                        failed_proxy_address@,
                        backends,
                        repl_address@,
                    ));
                }
                nn
            } else {
                let nn = Node {
                    address: node.address.clone(),
                    proxy_address: node.proxy_address.clone(),
                    cluster_name: dup_opt_str(&node.cluster_name),
                    role: node.role,
                    slots: dup_ranges(&node.slots),
                    repl_meta: ReplMeta { masters },
                };
                proof {
                    assert(nn@.slots =~= cvn[i as int].slots);
                    assert(node_relocated(
                        cvn[i as int],
                        nn@,
                        failed_proxy_address@,
                        backends,
                        repl_address@,
                    ));
                }
                nn
            };
            new_nodes.push(new_node);
            i = i + 1;
        }
        proof {
            assert(cvn.take(n as int) =~= cvn);
        }
        let new_cluster = Cluster { name: cluster.name.clone(), epoch: e, nodes: new_nodes };
        self.clusters.set(ci, new_cluster);
        let new_proxy = Proxy {
            address: repl_address,
            epoch: e,
            nodes: repl_nodes,
            free_nodes: Vec::new(),
            cluster_name: Some(cname),
        };
        let result = new_proxy.duplicate();
        let ghost nv = new_proxy@;
        let ghost before_set = self@.proxies;
        self.proxies.set(pi, new_proxy);
        let ghost after_set = self@.proxies;
        proof {
            assert(after_set =~= before_set.update(pi as int, nv));
        }
        self.proxies.remove(fi);
        let ghost after_remove = self@.proxies;
        proof {
            assert(after_remove =~= after_set.remove(fi as int));
            // The replacement record survives the removal of the
            // failed proxy's slot.
            if (fi as int) < (pi as int) {
                assert(after_remove[pi as int - 1] == after_set[pi as int]);
            } else {
                assert(after_remove[pi as int] == after_set[pi as int]);
            }
            assert(after_set[pi as int] == nv);
            if store_wf(backup@) {
                assert forall|x: int| 0 <= x < after_remove.len() implies (
                #[trigger] after_remove[x]).address != failed_proxy_address@ by {
                    let y: int = if x < fi as int {
                        x
                    } else {
                        x + 1
                    };
                    assert(after_remove[x] == after_set[y]);
                    if y == pi as int {
                        assert(after_set[y].address == backup@.proxies[pi as int].address);
                    } else {
                        assert(after_set[y] == backup@.proxies[y]);
                    }
                }
            }
        }
        proof {
            assert(self@.failures =~= old(self)@.failures);
        }
        self.purge_failures(&failed_proxy_address);
        proof {
            assert(result@.cluster_name is Some);
            assert(self@.proxies == after_remove);
        }
        match self.commit_checked(backup) {
            Ok(()) => Ok(result),
            Err(err) => Err(MetaStoreError::Inconsistent(err)),
        }
    }

    /// Rewrites replica bindings: a binding naming a node of the
    /// failed proxy follows that node to the replacement backend that
    /// takes it over; every other binding is kept as it is.
    fn rewrite_masters(
        masters: &Vec<String>,
        cluster: &Cluster,
        failed: &String,
        repl_nodes: &Vec<String>,
    ) -> (r: Vec<String>)
        ensures
            r@.len() == masters@.len(),
            forall|mi: int|
                0 <= mi < r@.len() ==> ((#[trigger] r@[mi])@ == masters@[mi]@ || exists|j: int|
                    0 <= j < repl_nodes@.len() && r@[mi]@ == #[trigger] repl_nodes@[j]@),
    {
        let mut out: Vec<String> = Vec::new();
        let mcount = masters.len();
        let mut mi: usize = 0;
        while mi < mcount
            invariant
                0 <= mi <= mcount,
                mcount == masters@.len(),
                out@.len() == mi,
                forall|x: int|
                    0 <= x < mi ==> ((#[trigger] out@[x])@ == masters@[x]@ || exists|j: int|
                        0 <= j < repl_nodes@.len() && out@[x]@ == #[trigger] repl_nodes@[j]@),
            decreases mcount - mi,
        {
            let maddr = &masters[mi];
            let mut replaced: Option<String> = None;
            let n = cluster.nodes.len();
            let mut j: usize = 0;
            let mut seen: usize = 0;
            while j < n
                invariant
                    0 <= j <= n,
                    n == cluster.nodes@.len(),
                    seen <= j,
                    replaced matches Option::Some(a) ==> exists|x: int|
                        0 <= x < repl_nodes@.len() && a@ == #[trigger] repl_nodes@[x]@,
                decreases n - j,
            {
                if cluster.nodes[j].proxy_address.eq(failed) {
                    if cluster.nodes[j].address.eq(maddr) && seen < repl_nodes.len() {
                        let a = repl_nodes[seen].clone();
                        proof {
                            assert(a@ == repl_nodes@[seen as int]@);
                        }
                        replaced = Some(a);
                    }
                    if seen < usize::MAX {
                        seen = seen + 1;
                    }
                }
                j = j + 1;
            }
            match replaced {
                Some(a) => out.push(a),
                None => out.push(maddr.clone()),
            }
            mi = mi + 1;
        }
        out
    }

    /// Drops every failure report accusing the given proxy.
    fn purge_failures(&mut self, address: &String)
        ensures
            final(self)@.clusters == old(self)@.clusters,
            final(self)@.proxies == old(self)@.proxies,
            final(self)@.global_epoch == old(self)@.global_epoch,
            final(self)@.failures == old(self)@.failures.filter(
                |f: FailureV| f.proxy != address@,
            ),
            forall|i: int|
                0 <= i < final(self)@.failures.len() ==> (#[trigger] final(self)@.failures[i]).proxy != address@,
    {
        let mut kept: Vec<FailureReport> = Vec::new();
        let n = self.failures.len();
        let mut i: usize = 0;
        proof {
            assert(self@.failures.take(0).filter(|f: FailureV| f.proxy != address@)
                =~= Seq::<FailureV>::empty());
        }
        while i < n
            invariant
                0 <= i <= n,
                n == self@.failures.len(),
                self@ == old(self)@,
                kept@.map_values(|f: FailureReport| f@) == self@.failures.take(i as int).filter(
                    |f: FailureV| f.proxy != address@,
                ),
                forall|x: int|
                    0 <= x < kept@.len() ==> (#[trigger] kept@[x])@.proxy != address@,
            decreases n - i,
        {
            let f = &self.failures[i];
            proof {
                let t = self@.failures.take(i as int + 1);
                assert(t.drop_last() =~= self@.failures.take(i as int));
                assert(t.last() == self@.failures[i as int]);
                reveal(Seq::filter);
            }
            if !f.proxy_address.eq(address) {
                kept.push(
                    FailureReport {
                        proxy_address: f.proxy_address.clone(),
                        reporter_id: f.reporter_id.clone(),
                        report_time: f.report_time,
                    },
                );
                proof {
                    assert(kept@.map_values(|x: FailureReport| x@) =~= self@.failures.take(
                        i as int + 1,
                    ).filter(|x: FailureV| x.proxy != address@));
                }
            } else {
                proof {
                    assert(kept@.map_values(|x: FailureReport| x@) =~= self@.failures.take(
                        i as int + 1,
                    ).filter(|x: FailureV| x.proxy != address@));
                }
            }
            i = i + 1;
        }
        proof {
            assert(self@.failures.take(n as int) =~= self@.failures);
        }
        self.failures = kept;
        proof {
            assert(self@.clusters =~= old(self)@.clusters);
            assert(self@.proxies =~= old(self)@.proxies);
        }
    }
}

/// Checks that every range of one node is `Normal`.
fn check_all_normal_node(node: &Node) -> (r: bool)
    ensures
        r == (forall|k: int|
            0 <= k < node@.slots.len() ==> (#[trigger] node@.slots[k]).tag is Normal),
{
    let ghost sl = node@.slots;
    proof {
        assert(sl =~= node.slots@.map_values(|x: SlotRange| x@));
    }
    let n = node.slots.len();
    let mut k: usize = 0;
    while k < n
        invariant
            0 <= k <= n,
            n == node.slots@.len(),
            sl == node@.slots,
            sl.len() == n,
            sl == node.slots@.map_values(|x: SlotRange| x@),
            forall|x: int| 0 <= x < k ==> (#[trigger] sl[x]).tag is Normal,
        decreases n - k,
    {
        proof {
            assert(sl[k as int] == node.slots@[k as int]@);
        }
        if !matches!(node.slots[k].tag, SlotRangeTag::Normal) {
            return false;
        }
        k = k + 1;
    }
    true
}

/// The store after the proxy at `pi` leaves the cluster at `ci`: the
/// cluster keeps only nodes of other proxies, and the proxy is freed.
pub open spec fn after_remove_proxy_from_cluster(sv: StoreV, ci: int, pi: int) -> StoreV {
    let e = sv.global_epoch + 1;
    let c = sv.clusters[ci];
    let addr = sv.proxies[pi].address;
    let c2 = ClusterV {
        epoch: e,
        nodes: c.nodes.filter(|n: NodeV| n.proxy_address != addr),
        ..c
    };
    StoreV {
        clusters: sv.clusters.update(ci, c2),
        proxies: sv.proxies.update(pi, proxy_reset(sv.proxies[pi], e)),
        global_epoch: e,
        ..sv
    }
}

impl MetaStore {
    /// Removes a proxy's nodes from its cluster and frees the proxy.
    /// Fails `NotFound` when the cluster or proxy is unknown or the
    /// proxy serves another cluster, and `MigrationRunning` while any
    /// of its ranges carries a migration tag. Removing nodes that
    /// still own slots breaks the coverage invariant, and the change
    /// is then rolled back as inconsistent.
    pub fn remove_proxy_from_cluster(
        &mut self,
        cluster_name: String,
        proxy_address: String,
    ) -> (r: Result<(), MetaStoreError>)
        requires
            old(self).global_epoch < u64::MAX,
        ensures
            (forall|i: int|
                0 <= i < old(self)@.clusters.len() ==> (#[trigger] old(self)@.clusters[i]).name
                    != cluster_name@) ==> r == Result::<(), MetaStoreError>::Err(
                MetaStoreError::NotFound,
            ),
            r == Result::<(), MetaStoreError>::Err(MetaStoreError::NotFound) ==> !has_cluster_named(
                old(self)@,
                cluster_name@,
            ) || !has_proxy_addr(old(self)@, proxy_address@) || (exists|pi: int|
                #![auto]
                0 <= pi < old(self)@.proxies.len() && old(self)@.proxies[pi].address
                    == proxy_address@ && old(self)@.proxies[pi].cluster_name != Option::Some(
                    cluster_name@,
                )),
            r == Result::<(), MetaStoreError>::Err(MetaStoreError::MigrationRunning) ==> exists|
                ci: int,
                ni: int,
                k2: int,
            |
                #![auto]
                0 <= ci < old(self)@.clusters.len() && old(self)@.clusters[ci].name
                    == cluster_name@ && 0 <= ni < old(self)@.clusters[ci].nodes.len() && old(self)@.clusters[ci].nodes[ni].proxy_address == proxy_address@ && 0 <= k2 < old(self)@.clusters[ci].nodes[ni].slots.len() && !(old(self)@.clusters[ci].nodes[ni].slots[k2].tag is Normal),
            (r matches Result::Err(MetaStoreError::Inconsistent(e))) ==> exists|ci: int, pi: int|
                #![auto]
                0 <= ci < old(self)@.clusters.len() && 0 <= pi < old(self)@.proxies.len()
                    && old(self)@.clusters[ci].name == cluster_name@ && old(self)@.proxies[pi].address == proxy_address@ && !store_inv(
                    after_remove_proxy_from_cluster(old(self)@, ci, pi),
                ),
            r is Err ==> r == Result::<(), MetaStoreError>::Err(MetaStoreError::NotFound) || r
                == Result::<(), MetaStoreError>::Err(MetaStoreError::MigrationRunning) || (
            r matches Result::Err(MetaStoreError::Inconsistent(e))),
            r is Err ==> final(self)@ == old(self)@,
            r is Ok ==> store_inv(final(self)@) && exists|ci: int, pi: int|
                #![auto]
                0 <= ci < old(self)@.clusters.len() && 0 <= pi < old(self)@.proxies.len() && old(self)@.clusters[ci].name == cluster_name@ && old(self)@.proxies[pi].address
                    == proxy_address@ && final(self)@ == after_remove_proxy_from_cluster(
                    old(self)@,
                    ci,
                    pi,
                ),
    {
        let ci = match self.find_cluster(&cluster_name) {
            Some(i) => i,
            None => {
                return Err(MetaStoreError::NotFound);
            },
        };
        let pi = match self.find_proxy(&proxy_address) {
            Some(i) => i,
            None => {
                return Err(MetaStoreError::NotFound);
            },
        };
        let member = match &self.proxies[pi].cluster_name {
            Some(cn) => cn.eq(&cluster_name),
            None => false,
        };
        if !member {
            return Err(MetaStoreError::NotFound);
        }
        {
            let cluster = &self.clusters[ci];
            let n = cluster.nodes.len();
            let mut i: usize = 0;
            while i < n
                invariant
                    0 <= i <= n,
                    n == cluster.nodes@.len(),
                    self@ == old(self)@,
                    ci < self@.clusters.len(),
                    self@.clusters[ci as int].name == cluster_name@,
                    cluster == &self.clusters[ci as int],
                decreases n - i,
            {
                if cluster.nodes[i].proxy_address.eq(&proxy_address) {
                    if !check_all_normal_node(&cluster.nodes[i]) {
                        proof {
                            assert(self@.clusters[ci as int].nodes[i as int] == cluster.nodes@[
                                i as int
                            ]@);
                        }
                        return Err(MetaStoreError::MigrationRunning);
                    }
                }
                i = i + 1;
            }
        }
        let backup = self.get_all_data();
        let ghost prev = self@;
        self.global_epoch = self.global_epoch + 1;
        let e = self.global_epoch;
        let cluster = &self.clusters[ci];
        let ghost cv = prev.clusters[ci as int];
        proof {
            assert(cv == cluster@);
            assert(cv.nodes =~= cluster.nodes@.map_values(|x: Node| x@));
            assert(cv.nodes.take(0).filter(|nd: NodeV| nd.proxy_address != proxy_address@)
                =~= Seq::<NodeV>::empty());
        }
        let n = cluster.nodes.len();
        let mut kept: Vec<Node> = Vec::new();
        let mut i: usize = 0;
        while i < n
            invariant
                0 <= i <= n,
                n == cluster.nodes@.len(),
                cluster == &self.clusters[ci as int],
                cv == cluster@,
                cv.nodes == cluster.nodes@.map_values(|x: Node| x@),
                cv.nodes.len() == n,
                kept@.map_values(|x: Node| x@) == cv.nodes.take(i as int).filter(
                    |nd: NodeV| nd.proxy_address != proxy_address@,
                ),
            decreases n - i,
        {
            proof {
                assert(cv.nodes[i as int] == cluster.nodes@[i as int]@);
                let t = cv.nodes.take(i as int + 1);
                assert(t.drop_last() =~= cv.nodes.take(i as int));
                assert(t.last() == cv.nodes[i as int]);
                reveal(Seq::filter);
            }
            if !cluster.nodes[i].proxy_address.eq(&proxy_address) {
                kept.push(cluster.nodes[i].duplicate());
                proof {
                    assert(kept@.map_values(|x: Node| x@) =~= cv.nodes.take(i as int + 1).filter(
                        |nd: NodeV| nd.proxy_address != proxy_address@,
                    ));
                }
            } else {
                proof {
                    assert(kept@.map_values(|x: Node| x@) =~= cv.nodes.take(i as int + 1).filter(
                        |nd: NodeV| nd.proxy_address != proxy_address@,
                    ));
                }
            }
            i = i + 1;
        }
        proof {
            assert(cv.nodes.take(n as int) =~= cv.nodes);
        }
        let new_cluster = Cluster { name: cluster.name.clone(), epoch: e, nodes: kept };
        self.clusters.set(ci, new_cluster);
        let old_proxy = &self.proxies[pi];
        let new_proxy = Proxy {
            address: old_proxy.address.clone(),
            epoch: e,
            nodes: dup_strings(&old_proxy.nodes),
            free_nodes: dup_strings(&old_proxy.nodes),
            cluster_name: None,
        };
        proof {
            assert(new_proxy@ == proxy_reset(prev.proxies[pi as int], prev.global_epoch + 1));
        }
        self.proxies.set(pi, new_proxy);
        proof {
            let target = after_remove_proxy_from_cluster(prev, ci as int, pi as int);
            assert(new_cluster@ == target.clusters[ci as int]);
            assert(self@.clusters =~= target.clusters);
            assert(self@.proxies =~= target.proxies);
            assert(self@.failures =~= target.failures);
            assert(self@ == target);
        }
        match self.commit_checked(backup) {
            Ok(()) => Ok(()),
            Err(err) => Err(MetaStoreError::Inconsistent(err)),
        }
    }
}

/// A counted range containing `s` puts the node's count at one or
/// more.
proof fn lemma_node_count_ge1(slots: Seq<SlotRangeV>, s: int, k: int)
    requires
        0 <= k < slots.len(),
        range_counted(slots[k]),
        in_range_v(slots[k], s),
    ensures
        node_cover_count(slots, s) >= 1,
    decreases slots.len(),
{
    if k < slots.len() - 1 {
        lemma_node_count_ge1(slots.drop_last(), s, k);
    }
}

/// Two distinct counted ranges containing `s` put the node's count at
/// two or more.
proof fn lemma_node_count_ge2(slots: Seq<SlotRangeV>, s: int, k1: int, k2: int)
    requires
        0 <= k1 < k2 < slots.len(),
        range_counted(slots[k1]),
        in_range_v(slots[k1], s),
        range_counted(slots[k2]),
        in_range_v(slots[k2], s),
    ensures
        node_cover_count(slots, s) >= 2,
    decreases slots.len(),
{
    if k2 == slots.len() - 1 {
        lemma_node_count_ge1(slots.drop_last(), s, k1);
    } else {
        lemma_node_count_ge2(slots.drop_last(), s, k1, k2);
    }
}

/// A counted master range containing `s` puts the cluster's count at
/// one or more.
proof fn lemma_cluster_count_ge1(nodes: Seq<NodeV>, s: int, i: int, k: int)
    requires
        0 <= i < nodes.len(),
        nodes[i].role is Master,
        0 <= k < nodes[i].slots.len(),
        range_counted(nodes[i].slots[k]),
        in_range_v(nodes[i].slots[k], s),
    ensures
        cluster_cover_count(nodes, s) >= 1,
    decreases nodes.len(),
{
    if i == nodes.len() - 1 {
        lemma_node_count_ge1(nodes[i].slots, s, k);
    } else {
        lemma_cluster_count_ge1(nodes.drop_last(), s, i, k);
    }
}

/// Two distinct counted master range positions containing `s` put the
/// cluster's count at two or more.
proof fn lemma_cluster_count_ge2(nodes: Seq<NodeV>, s: int, i1: int, k1: int, i2: int, k2: int)
    requires
        0 <= i1 < nodes.len(),
        0 <= i2 < nodes.len(),
        nodes[i1].role is Master,
        nodes[i2].role is Master,
        0 <= k1 < nodes[i1].slots.len(),
        0 <= k2 < nodes[i2].slots.len(),
        range_counted(nodes[i1].slots[k1]),
        in_range_v(nodes[i1].slots[k1], s),
        range_counted(nodes[i2].slots[k2]),
        in_range_v(nodes[i2].slots[k2], s),
        i1 != i2 || k1 != k2,
    ensures
        cluster_cover_count(nodes, s) >= 2,
    decreases nodes.len(),
{
    if i1 == i2 {
        if i1 == nodes.len() - 1 {
            if k1 < k2 {
                lemma_node_count_ge2(nodes[i1].slots, s, k1, k2);
            } else {
                lemma_node_count_ge2(nodes[i1].slots, s, k2, k1);
            }
        } else {
            lemma_cluster_count_ge2(nodes.drop_last(), s, i1, k1, i2, k2);
        }
    } else {
        let hi: int = if i1 > i2 {
            i1
        } else {
            i2
        };
        let lo: int = if i1 > i2 {
            i2
        } else {
            i1
        };
        let khi: int = if i1 > i2 {
            k1
        } else {
            k2
        };
        let klo: int = if i1 > i2 {
            k2
        } else {
            k1
        };
        if hi == nodes.len() - 1 {
            lemma_node_count_ge1(nodes[hi].slots, s, khi);
            lemma_cluster_count_ge1(nodes.drop_last(), s, lo, klo);
        } else {
            lemma_cluster_count_ge2(nodes.drop_last(), s, i1, k1, i2, k2);
        }
    }
}

/// Under exact coverage, at most one counted master range position
/// contains a slot.
pub proof fn lemma_counted_ranges_disjoint(
    nodes: Seq<NodeV>,
    s: int,
    i1: int,
    k1: int,
    i2: int,
    k2: int,
)
    requires
        cluster_cover_count(nodes, s) == 1,
        0 <= i1 < nodes.len(),
        0 <= i2 < nodes.len(),
        nodes[i1].role is Master,
        nodes[i2].role is Master,
        0 <= k1 < nodes[i1].slots.len(),
        0 <= k2 < nodes[i2].slots.len(),
        range_counted(nodes[i1].slots[k1]),
        in_range_v(nodes[i1].slots[k1], s),
        range_counted(nodes[i2].slots[k2]),
        in_range_v(nodes[i2].slots[k2], s),
    ensures
        i1 == i2 && k1 == k2,
{
    if i1 != i2 || k1 != k2 {
        lemma_cluster_count_ge2(nodes, s, i1, k1, i2, k2);
    }
}

/// Law: once the broker commits a migration, the moved slot range
/// stands exactly once in the destination master's owned ranges and
/// is gone from the source master. The hypotheses are what
/// `commit_migration` establishes on success: the two exact ranges it
/// found in the old store, both on masters, and the coverage
/// invariant of the resulting cluster.
pub proof fn lemma_commit_retires_range(
    sv: StoreV,
    ci: int,
    si: int,
    k: int,
    di: int,
    l: int,
    m: crate::cluster::MigrationMetaV,
    start: nat,
    end: nat,
)
    requires
        0 <= ci < sv.clusters.len(),
        exact_range_at(sv.clusters[ci], si, k, false, m, start, end),
        exact_range_at(sv.clusters[ci], di, l, true, m, start, end),
        si != di,
        sv.clusters[ci].nodes[si].role is Master,
        sv.clusters[ci].nodes[di].role is Master,
        start <= end < SLOT_COUNT,
        inv_coverage(after_settle(sv, ci, di, l, si, k).clusters[ci]),
    ensures
        ({
            let c2 = after_settle(sv, ci, di, l, si, k).clusters[ci];
            c2.nodes[di].slots[l] == (SlotRangeV { start, end, tag: SlotRangeTagV::Normal })
                && (forall|k2: int|
                0 <= k2 < c2.nodes[di].slots.len() && k2 != l ==> !(range_counted(
                    #[trigger] c2.nodes[di].slots[k2],
                ) && in_range_v(c2.nodes[di].slots[k2], start as int))) && (forall|k2: int|
                0 <= k2 < c2.nodes[si].slots.len() ==> !(range_counted(
                    #[trigger] c2.nodes[si].slots[k2],
                ) && in_range_v(c2.nodes[si].slots[k2], start as int)))
        }),
{
    let c2 = after_settle(sv, ci, di, l, si, k).clusters[ci];
    assert(c2.nodes.len() == sv.clusters[ci].nodes.len());
    assert(c2.nodes[di].slots[l] == (SlotRangeV { start, end, tag: SlotRangeTagV::Normal }));
    assert(c2.nodes[di].role is Master);
    assert(c2.nodes[si].role is Master);
    assert(cluster_cover_count(c2.nodes, start as int) == 1);
    assert forall|k2: int|
        0 <= k2 < c2.nodes[di].slots.len() && k2 != l implies !(range_counted(
        #[trigger] c2.nodes[di].slots[k2],
    ) && in_range_v(c2.nodes[di].slots[k2], start as int)) by {
        if range_counted(c2.nodes[di].slots[k2]) && in_range_v(
            c2.nodes[di].slots[k2],
            start as int,
        ) {
            lemma_counted_ranges_disjoint(c2.nodes, start as int, di, l, di, k2);
        }
    }
    assert forall|k2: int| 0 <= k2 < c2.nodes[si].slots.len() implies !(range_counted(
        #[trigger] c2.nodes[si].slots[k2],
    ) && in_range_v(c2.nodes[si].slots[k2], start as int)) by {
        if range_counted(c2.nodes[si].slots[k2]) && in_range_v(
            c2.nodes[si].slots[k2],
            start as int,
        ) {
            lemma_counted_ranges_disjoint(c2.nodes, start as int, di, l, si, k2);
        }
    }
}

/// The migration identity a commit record names.
pub open spec fn commit_meta_of(task: MigrationTaskMeta) -> MigrationMeta {
    match task.slot_range.tag {
        SlotRangeTag::Migrating(m) => m,
        SlotRangeTag::Importing(m) => m,
        SlotRangeTag::Normal => task.slot_range.tag->Migrating_0,
    }
}

/// One mutation of the broker interface, with its arguments.
pub enum BrokerMutation {
    AddProxy(String, Vec<String>),
    AddCluster(String),
    RemoveCluster(String),
    AutoAddNodes(String),
    RemoveProxyFromCluster(String, String),
    RemoveProxy(String),
    MigrateSlots(String, String, String, MigrationType),
    StopMigrations(String, String, String),
    AssignReplica(String, String, String),
    CommitMigration(MigrationTaskMeta),
    ReplaceFailedProxy(String),
    AddFailure(String, String, i64),
    GetFailures(i64, i64),
}

impl MetaStore {
    /// Law: every broker mutation preserves the invariants — slot
    /// coverage, migration pairing, node uniqueness, proxy binding,
    /// replica binding and the structural shape — and moves the global
    /// epoch forward by at most one step, never backwards.
    pub fn apply_mutation(&mut self, m: BrokerMutation)
        requires
            old(self).global_epoch < u64::MAX,
            store_inv(old(self)@),
        ensures
            store_inv(final(self)@),
            old(self)@.global_epoch <= final(self)@.global_epoch <= old(self)@.global_epoch + 1,
    {
        let ghost prev = self@;
        match m {
            BrokerMutation::AddProxy(addr, nodes) => {
                let _ = self.add_hosts(addr, nodes);
            },
            BrokerMutation::AddCluster(name) => {
                let _ = self.add_cluster(name);
            },
            BrokerMutation::RemoveCluster(name) => {
                let _ = self.remove_cluster(name);
            },
            BrokerMutation::AutoAddNodes(name) => {
                let _ = self.auto_add_nodes(name);
            },
            BrokerMutation::RemoveProxyFromCluster(name, addr) => {
                let _ = self.remove_proxy_from_cluster(name, addr);
            },
            BrokerMutation::RemoveProxy(addr) => {
                let _ = self.remove_proxy(addr);
            },
            BrokerMutation::MigrateSlots(name, src, dst, kind) => {
                let _ = self.migrate_slots(name, src, dst, kind);
            },
            BrokerMutation::StopMigrations(name, src, dst) => {
                let _ = self.stop_migrations(name, src, dst);
            },
            BrokerMutation::AssignReplica(name, master, replica) => {
                let _ = self.assign_replica(name, master, replica);
            },
            BrokerMutation::CommitMigration(task) => {
                let _ = self.commit_migration(task);
            },
            BrokerMutation::ReplaceFailedProxy(addr) => {
                let _ = self.replace_failed_proxy(addr);
            },
            BrokerMutation::AddFailure(addr, reporter, now) => {
                let ghost av = addr@;
                let ghost rv = reporter@;
                self.add_failure(addr, reporter, now);
                proof {
                    if exists|i: int|
                        0 <= i < prev.failures.len() && fail_match(
                            #[trigger] prev.failures[i],
                            av,
                            rv,
                        ) {
                        let i = choose|i: int|
                            0 <= i < prev.failures.len() && fail_match(
                                #[trigger] prev.failures[i],
                                av,
                                rv,
                            ) && self@.failures == prev.failures.update(
                                i,
                                FailureV { proxy: av, reporter: rv, time: now as int },
                            );
                        assert(self@.failures[i].time == now as int);
                        assert(self@.failures == prev.failures.update(
                            i,
                            FailureV { proxy: av, reporter: rv, time: self@.failures[i].time },
                        ));
                    } else {
                        let pushed = prev.failures.push(
                            FailureV { proxy: av, reporter: rv, time: now as int },
                        );
                        assert(self@.failures == pushed);
                        assert(pushed.drop_last() =~= prev.failures);
                    }
                    assert(add_failure_shape(prev.failures, self@.failures, av, rv));
                    lemma_add_failure_keeps_distinct(prev.failures, self@.failures, av, rv);
                }
            },
            BrokerMutation::GetFailures(ttl, now) => {
                let _ = self.get_failures(ttl, now);
            },
        }
    }

    /// Law: after any sequence of broker mutations from a consistent
    /// store, the invariants still hold.
    pub fn apply_mutations(&mut self, ms: Vec<BrokerMutation>)
        requires
            old(self).global_epoch + ms@.len() <= u64::MAX,
            store_inv(old(self)@),
        ensures
            store_inv(final(self)@),
    {
        let n = ms.len();
        let mut ms = ms;
        let mut i: usize = 0;
        while i < n
            invariant
                0 <= i <= n,
                ms@.len() == n - i,
                store_inv(self@),
                self@.global_epoch + (n - i) <= u64::MAX,
            decreases n - i,
        {
            let m = ms.remove(0);
            self.apply_mutation(m);
            i = i + 1;
        }
    }
}

/// The two ways `add_failure` may have changed the report list: one
/// matching entry refreshed in place, or a fresh pair appended.
pub open spec fn add_failure_shape(
    fs0: Seq<FailureV>,
    fs1: Seq<FailureV>,
    addr: Seq<char>,
    rep: Seq<char>,
) -> bool {
    (exists|i: int|
        0 <= i < fs0.len() && fail_match(#[trigger] fs0[i], addr, rep) && fs1 == fs0.update(
            i,
            FailureV { proxy: addr, reporter: rep, time: fs1[i].time },
        )) || (fs1.len() == fs0.len() + 1 && fs1.drop_last() == fs0 && fs1.last().proxy == addr
        && fs1.last().reporter == rep && (forall|i: int|
        0 <= i < fs0.len() ==> !fail_match(#[trigger] fs0[i], addr, rep)))
}

/// Refreshing or inserting a failure report keeps (proxy, reporter)
/// pairs distinct.
proof fn lemma_add_failure_keeps_distinct(
    fs0: Seq<FailureV>,
    fs1: Seq<FailureV>,
    addr: Seq<char>,
    rep: Seq<char>,
)
    requires
        pairs_distinct(fs0),
        add_failure_shape(fs0, fs1, addr, rep),
    ensures
        pairs_distinct(fs1),
{
    if exists|i: int|
        0 <= i < fs0.len() && fail_match(#[trigger] fs0[i], addr, rep) && fs1 == fs0.update(
            i,
            FailureV { proxy: addr, reporter: rep, time: fs1[i].time },
        ) {
        let i = choose|i: int|
            0 <= i < fs0.len() && fail_match(#[trigger] fs0[i], addr, rep) && fs1 == fs0.update(
                i,
                FailureV { proxy: addr, reporter: rep, time: fs1[i].time },
            );
        assert(fs1.len() == fs0.len());
        assert forall|a: int, b: int| 0 <= a < b < fs1.len() implies !((#[trigger] fs1[a]).proxy
            == (#[trigger] fs1[b]).proxy && fs1[a].reporter == fs1[b].reporter) by {
            assert(fs1[a].proxy == fs0[a].proxy && fs1[a].reporter == fs0[a].reporter);
            assert(fs1[b].proxy == fs0[b].proxy && fs1[b].reporter == fs0[b].reporter);
        }
    } else {
        assert forall|a: int, b: int| 0 <= a < b < fs1.len() implies !((#[trigger] fs1[a]).proxy
            == (#[trigger] fs1[b]).proxy && fs1[a].reporter == fs1[b].reporter) by {
            if b < fs1.len() - 1 {
                assert(fs1[a] == fs0[a] && fs1[b] == fs0[b]);
            } else {
                assert(fs1[a] == fs0[a]);
                assert(!fail_match(fs0[a], addr, rep));
            }
        }
    }
}

/// Whether a failure report is for the given (proxy, reporter) pair.
pub open spec fn fail_match(f: FailureV, addr: Seq<char>, rep: Seq<char>) -> bool {
    f.proxy == addr && f.reporter == rep
}

/// Whether report `a` has a corroborating report from a different
/// reporter for the same proxy.
pub open spec fn quorum_met_at(fs: Seq<FailureV>, a: int) -> bool {
    exists|j: int|
        0 <= j < fs.len() && (#[trigger] fs[j]).proxy == fs[a].proxy && fs[j].reporter
            != fs[a].reporter
}

/// Whether at least two distinct reporters accuse `addr` in `fs`.
pub open spec fn quorum_met(fs: Seq<FailureV>, addr: Seq<char>) -> bool {
    exists|i: int, j: int|
        0 <= i < fs.len() && 0 <= j < fs.len() && (#[trigger] fs[i]).proxy == addr && (
        #[trigger] fs[j]).proxy == addr && fs[i].reporter != fs[j].reporter
}

/// The quorum for the proxy of report `a` is met exactly when some
/// other reporter corroborates report `a`.
proof fn lemma_quorum_at(fs: Seq<FailureV>, a: int)
    requires
        0 <= a < fs.len(),
    ensures
        quorum_met(fs, fs[a].proxy) == quorum_met_at(fs, a),
{
    if quorum_met(fs, fs[a].proxy) {
        let (i, j) = choose|i: int, j: int|
            0 <= i < fs.len() && 0 <= j < fs.len() && (#[trigger] fs[i]).proxy == fs[a].proxy
                && (#[trigger] fs[j]).proxy == fs[a].proxy && fs[i].reporter != fs[j].reporter;
        if fs[i].reporter != fs[a].reporter {
            assert(quorum_met_at(fs, a));
        } else {
            assert(fs[j].reporter != fs[a].reporter);
            assert(quorum_met_at(fs, a));
        }
    }
    if quorum_met_at(fs, a) {
        let j = choose|j: int|
            0 <= j < fs.len() && (#[trigger] fs[j]).proxy == fs[a].proxy && fs[j].reporter
                != fs[a].reporter;
        assert(0 <= a < fs.len() && fs[a].proxy == fs[a].proxy && fs[j].proxy == fs[a].proxy
            && fs[a].reporter != fs[j].reporter);
        assert(quorum_met(fs, fs[a].proxy));
    }
}

/// Whether `v` holds a string whose text is `s`'s.
pub fn contains_string(v: &Vec<String>, s: &String) -> (r: bool)
    ensures
        r == exists|k: int| 0 <= k < v@.len() && (#[trigger] v@[k])@ == s@,
{
    let n = v.len();
    let mut i: usize = 0;
    while i < n
        invariant
            0 <= i <= n,
            n == v@.len(),
            forall|k: int| 0 <= k < i ==> (#[trigger] v@[k])@ != s@,
        decreases n - i,
    {
        if v[i].eq(s) {
            return true;
        }
        i = i + 1;
    }
    false
}

} // verus!
