//! The topology data model: nodes, proxies, clusters, migrations, and
//! the string encoding in which migration metadata travels on the wire.
//!
//! A migration is identified by its epoch alone; the broker stamps a
//! fresh epoch when it creates the record. The wire encoding of a
//! `MigrationTaskMeta` is a flat list of tokens: cluster name, range
//! start, range end, then the range tag (nothing for `Normal`, or a
//! tag word followed by the five migration fields).

use vstd::prelude::*;
use crate::digits::{all_digits, dec_digits, dec_value, u64_to_string, parse_u64,
    lemma_dec_digits_wf, lemma_dec_round_trip};

verus! {

/// The role a node plays in its cluster.
#[derive(Debug, Clone, Copy, PartialEq, Eq, Structural)]
pub enum Role {
    Master,
    Replica,
}

/// Identity of one in-flight slot migration. The epoch alone names the
/// migration; the four addresses locate its endpoints.
#[derive(Debug, Clone)]
pub struct MigrationMeta {
    pub epoch: u64,
    pub src_proxy_address: String,
    pub src_node_address: String,
    pub dst_proxy_address: String,
    pub dst_node_address: String,
}

/// How a slot range is held by its node: serving normally, being shed
/// to another node, or being absorbed from one.
#[derive(Debug, Clone)]
pub enum SlotRangeTag {
    Normal,
    Migrating(MigrationMeta),
    Importing(MigrationMeta),
}

/// An inclusive range of slots together with its migration tag.
#[derive(Debug, Clone)]
pub struct SlotRange {
    pub start: usize,
    pub end: usize,
    pub tag: SlotRangeTag,
}

/// Replication bindings of a replica: the master addresses it mirrors.
#[derive(Debug, Clone)]
pub struct ReplMeta {
    pub masters: Vec<String>,
}

/// A backend data instance inside a cluster.
#[derive(Debug, Clone)]
pub struct Node {
    pub address: String,
    pub proxy_address: String,
    pub cluster_name: Option<String>,
    pub role: Role,
    pub slots: Vec<SlotRange>,
    pub repl_meta: ReplMeta,
}

/// A named cluster: an epoch and the nodes that carry its slots.
#[derive(Debug, Clone)]
pub struct Cluster {
    pub name: String,
    pub epoch: u64,
    pub nodes: Vec<Node>,
}

/// A proxy process and the two backend nodes it contributes.
#[derive(Debug, Clone)]
pub struct Proxy {
    pub address: String,
    pub epoch: u64,
    pub nodes: Vec<String>,
    pub free_nodes: Vec<String>,
    pub cluster_name: Option<String>,
}

/// Names one migration record: the cluster and the tagged slot range.
#[derive(Debug, Clone)]
pub struct MigrationTaskMeta {
    pub db_name: String,
    pub slot_range: SlotRange,
}

/// View of an `Option<String>` as an optional character sequence.
pub open spec fn opt_str_view(o: Option<String>) -> Option<Seq<char>> {
    match o {
        Option::Some(s) => Option::Some(s@),
        Option::None => Option::None,
    }
}

/// Spec-level image of a `Node`.
pub struct NodeV {
    pub address: Seq<char>,
    pub proxy_address: Seq<char>,
    pub cluster_name: Option<Seq<char>>,
    pub role: Role,
    pub slots: Seq<SlotRangeV>,
    pub masters: Seq<Seq<char>>,
}

/// Spec-level image of a `Cluster`.
pub struct ClusterV {
    pub name: Seq<char>,
    pub epoch: nat,
    pub nodes: Seq<NodeV>,
}

/// Spec-level image of a `Proxy`.
pub struct ProxyV {
    pub address: Seq<char>,
    pub epoch: nat,
    pub nodes: Seq<Seq<char>>,
    pub free_nodes: Seq<Seq<char>>,
    pub cluster_name: Option<Seq<char>>,
}

impl View for Node {
    type V = NodeV;

    open spec fn view(&self) -> NodeV {
        NodeV {
            address: self.address@,
            proxy_address: self.proxy_address@,
            cluster_name: opt_str_view(self.cluster_name),
            role: self.role,
            slots: self.slots@.map_values(|r: SlotRange| r@),
            masters: str_views(self.repl_meta.masters@),
        }
    }
}

impl View for Cluster {
    type V = ClusterV;

    open spec fn view(&self) -> ClusterV {
        ClusterV {
            name: self.name@,
            epoch: self.epoch as nat,
            nodes: self.nodes@.map_values(|n: Node| n@),
        }
    }
}

impl View for Proxy {
    type V = ProxyV;

    open spec fn view(&self) -> ProxyV {
        ProxyV {
            address: self.address@,
            epoch: self.epoch as nat,
            nodes: str_views(self.nodes@),
            free_nodes: str_views(self.free_nodes@),
            cluster_name: opt_str_view(self.cluster_name),
        }
    }
}

/// Whether two optional names are equal.
pub fn opt_str_eq(a: &Option<String>, b: &Option<String>) -> (r: bool)
    ensures
        r == (opt_str_view(*a) == opt_str_view(*b)),
{
    match a {
        Option::Some(x) => match b {
            Option::Some(y) => x.eq(y),
            Option::None => false,
        },
        Option::None => b.is_none(),
    }
}

/// Copies an optional name.
pub fn dup_opt_str(a: &Option<String>) -> (r: Option<String>)
    ensures
        r == *a,
{
    match a {
        Option::Some(x) => Option::Some(x.clone()),
        Option::None => Option::None,
    }
}

/// Copies a list of names.
pub fn dup_strings(v: &Vec<String>) -> (r: Vec<String>)
    ensures
        r@ == v@,
{
    let r = v.clone();
    proof {
        assert forall|i: int| 0 <= i < v@.len() implies r@[i] == v@[i] by {
            assert(vstd::pervasive::cloned::<String>(v@[i], r@[i]));
        }
        assert(r@ =~= v@);
    }
    r
}

impl MigrationMeta {
    /// Copies the record.
    pub fn duplicate(&self) -> (r: MigrationMeta)
        ensures
            r == *self,
    {
        MigrationMeta {
            epoch: self.epoch,
            src_proxy_address: self.src_proxy_address.clone(),
            src_node_address: self.src_node_address.clone(),
            dst_proxy_address: self.dst_proxy_address.clone(),
            dst_node_address: self.dst_node_address.clone(),
        }
    }
}

impl SlotRangeTag {
    /// Copies the tag.
    pub fn duplicate(&self) -> (r: SlotRangeTag)
        ensures
            r == *self,
    {
        match self {
            SlotRangeTag::Normal => SlotRangeTag::Normal,
            SlotRangeTag::Migrating(m) => SlotRangeTag::Migrating(m.duplicate()),
            SlotRangeTag::Importing(m) => SlotRangeTag::Importing(m.duplicate()),
        }
    }
}

impl SlotRange {
    /// Copies the range.
    pub fn duplicate(&self) -> (r: SlotRange)
        ensures
            r == *self,
    {
        SlotRange { start: self.start, end: self.end, tag: self.tag.duplicate() }
    }
}

/// Copies a list of slot ranges.
pub fn dup_ranges(v: &Vec<SlotRange>) -> (r: Vec<SlotRange>)
    ensures
        r@ == v@,
{
    let mut r: Vec<SlotRange> = Vec::new();
    let n = v.len();
    let mut i: usize = 0;
    while i < n
        invariant
            0 <= i <= n,
            n == v@.len(),
            r@ =~= v@.take(i as int),
        decreases n - i,
    {
        r.push(v[i].duplicate());
        i = i + 1;
    }
    proof {
        assert(v@.take(n as int) =~= v@);
    }
    r
}

impl Node {
    /// Copies the node.
    pub fn duplicate(&self) -> (r: Node)
        ensures
            r@ == self@,
    {
        Node {
            address: self.address.clone(),
            proxy_address: self.proxy_address.clone(),
            cluster_name: dup_opt_str(&self.cluster_name),
            role: self.role,
            slots: dup_ranges(&self.slots),
            repl_meta: ReplMeta { masters: dup_strings(&self.repl_meta.masters) },
        }
    }
}

/// Copies a list of nodes.
pub fn dup_nodes(v: &Vec<Node>) -> (r: Vec<Node>)
    ensures
        r@.map_values(|n: Node| n@) == v@.map_values(|n: Node| n@),
        r@.len() == v@.len(),
{
    let mut r: Vec<Node> = Vec::new();
    let n = v.len();
    let mut i: usize = 0;
    while i < n
        invariant
            0 <= i <= n,
            n == v@.len(),
            r@.len() == i,
            forall|k: int| 0 <= k < i ==> (#[trigger] r@[k])@ == v@[k]@,
        decreases n - i,
    {
        r.push(v[i].duplicate());
        i = i + 1;
    }
    proof {
        assert(r@.map_values(|x: Node| x@) =~= v@.map_values(|x: Node| x@));
    }
    r
}

impl Cluster {
    /// Copies the cluster.
    pub fn duplicate(&self) -> (r: Cluster)
        ensures
            r@ == self@,
    {
        Cluster { name: self.name.clone(), epoch: self.epoch, nodes: dup_nodes(&self.nodes) }
    }
}

impl Proxy {
    /// Copies the proxy record.
    pub fn duplicate(&self) -> (r: Proxy)
        ensures
            r@ == self@,
    {
        Proxy {
            address: self.address.clone(),
            epoch: self.epoch,
            nodes: dup_strings(&self.nodes),
            free_nodes: dup_strings(&self.free_nodes),
            cluster_name: dup_opt_str(&self.cluster_name),
        }
    }
}

impl MigrationTaskMeta {
    /// Copies the record.
    pub fn duplicate(&self) -> (r: MigrationTaskMeta)
        ensures
            r == *self,
    {
        MigrationTaskMeta { db_name: self.db_name.clone(), slot_range: self.slot_range.duplicate() }
    }
}

/// Spec-level image of a `MigrationMeta`.
pub struct MigrationMetaV {
    pub epoch: nat,
    pub src_proxy: Seq<char>,
    pub src_node: Seq<char>,
    pub dst_proxy: Seq<char>,
    pub dst_node: Seq<char>,
}

/// Spec-level image of a `SlotRangeTag`.
pub enum SlotRangeTagV {
    Normal,
    Migrating(MigrationMetaV),
    Importing(MigrationMetaV),
}

/// Spec-level image of a `SlotRange`.
pub struct SlotRangeV {
    pub start: nat,
    pub end: nat,
    pub tag: SlotRangeTagV,
}

/// Spec-level image of a `MigrationTaskMeta`.
pub struct MigrationTaskMetaV {
    pub db_name: Seq<char>,
    pub slot_range: SlotRangeV,
}

impl View for MigrationMeta {
    type V = MigrationMetaV;

    open spec fn view(&self) -> MigrationMetaV {
        MigrationMetaV {
            epoch: self.epoch as nat,
            src_proxy: self.src_proxy_address@,
            src_node: self.src_node_address@,
            dst_proxy: self.dst_proxy_address@,
            dst_node: self.dst_node_address@,
        }
    }
}

impl View for SlotRangeTag {
    type V = SlotRangeTagV;

    open spec fn view(&self) -> SlotRangeTagV {
        match *self {
            SlotRangeTag::Normal => SlotRangeTagV::Normal,
            SlotRangeTag::Migrating(m) => SlotRangeTagV::Migrating(m@),
            SlotRangeTag::Importing(m) => SlotRangeTagV::Importing(m@),
        }
    }
}

impl View for SlotRange {
    type V = SlotRangeV;

    open spec fn view(&self) -> SlotRangeV {
        SlotRangeV { start: self.start as nat, end: self.end as nat, tag: self.tag@ }
    }
}

impl View for MigrationTaskMeta {
    type V = MigrationTaskMetaV;

    open spec fn view(&self) -> MigrationTaskMetaV {
        MigrationTaskMetaV { db_name: self.db_name@, slot_range: self.slot_range@ }
    }
}

/// Views of a list of strings.
pub open spec fn str_views(v: Seq<String>) -> Seq<Seq<char>> {
    v.map_values(|s: String| s@)
}

/// Wire tokens of a migration identity: epoch, then the four addresses.
pub open spec fn meta_strings(m: MigrationMetaV) -> Seq<Seq<char>> {
    seq![dec_digits(m.epoch), m.src_proxy, m.src_node, m.dst_proxy, m.dst_node]
}

/// Wire tokens of a range tag: nothing for `Normal`, else the tag word
/// and the migration identity.
pub open spec fn tag_strings(t: SlotRangeTagV) -> Seq<Seq<char>> {
    match t {
        SlotRangeTagV::Normal => Seq::empty(),
        SlotRangeTagV::Migrating(m) => seq!["MIGRATING"@] + meta_strings(m),
        SlotRangeTagV::Importing(m) => seq!["IMPORTING"@] + meta_strings(m),
    }
}

/// Wire tokens of a migration record: cluster name, range bounds, tag.
pub open spec fn task_meta_strings(t: MigrationTaskMetaV) -> Seq<Seq<char>> {
    seq![t.db_name, dec_digits(t.slot_range.start), dec_digits(t.slot_range.end)] + tag_strings(
        t.slot_range.tag,
    )
}

/// Whether a token is a decimal number that fits in `u64`.
pub open spec fn parses_u64(s: Seq<char>) -> bool {
    s.len() > 0 && all_digits(s) && dec_value(s) <= u64::MAX
}

/// Reads a migration identity back from exactly five wire tokens.
pub open spec fn parse_meta_strings(ss: Seq<Seq<char>>) -> Option<MigrationMetaV> {
    if ss.len() == 5 && parses_u64(ss[0]) {
        Option::Some(
            MigrationMetaV {
                epoch: dec_value(ss[0]),
                src_proxy: ss[1],
                src_node: ss[2],
                dst_proxy: ss[3],
                dst_node: ss[4],
            },
        )
    } else {
        Option::None
    }
}

/// Reads a range tag back from its wire tokens.
pub open spec fn parse_tag_strings(ss: Seq<Seq<char>>) -> Option<SlotRangeTagV> {
    if ss.len() == 0 {
        Option::Some(SlotRangeTagV::Normal)
    } else if ss[0] == "MIGRATING"@ {
        match parse_meta_strings(ss.skip(1)) {
            Option::Some(m) => Option::Some(SlotRangeTagV::Migrating(m)),
            Option::None => Option::None,
        }
    } else if ss[0] == "IMPORTING"@ {
        match parse_meta_strings(ss.skip(1)) {
            Option::Some(m) => Option::Some(SlotRangeTagV::Importing(m)),
            Option::None => Option::None,
        }
    } else {
        Option::None
    }
}

/// Reads a migration record back from its wire tokens.
pub open spec fn parse_task_meta_strings(ss: Seq<Seq<char>>) -> Option<MigrationTaskMetaV> {
    if ss.len() >= 3 && parses_u64(ss[1]) && dec_value(ss[1]) <= usize::MAX && parses_u64(ss[2])
        && dec_value(ss[2]) <= usize::MAX {
        match parse_tag_strings(ss.skip(3)) {
            Option::Some(tag) => Option::Some(
                MigrationTaskMetaV {
                    db_name: ss[0],
                    slot_range: SlotRangeV {
                        start: dec_value(ss[1]),
                        end: dec_value(ss[2]),
                        tag,
                    },
                },
            ),
            Option::None => Option::None,
        }
    } else {
        Option::None
    }
}

impl MigrationMeta {
    /// Renders the migration identity as its wire tokens.
    pub fn into_strings(self) -> (r: Vec<String>)
        ensures
            str_views(r@) == meta_strings(self@),
    {
        let mut v: Vec<String> = Vec::new();
        v.push(u64_to_string(self.epoch));
        v.push(self.src_proxy_address);
        v.push(self.src_node_address);
        v.push(self.dst_proxy_address);
        v.push(self.dst_node_address);
        proof {
            assert(str_views(v@) =~= meta_strings(self@));
        }
        v
    }
}

impl MigrationTaskMeta {
    /// Renders the migration record as its wire tokens.
    pub fn into_strings(self) -> (r: Vec<String>)
        ensures
            str_views(r@) == task_meta_strings(self@),
    {
        let MigrationTaskMeta { db_name, slot_range } = self;
        let SlotRange { start, end, tag } = slot_range;
        let mut v: Vec<String> = Vec::new();
        v.push(db_name);
        v.push(u64_to_string(start as u64));
        v.push(u64_to_string(end as u64));
        match tag {
            SlotRangeTag::Normal => {},
            SlotRangeTag::Migrating(m) => {
                v.push(String::from_str("MIGRATING"));
                let mut ms = m.into_strings();
                v.append(&mut ms);
            },
            SlotRangeTag::Importing(m) => {
                v.push(String::from_str("IMPORTING"));
                let mut ms = m.into_strings();
                v.append(&mut ms);
            },
        }
        proof {
            assert(str_views(v@) =~= task_meta_strings(self@));
        }
        v
    }

    /// Reads a migration record from the wire tokens `strs[from..]`,
    /// which must be consumed exactly.
    pub fn from_strings(strs: &Vec<String>, from: usize) -> (r: Option<MigrationTaskMeta>)
        requires
            from <= strs@.len(),
        ensures
            match r {
                Option::Some(t) => parse_task_meta_strings(str_views(strs@).skip(from as int))
                    == Option::Some(t@),
                Option::None => parse_task_meta_strings(str_views(strs@).skip(from as int))
                    is None,
            },
    {
        let ghost ss = str_views(strs@).skip(from as int);
        let n = strs.len();
        if n - from < 3 {
            return None;
        }
        let db_name = strs[from].clone();
        let start = match parse_index(&strs[from + 1]) {
            Some(x) => x,
            None => {
                return None;
            },
        };
        let end = match parse_index(&strs[from + 2]) {
            Some(x) => x,
            None => {
                return None;
            },
        };
        proof {
            assert(ss[0] == strs@[from as int]@);
            assert(ss[1] == strs@[from as int + 1]@);
            assert(ss[2] == strs@[from as int + 2]@);
        }
        let tag = match Self::tag_from_strings(strs, from + 3) {
            Some(t) => t,
            None => {
                proof {
                    assert(str_views(strs@).skip(from as int + 3) =~= ss.skip(3));
                }
                return None;
            },
        };
        proof {
            assert(str_views(strs@).skip(from as int + 3) =~= ss.skip(3));
        }
        Some(MigrationTaskMeta { db_name, slot_range: SlotRange { start, end, tag } })
    }

    /// Reads a range tag from the wire tokens `strs[from..]`.
    fn tag_from_strings(strs: &Vec<String>, from: usize) -> (r: Option<SlotRangeTag>)
        requires
            from <= strs@.len(),
        ensures
            match r {
                Option::Some(t) => parse_tag_strings(str_views(strs@).skip(from as int))
                    == Option::Some(t@),
                Option::None => parse_tag_strings(str_views(strs@).skip(from as int)) is None,
            },
    {
        let ghost ss = str_views(strs@).skip(from as int);
        let n = strs.len();
        if n - from == 0 {
            return Some(SlotRangeTag::Normal);
        }
        let migrating = String::from_str("MIGRATING");
        let importing = String::from_str("IMPORTING");
        proof {
            assert(ss[0] == strs@[from as int]@);
        }
        if strs[from].eq(&migrating) {
            match Self::meta_from_strings(strs, from + 1) {
                Some(m) => {
                    proof {
                        assert(str_views(strs@).skip(from as int + 1) =~= ss.skip(1));
                    }
                    Some(SlotRangeTag::Migrating(m))
                },
                None => {
                    proof {
                        assert(str_views(strs@).skip(from as int + 1) =~= ss.skip(1));
                    }
                    None
                },
            }
        } else if strs[from].eq(&importing) {
            match Self::meta_from_strings(strs, from + 1) {
                Some(m) => {
                    proof {
                        assert(str_views(strs@).skip(from as int + 1) =~= ss.skip(1));
                    }
                    Some(SlotRangeTag::Importing(m))
                },
                None => {
                    proof {
                        assert(str_views(strs@).skip(from as int + 1) =~= ss.skip(1));
                    }
                    None
                },
            }
        } else {
            None
        }
    }

    /// Reads a migration identity from the wire tokens `strs[from..]`,
    /// which must be exactly five.
    fn meta_from_strings(strs: &Vec<String>, from: usize) -> (r: Option<MigrationMeta>)
        requires
            from <= strs@.len(),
        ensures
            match r {
                Option::Some(m) => parse_meta_strings(str_views(strs@).skip(from as int))
                    == Option::Some(m@),
                Option::None => parse_meta_strings(str_views(strs@).skip(from as int)) is None,
            },
    {
        let ghost ss = str_views(strs@).skip(from as int);
        let n = strs.len();
        if n - from != 5 {
            return None;
        }
        proof {
            assert(ss[0] == strs@[from as int]@);
            assert(ss[1] == strs@[from as int + 1]@);
            assert(ss[2] == strs@[from as int + 2]@);
            assert(ss[3] == strs@[from as int + 3]@);
            assert(ss[4] == strs@[from as int + 4]@);
        }
        let epoch = match parse_u64(strs[from].as_str()) {
            Some(e) => e,
            None => {
                return None;
            },
        };
        Some(
            MigrationMeta {
                epoch,
                src_proxy_address: strs[from + 1].clone(),
                src_node_address: strs[from + 2].clone(),
                dst_proxy_address: strs[from + 3].clone(),
                dst_node_address: strs[from + 4].clone(),
            },
        )
    }
}

/// Parses a slot index: a decimal number that fits in `usize`.
fn parse_index(s: &String) -> (r: Option<usize>)
    ensures
        r is Some <==> parses_u64(s@) && dec_value(s@) <= usize::MAX,
        r is Some ==> r->0 as nat == dec_value(s@),
{
    match parse_u64(s.as_str()) {
        Some(v) => {
            if v <= (usize::MAX as u64) {
                Some(v as usize)
            } else {
                None
            }
        },
        None => None,
    }
}

/// Reading a rendered migration record back returns the record itself.
pub proof fn lemma_task_meta_round_trip(t: MigrationTaskMeta)
    ensures
        parse_task_meta_strings(task_meta_strings(t@)) == Option::Some(t@),
{
    let ss = task_meta_strings(t@);
    lemma_dec_digits_wf(t@.slot_range.start);
    lemma_dec_round_trip(t@.slot_range.start);
    lemma_dec_digits_wf(t@.slot_range.end);
    lemma_dec_round_trip(t@.slot_range.end);
    assert(ss[0] == t@.db_name);
    assert(ss[1] == dec_digits(t@.slot_range.start));
    assert(ss[2] == dec_digits(t@.slot_range.end));
    assert(ss.skip(3) =~= tag_strings(t@.slot_range.tag));
    lemma_tag_round_trip(t.slot_range.tag);
}

/// Reading a rendered range tag back returns the tag itself.
pub proof fn lemma_tag_round_trip(t: SlotRangeTag)
    ensures
        parse_tag_strings(tag_strings(t@)) == Option::Some(t@),
{
    reveal_strlit("MIGRATING");
    reveal_strlit("IMPORTING");
    match t {
        SlotRangeTag::Normal => {},
        SlotRangeTag::Migrating(m) => {
            let ss = tag_strings(t@);
            assert(ss[0] == "MIGRATING"@);
            assert(ss.skip(1) =~= meta_strings(m@));
            lemma_meta_round_trip(m);
        },
        SlotRangeTag::Importing(m) => {
            let ss = tag_strings(t@);
            assert(ss[0] == "IMPORTING"@);
            assert("IMPORTING"@[0] != "MIGRATING"@[0]);
            assert(ss[0] != "MIGRATING"@);
            assert(ss.skip(1) =~= meta_strings(m@));
            lemma_meta_round_trip(m);
        },
    }
}

/// Reading a rendered migration identity back returns it unchanged.
pub proof fn lemma_meta_round_trip(m: MigrationMeta)
    ensures
        parse_meta_strings(meta_strings(m@)) == Option::Some(m@),
{
    lemma_dec_digits_wf(m@.epoch);
    lemma_dec_round_trip(m@.epoch);
    let ss = meta_strings(m@);
    assert(ss[0] == dec_digits(m@.epoch));
}

} // verus!
