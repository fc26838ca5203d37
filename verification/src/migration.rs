//! Migration-side primitives: the five-phase state counter, the
//! `SwitchArg` payload carried by the inter-proxy handshake commands,
//! and the small parsers the scan engine needs.
//!
//! The state counter is strictly monotonic: a transition request that
//! does not advance the state is ignored, so racing handlers can never
//! move a task backwards.

use vstd::prelude::*;
use crate::cluster::{MigrationTaskMeta, MigrationTaskMetaV, task_meta_strings,
    parse_task_meta_strings, parses_u64, str_views};
use crate::digits::{dec_digits, dec_value, u64_to_string, parse_u64};
use crate::protocol::{BinSafeStr, Resp, elem_bytes, resp_bytes, resp_strings, get_resp_bytes,
    get_resp_strings};
use crate::slot::slot_of;
use crate::utils::utf8_decode;

verus! {

/// The three handshake sub-commands a migrating task drives.
#[derive(Debug, Clone, Copy, PartialEq, Eq, Structural)]
pub enum MgrSubCmd {
    PreCheck,
    PreSwitch,
    FinalSwitch,
}

impl MgrSubCmd {
    /// The wire name of the sub-command.
    pub fn as_str(&self) -> (s: &'static str)
        ensures
            *self is PreCheck ==> s@ == "PRECHECK"@,
            *self is PreSwitch ==> s@ == "PRESWITCH"@,
            *self is FinalSwitch ==> s@ == "FINALSWITCH"@,
    {
        match self {
            MgrSubCmd::PreCheck => "PRECHECK",
            MgrSubCmd::PreSwitch => "PRESWITCH",
            MgrSubCmd::FinalSwitch => "FINALSWITCH",
        }
    }
}

/// The six phases of a migration, in canonical order.
#[derive(Debug, Clone, Copy, PartialEq, Eq, Structural)]
pub enum MigrationState {
    PreCheck,
    PreBlocking,
    PreSwitch,
    Scanning,
    FinalSwitch,
    SwitchCommitted,
}

/// Position of a phase in the canonical order.
pub open spec fn state_rank(s: MigrationState) -> int {
    match s {
        MigrationState::PreCheck => 0,
        MigrationState::PreBlocking => 1,
        MigrationState::PreSwitch => 2,
        MigrationState::Scanning => 3,
        MigrationState::FinalSwitch => 4,
        MigrationState::SwitchCommitted => 5,
    }
}

/// The phase stored at a given counter value; values past the end of
/// the order read as the final phase.
pub open spec fn state_of(v: int) -> MigrationState {
    if v == 0 {
        MigrationState::PreCheck
    } else if v == 1 {
        MigrationState::PreBlocking
    } else if v == 2 {
        MigrationState::PreSwitch
    } else if v == 3 {
        MigrationState::Scanning
    } else if v == 4 {
        MigrationState::FinalSwitch
    } else {
        MigrationState::SwitchCommitted
    }
}

impl MigrationState {
    /// The position of this phase in the canonical order.
    pub fn rank(&self) -> (r: u16)
        ensures
            r as int == state_rank(*self),
    {
        match self {
            MigrationState::PreCheck => 0,
            MigrationState::PreBlocking => 1,
            MigrationState::PreSwitch => 2,
            MigrationState::Scanning => 3,
            MigrationState::FinalSwitch => 4,
            MigrationState::SwitchCommitted => 5,
        }
    }
}

/// The phase counter of one migration task. Writes only ever advance
/// it; reads observe a whole phase value, never a half-written one.
#[derive(Debug)]
pub struct AtomicMigrationState {
    pub inner: u16,
}

impl AtomicMigrationState {
    /// The phase the counter currently holds.
    pub open spec fn state(self) -> MigrationState {
        state_of(self.inner as int)
    }

    /// A fresh counter starts at the first phase.
    pub fn new() -> (r: Self)
        ensures
            r.state() == MigrationState::PreCheck,
    {
        AtomicMigrationState { inner: 0 }
    }

    /// Requests a transition. The request is applied only when it
    /// advances the phase; out-of-order requests are ignored, so the
    /// observed phase never decreases.
    pub fn set_state(&mut self, state: MigrationState)
        ensures
            state_rank(final(self).state()) == if state_rank(state) > state_rank(
                old(self).state(),
            ) {
                state_rank(state)
            } else {
                state_rank(old(self).state())
            },
            state_rank(final(self).state()) >= state_rank(old(self).state()),
    {
        let r = state.rank();
        if r > self.inner {
            self.inner = r;
        }
        proof {
            lemma_state_of_rank(state);
        }
    }

    /// The phase the counter currently holds.
    pub fn get_state(&self) -> (r: MigrationState)
        ensures
            r == self.state(),
    {
        if self.inner == 0 {
            MigrationState::PreCheck
        } else if self.inner == 1 {
            MigrationState::PreBlocking
        } else if self.inner == 2 {
            MigrationState::PreSwitch
        } else if self.inner == 3 {
            MigrationState::Scanning
        } else if self.inner == 4 {
            MigrationState::FinalSwitch
        } else {
            MigrationState::SwitchCommitted
        }
    }
}

/// Reading a rank back gives the phase it came from.
pub proof fn lemma_state_of_rank(s: MigrationState)
    ensures
        state_of(state_rank(s)) == s,
{
}

/// Every sequence of transition requests leaves the observed phase a
/// point of the canonical order that never decreases: each request
/// moves the counter to the larger of the current and requested rank,
/// so a later observation never ranks below an earlier one.
pub proof fn lemma_observed_states_monotonic(st: AtomicMigrationState, requests: Seq<
    MigrationState,
>)
    ensures
        state_rank(apply_requests(st, requests).state()) >= state_rank(st.state()),
    decreases requests.len(),
{
    if requests.len() > 0 {
        lemma_observed_states_monotonic(apply_request(st, requests[0]), requests.skip(1));
    }
}

/// The counter after one transition request.
pub open spec fn apply_request(st: AtomicMigrationState, s: MigrationState) -> AtomicMigrationState {
    if state_rank(s) > state_rank(st.state()) {
        AtomicMigrationState { inner: state_rank(s) as u16 }
    } else {
        st
    }
}

/// The counter after a sequence of transition requests.
pub open spec fn apply_requests(st: AtomicMigrationState, requests: Seq<MigrationState>) -> AtomicMigrationState
    decreases requests.len(),
{
    if requests.len() == 0 {
        st
    } else {
        apply_requests(apply_request(st, requests[0]), requests.skip(1))
    }
}

/// Errors of the migration tasks.
#[derive(Debug)]
pub enum MigrationError {
    IncompatibleVersion,
    AlreadyStarted,
    AlreadyEnded,
    Canceled,
    NotReady,
    ReplError(String),
    RedisClient(String),
    Io(String),
    Timeout,
}

/// Payload of a handshake command: the protocol version and the
/// migration record it concerns.
#[derive(Debug, Clone)]
pub struct SwitchArg {
    pub version: String,
    pub meta: MigrationTaskMeta,
}

/// Spec-level image of a `SwitchArg`.
pub struct SwitchArgV {
    pub version: Seq<char>,
    pub meta: MigrationTaskMetaV,
}

impl View for SwitchArg {
    type V = SwitchArgV;

    open spec fn view(&self) -> SwitchArgV {
        SwitchArgV { version: self.version@, meta: self.meta@ }
    }
}

/// Wire tokens of a `SwitchArg`: the version, then the record.
pub open spec fn switch_arg_strings(a: SwitchArgV) -> Seq<Seq<char>> {
    seq![a.version] + task_meta_strings(a.meta)
}

/// Reads a `SwitchArg` back from its wire tokens.
pub open spec fn parse_switch_arg_strings(ss: Seq<Seq<char>>) -> Option<SwitchArgV> {
    if ss.len() >= 1 {
        match parse_task_meta_strings(ss.skip(1)) {
            Option::Some(m) => Option::Some(SwitchArgV { version: ss[0], meta: m }),
            Option::None => Option::None,
        }
    } else {
        Option::None
    }
}

impl SwitchArg {
    /// Renders the payload as its wire tokens.
    pub fn into_strings(self) -> (r: Vec<String>)
        ensures
            str_views(r@) == switch_arg_strings(self@),
    {
        let SwitchArg { version, meta } = self;
        let mut strs: Vec<String> = Vec::new();
        strs.push(version);
        let mut ms = meta.into_strings();
        strs.append(&mut ms);
        proof {
            assert(str_views(strs@) =~= switch_arg_strings(self@));
        }
        strs
    }

    /// Reads a payload from the wire tokens `strs[from..]`.
    pub fn from_strings(strs: &Vec<String>, from: usize) -> (r: Option<SwitchArg>)
        requires
            from <= strs@.len(),
        ensures
            match r {
                Option::Some(a) => parse_switch_arg_strings(str_views(strs@).skip(from as int))
                    == Option::Some(a@),
                Option::None => parse_switch_arg_strings(str_views(strs@).skip(from as int))
                    is None,
            },
    {
        let ghost ss = str_views(strs@).skip(from as int);
        if strs.len() - from < 1 {
            return None;
        }
        let version = strs[from].clone();
        proof {
            assert(ss[0] == strs@[from as int]@);
            assert(str_views(strs@).skip(from as int + 1) =~= ss.skip(1));
        }
        match MigrationTaskMeta::from_strings(strs, from + 1) {
            Some(meta) => Some(SwitchArg { version, meta }),
            None => None,
        }
    }
}

/// Rendering a payload and reading it back returns the payload itself.
pub proof fn lemma_switch_arg_round_trip(a: SwitchArg)
    ensures
        parse_switch_arg_strings(switch_arg_strings(a@)) == Option::Some(a@),
{
    let ss = switch_arg_strings(a@);
    assert(ss[0] == a@.version);
    assert(ss.skip(1) =~= task_meta_strings(a@.meta));
    crate::cluster::lemma_task_meta_round_trip(a.meta);
}

/// Reads the payload out of a full `UMCTL <sub-command> ...` command:
/// the first two tokens name the command and are skipped.
pub fn parse_switch_command(resp: &Resp) -> (r: Option<SwitchArg>)
    ensures
        match resp_strings(*resp) {
            Option::Some(ss) => match r {
                Option::Some(a) => ss.len() >= 2 && parse_switch_arg_strings(ss.skip(2))
                    == Option::Some(a@),
                Option::None => ss.len() < 2 || parse_switch_arg_strings(ss.skip(2)) is None,
            },
            Option::None => r is None,
        },
{
    let command = match get_resp_strings(resp) {
        Some(c) => c,
        None => {
            return None;
        },
    };
    if command.len() < 2 {
        return None;
    }
    proof {
        let ss = resp_strings(*resp)->0;
        assert(str_views(command@).skip(2) =~= ss.skip(2));
    }
    SwitchArg::from_strings(&command, 2)
}

/// The slot ranges one migration task covers.
#[derive(Debug, Clone)]
pub struct SlotRangeArray {
    pub ranges: Vec<(usize, usize)>,
}

/// Whether `slot` lies in some inclusive range of `ranges`.
pub open spec fn in_ranges(ranges: Seq<(usize, usize)>, slot: int) -> bool {
    exists|i: int|
        0 <= i < ranges.len() && (#[trigger] ranges[i]).0 <= slot && slot <= ranges[i].1
}

/// A range list ordered by start.
pub open spec fn sorted_by_start(ranges: Seq<(usize, usize)>) -> bool {
    forall|i: int, j: int|
        0 <= i < j < ranges.len() ==> (#[trigger] ranges[i]).0 <= (#[trigger] ranges[j]).0
}

/// `x` placed before the first range that does not start below it.
pub open spec fn insert_by_start(x: (usize, usize), ranges: Seq<(usize, usize)>) -> Seq<
    (usize, usize),
>
    decreases ranges.len(),
{
    if ranges.len() == 0 {
        seq![x]
    } else if x.0 <= ranges[0].0 {
        seq![x] + ranges
    } else {
        seq![ranges[0]] + insert_by_start(x, ranges.skip(1))
    }
}

/// The ranges reordered by start, via insertion.
pub open spec fn sort_by_start(ranges: Seq<(usize, usize)>) -> Seq<(usize, usize)>
    decreases ranges.len(),
{
    if ranges.len() == 0 {
        Seq::empty()
    } else {
        insert_by_start(ranges.last(), sort_by_start(ranges.drop_last()))
    }
}

/// Inserting at the first position whose start is not below `x`'s is
/// what `insert_by_start` does.
proof fn lemma_insert_by_start_at(x: (usize, usize), ranges: Seq<(usize, usize)>, i: int)
    requires
        0 <= i <= ranges.len(),
        forall|k: int| 0 <= k < i ==> (#[trigger] ranges[k]).0 < x.0,
        i < ranges.len() ==> x.0 <= ranges[i].0,
    ensures
        insert_by_start(x, ranges) == ranges.take(i) + seq![x] + ranges.skip(i),
    decreases ranges.len(),
{
    if ranges.len() == 0 {
        assert(insert_by_start(x, ranges) =~= ranges.take(i) + seq![x] + ranges.skip(i));
    } else if x.0 <= ranges[0].0 {
        assert(i == 0);
        assert(insert_by_start(x, ranges) =~= ranges.take(0) + seq![x] + ranges.skip(0));
    } else {
        lemma_insert_by_start_at(x, ranges.skip(1), i - 1);
        assert(ranges.skip(1).take(i - 1) =~= ranges.take(i).skip(1));
        assert(ranges.skip(1).skip(i - 1) =~= ranges.skip(i));
        assert(seq![ranges[0]] + insert_by_start(x, ranges.skip(1)) =~= ranges.take(i)
            + seq![x] + ranges.skip(i));
    }
}

/// Sorts the ranges by start, keeping equal starts in their first-seen
/// order.
fn sort_ranges(ranges: &Vec<(usize, usize)>) -> (r: Vec<(usize, usize)>)
    ensures
        r@ == sort_by_start(ranges@),
{
    let mut out: Vec<(usize, usize)> = Vec::new();
    let n = ranges.len();
    let mut j: usize = 0;
    proof {
        assert(out@ =~= sort_by_start(ranges@.take(0)));
    }
    while j < n
        invariant
            0 <= j <= n,
            n == ranges@.len(),
            out@ == sort_by_start(ranges@.take(j as int)),
        decreases n - j,
    {
        let x = ranges[j];
        let m = out.len();
        let mut i: usize = 0;
        while i < m && x.0 > out[i].0
            invariant
                0 <= i <= m,
                m == out@.len(),
                forall|k: int| 0 <= k < i ==> (#[trigger] out@[k]).0 < x.0,
            decreases m - i,
        {
            i = i + 1;
        }
        proof {
            lemma_insert_by_start_at(x, out@, i as int);
            let t = ranges@.take(j as int + 1);
            assert(t.drop_last() =~= ranges@.take(j as int));
            assert(t.last() == ranges@[j as int]);
        }
        out.insert(i, x);
        proof {
            assert(out@ =~= sort_by_start(ranges@.take(j as int + 1)));
        }
        j = j + 1;
    }
    proof {
        assert(ranges@.take(n as int) =~= ranges@);
    }
    out
}

/// The display form of ranges: "a-b,c-d,...".
pub open spec fn ranges_info(ranges: Seq<(usize, usize)>) -> Seq<char>
    decreases ranges.len(),
{
    if ranges.len() == 0 {
        Seq::empty()
    } else if ranges.len() == 1 {
        dec_digits(ranges[0].0 as nat) + "-"@ + dec_digits(ranges[0].1 as nat)
    } else {
        ranges_info(ranges.drop_last()) + ","@ + dec_digits(ranges.last().0 as nat) + "-"@
            + dec_digits(ranges.last().1 as nat)
    }
}

impl SlotRangeArray {
    /// Whether the slot of `key` lies in one of the ranges. Agrees
    /// with the brute-force test against every range.
    pub fn is_key_inside(&self, key: &[u8]) -> (r: bool)
        ensures
            r == in_ranges(self.ranges@, slot_of(key@)),
    {
        let slot = crate::slot::get_slot(key);
        let n = self.ranges.len();
        let mut i: usize = 0;
        while i < n
            invariant
                0 <= i <= n,
                n == self.ranges@.len(),
                slot as int == slot_of(key@),
                forall|k: int|
                    0 <= k < i ==> !((#[trigger] self.ranges@[k]).0 <= slot_of(key@)
                        && slot_of(key@) <= self.ranges@[k].1),
            decreases n - i,
        {
            let (start, end) = self.ranges[i];
            if slot >= start && slot <= end {
                return true;
            }
            i = i + 1;
        }
        false
    }

    /// The display form of the ranges, ordered by start:
    /// "a-b,c-d,...".
    pub fn info(&self) -> (s: String)
        ensures
            s@ == ranges_info(sort_by_start(self.ranges@)),
    {
        let sorted = sort_ranges(&self.ranges);
        let ghost rv = sort_by_start(self.ranges@);
        let mut s = String::new();
        let n = sorted.len();
        let mut i: usize = 0;
        proof {
            assert(rv.take(0) =~= Seq::<(usize, usize)>::empty());
        }
        while i < n
            invariant
                0 <= i <= n,
                n == sorted@.len(),
                sorted@ == rv,
                s@ == ranges_info(rv.take(i as int)),
            decreases n - i,
        {
            if i > 0 {
                s.append(",");
            }
            let (start, end) = sorted[i];
            let st = u64_to_string(start as u64);
            s.append(st.as_str());
            s.append("-");
            let en = u64_to_string(end as u64);
            s.append(en.as_str());
            proof {
                let t = rv.take(i as int + 1);
                assert(t.drop_last() =~= rv.take(i as int));
                assert(t.last() == rv[i as int]);
                if i == 0 {
                    assert(t.len() == 1);
                    assert(t[0] == rv[0]);
                    assert(s@ =~= ranges_info(t));
                } else {
                    assert(s@ =~= ranges_info(t));
                }
            }
            i = i + 1;
        }
        proof {
            assert(rv.take(n as int) =~= rv);
        }
        s
    }
}

/// One page of a cursor scan: the next cursor and the keys returned.
#[derive(Debug)]
pub struct ScanResponse {
    pub next_index: u64,
    pub keys: Vec<BinSafeStr>,
}

/// Reads a scan page out of a RESP reply: a two-element array of the
/// next cursor (a decimal string) and the array of keys.
pub open spec fn parse_scan_spec(r: Resp) -> Option<(nat, Seq<Seq<u8>>)> {
    match r {
        Resp::Arr(crate::protocol::Array::Arr(resps)) => if resps@.len() >= 2 {
            match elem_bytes(resps@[0]) {
                Option::Some(bs) => match utf8_decode(bs) {
                    Option::Some(text) => if parses_u64(text) {
                        match resp_bytes(resps@[1]) {
                            Option::Some(keys) => Option::Some((dec_value(text), keys)),
                            Option::None => Option::None,
                        }
                    } else {
                        Option::None
                    },
                    Option::None => Option::None,
                },
                Option::None => Option::None,
            }
        } else {
            Option::None
        },
        _ => Option::None,
    }
}

impl ScanResponse {
    /// Parses a scan reply into the next cursor and the page of keys.
    pub fn parse_scan(resp: Resp) -> (r: Option<ScanResponse>)
        ensures
            r is Some <==> parse_scan_spec(resp) is Some,
            r is Some ==> {
                let (idx, keys) = parse_scan_spec(resp)->0;
                r->0.next_index as nat == idx && r->0.keys@.map_values(|b: BinSafeStr| b@)
                    == keys
            },
    {
        match resp {
            Resp::Arr(crate::protocol::Array::Arr(resps)) => {
                if resps.len() < 2 {
                    return None;
                }
                let index_data: Vec<u8> = match &resps[0] {
                    Resp::Bulk(crate::protocol::BulkStr::Str(s)) => s.clone(),
                    Resp::Simple(s) => s.clone(),
                    _ => {
                        return None;
                    },
                };
                let text = match crate::utils::decode_utf8(&index_data) {
                    Some(t) => t,
                    None => {
                        return None;
                    },
                };
                let next_index = match parse_u64(text.as_str()) {
                    Some(v) => v,
                    None => {
                        return None;
                    },
                };
                let keys = match get_resp_bytes(&resps[1]) {
                    Some(k) => k,
                    None => {
                        return None;
                    },
                };
                Some(ScanResponse { next_index, keys })
            },
            _ => None,
        }
    }
}

} // verus!
