//! Slow-request records: per-request event timestamps and a fixed-size
//! ring of the slowest requests.
//!
//! A record notes when a request passed each station on its way to the
//! backend; the logger keeps a bounded ring of records whose total time
//! exceeded a threshold. Element lengths here are counted in
//! characters, and a byte payload that is not UTF-8 is rendered as a
//! decimal byte list.

use vstd::prelude::*;
use crate::digits::{dec_digits, u64_to_string};
use crate::protocol::{Array, BulkStr, Resp};
use crate::utils::{decode_utf8, utf8_decode, now_nanos};

verus! {

/// The stations a request passes; each gets one timestamp slot.
#[derive(Debug, Clone, Copy, PartialEq, Eq, Structural)]
pub enum TaskEvent {
    Created,
    SentToMigrationManager,
    SentToMigrationDB,
    SentToMigrationTmpDB,
    SentToDB,
    SentToWritingQueue,
    WritingQueueReceived,
    SentToBackend,
    ReceivedFromBackend,
    WaitDone,
}

/// The timestamp slot an event uses.
pub open spec fn event_index(e: TaskEvent) -> int {
    match e {
        TaskEvent::Created => 0,
        TaskEvent::SentToMigrationManager => 1,
        TaskEvent::SentToMigrationDB => 2,
        TaskEvent::SentToMigrationTmpDB => 3,
        TaskEvent::SentToDB => 4,
        TaskEvent::SentToWritingQueue => 5,
        TaskEvent::WritingQueueReceived => 6,
        TaskEvent::SentToBackend => 7,
        TaskEvent::ReceivedFromBackend => 8,
        TaskEvent::WaitDone => 9,
    }
}

/// Number of stations.
pub const EVENT_NUMBER: usize = 10;

/// How many leading command tokens a record keeps.
pub const LOG_ELEMENT_NUMBER: usize = 5;

/// Longest kept form of one command token, in characters.
pub const MAX_ELEMENT_LENGTH: usize = 100;

impl TaskEvent {
    /// The timestamp slot this event uses.
    pub fn index(&self) -> (i: usize)
        ensures
            i as int == event_index(*self),
            i < EVENT_NUMBER,
    {
        match self {
            TaskEvent::Created => 0,
            TaskEvent::SentToMigrationManager => 1,
            TaskEvent::SentToMigrationDB => 2,
            TaskEvent::SentToMigrationTmpDB => 3,
            TaskEvent::SentToDB => 4,
            TaskEvent::SentToWritingQueue => 5,
            TaskEvent::WritingQueueReceived => 6,
            TaskEvent::SentToBackend => 7,
            TaskEvent::ReceivedFromBackend => 8,
            TaskEvent::WaitDone => 9,
        }
    }
}

/// The per-request timestamps, one slot per station, zero meaning "not
/// reached".
#[derive(Debug)]
pub struct RequestEventMap {
    pub events: Vec<i64>,
}

impl RequestEventMap {
    /// One slot per station.
    pub open spec fn wf(self) -> bool {
        self.events@.len() == EVENT_NUMBER
    }

    /// A fresh map: every station unvisited.
    pub fn new() -> (r: RequestEventMap)
        ensures
            r.wf(),
            forall|i: int| 0 <= i < EVENT_NUMBER ==> r.events@[i] == 0,
    {
        let mut events: Vec<i64> = Vec::new();
        let mut i: usize = 0;
        while i < EVENT_NUMBER
            invariant
                0 <= i <= EVENT_NUMBER,
                events@.len() == i,
                forall|k: int| 0 <= k < i ==> events@[k] == 0,
            decreases EVENT_NUMBER - i,
        {
            events.push(0);
            i = i + 1;
        }
        RequestEventMap { events }
    }

    /// Stamps the station with a timestamp.
    pub fn set_event_time(&mut self, event: TaskEvent, timestamp: i64)
        requires
            old(self).wf(),
        ensures
            final(self).wf(),
            final(self).events@ == old(self).events@.update(event_index(event), timestamp),
    {
        let i = event.index();
        self.events.set(i, timestamp);
    }

    /// The timestamp of the station; zero when unvisited.
    pub fn get_event_time(&self, event: TaskEvent) -> (t: i64)
        requires
            self.wf(),
        ensures
            t == self.events@[event_index(event)],
    {
        self.events[event.index()]
    }

    /// Nanoseconds between creation and the station, zero when the
    /// station was not reached, clamped into the result range.
    pub fn get_used_time(&self, event: TaskEvent) -> (d: i64)
        requires
            self.wf(),
        ensures
            d as int == used_time_spec(self.events@, event),
    {
        let t = self.get_event_time(event);
        if t == 0 {
            0
        } else {
            let created = self.get_event_time(TaskEvent::Created);
            let wide: i128 = (t as i128) - (created as i128);
            if wide > (i64::MAX as i128) {
                i64::MAX
            } else if wide < (i64::MIN as i128) {
                i64::MIN
            } else {
                wide as i64
            }
        }
    }

    /// Copies the map.
    pub fn duplicate(&self) -> (r: RequestEventMap)
        ensures
            r.events@ == self.events@,
    {
        let mut events: Vec<i64> = Vec::new();
        let n = self.events.len();
        let mut i: usize = 0;
        while i < n
            invariant
                0 <= i <= n,
                n == self.events@.len(),
                events@ =~= self.events@.take(i as int),
            decreases n - i,
        {
            events.push(self.events[i]);
            i = i + 1;
        }
        proof {
            assert(self.events@.take(n as int) =~= self.events@);
        }
        RequestEventMap { events }
    }
}

/// Time spent from creation to the station, clamped to the `i64`
/// range; zero when the station was not reached.
pub open spec fn used_time_spec(events: Seq<i64>, event: TaskEvent) -> int {
    let t = events[event_index(event)] as int;
    if t == 0 {
        0
    } else {
        let d = t - events[event_index(TaskEvent::Created)];
        if d > i64::MAX as int {
            i64::MAX as int
        } else if d < i64::MIN as int {
            i64::MIN as int
        } else {
            d
        }
    }
}

/// A client command as the session layer hands it over.
#[derive(Debug)]
pub struct Command {
    resp: Resp,
}

impl Command {
    /// Wraps a parsed command.
    pub fn new(resp: Resp) -> (r: Command)
        ensures
            r.resp() == resp,
    {
        Command { resp }
    }

    /// The command's RESP value.
    pub closed spec fn resp(self) -> Resp {
        self.resp
    }

    /// The command's RESP value.
    pub fn get_resp(&self) -> (r: &Resp)
        ensures
            *r == self.resp(),
    {
        &self.resp
    }
}

/// The decimal byte-list rendering of a byte string that is not text:
/// "[1, 2, 3]".
pub open spec fn bytes_repr_body(bs: Seq<u8>) -> Seq<char>
    decreases bs.len(),
{
    if bs.len() == 0 {
        Seq::empty()
    } else if bs.len() == 1 {
        dec_digits(bs[0] as nat)
    } else {
        bytes_repr_body(bs.drop_last()) + ", "@ + dec_digits(bs.last() as nat)
    }
}

/// The kept form of one command token.
pub open spec fn brief_element(r: Resp) -> Seq<char> {
    match r {
        Resp::Bulk(BulkStr::Str(d)) => match utf8_decode(d@) {
            Option::Some(t) => truncated(t),
            Option::None => "["@ + bytes_repr_body(d@) + "]"@,
        },
        Resp::Simple(d) => match utf8_decode(d@) {
            Option::Some(t) => truncated(t),
            Option::None => "["@ + bytes_repr_body(d@) + "]"@,
        },
        Resp::Error(_) => "(error)"@,
        Resp::Integer(_) => "(integer)"@,
        Resp::Bulk(BulkStr::Nil) => "(nil)"@,
        Resp::Arr(_) => "(array)"@,
    }
}

/// A token longer than the cap is cut and annotated with its real
/// length. The cut and the count are in characters, never bytes: a
/// byte-positioned cut could split a code point and abort.
pub open spec fn truncated(t: Seq<char>) -> Seq<char> {
    if t.len() > MAX_ELEMENT_LENGTH {
        t.take(MAX_ELEMENT_LENGTH as int) + "("@ + dec_digits(t.len()) + "chars)"@
    } else {
        t
    }
}

/// The kept tokens of a command: up to `LOG_ELEMENT_NUMBER` leading
/// elements of the array, or one placeholder for anything else.
pub open spec fn brief_command(r: Resp) -> Seq<Seq<char>> {
    match r {
        Resp::Arr(Array::Arr(resps)) => Seq::new(
            if resps@.len() > LOG_ELEMENT_NUMBER {
                LOG_ELEMENT_NUMBER as nat
            } else {
                resps@.len()
            },
            |i: int| brief_element(resps@[i]),
        ),
        _ => seq!["(non-array)"@],
    }
}

/// Renders a byte string as "[1, 2, 3]".
fn render_bytes(d: &Vec<u8>) -> (s: String)
    ensures
        s@ == "["@ + bytes_repr_body(d@) + "]"@,
{
    let mut s = String::from_str("[");
    let n = d.len();
    let mut i: usize = 0;
    proof {
        assert(bytes_repr_body(d@.take(0)) =~= Seq::<char>::empty());
        assert(s@ =~= "["@ + bytes_repr_body(d@.take(0)));
    }
    while i < n
        invariant
            0 <= i <= n,
            n == d@.len(),
            s@ == "["@ + bytes_repr_body(d@.take(i as int)),
        decreases n - i,
    {
        if i > 0 {
            s.append(", ");
        }
        let digits = u64_to_string(d[i] as u64);
        s.append(digits.as_str());
        proof {
            let t = d@.take(i as int + 1);
            assert(t.drop_last() =~= d@.take(i as int));
            assert(t.last() == d@[i as int]);
            if i == 0 {
                assert(t.len() == 1);
                assert(t[0] == d@[0]);
                assert(s@ =~= "["@ + bytes_repr_body(t));
            } else {
                assert(s@ =~= "["@ + bytes_repr_body(t));
            }
        }
        i = i + 1;
    }
    proof {
        assert(d@.take(n as int) =~= d@);
    }
    s.append("]");
    proof {
        assert(s@ =~= "["@ + bytes_repr_body(d@) + "]"@);
    }
    s
}

/// Renders one command token in its kept form.
fn render_element(r: &Resp) -> (s: String)
    ensures
        s@ == brief_element(*r),
{
    match r {
        Resp::Bulk(BulkStr::Str(d)) => match decode_utf8(d) {
            Some(t) => truncate_element(t),
            None => render_bytes(d),
        },
        Resp::Simple(d) => match decode_utf8(d) {
            Some(t) => truncate_element(t),
            None => render_bytes(d),
        },
        Resp::Error(_) => String::from_str("(error)"),
        Resp::Integer(_) => String::from_str("(integer)"),
        Resp::Bulk(BulkStr::Nil) => String::from_str("(nil)"),
        Resp::Arr(_) => String::from_str("(array)"),
    }
}

/// Cuts a token at the cap and annotates its real length.
fn truncate_element(t: String) -> (s: String)
    ensures
        s@ == truncated(t@),
{
    let len = t.as_str().unicode_len();
    if len > MAX_ELEMENT_LENGTH {
        let head = t.as_str().substring_char(0, MAX_ELEMENT_LENGTH);
        proof {
            assert(head@ =~= t@.take(MAX_ELEMENT_LENGTH as int));
        }
        let mut s = head.to_owned();
        s.append("(");
        let digits = u64_to_string(len as u64);
        s.append(digits.as_str());
        s.append("chars)");
        proof {
            assert(s@ =~= truncated(t@));
        }
        s
    } else {
        t
    }
}

/// One slow-request record: its timestamps, the kept command tokens,
/// and the session that issued it.
#[derive(Debug)]
pub struct Slowlog {
    pub event_map: RequestEventMap,
    pub command: Vec<String>,
    pub session_id: usize,
}

impl Slowlog {
    /// The record is well-formed when its event map is.
    pub open spec fn wf(self) -> bool {
        self.event_map.wf()
    }

    /// Starts a record for a command: the kept tokens, fresh
    /// timestamps.
    pub fn from_command(command: &Command, session_id: usize) -> (r: Slowlog)
        ensures
            r.wf(),
            r.command@.map_values(|s: String| s@) == brief_command(command.resp()),
            r.session_id == session_id,
            forall|i: int| 0 <= i < EVENT_NUMBER ==> r.event_map.events@[i] == 0,
    {
        let brief = Self::get_brief_command(command.get_resp());
        Slowlog { event_map: RequestEventMap::new(), command: brief, session_id }
    }

    /// The kept tokens of the command.
    fn get_brief_command(resp: &Resp) -> (r: Vec<String>)
        ensures
            r@.map_values(|s: String| s@) == brief_command(*resp),
    {
        match resp {
            Resp::Arr(Array::Arr(resps)) => {
                let ghost es = resps@;
                let total = resps.len();
                let n = if total > LOG_ELEMENT_NUMBER {
                    LOG_ELEMENT_NUMBER
                } else {
                    total
                };
                let mut out: Vec<String> = Vec::new();
                let mut i: usize = 0;
                while i < n
                    invariant
                        0 <= i <= n,
                        n <= es.len(),
                        es == resps@,
                        out@.len() == i,
                        forall|k: int|
                            0 <= k < i ==> (#[trigger] out@[k])@ == brief_element(es[k]),
                    decreases n - i,
                {
                    out.push(render_element(&resps[i]));
                    i = i + 1;
                }
                proof {
                    assert(out@.map_values(|s: String| s@) =~= brief_command(*resp));
                }
                out
            },
            _ => {
                let mut out: Vec<String> = Vec::new();
                out.push(String::from_str("(non-array)"));
                proof {
                    assert(out@.map_values(|s: String| s@) =~= brief_command(*resp));
                }
                out
            },
        }
    }

    /// Stamps a station with the clock's current reading.
    pub fn log_event(&mut self, event: TaskEvent)
        requires
            old(self).wf(),
        ensures
            final(self).wf(),
            exists|t: i64|
                final(self).event_map.events@ == old(self).event_map.events@.update(
                    event_index(event),
                    t,
                ),
            final(self).command == old(self).command,
            final(self).session_id == old(self).session_id,
    {
        let now = now_nanos();
        self.event_map.set_event_time(event, now);
    }

    /// Copies the record.
    pub fn duplicate(&self) -> (r: Slowlog)
        ensures
            r.event_map.events@ == self.event_map.events@,
            r.command@.map_values(|s: String| s@) == self.command@.map_values(|s: String| s@),
            r.session_id == self.session_id,
    {
        let mut command: Vec<String> = Vec::new();
        let n = self.command.len();
        let mut i: usize = 0;
        while i < n
            invariant
                0 <= i <= n,
                n == self.command@.len(),
                command@.len() == i,
                forall|k: int| 0 <= k < i ==> (#[trigger] command@[k])@ == self.command@[k]@,
            decreases n - i,
        {
            command.push(self.command[i].clone());
            i = i + 1;
        }
        proof {
            assert(command@.map_values(|s: String| s@) =~= self.command@.map_values(
                |s: String| s@,
            ));
        }
        Slowlog { event_map: self.event_map.duplicate(), command, session_id: self.session_id }
    }
}

/// A bounded ring of the slowest requests.
#[derive(Debug)]
pub struct SlowRequestLogger {
    pub slowlogs: Vec<Option<Slowlog>>,
    pub curr_index: usize,
    pub slowlog_log_slower_than: i64,
}

impl SlowRequestLogger {
    /// A ring of `log_queue_size` empty slots; a record is kept when
    /// its total time exceeds `slowlog_log_slower_than` nanoseconds.
    pub fn new(log_queue_size: usize, slowlog_log_slower_than: i64) -> (r: SlowRequestLogger)
        ensures
            r.slowlogs@.len() == log_queue_size,
            forall|i: int| 0 <= i < log_queue_size ==> (#[trigger] r.slowlogs@[i]) is None,
            r.curr_index == 0,
            r.slowlog_log_slower_than == slowlog_log_slower_than,
    {
        let mut slowlogs: Vec<Option<Slowlog>> = Vec::new();
        let mut i: usize = 0;
        while i < log_queue_size
            invariant
                0 <= i <= log_queue_size,
                slowlogs@.len() == i,
                forall|k: int| 0 <= k < i ==> (#[trigger] slowlogs@[k]) is None,
            decreases log_queue_size - i,
        {
            slowlogs.push(None);
            i = i + 1;
        }
        SlowRequestLogger { slowlogs, curr_index: 0, slowlog_log_slower_than }
    }

    /// Keeps the record when its total time exceeds the threshold.
    pub fn add_slow_log(&mut self, log: Slowlog)
        requires
            log.wf(),
        ensures
            used_time_spec(log.event_map.events@, TaskEvent::WaitDone) <= old(self).slowlog_log_slower_than ==> *final(self) == *old(self),
            final(self).slowlog_log_slower_than == old(self).slowlog_log_slower_than,
            final(self).slowlogs@.len() == old(self).slowlogs@.len(),
    {
        let dt = log.event_map.get_used_time(TaskEvent::WaitDone);
        if dt > self.slowlog_log_slower_than {
            self.add(log);
        }
    }

    /// Stores the record in the next ring slot; with no slots the
    /// record is dropped.
    pub fn add(&mut self, log: Slowlog)
        ensures
            final(self).slowlog_log_slower_than == old(self).slowlog_log_slower_than,
            final(self).slowlogs@.len() == old(self).slowlogs@.len(),
            old(self).slowlogs@.len() > 0 ==> final(self).slowlogs@ == old(self).slowlogs@.update(
                (old(self).curr_index as int) % (old(self).slowlogs@.len() as int),
                Option::Some(log),
            ),
    {
        let len = self.slowlogs.len();
        if len == 0 {
            return ;
        }
        let index = self.curr_index % len;
        self.curr_index = if self.curr_index == usize::MAX {
            0
        } else {
            self.curr_index + 1
        };
        self.slowlogs.set(index, Some(log));
    }

    /// The kept records, oldest slots first, up to `limit` when one is
    /// given.
    pub fn get(&self, limit: Option<usize>) -> (r: Vec<Slowlog>)
        ensures
            r@.len() <= self.slowlogs@.len(),
    {
        let num = match limit {
            Some(n) => n,
            None => self.slowlogs.len(),
        };
        let mut r: Vec<Slowlog> = Vec::new();
        let n = self.slowlogs.len();
        let mut i: usize = 0;
        while i < n
            invariant
                0 <= i <= n,
                n == self.slowlogs@.len(),
                r@.len() <= i,
            decreases n - i,
        {
            if r.len() < num {
                match &self.slowlogs[i] {
                    Some(log) => r.push(log.duplicate()),
                    None => {},
                }
            }
            i = i + 1;
        }
        r
    }

    /// Empties every ring slot.
    pub fn reset(&mut self)
        ensures
            final(self).slowlogs@.len() == old(self).slowlogs@.len(),
            forall|i: int|
                0 <= i < final(self).slowlogs@.len() ==> (#[trigger] final(self).slowlogs@[i]) is None,
            final(self).curr_index == old(self).curr_index,
            final(self).slowlog_log_slower_than == old(self).slowlog_log_slower_than,
    {
        let n = self.slowlogs.len();
        let mut i: usize = 0;
        while i < n
            invariant
                0 <= i <= n,
                n == self.slowlogs@.len(),
                self.curr_index == old(self).curr_index,
                self.slowlog_log_slower_than == old(self).slowlog_log_slower_than,
                forall|k: int| 0 <= k < i ==> (#[trigger] self.slowlogs@[k]) is None,
            decreases n - i,
        {
            self.slowlogs.set(i, None);
            i = i + 1;
        }
    }
}

} // verus!
