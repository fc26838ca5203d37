//! The scan engine's decision core: walking the source node's keyspace
//! cursor and selecting the keys that belong to the migrating ranges.
//!
//! The producer issues cursor scans against the source node and hands
//! the selected keys to the consumer, which restores them on the
//! destination; both ends and their channel live with the runtime.
//! What is checked here is the part that decides: which keys of a scan
//! page are forwarded, how the cursor advances, and when the scan is
//! complete — the cursor reporting zero ends it.

use vstd::prelude::*;
use crate::migration::{MigrationError, ScanResponse, SlotRangeArray, in_ranges};
use crate::protocol::{BinSafeStr, dup_bytes};
use crate::slot::slot_of;

verus! {

/// The producer's cursor state over the source node.
#[derive(Debug)]
pub struct ScanProducer {
    pub ranges: SlotRangeArray,
    pub cursor: u64,
    pub finished: bool,
    pub start_token: bool,
}

impl ScanProducer {
    /// A fresh scan over the given ranges, starting at cursor zero,
    /// not yet started, not yet finished.
    pub fn new(ranges: SlotRangeArray) -> (r: ScanProducer)
        ensures
            r.ranges.ranges@ == ranges.ranges@,
            r.cursor == 0,
            !r.finished,
            r.start_token,
    {
        ScanProducer { ranges, cursor: 0, finished: false, start_token: true }
    }

    /// Claims the right to run the scan. The scan is not restartable:
    /// a second call fails with `AlreadyStarted`, and an aborted scan
    /// must be replaced by a fresh migration.
    pub fn start(&mut self) -> (r: Result<(), MigrationError>)
        ensures
            old(self).start_token ==> r is Ok && *final(self) == (ScanProducer {
                start_token: false,
                ..*old(self)
            }),
            !old(self).start_token ==> (r matches Result::Err(MigrationError::AlreadyStarted))
                && *final(self) == *old(self),
    {
        if self.start_token {
            self.start_token = false;
            Ok(())
        } else {
            Err(MigrationError::AlreadyStarted)
        }
    }

    /// Digests one scan page: keeps exactly the keys whose slots fall
    /// in the migrating ranges, advances the cursor, and finishes when
    /// the node reports cursor zero.
    pub fn handle_scan_response(&mut self, resp: ScanResponse) -> (selected: Vec<BinSafeStr>)
        requires
            !old(self).start_token,
        ensures
            final(self).ranges.ranges@ == old(self).ranges.ranges@,
            final(self).start_token == old(self).start_token,
            final(self).cursor == resp.next_index,
            final(self).finished == (resp.next_index == 0),
            selected@.map_values(|b: BinSafeStr| b@) == resp.keys@.map_values(
                |b: BinSafeStr| b@,
            ).filter(|k: Seq<u8>| in_ranges(old(self).ranges.ranges@, slot_of(k))),
    {
        let ghost rv = self.ranges.ranges@;
        let ghost kv = resp.keys@.map_values(|b: BinSafeStr| b@);
        let mut selected: Vec<BinSafeStr> = Vec::new();
        let keys = resp.keys;
        let n = keys.len();
        let mut i: usize = 0;
        proof {
            assert(kv.take(0).filter(|k: Seq<u8>| in_ranges(rv, slot_of(k)))
                =~= Seq::<Seq<u8>>::empty());
        }
        while i < n
            invariant
                0 <= i <= n,
                n == keys@.len(),
                kv == keys@.map_values(|b: BinSafeStr| b@),
                kv.len() == n,
                rv == self.ranges.ranges@,
                self.cursor == old(self).cursor,
                self.finished == old(self).finished,
                self.start_token == old(self).start_token,
                self.ranges.ranges@ == old(self).ranges.ranges@,
                selected@.map_values(|b: BinSafeStr| b@) == kv.take(i as int).filter(
                    |k: Seq<u8>| in_ranges(rv, slot_of(k)),
                ),
            decreases n - i,
        {
            proof {
                assert(kv[i as int] == keys@[i as int]@);
                let t = kv.take(i as int + 1);
                assert(t.drop_last() =~= kv.take(i as int));
                assert(t.last() == kv[i as int]);
                reveal(Seq::filter);
            }
            let inside = self.ranges.is_key_inside(keys[i].as_slice());
            if inside {
                let key = dup_bytes(&keys[i]);
                selected.push(key);
                proof {
                    assert(selected@.map_values(|b: BinSafeStr| b@) =~= kv.take(
                        i as int + 1,
                    ).filter(|k: Seq<u8>| in_ranges(rv, slot_of(k))));
                }
            } else {
                proof {
                    assert(selected@.map_values(|b: BinSafeStr| b@) =~= kv.take(
                        i as int + 1,
                    ).filter(|k: Seq<u8>| in_ranges(rv, slot_of(k))));
                }
            }
            i = i + 1;
        }
        proof {
            assert(kv.take(n as int) =~= kv);
        }
        self.cursor = resp.next_index;
        self.finished = resp.next_index == 0;
        selected
    }
}

} // verus!
