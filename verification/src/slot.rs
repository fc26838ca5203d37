//! The keyspace hash: 16,384 slots, CRC16 over the key or its hash-tag.
//!
//! A key maps to a slot by hashing it with the CCITT (XModem) CRC16 —
//! polynomial 0x1021, initial value 0 — and reducing modulo the slot
//! count. When the key carries a hash-tag `{...}` with non-empty tag
//! text, only the tag text is hashed, so that keys sharing a tag land
//! in the same slot.

use vstd::prelude::*;

verus! {

/// Number of slots the keyspace is partitioned into.
pub const SLOT_COUNT: usize = 16384;

/// One shift-and-reduce round of the CRC16 computation.
pub open spec fn crc16_round(c: u16) -> u16 {
    if c & 0x8000 == 0x8000 {
        (c << 1) ^ 0x1021
    } else {
        c << 1
    }
}

/// `k` successive CRC16 rounds.
pub open spec fn crc16_rounds(c: u16, k: nat) -> u16
    decreases k,
{
    if k == 0 {
        c
    } else {
        crc16_rounds(crc16_round(c), (k - 1) as nat)
    }
}

/// Folds one byte into the CRC16 state.
pub open spec fn crc16_step(c: u16, b: u8) -> u16 {
    crc16_rounds(c ^ ((b as u16) << 8), 8)
}

/// The CCITT CRC16 of a byte string, starting from 0.
pub open spec fn crc16(bytes: Seq<u8>) -> u16
    decreases bytes.len(),
{
    if bytes.len() == 0 {
        0
    } else {
        crc16_step(crc16(bytes.drop_last()), bytes.last())
    }
}

/// Index of the first occurrence of `b` in `s` at or after `i`.
pub open spec fn find_from(s: Seq<u8>, b: u8, i: nat) -> Option<nat>
    decreases s.len() - i,
{
    if i >= s.len() {
        None
    } else if s[i as int] == b {
        Some(i)
    } else {
        find_from(s, b, i + 1)
    }
}

/// The byte string actually hashed for `k`: the text of the first
/// hash-tag `{...}` when one exists and its text is non-empty,
/// otherwise the whole key.
pub open spec fn hashtag_of(k: Seq<u8>) -> Seq<u8> {
    match find_from(k, 123, 0) {
        Option::None => k,
        Option::Some(i) => match find_from(k, 125, i + 1) {
            Option::None => k,
            Option::Some(j) => if j > i + 1 {
                k.subrange(i as int + 1, j as int)
            } else {
                k
            },
        },
    }
}

/// The slot of a key.
pub open spec fn slot_of(k: Seq<u8>) -> int {
    crc16(hashtag_of(k)) as int % (SLOT_COUNT as int)
}

fn find_byte(s: &[u8], b: u8, from: usize) -> (r: Option<usize>)
    requires
        from <= s@.len(),
    ensures
        match r {
            Option::Some(i) => find_from(s@, b, from as nat) == Option::Some(i as nat) && i
                < s@.len(),
            Option::None => find_from(s@, b, from as nat) is None,
        },
{
    let len = s.len();
    let mut i: usize = from;
    while i < len
        invariant
            from <= i <= len,
            len == s@.len(),
            find_from(s@, b, from as nat) == find_from(s@, b, i as nat),
        decreases len - i,
    {
        if s[i] == b {
            return Some(i);
        }
        i = i + 1;
    }
    None
}

fn crc16_exec(bytes: &[u8], start: usize, end: usize) -> (c: u16)
    requires
        start <= end <= bytes@.len(),
    ensures
        c == crc16(bytes@.subrange(start as int, end as int)),
{
    let mut c: u16 = 0;
    let mut i: usize = start;
    assert(bytes@.subrange(start as int, start as int) =~= Seq::<u8>::empty());
    while i < end
        invariant
            start <= i <= end <= bytes@.len(),
            c == crc16(bytes@.subrange(start as int, i as int)),
        decreases end - i,
    {
        let b = bytes[i];
        let mut acc: u16 = c ^ ((b as u16) << 8u16);
        let mut k: usize = 0;
        while k < 8
            invariant
                0 <= k <= 8,
                acc == crc16_rounds(c ^ ((b as u16) << 8u16), k as nat),
            decreases 8 - k,
        {
            proof {
                lemma_crc16_rounds_snoc(c ^ ((b as u16) << 8u16), k as nat);
            }
            if acc & 0x8000 == 0x8000 {
                acc = (acc << 1u16) ^ 0x1021;
            } else {
                acc = acc << 1u16;
            }
            k = k + 1;
        }
        proof {
            let pre = bytes@.subrange(start as int, i as int);
            let cur = bytes@.subrange(start as int, i as int + 1);
            assert(cur.drop_last() =~= pre);
            assert(cur.last() == bytes@[i as int]);
        }
        c = acc;
        i = i + 1;
    }
    c
}

/// Unrolling the round iteration from the outside or the inside agrees.
proof fn lemma_crc16_rounds_snoc(c: u16, k: nat)
    ensures
        crc16_rounds(c, k + 1) == crc16_round(crc16_rounds(c, k)),
    decreases k,
{
    if k == 0 {
        assert(crc16_rounds(c, 1) == crc16_rounds(crc16_round(c), 0));
        assert(crc16_rounds(crc16_round(c), 0) == crc16_round(c));
    } else {
        lemma_crc16_rounds_snoc(crc16_round(c), (k - 1) as nat);
        assert(crc16_rounds(c, k + 1) == crc16_rounds(crc16_round(c), k));
        assert(crc16_rounds(c, k) == crc16_rounds(crc16_round(c), (k - 1) as nat));
    }
}

/// The slot of `key`: CRC16 of the key or of its hash-tag text, modulo
/// the slot count.
pub fn get_slot(key: &[u8]) -> (s: usize)
    ensures
        s as int == slot_of(key@),
        s < SLOT_COUNT,
{
    let len = key.len();
    let (start, end): (usize, usize) = match find_byte(key, 123, 0) {
        Option::None => (0, len),
        Option::Some(i) => match find_byte(key, 125, i + 1) {
            Option::None => (0, len),
            Option::Some(j) => if j > i + 1 {
                (i + 1, j)
            } else {
                (0, len)
            },
        },
    };
    proof {
        if start == 0 && end == len {
            assert(key@.subrange(0, len as int) =~= key@);
        }
    }
    let c = crc16_exec(key, start, end);
    (c as usize) % SLOT_COUNT
}

} // verus!
