//! A minimal model of RESP values as they appear on the wire.
//!
//! Only the shape matters here: the broker and the migration tasks
//! inspect replies (simple strings, errors, bulk strings, arrays) and
//! pull byte strings out of arrays. Parsing bytes into these trees is
//! the transport layer's business and stays outside this crate.

use vstd::prelude::*;
use crate::utils::{decode_utf8, utf8_decode};

verus! {

/// A binary-safe string: RESP payloads need not be valid UTF-8.
pub type BinSafeStr = Vec<u8>;

/// A RESP bulk string, possibly nil.
#[derive(Debug)]
pub enum BulkStr {
    Str(BinSafeStr),
    Nil,
}

/// A RESP array, possibly nil.
#[derive(Debug)]
pub enum Array {
    Arr(Vec<Resp>),
    Nil,
}

/// A RESP value.
#[derive(Debug)]
pub enum Resp {
    Error(BinSafeStr),
    Simple(BinSafeStr),
    Integer(BinSafeStr),
    Bulk(BulkStr),
    Arr(Array),
}

/// The byte payload of one array element, when the element is a
/// non-nil bulk or simple string.
pub open spec fn elem_bytes(r: Resp) -> Option<Seq<u8>> {
    match r {
        Resp::Bulk(BulkStr::Str(b)) => Option::Some(b@),
        Resp::Simple(b) => Option::Some(b@),
        _ => Option::None,
    }
}

/// The byte payloads of a sequence of string-like elements; `None`
/// when some element is not a string.
pub open spec fn elems_bytes(es: Seq<Resp>) -> Option<Seq<Seq<u8>>>
    decreases es.len(),
{
    if es.len() == 0 {
        Option::Some(Seq::empty())
    } else {
        match (elems_bytes(es.drop_last()), elem_bytes(es.last())) {
            (Option::Some(bs), Option::Some(b)) => Option::Some(bs.push(b)),
            _ => Option::None,
        }
    }
}

/// The byte payloads of an array of string-like elements; `None` when
/// the value is not such an array.
pub open spec fn resp_bytes(r: Resp) -> Option<Seq<Seq<u8>>> {
    match r {
        Resp::Arr(Array::Arr(elems)) => elems_bytes(elems@),
        _ => Option::None,
    }
}

/// The UTF-8 decodings of a sequence of byte strings; `None` when some
/// element is not valid UTF-8.
pub open spec fn texts_of(bs: Seq<Seq<u8>>) -> Option<Seq<Seq<char>>>
    decreases bs.len(),
{
    if bs.len() == 0 {
        Option::Some(Seq::empty())
    } else {
        match (texts_of(bs.drop_last()), utf8_decode(bs.last())) {
            (Option::Some(ts), Option::Some(t)) => Option::Some(ts.push(t)),
            _ => Option::None,
        }
    }
}

/// The decoded text payloads of an array of string-like elements.
pub open spec fn resp_strings(r: Resp) -> Option<Seq<Seq<char>>> {
    match resp_bytes(r) {
        Option::None => Option::None,
        Option::Some(bs) => texts_of(bs),
    }
}

/// An element without a byte payload makes the whole sequence fail.
proof fn lemma_elems_bytes_none(es: Seq<Resp>, i: int)
    requires
        0 <= i < es.len(),
        elem_bytes(es[i]) is None,
    ensures
        elems_bytes(es) is None,
    decreases es.len(),
{
    if i == es.len() - 1 {
        assert(es.last() == es[i]);
    } else {
        lemma_elems_bytes_none(es.drop_last(), i);
    }
}

/// A byte string that is not UTF-8 makes the whole sequence fail.
proof fn lemma_texts_of_none(bs: Seq<Seq<u8>>, i: int)
    requires
        0 <= i < bs.len(),
        utf8_decode(bs[i]) is None,
    ensures
        texts_of(bs) is None,
    decreases bs.len(),
{
    if i == bs.len() - 1 {
        assert(bs.last() == bs[i]);
    } else {
        lemma_texts_of_none(bs.drop_last(), i);
    }
}

/// Copies a byte string.
pub fn dup_bytes(v: &Vec<u8>) -> (r: Vec<u8>)
    ensures
        r@ == v@,
{
    let mut r: Vec<u8> = Vec::new();
    let n = v.len();
    let mut i: usize = 0;
    while i < n
        invariant
            0 <= i <= n,
            n == v@.len(),
            r@ =~= v@.take(i as int),
        decreases n - i,
    {
        r.push(v[i]);
        i = i + 1;
    }
    proof {
        assert(v@.take(n as int) =~= v@);
    }
    r
}

/// Extracts the byte strings of a RESP array of bulk or simple strings.
pub fn get_resp_bytes(resp: &Resp) -> (r: Option<Vec<BinSafeStr>>)
    ensures
        r is Some <==> resp_bytes(*resp) is Some,
        r is Some ==> Option::Some(r->0@.map_values(|b: BinSafeStr| b@)) == resp_bytes(*resp),
{
    match resp {
        Resp::Arr(Array::Arr(elems)) => {
            let ghost es = elems@;
            let mut out: Vec<BinSafeStr> = Vec::new();
            let n = elems.len();
            let mut i: usize = 0;
            proof {
                assert(es.take(0) =~= Seq::<Resp>::empty());
            }
            while i < n
                invariant
                    0 <= i <= n,
                    n == es.len(),
                    es == elems@,
                    resp_bytes(*resp) == elems_bytes(es),
                    elems_bytes(es.take(i as int)) == Option::Some(
                        out@.map_values(|b: BinSafeStr| b@),
                    ),
                decreases n - i,
            {
                let b: BinSafeStr = match &elems[i] {
                    Resp::Bulk(BulkStr::Str(b)) => b.clone(),
                    Resp::Simple(b) => b.clone(),
                    _ => {
                        proof {
                            assert(elem_bytes(es[i as int]) is None);
                            lemma_elems_bytes_none(es, i as int);
                        }
                        return None;
                    },
                };
                proof {
                    let t = es.take(i as int + 1);
                    assert(t.drop_last() =~= es.take(i as int));
                    assert(t.last() == es[i as int]);
                    assert(out@.push(b).map_values(|x: BinSafeStr| x@) =~= out@.map_values(
                        |x: BinSafeStr| x@,
                    ).push(b@));
                }
                out.push(b);
                i = i + 1;
            }
            proof {
                assert(es.take(n as int) =~= es);
            }
            Some(out)
        },
        _ => None,
    }
}

/// Extracts the text payloads of a RESP array of bulk or simple
/// strings, decoding each as UTF-8.
pub fn get_resp_strings(resp: &Resp) -> (r: Option<Vec<String>>)
    ensures
        r is Some <==> resp_strings(*resp) is Some,
        r is Some ==> Option::Some(r->0@.map_values(|s: String| s@)) == resp_strings(*resp),
{
    let bytes = match get_resp_bytes(resp) {
        Some(b) => b,
        None => {
            return None;
        },
    };
    let ghost bs = resp_bytes(*resp)->0;
    proof {
        assert(bytes@.map_values(|b: BinSafeStr| b@) == bs);
        assert(bs.take(0) =~= Seq::<Seq<u8>>::empty());
    }
    let mut out: Vec<String> = Vec::new();
    let n = bytes.len();
    let mut i: usize = 0;
    while i < n
        invariant
            0 <= i <= n,
            n == bytes@.len(),
            bs.len() == n,
            bytes@.map_values(|b: BinSafeStr| b@) == bs,
            resp_strings(*resp) == texts_of(bs),
            texts_of(bs.take(i as int)) == Option::Some(out@.map_values(|s: String| s@)),
        decreases n - i,
    {
        proof {
            assert(bytes@.map_values(|b: BinSafeStr| b@)[i as int] == bs[i as int]);
        }
        let s = match decode_utf8(&bytes[i]) {
            Some(s) => s,
            None => {
                proof {
                    lemma_texts_of_none(bs, i as int);
                }
                return None;
            },
        };
        proof {
            let t = bs.take(i as int + 1);
            assert(t.drop_last() =~= bs.take(i as int));
            assert(t.last() == bs[i as int]);
            assert(out@.push(s).map_values(|x: String| x@) =~= out@.map_values(
                |x: String| x@,
            ).push(s@));
        }
        out.push(s);
        i = i + 1;
    }
    proof {
        assert(bs.take(n as int) =~= bs);
    }
    Some(out)
}

} // verus!
