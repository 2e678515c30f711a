use crate::compact_size::{lemma_varint_parse_ser, lemma_varint_truncation, spec_varint_parse, spec_varint_ser, CompactSize};
use crate::error::BitcoinError;
use vstd::prelude::*;
use vstd::slice::{slice_subrange, slice_to_vec};

verus! {

/// An opaque byte payload attached to an input. Serialized as
/// CompactSize(length) followed by the raw bytes; the payload itself passes
/// through untransformed, and the `bytes` field gives read access to it.
#[derive(Debug, Clone, PartialEq, Eq)]
pub struct Script {
    pub bytes: Vec<u8>,
}

impl View for Script {
    type V = Seq<u8>;

    open spec fn view(&self) -> Seq<u8> {
        self.bytes@
    }
}

/// The wire bytes of a script body `s`: its length as a CompactSize, then
/// `s` verbatim.
pub open spec fn spec_script_ser(s: Seq<u8>) -> Seq<u8> {
    spec_varint_ser(s.len() as u64) + s
}

/// The script body and consumed count read off the front of `b`, or `None`
/// when the length prefix or the counted payload is cut short.
pub open spec fn spec_script_parse(b: Seq<u8>) -> Option<(Seq<u8>, int)> {
    match spec_varint_parse(b) {
        None => None,
        Some((l, n)) => {
            if n + l <= b.len() {
                Some((b.subrange(n, n + l), n + l))
            } else {
                None
            }
        },
    }
}

impl Script {
    pub fn new(bytes: Vec<u8>) -> (r: Self)
        ensures
            r@ == bytes@,
    {
        Script { bytes }
    }

    pub fn to_bytes(&self) -> (r: Vec<u8>)
        ensures
            r@ == spec_script_ser(self@),
    {
        let len = CompactSize::new(self.bytes.len() as u64);
        let mut res = len.to_bytes();
        res.extend_from_slice(self.bytes.as_slice());
        proof {
            assert(res@ =~= spec_script_ser(self@));
        }
        res
    }

    /// Decode a CompactSize length, then require that many payload bytes to
    /// remain; slice them out verbatim.
    pub fn from_bytes(bytes: &[u8]) -> (r: Result<(Self, usize), BitcoinError>)
        ensures
            match r {
                Ok((sc, n)) => {
                    &&& spec_script_parse(bytes@) == Some((sc@, n as int))
                    &&& n <= bytes@.len()
                },
                Err(e) => {
                    &&& spec_script_parse(bytes@) is None
                    &&& e == BitcoinError::InsufficientBytes
                },
            },
    {
        let (cs, used) = match CompactSize::from_bytes(bytes) {
            Ok(p) => p,
            Err(e) => {
                return Err(e);
            },
        };
        if cs.value > (bytes.len() - used) as u64 {
            return Err(BitcoinError::InsufficientBytes);
        }
        let len = cs.value as usize;
        let body = slice_to_vec(slice_subrange(bytes, used, used + len));
        let sc = Script { bytes: body };
        proof {
            assert(sc@ =~= spec_script_parse(bytes@).unwrap().0);
        }
        Ok((sc, used + len))
    }
}

/// Round-trip law: parsing the encoding of a script body, with any suffix
/// behind it, yields the body again and consumes the encoding's length.
pub proof fn lemma_script_parse_ser(s: Seq<u8>, t: Seq<u8>)
    requires
        s.len() <= u64::MAX,
    ensures
        spec_script_parse(spec_script_ser(s) + t) == Some(
            (s, spec_script_ser(s).len() as int),
        ),
{
    let l = s.len() as u64;
    let b = spec_script_ser(s) + t;
    let n = spec_varint_ser(l).len() as int;
    lemma_varint_parse_ser(l, s + t);
    assert(b =~= spec_varint_ser(l) + (s + t));
    assert(b.subrange(n, n + s.len() as int) =~= s);
}

/// Truncation law: any strict prefix of a script encoding fails to parse.
pub proof fn lemma_script_truncation(s: Seq<u8>, k: int)
    requires
        s.len() <= u64::MAX,
        0 <= k < spec_script_ser(s).len(),
    ensures
        spec_script_parse(spec_script_ser(s).subrange(0, k)) is None,
{
    let l = s.len() as u64;
    let e = spec_varint_ser(l);
    let b = spec_script_ser(s).subrange(0, k);
    if k < e.len() {
        lemma_varint_truncation(l, k);
        assert(b =~= e.subrange(0, k));
    } else {
        let cut = s.subrange(0, k - e.len());
        lemma_varint_parse_ser(l, cut);
        assert(b =~= e + cut);
    }
}

} // verus!
