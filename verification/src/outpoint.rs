use crate::endian::{
    lemma_u32_le_round_trip, spec_u32_le_bytes, spec_u32_of_le_bytes, u32_le_bytes,
    u32_of_le_bytes,
};
use crate::error::BitcoinError;
use crate::txid::Txid;
use vstd::prelude::*;
use vstd::slice::slice_subrange;

verus! {

/// Reference to a prior transaction's output: identifier plus output index.
/// Fixed 36-byte wire size: the 32 raw identifier bytes, then the 4-byte
/// little-endian index.
#[derive(Debug, Clone, PartialEq, Eq)]
pub struct OutPoint {
    pub txid: Txid,
    pub vout: u32,
}

/// Specification-level value of an `OutPoint`.
#[verifier::ext_equal]
pub ghost struct OutPointV {
    pub txid: Seq<u8>,
    pub vout: u32,
}

impl OutPointV {
    /// Well-formed: the identifier holds exactly 32 bytes, as every
    /// executable `OutPoint` does by construction.
    pub open spec fn wf(self) -> bool {
        self.txid.len() == 32
    }
}

impl View for OutPoint {
    type V = OutPointV;

    open spec fn view(&self) -> OutPointV {
        OutPointV { txid: self.txid@, vout: self.vout }
    }
}

/// The 36 wire bytes of `v`.
pub open spec fn spec_outpoint_ser(v: OutPointV) -> Seq<u8> {
    v.txid + spec_u32_le_bytes(v.vout)
}

/// The outpoint and consumed count read off the front of `b`, or `None`
/// when fewer than 36 bytes remain.
pub open spec fn spec_outpoint_parse(b: Seq<u8>) -> Option<(OutPointV, int)> {
    if b.len() >= 36 {
        Some(
            (
                OutPointV {
                    txid: b.subrange(0, 32),
                    vout: spec_u32_of_le_bytes(b.subrange(32, 36)),
                },
                36,
            ),
        )
    } else {
        None
    }
}

impl OutPoint {
    pub fn new(txid: [u8; 32], vout: u32) -> (r: Self)
        ensures
            r@.txid == txid@,
            r@.vout == vout,
    {
        OutPoint { txid: Txid(txid), vout }
    }

    pub fn to_bytes(&self) -> (r: Vec<u8>)
        ensures
            r@ == spec_outpoint_ser(self@),
            r@.len() == 36,
    {
        let mut res: Vec<u8> = Vec::new();
        res.extend_from_slice(self.txid.0.as_slice());
        let mut tail = u32_le_bytes(self.vout);
        res.append(&mut tail);
        proof {
            assert(res@ =~= spec_outpoint_ser(self@));
        }
        res
    }

    /// Split deterministically at byte 32; fewer than 36 bytes is an
    /// insufficient-input failure.
    pub fn from_bytes(bytes: &[u8]) -> (r: Result<(Self, usize), BitcoinError>)
        ensures
            match r {
                Ok((op, n)) => {
                    &&& spec_outpoint_parse(bytes@) == Some((op@, n as int))
                    &&& n <= bytes@.len()
                },
                Err(e) => {
                    &&& spec_outpoint_parse(bytes@) is None
                    &&& e == BitcoinError::InsufficientBytes
                },
            },
    {
        if bytes.len() < 36 {
            return Err(BitcoinError::InsufficientBytes);
        }
        let txid = Txid::from_slice(slice_subrange(bytes, 0, 32));
        let vout = u32_of_le_bytes(slice_subrange(bytes, 32, 36));
        let op = OutPoint { txid, vout };
        proof {
            assert(op@ =~= spec_outpoint_parse(bytes@).unwrap().0);
        }
        Ok((op, 36))
    }
}

/// Round-trip law: parsing the 36-byte encoding of a well-formed outpoint,
/// with any suffix behind it, yields the outpoint again and consumes 36
/// bytes.
pub proof fn lemma_outpoint_parse_ser(v: OutPointV, s: Seq<u8>)
    requires
        v.wf(),
    ensures
        spec_outpoint_ser(v).len() == 36,
        spec_outpoint_parse(spec_outpoint_ser(v) + s) == Some((v, 36int)),
{
    let b = spec_outpoint_ser(v) + s;
    assert(b.subrange(0, 32) =~= v.txid);
    assert(b.subrange(32, 36) =~= spec_u32_le_bytes(v.vout));
    lemma_u32_le_round_trip(v.vout);
    assert(spec_outpoint_parse(b).unwrap().0 =~= v);
}

/// Truncation law: any strict prefix of an outpoint encoding fails to parse.
pub proof fn lemma_outpoint_truncation(v: OutPointV, k: int)
    requires
        v.wf(),
        0 <= k < spec_outpoint_ser(v).len(),
    ensures
        spec_outpoint_parse(spec_outpoint_ser(v).subrange(0, k)) is None,
{
}

} // verus!
