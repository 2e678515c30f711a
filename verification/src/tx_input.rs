use crate::error::BitcoinError;
use crate::outpoint::{lemma_outpoint_parse_ser, spec_outpoint_parse, spec_outpoint_ser, OutPoint, OutPointV};
use crate::script::{lemma_script_parse_ser, lemma_script_truncation, spec_script_parse, spec_script_ser, Script};
use crate::endian::{
    lemma_u32_le_round_trip, spec_u32_le_bytes, spec_u32_of_le_bytes, u32_le_bytes,
    u32_of_le_bytes,
};
use vstd::prelude::*;
use vstd::slice::slice_subrange;

verus! {

/// A transaction input: the previous output it spends, its script, and a
/// 4-byte sequence number, serialized in that order.
#[derive(Debug, Clone, PartialEq, Eq)]
pub struct TransactionInput {
    pub previous_output: OutPoint,
    pub script_sig: Script,
    pub sequence: u32,
}

/// Specification-level value of a `TransactionInput`.
#[verifier::ext_equal]
pub ghost struct TransactionInputV {
    pub previous_output: OutPointV,
    pub script_sig: Seq<u8>,
    pub sequence: u32,
}

impl TransactionInputV {
    /// Well-formed: the outpoint is, and the script length fits the
    /// CompactSize range, as every executable input does by construction.
    pub open spec fn wf(self) -> bool {
        &&& self.previous_output.wf()
        &&& self.script_sig.len() <= u64::MAX
    }
}

impl View for TransactionInput {
    type V = TransactionInputV;

    open spec fn view(&self) -> TransactionInputV {
        TransactionInputV {
            previous_output: self.previous_output@,
            script_sig: self.script_sig@,
            sequence: self.sequence,
        }
    }
}

/// The wire bytes of `v`: outpoint, script, then the little-endian sequence
/// number.
pub open spec fn spec_input_ser(v: TransactionInputV) -> Seq<u8> {
    spec_outpoint_ser(v.previous_output) + spec_script_ser(v.script_sig) + spec_u32_le_bytes(
        v.sequence,
    )
}

/// The input and consumed count read off the front of `b`: an outpoint,
/// then a script from the bytes after it, then 4 more bytes; `None` as soon
/// as any piece is cut short.
pub open spec fn spec_input_parse(b: Seq<u8>) -> Option<(TransactionInputV, int)> {
    match spec_outpoint_parse(b) {
        None => None,
        Some((op, n1)) => match spec_script_parse(b.skip(n1)) {
            None => None,
            Some((sc, n2)) => {
                let end = n1 + n2;
                if end + 4 <= b.len() {
                    Some(
                        (
                            TransactionInputV {
                                previous_output: op,
                                script_sig: sc,
                                sequence: spec_u32_of_le_bytes(b.subrange(end, end + 4)),
                            },
                            end + 4,
                        ),
                    )
                } else {
                    None
                }
            },
        },
    }
}

impl TransactionInput {
    pub fn new(previous_output: OutPoint, script_sig: Script, sequence: u32) -> (r: Self)
        ensures
            r@.previous_output == previous_output@,
            r@.script_sig == script_sig@,
            r@.sequence == sequence,
    {
        TransactionInput { previous_output, script_sig, sequence }
    }

    pub fn to_bytes(&self) -> (r: Vec<u8>)
        ensures
            r@ == spec_input_ser(self@),
    {
        let mut res = self.previous_output.to_bytes();
        let mut sb = self.script_sig.to_bytes();
        res.append(&mut sb);
        let mut tail = u32_le_bytes(self.sequence);
        res.append(&mut tail);
        proof {
            assert(res@ =~= spec_input_ser(self@));
        }
        res
    }

    /// Decode the outpoint, then the script from a view starting at its end,
    /// then the sequence number; each step's offset comes only from the
    /// consumed counts the sub-decoders return.
    pub fn from_bytes(bytes: &[u8]) -> (r: Result<(Self, usize), BitcoinError>)
        ensures
            match r {
                Ok((inp, n)) => {
                    &&& spec_input_parse(bytes@) == Some((inp@, n as int))
                    &&& n <= bytes@.len()
                },
                Err(e) => {
                    &&& spec_input_parse(bytes@) is None
                    &&& e == BitcoinError::InsufficientBytes
                },
            },
    {
        let (outpoint, used1) = match OutPoint::from_bytes(bytes) {
            Ok(p) => p,
            Err(e) => {
                return Err(e);
            },
        };
        let rest = slice_subrange(bytes, used1, bytes.len());
        proof {
            assert(rest@ =~= bytes@.skip(used1 as int));
        }
        let (script, used2) = match Script::from_bytes(rest) {
            Ok(p) => p,
            Err(e) => {
                return Err(e);
            },
        };
        let end = used1 + used2;
        if bytes.len() - end < 4 {
            return Err(BitcoinError::InsufficientBytes);
        }
        let sequence = u32_of_le_bytes(slice_subrange(bytes, end, end + 4));
        let inp = TransactionInput { previous_output: outpoint, script_sig: script, sequence };
        proof {
            assert(inp@ =~= spec_input_parse(bytes@).unwrap().0);
        }
        Ok((inp, end + 4))
    }
}

/// Round-trip law: parsing the encoding of a well-formed input, with any
/// suffix behind it, yields the input again and consumes the encoding's
/// length.
pub proof fn lemma_input_parse_ser(v: TransactionInputV, s: Seq<u8>)
    requires
        v.wf(),
    ensures
        spec_input_parse(spec_input_ser(v) + s) == Some((v, spec_input_ser(v).len() as int)),
{
    let op = spec_outpoint_ser(v.previous_output);
    let sc = spec_script_ser(v.script_sig);
    let sq = spec_u32_le_bytes(v.sequence);
    let b = spec_input_ser(v) + s;
    lemma_u32_le_round_trip(v.sequence);
    lemma_outpoint_parse_ser(v.previous_output, sc + (sq + s));
    assert(b =~= op + (sc + (sq + s)));
    assert(b.skip(36) =~= sc + (sq + s));
    lemma_script_parse_ser(v.script_sig, sq + s);
    let end = 36 + sc.len() as int;
    assert(b.subrange(end, end + 4) =~= sq);
    assert(spec_input_parse(b).unwrap().0 =~= v);
}

/// Truncation law: any strict prefix of an input encoding fails to parse.
pub proof fn lemma_input_truncation(v: TransactionInputV, k: int)
    requires
        v.wf(),
        0 <= k < spec_input_ser(v).len(),
    ensures
        spec_input_parse(spec_input_ser(v).subrange(0, k)) is None,
{
    let op = spec_outpoint_ser(v.previous_output);
    let sc = spec_script_ser(v.script_sig);
    let sq = spec_u32_le_bytes(v.sequence);
    let b = spec_input_ser(v).subrange(0, k);
    lemma_outpoint_parse_ser(v.previous_output, sc + sq);
    if k >= 36 {
        let rest = b.skip(36);
        if k - 36 < sc.len() {
            assert(rest =~= sc.subrange(0, k - 36));
            lemma_script_truncation(v.script_sig, k - 36);
        } else {
            let cut = sq.subrange(0, k - 36 - sc.len());
            lemma_script_parse_ser(v.script_sig, cut);
            assert(rest =~= sc + cut);
        }
    }
}

} // verus!
