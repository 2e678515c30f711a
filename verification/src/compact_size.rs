use crate::endian::{
    lemma_u16_le_round_trip, lemma_u32_le_round_trip, lemma_u64_le_round_trip,
    spec_u16_le_bytes, spec_u16_of_le_bytes, spec_u32_le_bytes, spec_u32_of_le_bytes,
    spec_u64_le_bytes, spec_u64_of_le_bytes, u16_le_bytes, u16_of_le_bytes, u32_le_bytes,
    u32_of_le_bytes, u64_le_bytes, u64_of_le_bytes,
};
use crate::error::BitcoinError;
use vstd::prelude::*;
use vstd::slice::slice_subrange;

verus! {

/// A variable-width unsigned integer ("CompactSize"): one tag byte selects a
/// total width of 1, 3, 5 or 9 bytes. This is the single source of truth for
/// variable-length counting; every length-prefixed field and count-prefixed
/// sequence of the format delegates to it.
#[derive(Debug, Clone, PartialEq, Eq, Structural)]
pub struct CompactSize {
    pub value: u64,
}

/// The canonical wire bytes of `v`: the smallest prefix class that can hold
/// `v`, i.e. the bare byte below 0xFD, else a 0xFD/0xFE/0xFF tag followed by
/// the 2/4/8-byte little-endian value.
pub open spec fn spec_varint_ser(v: u64) -> Seq<u8> {
    if v <= 0xFC {
        seq![v as u8]
    } else if v <= 0xFFFF {
        seq![0xFDu8] + spec_u16_le_bytes(v as u16)
    } else if v <= 0xFFFF_FFFF {
        seq![0xFEu8] + spec_u32_le_bytes(v as u32)
    } else {
        seq![0xFFu8] + spec_u64_le_bytes(v)
    }
}

/// The value and consumed count that decoding reads off the front of `b`, or
/// `None` when `b` ends before the total width its tag byte announces.
/// Decoding is permissive: a value under a wider tag than it needs is
/// accepted as it stands.
pub open spec fn spec_varint_parse(b: Seq<u8>) -> Option<(u64, int)> {
    if b.len() == 0 {
        None
    } else if b[0] <= 0xFC {
        Some((b[0] as u64, 1))
    } else if b[0] == 0xFD {
        if b.len() >= 3 {
            Some((spec_u16_of_le_bytes(b.subrange(1, 3)) as u64, 3))
        } else {
            None
        }
    } else if b[0] == 0xFE {
        if b.len() >= 5 {
            Some((spec_u32_of_le_bytes(b.subrange(1, 5)) as u64, 5))
        } else {
            None
        }
    } else {
        if b.len() >= 9 {
            Some((spec_u64_of_le_bytes(b.subrange(1, 9)), 9))
        } else {
            None
        }
    }
}

impl CompactSize {
    pub fn new(value: u64) -> (r: Self)
        ensures
            r.value == value,
    {
        CompactSize { value }
    }

    /// Encode canonically: always the smallest prefix class that holds the
    /// value.
    pub fn to_bytes(&self) -> (r: Vec<u8>)
        ensures
            r@ == spec_varint_ser(self.value),
    {
        let v = self.value;
        if v <= 0xFC {
            let mut res: Vec<u8> = Vec::new();
            res.push(v as u8);
            proof {
                assert(res@ =~= spec_varint_ser(v));
            }
            res
        } else if v <= 0xFFFF {
            let mut res: Vec<u8> = Vec::new();
            res.push(0xFD);
            let mut tail = u16_le_bytes(v as u16);
            res.append(&mut tail);
            proof {
                assert(res@ =~= spec_varint_ser(v));
            }
            res
        } else if v <= 0xFFFF_FFFF {
            let mut res: Vec<u8> = Vec::new();
            res.push(0xFE);
            let mut tail = u32_le_bytes(v as u32);
            res.append(&mut tail);
            proof {
                assert(res@ =~= spec_varint_ser(v));
            }
            res
        } else {
            let mut res: Vec<u8> = Vec::new();
            res.push(0xFF);
            let mut tail = u64_le_bytes(v);
            res.append(&mut tail);
            proof {
                assert(res@ =~= spec_varint_ser(v));
            }
            res
        }
    }

    /// Decode from the front of `bytes`: the tag byte picks the width, and a
    /// buffer shorter than that width is an insufficient-input failure. Every
    /// possible tag byte maps to some width, so no invalid-format path
    /// arises here.
    pub fn from_bytes(bytes: &[u8]) -> (r: Result<(Self, usize), BitcoinError>)
        ensures
            match r {
                Ok((cs, n)) => {
                    &&& spec_varint_parse(bytes@) == Some((cs.value, n as int))
                    &&& 1 <= n <= bytes@.len()
                },
                Err(e) => {
                    &&& spec_varint_parse(bytes@) is None
                    &&& e == BitcoinError::InsufficientBytes
                },
            },
    {
        if bytes.len() == 0 {
            return Err(BitcoinError::InsufficientBytes);
        }
        let tag = bytes[0];
        if tag <= 0xFC {
            Ok((CompactSize::new(tag as u64), 1))
        } else if tag == 0xFD {
            if bytes.len() < 3 {
                return Err(BitcoinError::InsufficientBytes);
            }
            let val = u16_of_le_bytes(slice_subrange(bytes, 1, 3)) as u64;
            Ok((CompactSize::new(val), 3))
        } else if tag == 0xFE {
            if bytes.len() < 5 {
                return Err(BitcoinError::InsufficientBytes);
            }
            let val = u32_of_le_bytes(slice_subrange(bytes, 1, 5)) as u64;
            Ok((CompactSize::new(val), 5))
        } else {
            if bytes.len() < 9 {
                return Err(BitcoinError::InsufficientBytes);
            }
            let val = u64_of_le_bytes(slice_subrange(bytes, 1, 9));
            Ok((CompactSize::new(val), 9))
        }
    }
}

/// Round-trip law: parsing the canonical encoding of `v`, with any suffix at
/// all behind it, yields `v` and consumes exactly the encoding's length.
pub proof fn lemma_varint_parse_ser(v: u64, s: Seq<u8>)
    ensures
        spec_varint_parse(spec_varint_ser(v) + s) == Some(
            (v, spec_varint_ser(v).len() as int),
        ),
{
    let b = spec_varint_ser(v) + s;
    if v <= 0xFC {
        assert(b[0] == v as u8);
    } else if v <= 0xFFFF {
        assert(b[0] == 0xFDu8);
        assert(b.subrange(1, 3) =~= spec_u16_le_bytes(v as u16));
        lemma_u16_le_round_trip(v as u16);
    } else if v <= 0xFFFF_FFFF {
        assert(b[0] == 0xFEu8);
        assert(b.subrange(1, 5) =~= spec_u32_le_bytes(v as u32));
        lemma_u32_le_round_trip(v as u32);
    } else {
        assert(b[0] == 0xFFu8);
        assert(b.subrange(1, 9) =~= spec_u64_le_bytes(v));
        lemma_u64_le_round_trip(v);
    }
}

/// Truncation law: any strict prefix of a canonical encoding fails to parse.
pub proof fn lemma_varint_truncation(v: u64, k: int)
    requires
        0 <= k < spec_varint_ser(v).len(),
    ensures
        spec_varint_parse(spec_varint_ser(v).subrange(0, k)) is None,
{
    let b = spec_varint_ser(v).subrange(0, k);
    if k > 0 {
        assert(b[0] == spec_varint_ser(v)[0]);
    }
}

/// Canonical-minimality law: the encoder selects exactly the width class of
/// the value, never a wider one.
pub proof fn lemma_varint_minimal(v: u64)
    ensures
        v <= 0xFC ==> spec_varint_ser(v) == seq![v as u8],
        0xFC < v <= 0xFFFF ==> spec_varint_ser(v).len() == 3 && spec_varint_ser(v)[0] == 0xFD,
        0xFFFF < v <= 0xFFFF_FFFF ==> spec_varint_ser(v).len() == 5 && spec_varint_ser(v)[0]
            == 0xFE,
        0xFFFF_FFFF < v ==> spec_varint_ser(v).len() == 9 && spec_varint_ser(v)[0] == 0xFF,
{
}

} // verus!
