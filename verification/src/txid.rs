use crate::error::BitcoinError;
use vstd::prelude::*;

verus! {

/// A transaction identifier: an opaque fixed 32-byte array. Equality and a
/// hex text form are all it offers; the bytes carry no further meaning here.
#[derive(Debug, Clone, PartialEq, Eq)]
pub struct Txid(pub [u8; 32]);

impl View for Txid {
    type V = Seq<u8>;

    open spec fn view(&self) -> Seq<u8> {
        self.0@
    }
}

/// The sixteen lowercase hex digits, in value order.
pub open spec fn spec_hex_digits() -> Seq<char> {
    seq!['0', '1', '2', '3', '4', '5', '6', '7', '8', '9', 'a', 'b', 'c', 'd', 'e', 'f']
}

/// The lowercase hex text of `b`: two digits for each byte, high nibble
/// first.
pub open spec fn spec_hex_of_bytes(b: Seq<u8>) -> Seq<char>
    decreases b.len(),
{
    if b.len() == 0 {
        Seq::empty()
    } else {
        seq![
            spec_hex_digits()[(b[0] / 16) as int],
            spec_hex_digits()[(b[0] % 16) as int],
        ] + spec_hex_of_bytes(b.drop_first())
    }
}

/// The value of `c` as a hex digit, either case; `None` for any other
/// character.
pub open spec fn spec_hex_digit_val(c: char) -> Option<u8> {
    let u = c as u32;
    if 48 <= u <= 57 {
        Some((u - 48) as u8)
    } else if 65 <= u <= 70 {
        Some((u - 55) as u8)
    } else if 97 <= u <= 102 {
        Some((u - 87) as u8)
    } else {
        None
    }
}

/// Well-formed hex text: an even count of hex digits and nothing else.
pub open spec fn spec_is_hex(s: Seq<char>) -> bool {
    &&& s.len() % 2 == 0
    &&& forall|i: int| 0 <= i < s.len() ==> (#[trigger] spec_hex_digit_val(s[i])) is Some
}

/// The byte a pair of hex digits stands for; ill-formed digits count as zero,
/// which well-formedness elsewhere rules out.
pub open spec fn spec_hex_pair_val(hi: char, lo: char) -> u8 {
    match (spec_hex_digit_val(hi), spec_hex_digit_val(lo)) {
        (Some(h), Some(l)) => (h * 16 + l) as u8,
        _ => 0,
    }
}

/// The bytes hex text stands for, one byte per digit pair.
pub open spec fn spec_bytes_of_hex(s: Seq<char>) -> Seq<u8>
    decreases s.len(),
{
    if s.len() < 2 {
        Seq::empty()
    } else {
        seq![spec_hex_pair_val(s[0], s[1])] + spec_bytes_of_hex(s.skip(2))
    }
}

/// Two digits stand for one byte: decoded length is half the text length.
pub proof fn lemma_bytes_of_hex_len(s: Seq<char>)
    ensures
        spec_bytes_of_hex(s).len() == s.len() / 2,
    decreases s.len(),
{
    if s.len() >= 2 {
        lemma_bytes_of_hex_len(s.skip(2));
    }
}

/// Relies on hex::encode: lowercase hex text, two digits for each byte, in
/// input order.
#[verifier::external_body]
fn hex_encode(b: &[u8]) -> (r: String)
    ensures
        r@ == spec_hex_of_bytes(b@),
{
    hex::encode(b)
}

/// Relies on hex::decode: succeeds exactly on an even count of hex digits of
/// either case, and then returns the byte each digit pair stands for.
#[verifier::external_body]
fn hex_decode(s: &str) -> (r: Option<Vec<u8>>)
    ensures
        match r {
            Some(v) => spec_is_hex(s@) && v@ == spec_bytes_of_hex(s@),
            None => !spec_is_hex(s@),
        },
{
    hex::decode(s).ok()
}

impl Txid {
    /// Copy a 32-byte slice into an owned identifier.
    pub fn from_slice(b: &[u8]) -> (r: Self)
        requires
            b@.len() == 32,
        ensures
            r@ == b@,
    {
        let mut arr: [u8; 32] = [0u8; 32];
        let mut i: usize = 0;
        while i < 32
            invariant
                b@.len() == 32,
                i <= 32,
                forall|j: int| 0 <= j < i ==> arr@[j] == b@[j],
            decreases 32 - i,
        {
            arr[i] = b[i];
            i = i + 1;
        }
        proof {
            assert(arr@ =~= b@);
        }
        Txid(arr)
    }

    /// The lowercase hex text of this identifier, 64 digits.
    pub fn to_hex(&self) -> (r: String)
        ensures
            r@ == spec_hex_of_bytes(self@),
    {
        hex_encode(self.0.as_slice())
    }

    /// Parse hex text into an identifier: exactly 64 hex digits of either
    /// case; anything else is an invalid-format failure.
    pub fn from_hex(s: &str) -> (r: Result<Self, BitcoinError>)
        ensures
            match r {
                Ok(t) => {
                    &&& spec_is_hex(s@)
                    &&& s@.len() == 64
                    &&& t@ == spec_bytes_of_hex(s@)
                },
                Err(e) => {
                    &&& !(spec_is_hex(s@) && s@.len() == 64)
                    &&& e == BitcoinError::InvalidFormat
                },
            },
    {
        proof {
            lemma_bytes_of_hex_len(s@);
        }
        match hex_decode(s) {
            None => Err(BitcoinError::InvalidFormat),
            Some(v) => {
                if v.len() != 32 {
                    Err(BitcoinError::InvalidFormat)
                } else {
                    Ok(Txid::from_slice(v.as_slice()))
                }
            },
        }
    }
}

} // verus!
