use vstd::arithmetic::div_mod::{lemma_div_denominator, lemma_fundamental_div_mod};
use vstd::prelude::*;

verus! {

/// The two little-endian bytes of `x`: low byte first.
pub open spec fn spec_u16_le_bytes(x: u16) -> Seq<u8> {
    seq![(x % 0x100) as u8, ((x / 0x100) % 0x100) as u8]
}

/// The four little-endian bytes of `x`: low byte first.
pub open spec fn spec_u32_le_bytes(x: u32) -> Seq<u8> {
    seq![
        (x % 0x100) as u8,
        ((x / 0x100) % 0x100) as u8,
        ((x / 0x1_0000) % 0x100) as u8,
        ((x / 0x100_0000) % 0x100) as u8,
    ]
}

/// The eight little-endian bytes of `x`: low byte first.
pub open spec fn spec_u64_le_bytes(x: u64) -> Seq<u8> {
    seq![
        (x % 0x100) as u8,
        ((x / 0x100) % 0x100) as u8,
        ((x / 0x1_0000) % 0x100) as u8,
        ((x / 0x100_0000) % 0x100) as u8,
        ((x / 0x1_0000_0000) % 0x100) as u8,
        ((x / 0x100_0000_0000) % 0x100) as u8,
        ((x / 0x1_0000_0000_0000) % 0x100) as u8,
        ((x / 0x100_0000_0000_0000) % 0x100) as u8,
    ]
}

/// The value two little-endian bytes stand for.
pub open spec fn spec_u16_of_le_bytes(s: Seq<u8>) -> u16
    recommends
        s.len() == 2,
{
    (s[0] + 0x100 * s[1]) as u16
}

/// The value four little-endian bytes stand for.
pub open spec fn spec_u32_of_le_bytes(s: Seq<u8>) -> u32
    recommends
        s.len() == 4,
{
    (s[0] + 0x100 * s[1] + 0x1_0000 * s[2] + 0x100_0000 * s[3]) as u32
}

/// The value eight little-endian bytes stand for.
pub open spec fn spec_u64_of_le_bytes(s: Seq<u8>) -> u64
    recommends
        s.len() == 8,
{
    (s[0] + 0x100 * s[1] + 0x1_0000 * s[2] + 0x100_0000 * s[3] + 0x1_0000_0000 * s[4]
        + 0x100_0000_0000 * s[5] + 0x1_0000_0000_0000 * s[6] + 0x100_0000_0000_0000 * s[7]) as u64
}

pub fn u16_le_bytes(x: u16) -> (r: Vec<u8>)
    ensures
        r@ == spec_u16_le_bytes(x),
{
    let mut r: Vec<u8> = Vec::new();
    r.push((x % 0x100) as u8);
    r.push(((x / 0x100) % 0x100) as u8);
    proof {
        assert(r@ =~= spec_u16_le_bytes(x));
    }
    r
}

pub fn u32_le_bytes(x: u32) -> (r: Vec<u8>)
    ensures
        r@ == spec_u32_le_bytes(x),
{
    let mut r: Vec<u8> = Vec::new();
    r.push((x % 0x100) as u8);
    r.push(((x / 0x100) % 0x100) as u8);
    r.push(((x / 0x1_0000) % 0x100) as u8);
    r.push(((x / 0x100_0000) % 0x100) as u8);
    proof {
        assert(r@ =~= spec_u32_le_bytes(x));
    }
    r
}

pub fn u64_le_bytes(x: u64) -> (r: Vec<u8>)
    ensures
        r@ == spec_u64_le_bytes(x),
{
    let mut r: Vec<u8> = Vec::new();
    r.push((x % 0x100) as u8);
    r.push(((x / 0x100) % 0x100) as u8);
    r.push(((x / 0x1_0000) % 0x100) as u8);
    r.push(((x / 0x100_0000) % 0x100) as u8);
    r.push(((x / 0x1_0000_0000) % 0x100) as u8);
    r.push(((x / 0x100_0000_0000) % 0x100) as u8);
    r.push(((x / 0x1_0000_0000_0000) % 0x100) as u8);
    r.push(((x / 0x100_0000_0000_0000) % 0x100) as u8);
    proof {
        assert(r@ =~= spec_u64_le_bytes(x));
    }
    r
}

pub fn u16_of_le_bytes(b: &[u8]) -> (x: u16)
    requires
        b@.len() == 2,
    ensures
        x == spec_u16_of_le_bytes(b@),
{
    (b[0] as u16) + 0x100 * (b[1] as u16)
}

pub fn u32_of_le_bytes(b: &[u8]) -> (x: u32)
    requires
        b@.len() == 4,
    ensures
        x == spec_u32_of_le_bytes(b@),
{
    (b[0] as u32) + 0x100 * (b[1] as u32) + 0x1_0000 * (b[2] as u32) + 0x100_0000 * (b[3] as u32)
}

pub fn u64_of_le_bytes(b: &[u8]) -> (x: u64)
    requires
        b@.len() == 8,
    ensures
        x == spec_u64_of_le_bytes(b@),
{
    (b[0] as u64) + 0x100 * (b[1] as u64) + 0x1_0000 * (b[2] as u64) + 0x100_0000 * (b[3] as u64)
        + 0x1_0000_0000 * (b[4] as u64) + 0x100_0000_0000 * (b[5] as u64) + 0x1_0000_0000_0000 * (
    b[6] as u64) + 0x100_0000_0000_0000 * (b[7] as u64)
}

/// Reading back the two little-endian bytes of `x` yields `x`.
pub proof fn lemma_u16_le_round_trip(x: u16)
    ensures
        spec_u16_of_le_bytes(spec_u16_le_bytes(x)) == x,
{
    lemma_fundamental_div_mod(x as int, 0x100);
}

/// Reading back the four little-endian bytes of `x` yields `x`.
pub proof fn lemma_u32_le_round_trip(x: u32)
    ensures
        spec_u32_of_le_bytes(spec_u32_le_bytes(x)) == x,
{
    let xi = x as int;
    lemma_fundamental_div_mod(xi, 0x100);
    lemma_fundamental_div_mod(xi / 0x100, 0x100);
    lemma_fundamental_div_mod(xi / 0x1_0000, 0x100);
    lemma_div_denominator(xi, 0x100, 0x100);
    lemma_div_denominator(xi, 0x1_0000, 0x100);
}

/// Reading back the eight little-endian bytes of `x` yields `x`.
pub proof fn lemma_u64_le_round_trip(x: u64)
    ensures
        spec_u64_of_le_bytes(spec_u64_le_bytes(x)) == x,
{
    let xi = x as int;
    lemma_fundamental_div_mod(xi, 0x100);
    lemma_fundamental_div_mod(xi / 0x100, 0x100);
    lemma_fundamental_div_mod(xi / 0x1_0000, 0x100);
    lemma_fundamental_div_mod(xi / 0x100_0000, 0x100);
    lemma_fundamental_div_mod(xi / 0x1_0000_0000, 0x100);
    lemma_fundamental_div_mod(xi / 0x100_0000_0000, 0x100);
    lemma_fundamental_div_mod(xi / 0x1_0000_0000_0000, 0x100);
    lemma_div_denominator(xi, 0x100, 0x100);
    lemma_div_denominator(xi, 0x1_0000, 0x100);
    lemma_div_denominator(xi, 0x100_0000, 0x100);
    lemma_div_denominator(xi, 0x1_0000_0000, 0x100);
    lemma_div_denominator(xi, 0x100_0000_0000, 0x100);
    lemma_div_denominator(xi, 0x1_0000_0000_0000, 0x100);
}

} // verus!
