use crate::compact_size::{
    lemma_varint_parse_ser, lemma_varint_truncation, spec_varint_parse, spec_varint_ser,
    CompactSize,
};
use crate::endian::{
    lemma_u32_le_round_trip, spec_u32_le_bytes, spec_u32_of_le_bytes, u32_le_bytes,
    u32_of_le_bytes,
};
use crate::error::BitcoinError;
use crate::text::{push_decimal, spec_byte_items, spec_decimal};
use crate::tx_input::{
    lemma_input_parse_ser, lemma_input_truncation, spec_input_parse, spec_input_ser,
    TransactionInput, TransactionInputV,
};
use vstd::prelude::*;
use vstd::slice::slice_subrange;
use vstd::string::StringExecFns;

verus! {

/// A transaction: version, an ordered sequence of inputs, and a lock time.
/// On the wire the input count is a CompactSize before the inputs; it is
/// never stored as a field, only derived from the sequence's length.
#[derive(Debug, Clone, PartialEq, Eq)]
pub struct BitcoinTransaction {
    pub version: u32,
    pub inputs: Vec<TransactionInput>,
    pub lock_time: u32,
}

/// Specification-level value of a `BitcoinTransaction`.
#[verifier::ext_equal]
pub ghost struct BitcoinTransactionV {
    pub version: u32,
    pub inputs: Seq<TransactionInputV>,
    pub lock_time: u32,
}

impl BitcoinTransactionV {
    /// Well-formed: the input count fits the CompactSize range and every
    /// input is well-formed, as every executable transaction is by
    /// construction.
    pub open spec fn wf(self) -> bool {
        &&& self.inputs.len() <= u64::MAX
        &&& forall|i: int| 0 <= i < self.inputs.len() ==> (#[trigger] self.inputs[i]).wf()
    }
}

impl View for BitcoinTransaction {
    type V = BitcoinTransactionV;

    open spec fn view(&self) -> BitcoinTransactionV {
        BitcoinTransactionV {
            version: self.version,
            inputs: self.inputs@.map_values(|i: TransactionInput| i@),
            lock_time: self.lock_time,
        }
    }
}

/// The concatenated wire bytes of the inputs of `s`, in order.
pub open spec fn spec_inputs_ser(s: Seq<TransactionInputV>) -> Seq<u8>
    decreases s.len(),
{
    if s.len() == 0 {
        Seq::empty()
    } else {
        spec_input_ser(s[0]) + spec_inputs_ser(s.drop_first())
    }
}

/// The wire bytes of `t`: version, input count, each input in order, lock
/// time.
pub open spec fn spec_tx_ser(t: BitcoinTransactionV) -> Seq<u8> {
    spec_u32_le_bytes(t.version) + spec_varint_ser(t.inputs.len() as u64) + spec_inputs_ser(
        t.inputs,
    ) + spec_u32_le_bytes(t.lock_time)
}

/// Exactly `count` inputs read off the front of `b`, with their total
/// consumed count, or `None` as soon as one is cut short.
pub open spec fn spec_inputs_parse(b: Seq<u8>, count: nat) -> Option<
    (Seq<TransactionInputV>, int),
>
    decreases count,
{
    if count == 0 {
        Some((Seq::empty(), 0))
    } else {
        match spec_input_parse(b) {
            None => None,
            Some((v, n)) => match spec_inputs_parse(b.skip(n), (count - 1) as nat) {
                None => None,
                Some((rest, m)) => Some((seq![v] + rest, n + m)),
            },
        }
    }
}

/// The transaction and consumed count read off the front of `b`: 4 version
/// bytes, a CompactSize input count, exactly that many inputs, then 4 lock
/// time bytes; `None` as soon as any piece is cut short.
pub open spec fn spec_tx_parse(b: Seq<u8>) -> Option<(BitcoinTransactionV, int)> {
    if b.len() < 4 {
        None
    } else {
        match spec_varint_parse(b.skip(4)) {
            None => None,
            Some((count, n1)) => match spec_inputs_parse(b.skip(4 + n1), count as nat) {
                None => None,
                Some((ins, m)) => {
                    let end = 4 + n1 + m;
                    if end + 4 <= b.len() {
                        Some(
                            (
                                BitcoinTransactionV {
                                    version: spec_u32_of_le_bytes(b.subrange(0, 4)),
                                    inputs: ins,
                                    lock_time: spec_u32_of_le_bytes(b.subrange(end, end + 4)),
                                },
                                end + 4,
                            ),
                        )
                    } else {
                        None
                    }
                },
            },
        }
    }
}

/// The diagnostic lines of one input: its previous-output index, its script
/// length, and its raw script bytes as a bracketed decimal list.
pub open spec fn spec_render_input(v: TransactionInputV) -> Seq<char> {
    "Previous Output Vout: "@ + spec_decimal(v.previous_output.vout as nat) + "\n"@
        + "ScriptSig Length: "@ + spec_decimal(v.script_sig.len()) + "\n"@
        + "ScriptSig Bytes: ["@ + spec_byte_items(v.script_sig) + "]\n"@
}

/// The diagnostic lines of a sequence of inputs, in order.
pub open spec fn spec_render_inputs(s: Seq<TransactionInputV>) -> Seq<char>
    decreases s.len(),
{
    if s.len() == 0 {
        Seq::empty()
    } else {
        spec_render_inputs(s.drop_last()) + spec_render_input(s.last())
    }
}

/// The whole human-readable rendering of `t`: a version line, each input's
/// lines, then a lock-time line. Diagnostic only, never re-parsed.
pub open spec fn spec_render(t: BitcoinTransactionV) -> Seq<char> {
    "Version: "@ + spec_decimal(t.version as nat) + "\n"@ + spec_render_inputs(t.inputs)
        + "Lock Time: "@ + spec_decimal(t.lock_time as nat) + "\n"@
}

/// Composition helper for the decode loop: inputs already read, the bytes
/// they consumed, and the outcome of reading the rest.
spec fn spec_glue(
    pre: Seq<TransactionInputV>,
    d: int,
    t: Option<(Seq<TransactionInputV>, int)>,
) -> Option<(Seq<TransactionInputV>, int)> {
    match t {
        None => None,
        Some((rest, m)) => Some((pre + rest, d + m)),
    }
}

/// Serializing one more input appends its bytes: the take-prefix form the
/// encode loop maintains.
proof fn lemma_inputs_ser_take_succ(s: Seq<TransactionInputV>, i: int)
    requires
        0 <= i < s.len(),
    ensures
        spec_inputs_ser(s.take(i + 1)) == spec_inputs_ser(s.take(i)) + spec_input_ser(s[i]),
    decreases i,
{
    if i == 0 {
        assert(s.take(1).drop_first() =~= Seq::<TransactionInputV>::empty());
        assert(s.take(0) =~= Seq::<TransactionInputV>::empty());
        assert(spec_inputs_ser(s.take(1)) =~= spec_inputs_ser(s.take(0)) + spec_input_ser(s[0]));
    } else {
        lemma_inputs_ser_take_succ(s.drop_first(), i - 1);
        assert(s.take(i + 1).drop_first() =~= s.drop_first().take(i));
        assert(s.take(i).drop_first() =~= s.drop_first().take(i - 1));
        assert(spec_inputs_ser(s.take(i + 1)) =~= spec_inputs_ser(s.take(i)) + spec_input_ser(
            s[i],
        ));
    }
}

impl BitcoinTransaction {
    pub fn new(version: u32, inputs: Vec<TransactionInput>, lock_time: u32) -> (r: Self)
        ensures
            r@.version == version,
            r@.inputs == inputs@.map_values(|i: TransactionInput| i@),
            r@.lock_time == lock_time,
    {
        BitcoinTransaction { version, inputs, lock_time }
    }

    pub fn to_bytes(&self) -> (r: Vec<u8>)
        ensures
            r@ == spec_tx_ser(self@),
    {
        let mut res = u32_le_bytes(self.version);
        let count = CompactSize::new(self.inputs.len() as u64);
        let mut cb = count.to_bytes();
        res.append(&mut cb);
        let mut i: usize = 0;
        while i < self.inputs.len()
            invariant
                i <= self.inputs.len(),
                res@ == spec_u32_le_bytes(self.version) + spec_varint_ser(
                    self.inputs@.len() as u64,
                ) + spec_inputs_ser(self@.inputs.take(i as int)),
            decreases self.inputs.len() - i,
        {
            let mut ib = self.inputs[i].to_bytes();
            res.append(&mut ib);
            proof {
                lemma_inputs_ser_take_succ(self@.inputs, i as int);
            }
            i = i + 1;
        }
        let mut tail = u32_le_bytes(self.lock_time);
        res.append(&mut tail);
        proof {
            assert(self@.inputs.take(self.inputs@.len() as int) =~= self@.inputs);
            assert(res@ =~= spec_tx_ser(self@));
        }
        res
    }

    /// Decode the version, the input count, then exactly that many inputs,
    /// advancing the offset only by the consumed counts the sub-decoders
    /// return, then the lock time. A buffer that runs out mid-loop fails
    /// with the same insufficient-input kind as any other short read.
    pub fn from_bytes(bytes: &[u8]) -> (r: Result<(Self, usize), BitcoinError>)
        ensures
            match r {
                Ok((tx, n)) => {
                    &&& spec_tx_parse(bytes@) == Some((tx@, n as int))
                    &&& n <= bytes@.len()
                },
                Err(e) => {
                    &&& spec_tx_parse(bytes@) is None
                    &&& e == BitcoinError::InsufficientBytes
                },
            },
    {
        if bytes.len() < 4 {
            return Err(BitcoinError::InsufficientBytes);
        }
        let version = u32_of_le_bytes(slice_subrange(bytes, 0, 4));
        let after_version = slice_subrange(bytes, 4, bytes.len());
        proof {
            assert(after_version@ =~= bytes@.skip(4));
        }
        let (cs, used1) = match CompactSize::from_bytes(after_version) {
            Ok(p) => p,
            Err(e) => {
                return Err(e);
            },
        };
        let count = cs.value;
        let start = 4 + used1;
        let mut offset = start;
        let mut inputs: Vec<TransactionInput> = Vec::new();
        let mut k: u64 = 0;
        proof {
            let p0 = spec_inputs_parse(bytes@.skip(start as int), count as nat);
            if p0 is Some {
                assert(Seq::<TransactionInputV>::empty() + p0.unwrap().0 =~= p0.unwrap().0);
            }
        }
        while k < count
            invariant
                k <= count,
                4 <= start <= offset <= bytes@.len(),
                spec_varint_parse(bytes@.skip(4)) == Some((count, start - 4)),
                inputs@.len() == k,
                spec_inputs_parse(bytes@.skip(start as int), count as nat) == spec_glue(
                    inputs@.map_values(|x: TransactionInput| x@),
                    offset - start,
                    spec_inputs_parse(bytes@.skip(offset as int), (count - k) as nat),
                ),
            decreases count - k,
        {
            let rem = slice_subrange(bytes, offset, bytes.len());
            proof {
                assert(rem@ =~= bytes@.skip(offset as int));
            }
            let (input, used) = match TransactionInput::from_bytes(rem) {
                Ok(p) => p,
                Err(e) => {
                    proof {
                        assert(spec_inputs_parse(bytes@.skip(offset as int), (count - k) as nat)
                            is None);
                    }
                    return Err(e);
                },
            };
            proof {
                let ws = inputs@.map_values(|x: TransactionInput| x@);
                let here = bytes@.skip(offset as int);
                let later = bytes@.skip(offset as int + used as int);
                assert(here.skip(used as int) =~= later);
                let tail_parse = spec_inputs_parse(later, (count - k - 1) as nat);
                assert(spec_inputs_parse(here, (count - k) as nat) == spec_glue(
                    seq![input@],
                    used as int,
                    tail_parse,
                ));
                assert(inputs@.push(input).map_values(|x: TransactionInput| x@) =~= ws.push(
                    input@,
                ));
                if tail_parse is Some {
                    let rest = tail_parse.unwrap().0;
                    assert(ws + (seq![input@] + rest) =~= ws.push(input@) + rest);
                }
            }
            inputs.push(input);
            offset = offset + used;
            k = k + 1;
        }
        proof {
            let ws = inputs@.map_values(|x: TransactionInput| x@);
            assert(ws + Seq::<TransactionInputV>::empty() =~= ws);
            assert(spec_inputs_parse(bytes@.skip(start as int), count as nat) == Some(
                (ws, offset - start),
            ));
        }
        if bytes.len() - offset < 4 {
            return Err(BitcoinError::InsufficientBytes);
        }
        let lock_time = u32_of_le_bytes(slice_subrange(bytes, offset, offset + 4));
        let tx = BitcoinTransaction { version, inputs, lock_time };
        proof {
            assert(tx@ =~= spec_tx_parse(bytes@).unwrap().0);
        }
        Ok((tx, offset + 4))
    }

    /// A human-readable multi-line rendering for diagnostics: version, then
    /// for each input its previous-output index, script length and raw
    /// script bytes, then lock time. Never fed back into the decoder.
    pub fn render(&self) -> (r: String)
        ensures
            r@ == spec_render(self@),
    {
        let mut out = String::new();
        out.append("Version: ");
        push_decimal(&mut out, self.version as u64);
        out.append("\n");
        let ghost head = out@;
        proof {
            assert(head + spec_render_inputs(self@.inputs.take(0)) =~= head);
        }
        let mut i: usize = 0;
        while i < self.inputs.len()
            invariant
                i <= self.inputs.len(),
                out@ == head + spec_render_inputs(self@.inputs.take(i as int)),
                head == "Version: "@ + spec_decimal(self.version as nat) + "\n"@,
            decreases self.inputs.len() - i,
        {
            out.append("Previous Output Vout: ");
            push_decimal(&mut out, self.inputs[i].previous_output.vout as u64);
            out.append("\n");
            out.append("ScriptSig Length: ");
            push_decimal(&mut out, self.inputs[i].script_sig.bytes.len() as u64);
            out.append("\n");
            out.append("ScriptSig Bytes: [");
            let ghost mid = out@;
            proof {
                let sb = self.inputs@[i as int].script_sig@;
                assert(mid + spec_byte_items(sb.take(0)) =~= mid);
            }
            let mut j: usize = 0;
            while j < self.inputs[i].script_sig.bytes.len()
                invariant
                    i < self.inputs.len(),
                    j <= self.inputs@[i as int].script_sig@.len(),
                    out@ == mid + spec_byte_items(self.inputs@[i as int].script_sig@.take(
                        j as int,
                    )),
                decreases self.inputs@[i as int].script_sig@.len() - j,
            {
                if j > 0 {
                    out.append(", ");
                }
                push_decimal(&mut out, self.inputs[i].script_sig.bytes[j] as u64);
                proof {
                    let sb = self.inputs@[i as int].script_sig@;
                    assert(sb.take(j + 1).drop_last() =~= sb.take(j as int));
                    assert(sb.take(j + 1).last() == sb[j as int]);
                    assert(out@ =~= mid + spec_byte_items(sb.take(j + 1)));
                }
                j = j + 1;
            }
            out.append("]\n");
            proof {
                let sb = self.inputs@[i as int].script_sig@;
                assert(sb.take(sb.len() as int) =~= sb);
                assert(self@.inputs.take(i + 1).drop_last() =~= self@.inputs.take(i as int));
                assert(self@.inputs.take(i + 1).last() == self@.inputs[i as int]);
                assert(out@ =~= head + spec_render_inputs(self@.inputs.take(i + 1)));
            }
            i = i + 1;
        }
        out.append("Lock Time: ");
        push_decimal(&mut out, self.lock_time as u64);
        out.append("\n");
        proof {
            assert(self@.inputs.take(self.inputs.len() as int) =~= self@.inputs);
            assert(out@ =~= spec_render(self@));
        }
        out
    }
}

/// One parse step, stated over the buffer alone: a head input plus the rest
/// of the count composes into the whole count.
proof fn lemma_inputs_parse_step(
    b: Seq<u8>,
    v: TransactionInputV,
    n: int,
    rest: Seq<TransactionInputV>,
    m: int,
    count: nat,
)
    requires
        count >= 1,
        spec_input_parse(b) == Some((v, n)),
        spec_inputs_parse(b.skip(n), (count - 1) as nat) == Some((rest, m)),
    ensures
        spec_inputs_parse(b, count) == Some((seq![v] + rest, n + m)),
{
}

/// Round-trip law for an input sequence: parsing its concatenated encoding,
/// with any suffix behind it, yields the same inputs and consumes the whole
/// concatenation.
#[verifier::rlimit(100)]
pub proof fn lemma_inputs_parse_ser(s: Seq<TransactionInputV>, t: Seq<u8>)
    requires
        forall|i: int| 0 <= i < s.len() ==> (#[trigger] s[i]).wf(),
    ensures
        spec_inputs_parse(spec_inputs_ser(s) + t, s.len()) == Some(
            (s, spec_inputs_ser(s).len() as int),
        ),
    decreases s.len(),
{
    if s.len() == 0 {
        assert(spec_inputs_ser(s) + t =~= t);
        assert(Seq::<TransactionInputV>::empty() =~= s);
    } else {
        let first = spec_input_ser(s[0]);
        let rest = spec_inputs_ser(s.drop_first());
        let b = spec_inputs_ser(s) + t;
        lemma_input_parse_ser(s[0], rest + t);
        assert(b =~= first + (rest + t));
        assert(b.skip(first.len() as int) =~= rest + t);
        lemma_inputs_parse_ser(s.drop_first(), t);
        lemma_inputs_parse_step(
            b,
            s[0],
            first.len() as int,
            s.drop_first(),
            rest.len() as int,
            s.len(),
        );
        assert(seq![s[0]] + s.drop_first() =~= s);
        assert(spec_inputs_ser(s).len() == first.len() + rest.len());
    }
}

/// Truncation law for an input sequence: any strict prefix of the
/// concatenated encoding fails to parse at the full count.
#[verifier::rlimit(50)]
pub proof fn lemma_inputs_truncation(s: Seq<TransactionInputV>, k: int)
    requires
        forall|i: int| 0 <= i < s.len() ==> (#[trigger] s[i]).wf(),
        0 <= k < spec_inputs_ser(s).len(),
    ensures
        spec_inputs_parse(spec_inputs_ser(s).subrange(0, k), s.len()) is None,
    decreases s.len(),
{
    let first = spec_input_ser(s[0]);
    let rest = spec_inputs_ser(s.drop_first());
    let b = spec_inputs_ser(s).subrange(0, k);
    if k < first.len() {
        assert(b =~= first.subrange(0, k));
        lemma_input_truncation(s[0], k);
    } else {
        let cut = rest.subrange(0, k - first.len());
        lemma_input_parse_ser(s[0], cut);
        assert(b =~= first + cut);
        assert(b.skip(first.len() as int) =~= cut);
        lemma_inputs_truncation(s.drop_first(), k - first.len());
    }
}

/// Round-trip law: parsing the encoding of a well-formed transaction yields
/// it back and consumes exactly the whole encoding.
#[verifier::rlimit(50)]
pub proof fn lemma_tx_parse_ser(t: BitcoinTransactionV)
    requires
        t.wf(),
    ensures
        spec_tx_parse(spec_tx_ser(t)) == Some((t, spec_tx_ser(t).len() as int)),
{
    lemma_u32_le_round_trip(t.version);
    lemma_u32_le_round_trip(t.lock_time);
    let vb = spec_u32_le_bytes(t.version);
    let cb = spec_varint_ser(t.inputs.len() as u64);
    let ib = spec_inputs_ser(t.inputs);
    let lb = spec_u32_le_bytes(t.lock_time);
    let b = spec_tx_ser(t);
    assert(b.subrange(0, 4) =~= vb);
    assert(b.skip(4) =~= cb + (ib + lb));
    lemma_varint_parse_ser(t.inputs.len() as u64, ib + lb);
    let n1 = cb.len() as int;
    assert(b.skip(4 + n1) =~= ib + lb);
    lemma_inputs_parse_ser(t.inputs, lb);
    let end = 4 + n1 + ib.len() as int;
    assert(b.subrange(end, end + 4) =~= lb);
    assert(spec_tx_parse(b).unwrap().0 =~= t);
}

/// Input-count fidelity law: decoding an encoded transaction reproduces
/// exactly as many inputs as were encoded, in their original order.
pub proof fn lemma_input_count_fidelity(t: BitcoinTransactionV)
    requires
        t.wf(),
    ensures
        spec_tx_parse(spec_tx_ser(t)) is Some,
        spec_tx_parse(spec_tx_ser(t)).unwrap().0.inputs.len() == t.inputs.len(),
        forall|i: int|
            0 <= i < t.inputs.len() ==> spec_tx_parse(spec_tx_ser(t)).unwrap().0.inputs[i]
                == t.inputs[i],
{
    lemma_tx_parse_ser(t);
}

/// Truncation law: any strict prefix of a transaction encoding fails to
/// parse.
#[verifier::rlimit(100)]
pub proof fn lemma_tx_truncation(t: BitcoinTransactionV, k: int)
    requires
        t.wf(),
        0 <= k < spec_tx_ser(t).len(),
    ensures
        spec_tx_parse(spec_tx_ser(t).subrange(0, k)) is None,
{
    let vb = spec_u32_le_bytes(t.version);
    let cb = spec_varint_ser(t.inputs.len() as u64);
    let ib = spec_inputs_ser(t.inputs);
    let lb = spec_u32_le_bytes(t.lock_time);
    let b = spec_tx_ser(t).subrange(0, k);
    if k >= 4 {
        let n1 = cb.len() as int;
        if k - 4 < n1 {
            lemma_varint_truncation(t.inputs.len() as u64, k - 4);
            assert(b.skip(4) =~= cb.subrange(0, k - 4));
        } else {
            if k - 4 - n1 < ib.len() {
                let cut = ib.subrange(0, k - 4 - n1);
                lemma_varint_parse_ser(t.inputs.len() as u64, cut);
                assert(b.skip(4) =~= cb + cut);
                lemma_inputs_truncation(t.inputs, k - 4 - n1);
                assert(b.skip(4 + n1) =~= cut);
            } else {
                let cut = lb.subrange(0, k - 4 - n1 - ib.len());
                lemma_varint_parse_ser(t.inputs.len() as u64, ib + cut);
                assert(b.skip(4) =~= cb + (ib + cut));
                lemma_inputs_parse_ser(t.inputs, cut);
                assert(b.skip(4 + n1) =~= ib + cut);
            }
        }
    }
}

} // verus!
