//! Binary layouts of the fixed configuration and ledger structures exchanged
//! across the boundary: cost-parameter tables, contract code entries, and
//! synthesized time-to-live records.

use vstd::prelude::*;
use crate::budget::{CostParamEntry, CostParams};
use crate::codec::{
    push_bytes, push_u32_be, push_u64_be, read_bytes, read_u32_be, read_u64_be, spec_be4, spec_be8,
    spec_u32_of_be, spec_u64_of_be, lemma_be4_roundtrip, lemma_be8_roundtrip,
};
use crate::errors::MarshallingError;

verus! {

broadcast use vstd::std_specs::vec::group_vec_axioms;

/// Sign-and-magnitude encoding of a signed 64-bit value: one sign byte, then
/// the magnitude big-endian.
pub open spec fn spec_encode_i64(x: i64) -> Seq<u8> {
    if x >= 0 {
        seq![0u8] + spec_be8(x as u64)
    } else {
        seq![1u8] + spec_be8((-(x as int)) as u64)
    }
}

/// The signed value read back from nine bytes; a magnitude out of range of
/// the type, or a negative zero, is malformed.
pub open spec fn spec_decode_i64(s: Seq<u8>) -> Result<i64, MarshallingError>
    recommends
        s.len() == 9,
{
    let m = spec_u64_of_be(s.subrange(1, 9)) as int;
    if s[0] == 0 {
        if m <= i64::MAX {
            Ok(m as i64)
        } else {
            Err(MarshallingError::Malformed)
        }
    } else if s[0] == 1 {
        if 1 <= m <= 0x8000_0000_0000_0000 {
            Ok((-m) as i64)
        } else {
            Err(MarshallingError::Malformed)
        }
    } else {
        Err(MarshallingError::Malformed)
    }
}

pub proof fn lemma_i64_roundtrip(x: i64, rest: Seq<u8>)
    ensures
        spec_decode_i64((spec_encode_i64(x) + rest).subrange(0, 9)) == Ok::<_, MarshallingError>(x),
        spec_encode_i64(x).len() == 9,
{
    let s = (spec_encode_i64(x) + rest).subrange(0, 9);
    if x >= 0 {
        assert(s.subrange(1, 9) =~= spec_be8(x as u64));
        lemma_be8_roundtrip(x as u64);
    } else {
        assert(s.subrange(1, 9) =~= spec_be8((-(x as int)) as u64));
        lemma_be8_roundtrip((-(x as int)) as u64);
    }
}

/// Appends the nine-byte form of `x`.
pub fn push_i64(x: i64, out: &mut Vec<u8>)
    ensures
        final(out)@ == old(out)@ + spec_encode_i64(x),
{
    if x >= 0 {
        out.push(0u8);
        push_u64_be(x as u64, out);
    } else {
        out.push(1u8);
        let m: u64 = (-(x as i128)) as u64;
        push_u64_be(m, out);
    }
    assert(out@ =~= old(out)@ + spec_encode_i64(x));
}

/// Reads the nine-byte form of a signed value.
pub fn read_i64(buf: &Vec<u8>, pos: usize) -> (r: Result<i64, MarshallingError>)
    requires
        pos + 9 <= buf@.len(),
    ensures
        r == spec_decode_i64(buf@.subrange(pos as int, pos as int + 9)),
{
    let ghost s = buf@.subrange(pos as int, pos as int + 9);
    let len = buf.len();
    let sign = buf[pos];
    let m = read_u64_be(buf, pos + 1);
    assert(buf@.subrange(pos as int + 1, pos as int + 9) =~= s.subrange(1, 9));
    assert(s[0] == buf@[pos as int]);
    if sign == 0 {
        if m <= i64::MAX as u64 {
            Ok(m as i64)
        } else {
            Err(MarshallingError::Malformed)
        }
    } else if sign == 1 {
        if 1 <= m && m <= 0x8000_0000_0000_0000u64 {
            Ok((-(m as i128)) as i64)
        } else {
            Err(MarshallingError::Malformed)
        }
    } else {
        Err(MarshallingError::Malformed)
    }
}

/// The eighteen-byte layout of one cost-parameter entry.
pub open spec fn spec_encode_cost_entry(e: CostParamEntry) -> Seq<u8> {
    spec_encode_i64(e.const_term) + spec_encode_i64(e.linear_term)
}

/// The concatenated layouts of a table's entries.
pub open spec fn spec_encode_cost_entries(es: Seq<CostParamEntry>) -> Seq<u8>
    decreases es,
{
    if es.len() == 0 {
        Seq::empty()
    } else {
        spec_encode_cost_entry(es[0]) + spec_encode_cost_entries(es.subrange(1, es.len() as int))
    }
}

/// The encoding of a cost-parameter table: an entry count, then the entries.
pub open spec fn spec_encode_cost_params(p: CostParams) -> Seq<u8> {
    spec_be4(p.entries@.len() as u32) + spec_encode_cost_entries(p.entries@)
}

/// What decoding a whole buffer as a cost-parameter table yields: the count
/// must be followed by exactly that many eighteen-byte entries.
pub open spec fn spec_decode_cost_params(s: Seq<u8>) -> Result<
    Seq<CostParamEntry>,
    MarshallingError,
> {
    if s.len() < 4 {
        Err(MarshallingError::Malformed)
    } else {
        let n = spec_u32_of_be(s.subrange(0, 4)) as int;
        if s.len() != 4 + n * 18 {
            Err(MarshallingError::Malformed)
        } else {
            spec_decode_cost_entries(s.skip(4), n)
        }
    }
}

/// What decoding `count` consecutive entries yields.
pub open spec fn spec_decode_cost_entries(s: Seq<u8>, count: int) -> Result<
    Seq<CostParamEntry>,
    MarshallingError,
>
    decreases count,
{
    if count <= 0 {
        Ok(Seq::empty())
    } else if s.len() < 18 {
        Err(MarshallingError::Malformed)
    } else {
        match (spec_decode_i64(s.subrange(0, 9)), spec_decode_i64(s.subrange(9, 18))) {
            (Ok(c), Ok(l)) => match spec_decode_cost_entries(s.skip(18), count - 1) {
                Ok(es) => Ok(seq![CostParamEntry { const_term: c, linear_term: l }] + es),
                Err(e) => Err(e),
            },
            _ => Err(MarshallingError::Malformed),
        }
    }
}

/// Round trip: a table's entries decode from their own encoding.
pub proof fn lemma_decode_of_encode_cost_entries(es: Seq<CostParamEntry>)
    ensures
        spec_encode_cost_entries(es).len() == es.len() * 18,
        spec_decode_cost_entries(spec_encode_cost_entries(es), es.len() as int) == Ok::<
            _,
            MarshallingError,
        >(es),
    decreases es,
{
    if es.len() == 0 {
        assert(es =~= Seq::<CostParamEntry>::empty());
    } else {
        let e0 = es[0];
        let tail = es.subrange(1, es.len() as int);
        lemma_decode_of_encode_cost_entries(tail);
        let s = spec_encode_cost_entries(es);
        lemma_i64_roundtrip(e0.const_term, spec_encode_i64(e0.linear_term)
            + spec_encode_cost_entries(tail));
        lemma_i64_roundtrip(e0.linear_term, spec_encode_cost_entries(tail));
        assert(s.subrange(0, 9) =~= (spec_encode_i64(e0.const_term) + (spec_encode_i64(
            e0.linear_term,
        ) + spec_encode_cost_entries(tail))).subrange(0, 9));
        assert(s.subrange(9, 18) =~= (spec_encode_i64(e0.linear_term) + spec_encode_cost_entries(
            tail,
        )).subrange(0, 9));
        assert(s.skip(18) =~= spec_encode_cost_entries(tail));
        assert(seq![e0] + tail =~= es);
        assert(es.len() * 18 == 18 + tail.len() * 18) by (nonlinear_arith)
            requires es.len() == tail.len() + 1
        ;
    }
}

/// Round trip: a table decodes from its own encoding, provided its entry
/// count fits the count prefix.
pub proof fn lemma_decode_of_encode_cost_params(p: CostParams)
    requires
        p.entries@.len() <= 0xFFFF_FFFF,
    ensures
        spec_decode_cost_params(spec_encode_cost_params(p)) == Ok::<_, MarshallingError>(
            p.entries@,
        ),
{
    let s = spec_encode_cost_params(p);
    assert(s.subrange(0, 4) =~= spec_be4(p.entries@.len() as u32));
    lemma_be4_roundtrip(p.entries@.len() as u32);
    lemma_decode_of_encode_cost_entries(p.entries@);
    assert(s.skip(4) =~= spec_encode_cost_entries(p.entries@));
}

/// Encodes a cost-parameter table with the fixed, call-independent cost of
/// the trusted internal mode: the table is bounded by its entry count alone.
pub fn encode_contract_cost_params(params: &CostParams) -> (r: Result<Vec<u8>, MarshallingError>)
    ensures
        match r {
            Ok(b) => b@ == spec_encode_cost_params(*params),
            Err(e) => e == MarshallingError::LengthLimitExceeded && params.entries@.len()
                > 0xFFFF_FFFF,
        },
{
    if params.entries.len() as u64 > 0xFFFF_FFFFu64 {
        return Err(MarshallingError::LengthLimitExceeded);
    }
    let mut out: Vec<u8> = Vec::new();
    push_u32_be(params.entries.len() as u32, &mut out);
    let mut i: usize = 0;
    while i < params.entries.len()
        invariant
            i <= params.entries@.len(),
            out@ == spec_be4(params.entries@.len() as u32) + spec_encode_cost_entries(
                params.entries@.take(i as int),
            ),
        decreases params.entries@.len() - i,
    {
        let e = params.entries[i];
        push_i64(e.const_term, &mut out);
        push_i64(e.linear_term, &mut out);
        proof {
            lemma_encode_cost_entries_take_succ(params.entries@, i as int);
            assert(out@ =~= spec_be4(params.entries@.len() as u32) + (spec_encode_cost_entries(
                params.entries@.take(i as int),
            ) + spec_encode_cost_entry(params.entries@[i as int])));
        }
        i = i + 1;
    }
    proof {
        assert(params.entries@.take(params.entries@.len() as int) =~= params.entries@);
    }
    Ok(out)
}

/// The encoding of one more entry extends the encoding of the prefix.
proof fn lemma_encode_cost_entries_take_succ(es: Seq<CostParamEntry>, j: int)
    requires
        0 <= j < es.len(),
    ensures
        spec_encode_cost_entries(es.take(j + 1)) == spec_encode_cost_entries(es.take(j))
            + spec_encode_cost_entry(es[j]),
    decreases j,
{
    if j == 0 {
        assert(es.take(1)[0] == es[0]);
        assert(es.take(1).subrange(1, 1) =~= Seq::<CostParamEntry>::empty());
        assert(spec_encode_cost_entries(es.take(1)) == spec_encode_cost_entry(es[0])
            + spec_encode_cost_entries(es.take(1).subrange(1, 1)));
        assert(spec_encode_cost_entry(es[0]) + Seq::<u8>::empty() =~= spec_encode_cost_entry(
            es[0],
        ));
        assert(es.take(0) =~= Seq::<CostParamEntry>::empty());
        assert(Seq::<u8>::empty() + spec_encode_cost_entry(es[0]) =~= spec_encode_cost_entry(
            es[0],
        ));
    } else {
        let tail = es.subrange(1, es.len() as int);
        lemma_encode_cost_entries_take_succ(tail, j - 1);
        assert(es.take(j + 1)[0] == es[0]);
        assert(es.take(j + 1).subrange(1, j + 1) =~= tail.take(j));
        assert(es.take(j)[0] == es[0]);
        assert(es.take(j).subrange(1, j) =~= tail.take(j - 1));
        assert(tail[j - 1] == es[j]);
        assert((spec_encode_cost_entry(es[0]) + spec_encode_cost_entries(tail.take(j - 1)))
            + spec_encode_cost_entry(es[j]) =~= spec_encode_cost_entry(es[0]) + (
        spec_encode_cost_entries(tail.take(j - 1)) + spec_encode_cost_entry(es[j])));
    }
}

/// Decodes a cost-parameter table from a whole buffer, with the fixed,
/// call-independent cost of the trusted internal mode.
pub fn decode_contract_cost_params(buf: &Vec<u8>) -> (r: Result<CostParams, MarshallingError>)
    ensures
        match r {
            Ok(p) => spec_decode_cost_params(buf@) == Ok::<_, MarshallingError>(p.entries@),
            Err(e) => spec_decode_cost_params(buf@) == Err::<Seq<CostParamEntry>, _>(e),
        },
{
    let len = buf.len();
    if len < 4 {
        return Err(MarshallingError::Malformed);
    }
    let n32 = read_u32_be(buf, 0);
    assert(buf@.subrange(0, 4) =~= buf@.subrange(0int, 4int));
    let n = n32 as usize;
    if n > (usize::MAX - 4) / 18 || len != 4 + n * 18 {
        proof {
            lemma_entry_area_len(n as int);
        }
        return Err(MarshallingError::Malformed);
    }
    let mut entries: Vec<CostParamEntry> = Vec::new();
    let mut i: usize = 0;
    let mut pos: usize = 4;
    #[verifier::loop_isolation(false)]
    while i < n
        invariant
            i <= n,
            pos == 4 + i * 18,
            pos <= buf@.len(),
            entries@.len() == i,
            spec_decode_cost_entries(buf@.skip(4), n as int) == (match spec_decode_cost_entries(
                buf@.skip(pos as int),
                n - i,
            ) {
                Ok(es) => Ok::<_, MarshallingError>(entries@ + es),
                Err(e) => Err(e),
            }),
        decreases n - i,
    {
        proof {
            lemma_entry_area_len(n as int);
            lemma_entry_area_len(i as int);
            assert((i + 1) * 18 == i * 18 + 18) by (nonlinear_arith);
            assert(i * 18 <= n * 18) by (nonlinear_arith)
                requires 0 <= i <= n
            ;
            assert((i + 1) * 18 <= n * 18) by (nonlinear_arith)
                requires 0 <= i + 1 <= n
            ;
        }
        let ghost si = buf@.skip(pos as int);
        assert(si.subrange(0, 9) =~= buf@.subrange(pos as int, pos as int + 9));
        assert(si.subrange(9, 18) =~= buf@.subrange(pos as int + 9, pos as int + 18));
        assert(si.skip(18) =~= buf@.skip(pos as int + 18));
        let c = match read_i64(buf, pos) {
            Ok(c) => c,
            Err(e) => {
                return Err(MarshallingError::Malformed);
            }
        };
        let l = match read_i64(buf, pos + 9) {
            Ok(l) => l,
            Err(e) => {
                return Err(MarshallingError::Malformed);
            }
        };
        let entry = CostParamEntry { const_term: c, linear_term: l };
        proof {
            if let Ok(es) = spec_decode_cost_entries(buf@.skip(pos as int + 18), n - i - 1) {
                assert(entries@ + (seq![entry] + es) =~= entries@.push(entry) + es);
            }
        }
        entries.push(entry);
        pos = pos + 18;
        i = i + 1;
    }
    proof {
        if let Ok(es) = spec_decode_cost_entries(buf@.skip(pos as int), 0) {
            assert(entries@ + Seq::<CostParamEntry>::empty() =~= entries@);
        }
    }
    Ok(CostParams { entries })
}

/// Entry areas have a non-negative multiple of the entry size.
proof fn lemma_entry_area_len(n: int)
    requires
        n >= 0,
    ensures
        n * 18 >= 0,
        n > 0 ==> n * 18 >= 18,
{
    vstd::arithmetic::mul::lemma_mul_nonnegative(n, 18);
    if n > 0 {
        vstd::arithmetic::mul::lemma_mul_inequality(1, n, 18);
    }
}

/// A deployed contract's code entry, as exchanged for the rent computation.
#[derive(Debug, PartialEq, Eq)]
pub struct ContractCodeEntry {
    pub code: Vec<u8>,
}

/// The encoding of a contract code entry: the code length, then the code.
pub open spec fn spec_encode_code_entry(code: Seq<u8>) -> Seq<u8> {
    spec_be4(code.len() as u32) + code
}

/// What decoding a whole buffer as a contract code entry yields.
pub open spec fn spec_decode_code_entry(s: Seq<u8>) -> Result<Seq<u8>, MarshallingError> {
    if s.len() < 4 {
        Err(MarshallingError::Malformed)
    } else {
        let n = spec_u32_of_be(s.subrange(0, 4)) as int;
        if s.len() != 4 + n {
            Err(MarshallingError::Malformed)
        } else {
            Ok(s.skip(4))
        }
    }
}

/// Round trip: a code entry decodes from its own encoding when its length
/// fits the length prefix.
pub proof fn lemma_decode_of_encode_code_entry(code: Seq<u8>)
    requires
        code.len() <= 0xFFFF_FFFF,
    ensures
        spec_decode_code_entry(spec_encode_code_entry(code)) == Ok::<_, MarshallingError>(code),
{
    let s = spec_encode_code_entry(code);
    assert(s.subrange(0, 4) =~= spec_be4(code.len() as u32));
    lemma_be4_roundtrip(code.len() as u32);
    assert(s.skip(4) =~= code);
}

/// Encodes a contract code entry.
pub fn encode_contract_code_entry(entry: &ContractCodeEntry) -> (r: Result<
    Vec<u8>,
    MarshallingError,
>)
    ensures
        match r {
            Ok(b) => b@ == spec_encode_code_entry(entry.code@),
            Err(e) => e == MarshallingError::LengthLimitExceeded && entry.code@.len()
                > 0xFFFF_FFFF,
        },
{
    if entry.code.len() as u64 > 0xFFFF_FFFFu64 {
        return Err(MarshallingError::LengthLimitExceeded);
    }
    let mut out: Vec<u8> = Vec::new();
    push_u32_be(entry.code.len() as u32, &mut out);
    push_bytes(&entry.code, &mut out);
    Ok(out)
}

/// Decodes a contract code entry from a whole buffer.
pub fn decode_contract_code_entry(buf: &Vec<u8>) -> (r: Result<
    ContractCodeEntry,
    MarshallingError,
>)
    ensures
        match r {
            Ok(entry) => spec_decode_code_entry(buf@) == Ok::<_, MarshallingError>(entry.code@),
            Err(e) => spec_decode_code_entry(buf@) == Err::<Seq<u8>, _>(e),
        },
{
    let len = buf.len();
    if len < 4 {
        return Err(MarshallingError::Malformed);
    }
    let n32 = read_u32_be(buf, 0);
    assert(buf@.subrange(0, 4) =~= buf@.subrange(0int, 4int));
    let n = n32 as usize;
    if len < 4 || len - 4 != n {
        return Err(MarshallingError::Malformed);
    }
    let code = read_bytes(buf, 4, n);
    assert(code@ =~= buf@.skip(4));
    Ok(ContractCodeEntry { code })
}

/// A synthesized ledger record that carries one entry's new time-to-live:
/// the key's hash and the new expiration ledger; the last-modified sequence
/// is left at zero for the caller to fill.
#[derive(Debug, PartialEq, Eq)]
pub struct TtlEntryRecord {
    pub last_modified_ledger_seq: u32,
    pub key_hash: Vec<u8>,
    pub live_until_ledger_seq: u32,
}

impl TtlEntryRecord {
    /// The key hash is exactly thirty-two bytes.
    pub open spec fn wf(&self) -> bool {
        self.key_hash@.len() == 32
    }
}

/// The forty-byte layout of a time-to-live record.
pub open spec fn spec_encode_ttl_record(
    last_modified_ledger_seq: u32,
    key_hash: Seq<u8>,
    live_until_ledger_seq: u32,
) -> Seq<u8> {
    spec_be4(last_modified_ledger_seq) + key_hash + spec_be4(live_until_ledger_seq)
}

/// What decoding a whole buffer as a time-to-live record yields.
pub open spec fn spec_decode_ttl_record(s: Seq<u8>) -> Result<
    (u32, Seq<u8>, u32),
    MarshallingError,
> {
    if s.len() != 40 {
        Err(MarshallingError::Malformed)
    } else {
        Ok(
            (
                spec_u32_of_be(s.subrange(0, 4)),
                s.subrange(4, 36),
                spec_u32_of_be(s.subrange(36, 40)),
            ),
        )
    }
}

/// Round trip: a well-formed record decodes from its own encoding.
pub proof fn lemma_decode_of_encode_ttl_record(
    last_modified_ledger_seq: u32,
    key_hash: Seq<u8>,
    live_until_ledger_seq: u32,
)
    requires
        key_hash.len() == 32,
    ensures
        spec_decode_ttl_record(
            spec_encode_ttl_record(last_modified_ledger_seq, key_hash, live_until_ledger_seq),
        ) == Ok::<_, MarshallingError>(
            (last_modified_ledger_seq, key_hash, live_until_ledger_seq),
        ),
{
    let s = spec_encode_ttl_record(last_modified_ledger_seq, key_hash, live_until_ledger_seq);
    assert(s.subrange(0, 4) =~= spec_be4(last_modified_ledger_seq));
    assert(s.subrange(4, 36) =~= key_hash);
    assert(s.subrange(36, 40) =~= spec_be4(live_until_ledger_seq));
    lemma_be4_roundtrip(last_modified_ledger_seq);
    lemma_be4_roundtrip(live_until_ledger_seq);
}

/// Encodes a well-formed time-to-live record; the result is always forty
/// bytes, well under any output limit.
pub fn encode_ttl_record(record: &TtlEntryRecord) -> (r: Vec<u8>)
    requires
        record.wf(),
    ensures
        r@ == spec_encode_ttl_record(
            record.last_modified_ledger_seq,
            record.key_hash@,
            record.live_until_ledger_seq,
        ),
        r@.len() == 40,
{
    let mut out: Vec<u8> = Vec::new();
    push_u32_be(record.last_modified_ledger_seq, &mut out);
    push_bytes(&record.key_hash, &mut out);
    push_u32_be(record.live_until_ledger_seq, &mut out);
    out
}

/// Decodes a time-to-live record from a whole buffer.
pub fn decode_ttl_record(buf: &Vec<u8>) -> (r: Result<TtlEntryRecord, MarshallingError>)
    ensures
        match r {
            Ok(record) => record.wf() && spec_decode_ttl_record(buf@) == Ok::<
                _,
                MarshallingError,
            >(
                (
                    record.last_modified_ledger_seq,
                    record.key_hash@,
                    record.live_until_ledger_seq,
                ),
            ),
            Err(e) => spec_decode_ttl_record(buf@) == Err::<(u32, Seq<u8>, u32), _>(e),
        },
{
    let len = buf.len();
    if len != 40 {
        return Err(MarshallingError::Malformed);
    }
    let last_modified = read_u32_be(buf, 0);
    let key_hash = read_bytes(buf, 4, 32);
    let live_until = read_u32_be(buf, 36);
    assert(buf@.subrange(0, 4) =~= buf@.subrange(0int, 4int));
    assert(key_hash@ =~= buf@.subrange(4, 36));
    assert(buf@.subrange(36, 40) =~= buf@.subrange(36int, 40int));
    Ok(
        TtlEntryRecord {
            last_modified_ledger_seq: last_modified,
            key_hash,
            live_until_ledger_seq: live_until,
        },
    )
}

} // verus!
