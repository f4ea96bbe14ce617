//! Length- and depth-limited binary encoding of the values exchanged across
//! the invocation boundary.
//!
//! Values are encoded with a one-byte tag followed by a fixed layout per
//! variant; lists carry a 32-bit big-endian element count and nest up to a
//! caller-chosen depth limit. Decoding a malformed, truncated or too deeply
//! nested buffer fails with a `MarshallingError` and never panics.

use vstd::prelude::*;
use crate::errors::{ErrorCategory, ErrorCode, HostFault, MarshallingError};

verus! {

broadcast use vstd::std_specs::vec::group_vec_axioms;

/// Nesting depth admitted when decoding structures exchanged with the caller.
pub const MARSHALLING_STACK_LIMIT: u32 = 1000;

/// Largest output the encoder produces: five megabytes.
pub const ENCODE_OUTPUT_LIMIT: usize = 5 * 1024 * 1024;

/// A value exchanged across the invocation boundary, in executable form.
#[derive(Debug, PartialEq, Eq)]
pub enum ScValue {
    Void,
    U64(u64),
    Bytes(Vec<u8>),
    Error(HostFault),
    List(Vec<ScValue>),
}

/// The mathematical model of an exchanged value.
pub enum ValueModel {
    Void,
    U64(u64),
    Bytes(Seq<u8>),
    Error(HostFault),
    List(Seq<ValueModel>),
}

/// The model of an executable value.
pub open spec fn view_value(v: ScValue) -> ValueModel
    decreases v,
{
    match v {
        ScValue::Void => ValueModel::Void,
        ScValue::U64(x) => ValueModel::U64(x),
        ScValue::Bytes(b) => ValueModel::Bytes(b@),
        ScValue::Error(f) => ValueModel::Error(f),
        ScValue::List(vs) => ValueModel::List(view_value_list(vs@)),
    }
}

/// The models of a sequence of executable values, element by element.
pub open spec fn view_value_list(vs: Seq<ScValue>) -> Seq<ValueModel>
    decreases vs,
{
    if vs.len() == 0 {
        Seq::empty()
    } else {
        seq![view_value(vs[0])] + view_value_list(vs.subrange(1, vs.len() as int))
    }
}

impl View for ScValue {
    type V = ValueModel;

    open spec fn view(&self) -> ValueModel {
        view_value(*self)
    }
}

pub proof fn lemma_view_value_list(vs: Seq<ScValue>)
    ensures
        view_value_list(vs).len() == vs.len(),
        forall|i: int| 0 <= i < vs.len() ==> view_value_list(vs)[i] == view_value(vs[i]),
    decreases vs,
{
    if vs.len() > 0 {
        lemma_view_value_list(vs.subrange(1, vs.len() as int));
    }
}

/// Four-byte big-endian encoding of a 32-bit value.
pub open spec fn spec_be4(x: u32) -> Seq<u8> {
    seq![
        ((x as int / 0x1000000) % 0x100) as u8,
        ((x as int / 0x10000) % 0x100) as u8,
        ((x as int / 0x100) % 0x100) as u8,
        (x as int % 0x100) as u8,
    ]
}

/// The 32-bit value read back from four big-endian bytes.
pub open spec fn spec_u32_of_be(s: Seq<u8>) -> u32
    recommends
        s.len() == 4,
{
    (s[0] * 0x1000000 + s[1] * 0x10000 + s[2] * 0x100 + s[3]) as u32
}

/// Eight-byte big-endian encoding of a 64-bit value.
pub open spec fn spec_be8(x: u64) -> Seq<u8> {
    seq![
        ((x as int / 0x100000000000000) % 0x100) as u8,
        ((x as int / 0x1000000000000) % 0x100) as u8,
        ((x as int / 0x10000000000) % 0x100) as u8,
        ((x as int / 0x100000000) % 0x100) as u8,
        ((x as int / 0x1000000) % 0x100) as u8,
        ((x as int / 0x10000) % 0x100) as u8,
        ((x as int / 0x100) % 0x100) as u8,
        (x as int % 0x100) as u8,
    ]
}

/// The 64-bit value read back from eight big-endian bytes.
pub open spec fn spec_u64_of_be(s: Seq<u8>) -> u64
    recommends
        s.len() == 8,
{
    (s[0] * 0x100000000000000 + s[1] * 0x1000000000000 + s[2] * 0x10000000000 + s[3] * 0x100000000
        + s[4] * 0x1000000 + s[5] * 0x10000 + s[6] * 0x100 + s[7]) as u64
}

pub proof fn lemma_be4_roundtrip(x: u32)
    ensures
        spec_u32_of_be(spec_be4(x)) == x,
{
    assert(((x as int / 0x1000000) % 0x100) * 0x1000000 + ((x as int / 0x10000) % 0x100) * 0x10000
        + ((x as int / 0x100) % 0x100) * 0x100 + (x as int % 0x100) == x as int) by (bit_vector);
}

pub proof fn lemma_be8_roundtrip(x: u64)
    ensures
        spec_u64_of_be(spec_be8(x)) == x,
{
    assert(((x as int / 0x100000000000000) % 0x100) * 0x100000000000000 + ((x as int
        / 0x1000000000000) % 0x100) * 0x1000000000000 + ((x as int / 0x10000000000) % 0x100)
        * 0x10000000000 + ((x as int / 0x100000000) % 0x100) * 0x100000000 + ((x as int / 0x1000000)
        % 0x100) * 0x1000000 + ((x as int / 0x10000) % 0x100) * 0x10000 + ((x as int / 0x100)
        % 0x100) * 0x100 + (x as int % 0x100) == x as int) by (bit_vector);
}

/// The byte standing for an error category.
pub open spec fn spec_category_byte(c: ErrorCategory) -> u8 {
    match c {
        ErrorCategory::Contract => 0,
        ErrorCategory::WasmVm => 1,
        ErrorCategory::Context => 2,
        ErrorCategory::Storage => 3,
        ErrorCategory::Object => 4,
        ErrorCategory::Crypto => 5,
        ErrorCategory::Events => 6,
        ErrorCategory::Budget => 7,
        ErrorCategory::Value => 8,
        ErrorCategory::Auth => 9,
    }
}

/// The error category a byte stands for, if any.
pub open spec fn spec_category_of_byte(b: u8) -> Option<ErrorCategory> {
    if b == 0 {
        Some(ErrorCategory::Contract)
    } else if b == 1 {
        Some(ErrorCategory::WasmVm)
    } else if b == 2 {
        Some(ErrorCategory::Context)
    } else if b == 3 {
        Some(ErrorCategory::Storage)
    } else if b == 4 {
        Some(ErrorCategory::Object)
    } else if b == 5 {
        Some(ErrorCategory::Crypto)
    } else if b == 6 {
        Some(ErrorCategory::Events)
    } else if b == 7 {
        Some(ErrorCategory::Budget)
    } else if b == 8 {
        Some(ErrorCategory::Value)
    } else if b == 9 {
        Some(ErrorCategory::Auth)
    } else {
        None
    }
}

/// The byte standing for an error code.
pub open spec fn spec_code_byte(c: ErrorCode) -> u8 {
    match c {
        ErrorCode::ArithDomain => 0,
        ErrorCode::IndexBounds => 1,
        ErrorCode::InvalidInput => 2,
        ErrorCode::MissingValue => 3,
        ErrorCode::ExistingValue => 4,
        ErrorCode::ExceededLimit => 5,
        ErrorCode::InvalidAction => 6,
        ErrorCode::InternalError => 7,
        ErrorCode::UnexpectedType => 8,
        ErrorCode::UnexpectedSize => 9,
    }
}

/// The error code a byte stands for, if any.
pub open spec fn spec_code_of_byte(b: u8) -> Option<ErrorCode> {
    if b == 0 {
        Some(ErrorCode::ArithDomain)
    } else if b == 1 {
        Some(ErrorCode::IndexBounds)
    } else if b == 2 {
        Some(ErrorCode::InvalidInput)
    } else if b == 3 {
        Some(ErrorCode::MissingValue)
    } else if b == 4 {
        Some(ErrorCode::ExistingValue)
    } else if b == 5 {
        Some(ErrorCode::ExceededLimit)
    } else if b == 6 {
        Some(ErrorCode::InvalidAction)
    } else if b == 7 {
        Some(ErrorCode::InternalError)
    } else if b == 8 {
        Some(ErrorCode::UnexpectedType)
    } else if b == 9 {
        Some(ErrorCode::UnexpectedSize)
    } else {
        None
    }
}

/// The encoding of one value: a tag byte followed by the variant's layout.
pub open spec fn spec_encode_value(m: ValueModel) -> Seq<u8>
    decreases m,
{
    match m {
        ValueModel::Void => seq![0u8],
        ValueModel::U64(x) => seq![1u8] + spec_be8(x),
        ValueModel::Bytes(b) => seq![2u8] + spec_be4(b.len() as u32) + b,
        ValueModel::Error(f) => seq![3u8, spec_category_byte(f.category), spec_code_byte(f.code)],
        ValueModel::List(ms) => seq![4u8] + spec_be4(ms.len() as u32) + spec_encode_list(ms),
    }
}

/// The concatenated encodings of a sequence of values.
pub open spec fn spec_encode_list(ms: Seq<ValueModel>) -> Seq<u8>
    decreases ms,
{
    if ms.len() == 0 {
        Seq::empty()
    } else {
        spec_encode_value(ms[0]) + spec_encode_list(ms.subrange(1, ms.len() as int))
    }
}

/// Nesting depth of a value: one for a flat value, one more for each level of
/// list nesting.
pub open spec fn spec_depth_value(m: ValueModel) -> nat
    decreases m,
{
    match m {
        ValueModel::List(ms) => 1 + spec_depth_list(ms),
        _ => 1,
    }
}

/// Largest nesting depth among a sequence of values; zero when empty.
pub open spec fn spec_depth_list(ms: Seq<ValueModel>) -> nat
    decreases ms,
{
    if ms.len() == 0 {
        0
    } else {
        let d0 = spec_depth_value(ms[0]);
        let dr = spec_depth_list(ms.subrange(1, ms.len() as int));
        if d0 >= dr {
            d0
        } else {
            dr
        }
    }
}

/// Well-formed models: every byte string and list is short enough for its
/// 32-bit length prefix.
pub open spec fn spec_wf_value(m: ValueModel) -> bool
    decreases m,
{
    match m {
        ValueModel::Bytes(b) => b.len() <= 0xFFFF_FFFF,
        ValueModel::List(ms) => ms.len() <= 0xFFFF_FFFF && spec_wf_list(ms),
        _ => true,
    }
}

/// Well-formedness of each value of a sequence.
pub open spec fn spec_wf_list(ms: Seq<ValueModel>) -> bool
    decreases ms,
{
    if ms.len() == 0 {
        true
    } else {
        spec_wf_value(ms[0]) && spec_wf_list(ms.subrange(1, ms.len() as int))
    }
}

/// What decoding one value from the front of `s` with `depth_left` admitted
/// levels of nesting yields: the value and the bytes consumed, or the error.
pub open spec fn spec_decode_value(s: Seq<u8>, depth_left: nat) -> Result<
    (ValueModel, int),
    MarshallingError,
>
    decreases s.len(), 0int, 0int,
{
    if depth_left == 0 {
        Err(MarshallingError::DepthLimitExceeded)
    } else if s.len() < 1 {
        Err(MarshallingError::Malformed)
    } else if s[0] == 0 {
        Ok((ValueModel::Void, 1))
    } else if s[0] == 1 {
        if s.len() < 9 {
            Err(MarshallingError::Malformed)
        } else {
            Ok((ValueModel::U64(spec_u64_of_be(s.subrange(1, 9))), 9))
        }
    } else if s[0] == 2 {
        if s.len() < 5 {
            Err(MarshallingError::Malformed)
        } else {
            let n = spec_u32_of_be(s.subrange(1, 5)) as int;
            if s.len() < 5 + n {
                Err(MarshallingError::Malformed)
            } else {
                Ok((ValueModel::Bytes(s.subrange(5, 5 + n)), 5 + n))
            }
        }
    } else if s[0] == 3 {
        if s.len() < 3 {
            Err(MarshallingError::Malformed)
        } else {
            match (spec_category_of_byte(s[1]), spec_code_of_byte(s[2])) {
                (Some(category), Some(code)) => Ok(
                    (ValueModel::Error(HostFault { category, code }), 3),
                ),
                _ => Err(MarshallingError::Malformed),
            }
        }
    } else if s[0] == 4 {
        if s.len() < 5 {
            Err(MarshallingError::Malformed)
        } else {
            let n = spec_u32_of_be(s.subrange(1, 5)) as int;
            match spec_decode_list(s.skip(5), n, (depth_left - 1) as nat) {
                Ok((ms, used)) => Ok((ValueModel::List(ms), 5 + used)),
                Err(e) => Err(e),
            }
        }
    } else {
        Err(MarshallingError::Malformed)
    }
}

/// What decoding `count` values from the front of `s` yields.
pub open spec fn spec_decode_list(s: Seq<u8>, count: int, depth_left: nat) -> Result<
    (Seq<ValueModel>, int),
    MarshallingError,
>
    decreases s.len(), count, 1int,
{
    if count <= 0 {
        Ok((Seq::empty(), 0))
    } else {
        match spec_decode_value(s, depth_left) {
            Ok((m, n)) => if n < 1 || n > s.len() {
                Err(MarshallingError::Malformed)
            } else {
                match spec_decode_list(s.skip(n), count - 1, depth_left) {
                    Ok((ms, n2)) => Ok((seq![m] + ms, n + n2)),
                    Err(e) => Err(e),
                }
            },
            Err(e) => Err(e),
        }
    }
}

pub proof fn lemma_encode_value_len(m: ValueModel)
    ensures
        spec_encode_value(m).len() >= 1,
{
}

/// Round trip: a well-formed value within the depth limit decodes from its
/// own encoding, whatever follows it, and consumes exactly that encoding.
pub proof fn lemma_decode_of_encode_value(m: ValueModel, rest: Seq<u8>, depth_left: nat)
    requires
        spec_wf_value(m),
        spec_depth_value(m) <= depth_left,
    ensures
        spec_decode_value(spec_encode_value(m) + rest, depth_left) == Ok::<
            _,
            MarshallingError,
        >((m, spec_encode_value(m).len() as int)),
    decreases m,
{
    let s = spec_encode_value(m) + rest;
    match m {
        ValueModel::Void => {
        }
        ValueModel::U64(x) => {
            assert(s.subrange(1, 9) =~= spec_be8(x));
            lemma_be8_roundtrip(x);
        }
        ValueModel::Bytes(b) => {
            assert(s.subrange(1, 5) =~= spec_be4(b.len() as u32));
            lemma_be4_roundtrip(b.len() as u32);
            let n = spec_u32_of_be(s.subrange(1, 5)) as int;
            assert(n == b.len());
            assert(s.subrange(5, 5 + n) =~= b);
        }
        ValueModel::Error(f) => {
        }
        ValueModel::List(ms) => {
            assert(s.subrange(1, 5) =~= spec_be4(ms.len() as u32));
            lemma_be4_roundtrip(ms.len() as u32);
            let n = spec_u32_of_be(s.subrange(1, 5)) as int;
            assert(n == ms.len());
            assert(s.skip(5) =~= spec_encode_list(ms) + rest);
            lemma_decode_of_encode_list(ms, rest, (depth_left - 1) as nat);
        }
    }
}

/// Round trip for a sequence of values, element by element.
pub proof fn lemma_decode_of_encode_list(ms: Seq<ValueModel>, rest: Seq<u8>, depth_left: nat)
    requires
        spec_wf_list(ms),
        spec_depth_list(ms) <= depth_left,
    ensures
        spec_decode_list(spec_encode_list(ms) + rest, ms.len() as int, depth_left) == Ok::<
            _,
            MarshallingError,
        >((ms, spec_encode_list(ms).len() as int)),
    decreases ms,
{
    let s = spec_encode_list(ms) + rest;
    if ms.len() == 0 {
        assert(ms =~= Seq::<ValueModel>::empty());
    } else {
        let m0 = ms[0];
        let tail = ms.subrange(1, ms.len() as int);
        assert(s =~= spec_encode_value(m0) + (spec_encode_list(tail) + rest));
        lemma_decode_of_encode_value(m0, spec_encode_list(tail) + rest, depth_left);
        lemma_encode_value_len(m0);
        let n = spec_encode_value(m0).len() as int;
        assert(s.skip(n) =~= spec_encode_list(tail) + rest);
        lemma_decode_of_encode_list(tail, rest, depth_left);
        assert(seq![m0] + tail =~= ms);
    }
}

/// A well-formed value deeper than the admitted nesting fails to decode with
/// the depth error, and with no other.
pub proof fn lemma_decode_too_deep_value(m: ValueModel, rest: Seq<u8>, depth_left: nat)
    requires
        spec_wf_value(m),
        spec_depth_value(m) > depth_left,
    ensures
        spec_decode_value(spec_encode_value(m) + rest, depth_left) == Err::<
            (ValueModel, int),
            _,
        >(MarshallingError::DepthLimitExceeded),
    decreases m,
{
    if depth_left > 0 {
        let s = spec_encode_value(m) + rest;
        match m {
            ValueModel::List(ms) => {
                assert(s.subrange(1, 5) =~= spec_be4(ms.len() as u32));
                lemma_be4_roundtrip(ms.len() as u32);
                assert(s.skip(5) =~= spec_encode_list(ms) + rest);
                lemma_decode_too_deep_list(ms, rest, (depth_left - 1) as nat);
            }
            _ => {
                assert(false);
            }
        }
    }
}

/// Decoding a sequence that holds a value deeper than the admitted nesting
/// fails with the depth error.
pub proof fn lemma_decode_too_deep_list(ms: Seq<ValueModel>, rest: Seq<u8>, depth_left: nat)
    requires
        spec_wf_list(ms),
        spec_depth_list(ms) > depth_left,
    ensures
        spec_decode_list(spec_encode_list(ms) + rest, ms.len() as int, depth_left) == Err::<
            (Seq<ValueModel>, int),
            _,
        >(MarshallingError::DepthLimitExceeded),
    decreases ms,
{
    let s = spec_encode_list(ms) + rest;
    let m0 = ms[0];
    let tail = ms.subrange(1, ms.len() as int);
    assert(s =~= spec_encode_value(m0) + (spec_encode_list(tail) + rest));
    if spec_depth_value(m0) > depth_left {
        lemma_decode_too_deep_value(m0, spec_encode_list(tail) + rest, depth_left);
    } else {
        lemma_decode_of_encode_value(m0, spec_encode_list(tail) + rest, depth_left);
        lemma_encode_value_len(m0);
        let n = spec_encode_value(m0).len() as int;
        assert(s.skip(n) =~= spec_encode_list(tail) + rest);
        lemma_decode_too_deep_list(tail, rest, depth_left);
    }
}

/// Splitting a sequence splits its encoding.
pub proof fn lemma_encode_list_split(ms: Seq<ValueModel>, k: int)
    requires
        0 <= k <= ms.len(),
    ensures
        spec_encode_list(ms) == spec_encode_list(ms.take(k)) + spec_encode_list(ms.skip(k)),
    decreases ms,
{
    if k == 0 {
        assert(ms.take(0) =~= Seq::<ValueModel>::empty());
        assert(ms.skip(0) =~= ms);
        assert(spec_encode_list(ms) =~= spec_encode_list(ms.take(0)) + spec_encode_list(
            ms.skip(0),
        ));
    } else {
        let tail = ms.subrange(1, ms.len() as int);
        lemma_encode_list_split(tail, k - 1);
        assert(ms.take(k)[0] == ms[0]);
        assert(ms.take(k).subrange(1, k) =~= tail.take(k - 1));
        assert(tail.skip(k - 1) =~= ms.skip(k));
        assert(spec_encode_value(ms[0]) + (spec_encode_list(tail.take(k - 1)) + spec_encode_list(
            ms.skip(k),
        )) =~= (spec_encode_value(ms[0]) + spec_encode_list(tail.take(k - 1)))
            + spec_encode_list(ms.skip(k)));
    }
}

/// The encoding of one more element extends the encoding of the prefix.
pub proof fn lemma_encode_list_take_succ(ms: Seq<ValueModel>, j: int)
    requires
        0 <= j < ms.len(),
    ensures
        spec_encode_list(ms.take(j + 1)) == spec_encode_list(ms.take(j)) + spec_encode_value(
            ms[j],
        ),
{
    lemma_encode_list_split(ms.take(j + 1), j);
    assert(ms.take(j + 1).take(j) =~= ms.take(j));
    let single = ms.take(j + 1).skip(j);
    assert(single =~= seq![ms[j]]);
    assert(single.len() == 1);
    assert(single[0] == ms[j]);
    assert(single.subrange(1, 1) =~= Seq::<ValueModel>::empty());
    assert(spec_encode_list(single.subrange(1, 1)) == Seq::<u8>::empty());
    assert(spec_encode_list(single) == spec_encode_value(ms[j]) + Seq::<u8>::empty());
    assert(spec_encode_value(ms[j]) + Seq::<u8>::empty() =~= spec_encode_value(ms[j]));
}

/// A sequence's encoding is at least one byte per element.
pub proof fn lemma_encode_list_len(ms: Seq<ValueModel>)
    ensures
        spec_encode_list(ms).len() >= ms.len(),
    decreases ms,
{
    if ms.len() > 0 {
        lemma_encode_value_len(ms[0]);
        lemma_encode_list_len(ms.subrange(1, ms.len() as int));
    }
}

/// The byte standing for an error category.
pub fn category_byte(c: ErrorCategory) -> (r: u8)
    ensures
        r == spec_category_byte(c),
{
    match c {
        ErrorCategory::Contract => 0,
        ErrorCategory::WasmVm => 1,
        ErrorCategory::Context => 2,
        ErrorCategory::Storage => 3,
        ErrorCategory::Object => 4,
        ErrorCategory::Crypto => 5,
        ErrorCategory::Events => 6,
        ErrorCategory::Budget => 7,
        ErrorCategory::Value => 8,
        ErrorCategory::Auth => 9,
    }
}

/// The error category a byte stands for, if any.
pub fn category_of_byte(b: u8) -> (r: Option<ErrorCategory>)
    ensures
        r == spec_category_of_byte(b),
{
    match b {
        0 => Some(ErrorCategory::Contract),
        1 => Some(ErrorCategory::WasmVm),
        2 => Some(ErrorCategory::Context),
        3 => Some(ErrorCategory::Storage),
        4 => Some(ErrorCategory::Object),
        5 => Some(ErrorCategory::Crypto),
        6 => Some(ErrorCategory::Events),
        7 => Some(ErrorCategory::Budget),
        8 => Some(ErrorCategory::Value),
        9 => Some(ErrorCategory::Auth),
        _ => None,
    }
}

/// The byte standing for an error code.
pub fn code_byte(c: ErrorCode) -> (r: u8)
    ensures
        r == spec_code_byte(c),
{
    match c {
        ErrorCode::ArithDomain => 0,
        ErrorCode::IndexBounds => 1,
        ErrorCode::InvalidInput => 2,
        ErrorCode::MissingValue => 3,
        ErrorCode::ExistingValue => 4,
        ErrorCode::ExceededLimit => 5,
        ErrorCode::InvalidAction => 6,
        ErrorCode::InternalError => 7,
        ErrorCode::UnexpectedType => 8,
        ErrorCode::UnexpectedSize => 9,
    }
}

/// The error code a byte stands for, if any.
pub fn code_of_byte(b: u8) -> (r: Option<ErrorCode>)
    ensures
        r == spec_code_of_byte(b),
{
    match b {
        0 => Some(ErrorCode::ArithDomain),
        1 => Some(ErrorCode::IndexBounds),
        2 => Some(ErrorCode::InvalidInput),
        3 => Some(ErrorCode::MissingValue),
        4 => Some(ErrorCode::ExistingValue),
        5 => Some(ErrorCode::ExceededLimit),
        6 => Some(ErrorCode::InvalidAction),
        7 => Some(ErrorCode::InternalError),
        8 => Some(ErrorCode::UnexpectedType),
        9 => Some(ErrorCode::UnexpectedSize),
        _ => None,
    }
}

/// Appends the four-byte big-endian form of `x`.
pub fn push_u32_be(x: u32, out: &mut Vec<u8>)
    ensures
        final(out)@ == old(out)@ + spec_be4(x),
{
    out.push(((x / 0x1000000) % 0x100) as u8);
    out.push(((x / 0x10000) % 0x100) as u8);
    out.push(((x / 0x100) % 0x100) as u8);
    out.push((x % 0x100) as u8);
    assert(out@ =~= old(out)@ + spec_be4(x));
}

/// Appends the eight-byte big-endian form of `x`.
pub fn push_u64_be(x: u64, out: &mut Vec<u8>)
    ensures
        final(out)@ == old(out)@ + spec_be8(x),
{
    out.push(((x / 0x100000000000000) % 0x100) as u8);
    out.push(((x / 0x1000000000000) % 0x100) as u8);
    out.push(((x / 0x10000000000) % 0x100) as u8);
    out.push(((x / 0x100000000) % 0x100) as u8);
    out.push(((x / 0x1000000) % 0x100) as u8);
    out.push(((x / 0x10000) % 0x100) as u8);
    out.push(((x / 0x100) % 0x100) as u8);
    out.push((x % 0x100) as u8);
    assert(out@ =~= old(out)@ + spec_be8(x));
}

/// Appends a copy of `b`.
pub fn push_bytes(b: &Vec<u8>, out: &mut Vec<u8>)
    ensures
        final(out)@ == old(out)@ + b@,
{
    let mut i: usize = 0;
    while i < b.len()
        invariant
            i <= b@.len(),
            out@ == old(out)@ + b@.take(i as int),
        decreases b@.len() - i,
    {
        out.push(b[i]);
        assert(out@ =~= old(out)@ + b@.take(i + 1));
        i = i + 1;
    }
    assert(b@.take(b@.len() as int) =~= b@);
}

/// A sequence is within a depth bound exactly when each of its values is.
pub proof fn lemma_depth_list_bound(ms: Seq<ValueModel>, d: nat)
    ensures
        (spec_depth_list(ms) <= d) <==> (forall|i: int|
            0 <= i < ms.len() ==> spec_depth_value(#[trigger] ms[i]) <= d),
    decreases ms,
{
    if ms.len() > 0 {
        let tail = ms.subrange(1, ms.len() as int);
        lemma_depth_list_bound(tail, d);
        assert(forall|j: int| 0 <= j < tail.len() ==> #[trigger] tail[j] == ms[j + 1]);
        if spec_depth_list(ms) <= d {
            assert forall|i: int| 0 <= i < ms.len() implies spec_depth_value(#[trigger] ms[i])
                <= d by {
                if i > 0 {
                    assert(tail[i - 1] == ms[i]);
                }
            }
        }
        if forall|i: int| 0 <= i < ms.len() ==> spec_depth_value(#[trigger] ms[i]) <= d {
            assert(spec_depth_value(ms[0]) <= d);
            assert(spec_depth_list(tail) <= d);
        }
    }
}

/// Whether a value nests more deeply than `limit` levels.
pub fn depth_exceeds(v: &ScValue, limit: u32) -> (r: bool)
    ensures
        r == (spec_depth_value(v@) > limit),
    decreases *v,
{
    match v {
        ScValue::List(vs) => {
            if limit == 0 {
                true
            } else {
                proof {
                    assert(*v == ScValue::List(*vs));
                    assert(decreases_to!(ScValue::List(*vs) => *vs));
                    vstd::std_specs::vec::axiom_vec_decreases_to_view(*vs);
                }
                depth_exceeds_any(vs, limit - 1)
            }
        }
        _ => limit == 0,
    }
}

/// Whether any value of the sequence nests more deeply than `limit` levels.
pub fn depth_exceeds_any(vs: &Vec<ScValue>, limit: u32) -> (r: bool)
    ensures
        r == (spec_depth_list(view_value_list(vs@)) > limit),
    decreases vs@,
{
    let ghost ms = view_value_list(vs@);
    proof {
        lemma_view_value_list(vs@);
        lemma_depth_list_bound(ms, limit as nat);
    }
    let mut j: usize = 0;
    #[verifier::loop_isolation(false)]
    while j < vs.len()
        invariant
            j <= vs@.len(),
            forall|t: int| 0 <= t < j ==> spec_depth_value(#[trigger] ms[t]) <= limit,
        decreases vs@.len() - j,
    {
        proof {
            vstd::seq::axiom_seq_index_decreases(vs@, j as int);
        }
        if depth_exceeds(&vs[j], limit) {
            proof {
                assert(ms[j as int] == view_value(vs@[j as int]));
                assert(spec_depth_value(ms[j as int]) > limit);
                assert(!(spec_depth_list(ms) <= limit));
            }
            return true;
        }
        j = j + 1;
    }
    proof {
        assert(spec_depth_list(ms) <= limit);
    }
    false
}

/// Appends the encoding of `v`, or reports that the output limit would be
/// exceeded; the nesting-depth limit is the public encoders' to enforce, and
/// on failure the output holds an unspecified prefix that the caller
/// discards.
pub(crate) fn encode_value_into(v: &ScValue, out: &mut Vec<u8>) -> (r: Result<
    (),
    MarshallingError,
>)
    requires
        old(out)@.len() <= ENCODE_OUTPUT_LIMIT,
    ensures
        match r {
            Ok(()) => final(out)@ == old(out)@ + spec_encode_value(v@) && final(out)@.len()
                <= ENCODE_OUTPUT_LIMIT,
            Err(e) => e == MarshallingError::LengthLimitExceeded && old(out)@.len()
                + spec_encode_value(v@).len() > ENCODE_OUTPUT_LIMIT,
        },
    decreases *v,
{
    match v {
        ScValue::Void => {
            if out.len() + 1 > ENCODE_OUTPUT_LIMIT {
                return Err(MarshallingError::LengthLimitExceeded);
            }
            out.push(0u8);
            assert(out@ =~= old(out)@ + spec_encode_value(v@));
            Ok(())
        }
        ScValue::U64(x) => {
            if out.len() + 9 > ENCODE_OUTPUT_LIMIT {
                return Err(MarshallingError::LengthLimitExceeded);
            }
            out.push(1u8);
            push_u64_be(*x, out);
            assert(out@ =~= old(out)@ + spec_encode_value(v@));
            Ok(())
        }
        ScValue::Bytes(b) => {
            if b.len() > ENCODE_OUTPUT_LIMIT {
                return Err(MarshallingError::LengthLimitExceeded);
            }
            if out.len() + 5 + b.len() > ENCODE_OUTPUT_LIMIT {
                return Err(MarshallingError::LengthLimitExceeded);
            }
            out.push(2u8);
            push_u32_be(b.len() as u32, out);
            push_bytes(b, out);
            assert(out@ =~= old(out)@ + spec_encode_value(v@));
            Ok(())
        }
        ScValue::Error(f) => {
            if out.len() + 3 > ENCODE_OUTPUT_LIMIT {
                return Err(MarshallingError::LengthLimitExceeded);
            }
            out.push(3u8);
            out.push(category_byte(f.category));
            out.push(code_byte(f.code));
            assert(out@ =~= old(out)@ + spec_encode_value(v@));
            Ok(())
        }
        ScValue::List(vs) => {
            let ghost ms = view_value_list(vs@);
            proof {
                lemma_view_value_list(vs@);
                lemma_encode_list_len(ms);
            }
            if vs.len() as u64 > 0xFFFF_FFFFu64 {
                return Err(MarshallingError::LengthLimitExceeded);
            }
            if out.len() + 5 > ENCODE_OUTPUT_LIMIT {
                return Err(MarshallingError::LengthLimitExceeded);
            }
            out.push(4u8);
            push_u32_be(vs.len() as u32, out);
            proof {
                assert(*v == ScValue::List(*vs));
                assert(decreases_to!(ScValue::List(*vs) => *vs));
                vstd::std_specs::vec::axiom_vec_decreases_to_view(*vs);
            }
            let r = encode_value_seq_into(vs, out);
            if r.is_err() {
                return Err(MarshallingError::LengthLimitExceeded);
            }
            proof {
                assert(out@ =~= old(out)@ + spec_encode_value(v@));
            }
            Ok(())
        }
    }
}

/// Appends the concatenated encodings of a sequence of values, or reports
/// that the output limit would be exceeded; the nesting-depth limit is the
/// public encoders' to enforce.
pub(crate) fn encode_value_seq_into(vs: &Vec<ScValue>, out: &mut Vec<u8>) -> (r: Result<
    (),
    MarshallingError,
>)
    requires
        old(out)@.len() <= ENCODE_OUTPUT_LIMIT,
    ensures
        match r {
            Ok(()) => final(out)@ == old(out)@ + spec_encode_list(view_value_list(vs@))
                && final(out)@.len() <= ENCODE_OUTPUT_LIMIT,
            Err(e) => e == MarshallingError::LengthLimitExceeded && old(out)@.len()
                + spec_encode_list(view_value_list(vs@)).len() > ENCODE_OUTPUT_LIMIT,
        },
    decreases vs@,
{
    let ghost ms = view_value_list(vs@);
    proof {
        lemma_view_value_list(vs@);
    }
    let ghost base = out@;
    let mut j: usize = 0;
    #[verifier::loop_isolation(false)]
    while j < vs.len()
        invariant
            j <= vs@.len(),
            ms == view_value_list(vs@),
            ms.len() == vs@.len(),
            forall|t: int| 0 <= t < vs@.len() ==> ms[t] == view_value(vs@[t]),
            base == old(out)@,
            out@ == base + spec_encode_list(ms.take(j as int)),
            out@.len() <= ENCODE_OUTPUT_LIMIT,
        decreases vs@.len() - j,
    {
        proof {
            vstd::seq::axiom_seq_index_decreases(vs@, j as int);
        }
        let r = encode_value_into(&vs[j], out);
        proof {
            lemma_encode_list_split(ms, j as int);
            let sk = ms.skip(j as int);
            assert(sk[0] == ms[j as int]);
            assert(sk.subrange(1, sk.len() as int) =~= ms.skip(j + 1));
            lemma_encode_list_len(ms.skip(j + 1));
        }
        if r.is_err() {
            return Err(MarshallingError::LengthLimitExceeded);
        }
        proof {
            lemma_encode_list_take_succ(ms, j as int);
            assert(out@ =~= base + (spec_encode_list(ms.take(j as int)) + spec_encode_value(
                ms[j as int],
            )));
        }
        j = j + 1;
    }
    proof {
        assert(ms.take(vs@.len() as int) =~= ms);
    }
    Ok(())
}

/// Encodes one value under the nesting-depth limit and the five-megabyte
/// output limit; a value too deep or too large is reported, never truncated.
pub fn encode_value(v: &ScValue) -> (r: Result<Vec<u8>, MarshallingError>)
    ensures
        match r {
            Ok(b) => spec_depth_value(v@) <= MARSHALLING_STACK_LIMIT && b@ == spec_encode_value(
                v@,
            ) && b@.len() <= ENCODE_OUTPUT_LIMIT,
            Err(e) => match e {
                MarshallingError::DepthLimitExceeded => spec_depth_value(v@)
                    > MARSHALLING_STACK_LIMIT,
                MarshallingError::LengthLimitExceeded => spec_depth_value(v@)
                    <= MARSHALLING_STACK_LIMIT && spec_encode_value(v@).len()
                    > ENCODE_OUTPUT_LIMIT,
                MarshallingError::Malformed => false,
            },
        },
{
    if depth_exceeds(v, MARSHALLING_STACK_LIMIT) {
        return Err(MarshallingError::DepthLimitExceeded);
    }
    let mut out: Vec<u8> = Vec::new();
    match encode_value_into(v, &mut out) {
        Ok(()) => {
            assert(out@ =~= spec_encode_value(v@));
            Ok(out)
        }
        Err(e) => Err(e),
    }
}

/// A decoded value consumes at least one byte and at most the buffer.
pub proof fn lemma_decode_value_consumed(s: Seq<u8>, depth_left: nat)
    ensures
        spec_decode_value(s, depth_left) matches Ok((m, n)) ==> 1 <= n <= s.len(),
    decreases s.len(), 0int, 0int,
{
    if depth_left > 0 && s.len() >= 5 && s[0] == 4 {
        let n = spec_u32_of_be(s.subrange(1, 5)) as int;
        lemma_decode_list_consumed(s.skip(5), n, (depth_left - 1) as nat);
    }
}

/// A decoded sequence consumes at most the buffer.
pub proof fn lemma_decode_list_consumed(s: Seq<u8>, count: int, depth_left: nat)
    ensures
        spec_decode_list(s, count, depth_left) matches Ok((ms, n)) ==> 0 <= n <= s.len(),
    decreases s.len(), count, 1int,
{
    if count > 0 {
        lemma_decode_value_consumed(s, depth_left);
        if let Ok((m, n)) = spec_decode_value(s, depth_left) {
            if 1 <= n <= s.len() {
                lemma_decode_list_consumed(s.skip(n), count - 1, depth_left);
            }
        }
    }
}

/// Reads a 32-bit big-endian value.
pub fn read_u32_be(buf: &Vec<u8>, pos: usize) -> (r: u32)
    requires
        pos + 4 <= buf@.len(),
    ensures
        r == spec_u32_of_be(buf@.subrange(pos as int, pos as int + 4)),
{
    let len = buf.len();
    let b0 = buf[pos] as u32;
    let b1 = buf[pos + 1] as u32;
    let b2 = buf[pos + 2] as u32;
    let b3 = buf[pos + 3] as u32;
    b0 * 0x1000000 + b1 * 0x10000 + b2 * 0x100 + b3
}

/// Reads a 64-bit big-endian value.
pub fn read_u64_be(buf: &Vec<u8>, pos: usize) -> (r: u64)
    requires
        pos + 8 <= buf@.len(),
    ensures
        r == spec_u64_of_be(buf@.subrange(pos as int, pos as int + 8)),
{
    let len = buf.len();
    let b0 = buf[pos] as u64;
    let b1 = buf[pos + 1] as u64;
    let b2 = buf[pos + 2] as u64;
    let b3 = buf[pos + 3] as u64;
    let b4 = buf[pos + 4] as u64;
    let b5 = buf[pos + 5] as u64;
    let b6 = buf[pos + 6] as u64;
    let b7 = buf[pos + 7] as u64;
    b0 * 0x100000000000000 + b1 * 0x1000000000000 + b2 * 0x10000000000 + b3 * 0x100000000 + b4
        * 0x1000000 + b5 * 0x10000 + b6 * 0x100 + b7
}

/// Copies `n` bytes out of the buffer.
pub fn read_bytes(buf: &Vec<u8>, pos: usize, n: usize) -> (r: Vec<u8>)
    requires
        pos + n <= buf@.len(),
    ensures
        r@ == buf@.subrange(pos as int, pos as int + n as int),
{
    let len = buf.len();
    let mut out: Vec<u8> = Vec::new();
    let mut i: usize = 0;
    while i < n
        invariant
            i <= n,
            len == buf@.len(),
            pos + n <= buf@.len(),
            out@ == buf@.subrange(pos as int, pos as int + i as int),
        decreases n - i,
    {
        out.push(buf[pos + i]);
        assert(out@ =~= buf@.subrange(pos as int, pos as int + i as int + 1));
        i = i + 1;
    }
    out
}

/// Decodes one value starting at `pos`, exactly as the decode specification
/// says, consuming `end - pos` bytes.
fn decode_value_at(buf: &Vec<u8>, pos: usize, depth_left: u32) -> (r: Result<
    (ScValue, usize),
    MarshallingError,
>)
    requires
        pos <= buf@.len(),
    ensures
        match r {
            Ok((v, end)) => pos <= end <= buf@.len() && spec_decode_value(
                buf@.skip(pos as int),
                depth_left as nat,
            ) == Ok::<_, MarshallingError>((v@, end - pos)),
            Err(e) => spec_decode_value(buf@.skip(pos as int), depth_left as nat) == Err::<
                (ValueModel, int),
                _,
            >(e),
        },
    decreases buf@.len() - pos, 0int,
{
    let ghost s = buf@.skip(pos as int);
    assert(s.len() == buf@.len() - pos);
    if depth_left == 0 {
        return Err(MarshallingError::DepthLimitExceeded);
    }
    if pos >= buf.len() {
        return Err(MarshallingError::Malformed);
    }
    let tag = buf[pos];
    assert(s[0] == buf@[pos as int]);
    if tag == 0 {
        Ok((ScValue::Void, pos + 1))
    } else if tag == 1 {
        if buf.len() - pos < 9 {
            return Err(MarshallingError::Malformed);
        }
        let x = read_u64_be(buf, pos + 1);
        assert(buf@.subrange(pos as int + 1, pos as int + 9) =~= s.subrange(1, 9));
        Ok((ScValue::U64(x), pos + 9))
    } else if tag == 2 {
        if buf.len() - pos < 5 {
            return Err(MarshallingError::Malformed);
        }
        let n32 = read_u32_be(buf, pos + 1);
        assert(buf@.subrange(pos as int + 1, pos as int + 5) =~= s.subrange(1, 5));
        let n = n32 as usize;
        if buf.len() - pos - 5 < n {
            return Err(MarshallingError::Malformed);
        }
        let b = read_bytes(buf, pos + 5, n);
        assert(b@ =~= s.subrange(5, 5 + n as int));
        Ok((ScValue::Bytes(b), pos + 5 + n))
    } else if tag == 3 {
        if buf.len() - pos < 3 {
            return Err(MarshallingError::Malformed);
        }
        assert(s[1] == buf@[pos as int + 1]);
        assert(s[2] == buf@[pos as int + 2]);
        match (category_of_byte(buf[pos + 1]), code_of_byte(buf[pos + 2])) {
            (Some(category), Some(code)) => Ok(
                (ScValue::Error(HostFault { category, code }), pos + 3),
            ),
            _ => Err(MarshallingError::Malformed),
        }
    } else if tag == 4 {
        if buf.len() - pos < 5 {
            return Err(MarshallingError::Malformed);
        }
        let n32 = read_u32_be(buf, pos + 1);
        assert(buf@.subrange(pos as int + 1, pos as int + 5) =~= s.subrange(1, 5));
        assert(s.skip(5) =~= buf@.skip(pos as int + 5));
        match decode_list_at(buf, pos + 5, n32, depth_left - 1) {
            Ok((vs, end)) => Ok((ScValue::List(vs), end)),
            Err(e) => Err(e),
        }
    } else {
        Err(MarshallingError::Malformed)
    }
}

/// Decodes `count` consecutive values starting at `pos`.
fn decode_list_at(buf: &Vec<u8>, pos: usize, count: u32, depth_left: u32) -> (r: Result<
    (Vec<ScValue>, usize),
    MarshallingError,
>)
    requires
        pos <= buf@.len(),
    ensures
        match r {
            Ok((vs, end)) => pos <= end <= buf@.len() && spec_decode_list(
                buf@.skip(pos as int),
                count as int,
                depth_left as nat,
            ) == Ok::<_, MarshallingError>((view_value_list(vs@), end - pos)),
            Err(e) => spec_decode_list(buf@.skip(pos as int), count as int, depth_left as nat)
                == Err::<(Seq<ValueModel>, int), _>(e),
        },
    decreases buf@.len() - pos, 1int,
{
    let ghost s0 = buf@.skip(pos as int);
    let mut vs: Vec<ScValue> = Vec::new();
    let mut cur: usize = pos;
    let mut i: u32 = 0;
    proof {
        if let Ok((ms, n)) = spec_decode_list(s0, count as int, depth_left as nat) {
            assert(view_value_list(vs@) + ms =~= ms);
        }
    }
    #[verifier::loop_isolation(false)]
    while i < count
        invariant
            pos <= cur <= buf@.len(),
            i <= count,
            spec_decode_list(s0, count as int, depth_left as nat) == (match spec_decode_list(
                buf@.skip(cur as int),
                count - i,
                depth_left as nat,
            ) {
                Ok((ms, n)) => Ok::<_, MarshallingError>(
                    (view_value_list(vs@) + ms, cur - pos + n),
                ),
                Err(e) => Err(e),
            }),
        decreases count - i,
    {
        let ghost si = buf@.skip(cur as int);
        match decode_value_at(buf, cur, depth_left) {
            Ok((v, end)) => {
                proof {
                    lemma_decode_value_consumed(si, depth_left as nat);
                    assert(si.skip(end - cur) =~= buf@.skip(end as int));
                    lemma_view_value_list(vs@);
                    lemma_view_value_list(vs@.push(v));
                    assert(view_value_list(vs@.push(v)) =~= view_value_list(vs@) + seq![v@]);
                    let r_next = spec_decode_list(
                        buf@.skip(end as int),
                        count - i - 1,
                        depth_left as nat,
                    );
                    if let Ok((ms, n2)) = r_next {
                        assert((view_value_list(vs@) + (seq![v@] + ms)) =~= (view_value_list(
                            vs@.push(v),
                        ) + ms));
                    }
                }
                vs.push(v);
                cur = end;
                i = i + 1;
            }
            Err(e) => {
                return Err(e);
            }
        }
    }
    proof {
        assert(view_value_list(vs@) + Seq::<ValueModel>::empty() =~= view_value_list(vs@));
    }
    Ok((vs, cur))
}

/// Decodes a whole buffer as one value under the given depth limit; trailing
/// bytes are malformed input.
pub fn decode_value(buf: &Vec<u8>, depth_limit: u32) -> (r: Result<ScValue, MarshallingError>)
    ensures
        match r {
            Ok(v) => spec_decode_value(buf@, depth_limit as nat) == Ok::<_, MarshallingError>(
                (v@, buf@.len() as int),
            ),
            Err(e) => match spec_decode_value(buf@, depth_limit as nat) {
                Ok((m, n)) => n != buf@.len() && e == MarshallingError::Malformed,
                Err(e2) => e == e2,
            },
        },
{
    assert(buf@.skip(0) =~= buf@);
    match decode_value_at(buf, 0, depth_limit) {
        Ok((v, end)) => {
            if end != buf.len() {
                Err(MarshallingError::Malformed)
            } else {
                Ok(v)
            }
        }
        Err(e) => Err(e),
    }
}

/// Syntactic validity of an encoded transaction envelope: the buffer decodes
/// in full as one value within the given nesting depth. Never panics, never
/// inspects the decoded content.
pub fn can_parse_transaction(xdr: &Vec<u8>, depth_limit: u32) -> (r: bool)
    ensures
        r == (spec_decode_value(xdr@, depth_limit as nat) matches Ok((m, n)) && n == xdr@.len()),
{
    decode_value(xdr, depth_limit).is_ok()
}

} // verus!
