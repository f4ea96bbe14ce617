//! Protocol fee formulas: declared-resource fees, rent fees for extending
//! entry lifetimes, and the state-size dependent rent write-fee rate.
//!
//! Every formula is pure, callable standalone, non-negative on the inputs the
//! protocol admits, and non-decreasing in each resource dimension.

use vstd::prelude::*;
use vstd::arithmetic::div_mod::lemma_div_is_ordered;
use vstd::arithmetic::mul::{lemma_mul_inequality, lemma_mul_nonnegative, lemma_mul_upper_bound};
use crate::budget::{spec_cost_type_index, spec_entries_valid, spec_param_cost, Budget, CostType};
use crate::errors::{ErrorCategory, ErrorCode, HostFault};
use crate::xdr::{
    decode_contract_code_entry, decode_contract_cost_params, spec_decode_code_entry,
    spec_decode_cost_params,
};

verus! {

/// Instruction count covered by one instruction-fee increment.
pub const INSTRUCTIONS_INCREMENT: u64 = 10000;

/// Bytes covered by one per-kilobyte fee rate.
pub const DATA_SIZE_1KB: u64 = 1024;

/// Fixed size charged for the result of a transaction in historical storage.
pub const TX_BASE_RESULT_SIZE: u32 = 300;

/// Encoded size of one synthesized time-to-live record.
pub const TTL_RECORD_SIZE_BYTES: u32 = 40;

/// Resource usage declared by a transaction.
#[derive(Clone, Copy, Debug, PartialEq, Eq, Structural)]
pub struct TransactionResources {
    pub instructions: u32,
    pub disk_read_entries: u32,
    pub write_entries: u32,
    pub disk_read_bytes: u32,
    pub write_bytes: u32,
    pub contract_events_size_bytes: u32,
    pub transaction_size_bytes: u32,
}

/// Network fee rates for declared resources.
#[derive(Clone, Copy, Debug, PartialEq, Eq, Structural)]
pub struct FeeConfiguration {
    pub fee_per_instruction_increment: i64,
    pub fee_per_disk_read_entry: i64,
    pub fee_per_write_entry: i64,
    pub fee_per_disk_read_1kb: i64,
    pub fee_per_write_1kb: i64,
    pub fee_per_historical_1kb: i64,
    pub fee_per_contract_event_1kb: i64,
    pub fee_per_transaction_size_1kb: i64,
}

impl FeeConfiguration {
    /// A configuration the formulas accept: no negative rate.
    pub open spec fn spec_valid(&self) -> bool {
        &&& self.fee_per_instruction_increment >= 0
        &&& self.fee_per_disk_read_entry >= 0
        &&& self.fee_per_write_entry >= 0
        &&& self.fee_per_disk_read_1kb >= 0
        &&& self.fee_per_write_1kb >= 0
        &&& self.fee_per_historical_1kb >= 0
        &&& self.fee_per_contract_event_1kb >= 0
        &&& self.fee_per_transaction_size_1kb >= 0
    }
}

/// The two components of a transaction's resource fee.
#[derive(Clone, Copy, Debug, PartialEq, Eq, Structural)]
pub struct FeePair {
    pub non_refundable_fee: i64,
    pub refundable_fee: i64,
}

/// Division rounding towards positive infinity, for non-negative operands.
pub open spec fn spec_ceil_div(a: int, b: int) -> int
    recommends
        a >= 0,
        b >= 1,
{
    (a + b - 1) / b
}

/// Fee owed for `resource` units charged at `rate` per `increment` units,
/// rounded up to the next increment.
pub open spec fn spec_fee_per_increment(resource: int, rate: int, increment: int) -> int
    recommends
        resource >= 0,
        rate >= 0,
        increment >= 1,
{
    spec_ceil_div(resource * rate, increment)
}

/// Clamp into the representable fee range; the formulas never go negative.
pub open spec fn spec_clamp_fee(x: int) -> int {
    if x > i64::MAX {
        i64::MAX as int
    } else {
        x
    }
}

/// The non-refundable component: compute, storage, historical and bandwidth
/// fees for the declared resources, before clamping.
pub open spec fn spec_non_refundable_fee(r: TransactionResources, c: FeeConfiguration) -> int {
    spec_fee_per_increment(
        r.instructions as int,
        c.fee_per_instruction_increment as int,
        INSTRUCTIONS_INCREMENT as int,
    ) + r.disk_read_entries * c.fee_per_disk_read_entry + r.write_entries * c.fee_per_write_entry
        + spec_fee_per_increment(
        r.disk_read_bytes as int,
        c.fee_per_disk_read_1kb as int,
        DATA_SIZE_1KB as int,
    ) + spec_fee_per_increment(
        r.write_bytes as int,
        c.fee_per_write_1kb as int,
        DATA_SIZE_1KB as int,
    ) + spec_fee_per_increment(
        r.transaction_size_bytes + TX_BASE_RESULT_SIZE,
        c.fee_per_historical_1kb as int,
        DATA_SIZE_1KB as int,
    ) + spec_fee_per_increment(
        r.transaction_size_bytes as int,
        c.fee_per_transaction_size_1kb as int,
        DATA_SIZE_1KB as int,
    )
}

/// The refundable component: the contract-event fee, before clamping.
pub open spec fn spec_refundable_fee(r: TransactionResources, c: FeeConfiguration) -> int {
    spec_fee_per_increment(
        r.contract_events_size_bytes as int,
        c.fee_per_contract_event_1kb as int,
        DATA_SIZE_1KB as int,
    )
}

/// The rounded-up incremental fee is non-negative and within one extra bound.
proof fn lemma_fee_per_increment_bounds(resource: int, rate: int, increment: int)
    requires
        0 <= resource <= 0xFFFF_FFFF_FFFF,
        0 <= rate <= 0x7FFF_FFFF_FFFF_FFFF,
        1 <= increment <= 0x1_0000_0000_0000_0000,
    ensures
        0 <= spec_fee_per_increment(resource, rate, increment) <= 0x1_0000_0000_0000_0000_0000_0000_0000,
{
    lemma_mul_nonnegative(resource, rate);
    lemma_mul_upper_bound(resource, 0xFFFF_FFFF_FFFF, rate, 0x7FFF_FFFF_FFFF_FFFF);
    lemma_div_is_ordered(
        0,
        resource * rate + increment - 1,
        increment,
    );
    lemma_div_is_ordered(
        resource * rate + increment - 1,
        0xFFFF_FFFF_FFFFint * 0x7FFF_FFFF_FFFF_FFFF + 0x1_0000_0000_0000_0000,
        increment,
    );
    assert((0xFFFF_FFFF_FFFFint * 0x7FFF_FFFF_FFFF_FFFF + 0x1_0000_0000_0000_0000) / increment
        <= 0xFFFF_FFFF_FFFFint * 0x7FFF_FFFF_FFFF_FFFF + 0x1_0000_0000_0000_0000) by {
        vstd::arithmetic::div_mod::lemma_div_is_ordered_by_denominator(
            0xFFFF_FFFF_FFFFint * 0x7FFF_FFFF_FFFF_FFFF + 0x1_0000_0000_0000_0000,
            1,
            increment,
        );
    }
}

/// Fee owed for `resource` units at `rate` per `increment` units, rounded up,
/// computed exactly in wide arithmetic.
fn fee_per_increment(resource: u64, rate: i64, increment: u64) -> (r: u128)
    requires
        resource <= 0xFFFF_FFFF_FFFF,
        rate >= 0,
        increment >= 1,
    ensures
        r == spec_fee_per_increment(resource as int, rate as int, increment as int),
        r <= 0x1_0000_0000_0000_0000_0000_0000_0000,
{
    proof {
        lemma_fee_per_increment_bounds(resource as int, rate as int, increment as int);
        lemma_mul_nonnegative(resource as int, rate as int);
        lemma_mul_upper_bound(resource as int, 0xFFFF_FFFF_FFFF, rate as int, 0x7FFF_FFFF_FFFF_FFFF);
    }
    (resource as u128 * rate as u128 + (increment as u128 - 1)) / increment as u128
}

/// Computes the resource fee a transaction owes for its declared resources:
/// a non-refundable part covering compute, storage access, historical storage
/// and bandwidth, and a refundable part covering contract events. Both parts
/// are non-negative whenever the declared resources are.
pub fn compute_transaction_resource_fee(
    tx_resources: TransactionResources,
    fee_config: FeeConfiguration,
) -> (r: FeePair)
    requires
        fee_config.spec_valid(),
    ensures
        r.non_refundable_fee == spec_clamp_fee(spec_non_refundable_fee(tx_resources, fee_config)),
        r.refundable_fee == spec_clamp_fee(spec_refundable_fee(tx_resources, fee_config)),
        r.non_refundable_fee >= 0,
        r.refundable_fee >= 0,
{
    let compute_fee = fee_per_increment(
        tx_resources.instructions as u64,
        fee_config.fee_per_instruction_increment,
        INSTRUCTIONS_INCREMENT,
    );
    let read_entries_fee = fee_per_increment(
        tx_resources.disk_read_entries as u64,
        fee_config.fee_per_disk_read_entry,
        1,
    );
    let write_entries_fee = fee_per_increment(
        tx_resources.write_entries as u64,
        fee_config.fee_per_write_entry,
        1,
    );
    let read_bytes_fee = fee_per_increment(
        tx_resources.disk_read_bytes as u64,
        fee_config.fee_per_disk_read_1kb,
        DATA_SIZE_1KB,
    );
    let write_bytes_fee = fee_per_increment(
        tx_resources.write_bytes as u64,
        fee_config.fee_per_write_1kb,
        DATA_SIZE_1KB,
    );
    let historical_fee = fee_per_increment(
        tx_resources.transaction_size_bytes as u64 + TX_BASE_RESULT_SIZE as u64,
        fee_config.fee_per_historical_1kb,
        DATA_SIZE_1KB,
    );
    let bandwidth_fee = fee_per_increment(
        tx_resources.transaction_size_bytes as u64,
        fee_config.fee_per_transaction_size_1kb,
        DATA_SIZE_1KB,
    );
    let events_fee = fee_per_increment(
        tx_resources.contract_events_size_bytes as u64,
        fee_config.fee_per_contract_event_1kb,
        DATA_SIZE_1KB,
    );
    let non_refundable: u128 = compute_fee + read_entries_fee + write_entries_fee + read_bytes_fee
        + write_bytes_fee + historical_fee + bandwidth_fee;
    let non_refundable_fee: i64 = if non_refundable > i64::MAX as u128 {
        i64::MAX
    } else {
        non_refundable as i64
    };
    let refundable_fee: i64 = if events_fee > i64::MAX as u128 {
        i64::MAX
    } else {
        events_fee as i64
    };
    proof {
        assert(spec_fee_per_increment(
            tx_resources.disk_read_entries as int,
            fee_config.fee_per_disk_read_entry as int,
            1,
        ) == tx_resources.disk_read_entries * fee_config.fee_per_disk_read_entry);
        assert(spec_fee_per_increment(
            tx_resources.write_entries as int,
            fee_config.fee_per_write_entry as int,
            1,
        ) == tx_resources.write_entries * fee_config.fee_per_write_entry);
    }
    FeePair { non_refundable_fee, refundable_fee }
}

/// Resource fees never decrease when any one declared resource grows, for a
/// fixed fee configuration.
pub proof fn lemma_resource_fee_monotonic(
    r1: TransactionResources,
    r2: TransactionResources,
    c: FeeConfiguration,
)
    requires
        c.spec_valid(),
        r1.instructions <= r2.instructions,
        r1.disk_read_entries <= r2.disk_read_entries,
        r1.write_entries <= r2.write_entries,
        r1.disk_read_bytes <= r2.disk_read_bytes,
        r1.write_bytes <= r2.write_bytes,
        r1.contract_events_size_bytes <= r2.contract_events_size_bytes,
        r1.transaction_size_bytes <= r2.transaction_size_bytes,
    ensures
        spec_clamp_fee(spec_non_refundable_fee(r1, c)) <= spec_clamp_fee(
            spec_non_refundable_fee(r2, c),
        ),
        spec_clamp_fee(spec_refundable_fee(r1, c)) <= spec_clamp_fee(spec_refundable_fee(r2, c)),
{
    lemma_fee_monotonic_in_resource(
        r1.instructions as int,
        r2.instructions as int,
        c.fee_per_instruction_increment as int,
        INSTRUCTIONS_INCREMENT as int,
    );
    lemma_fee_monotonic_in_resource(
        r1.disk_read_entries as int,
        r2.disk_read_entries as int,
        c.fee_per_disk_read_entry as int,
        1,
    );
    lemma_fee_monotonic_in_resource(
        r1.write_entries as int,
        r2.write_entries as int,
        c.fee_per_write_entry as int,
        1,
    );
    lemma_fee_monotonic_in_resource(
        r1.disk_read_bytes as int,
        r2.disk_read_bytes as int,
        c.fee_per_disk_read_1kb as int,
        DATA_SIZE_1KB as int,
    );
    lemma_fee_monotonic_in_resource(
        r1.write_bytes as int,
        r2.write_bytes as int,
        c.fee_per_write_1kb as int,
        DATA_SIZE_1KB as int,
    );
    lemma_fee_monotonic_in_resource(
        r1.transaction_size_bytes + TX_BASE_RESULT_SIZE,
        r2.transaction_size_bytes + TX_BASE_RESULT_SIZE,
        c.fee_per_historical_1kb as int,
        DATA_SIZE_1KB as int,
    );
    lemma_fee_monotonic_in_resource(
        r1.transaction_size_bytes as int,
        r2.transaction_size_bytes as int,
        c.fee_per_transaction_size_1kb as int,
        DATA_SIZE_1KB as int,
    );
    lemma_fee_monotonic_in_resource(
        r1.contract_events_size_bytes as int,
        r2.contract_events_size_bytes as int,
        c.fee_per_contract_event_1kb as int,
        DATA_SIZE_1KB as int,
    );
}

/// Rent-relevant change of one ledger entry: its durability, its size before
/// and after the call, and its expiration ledger before and after.
#[derive(Clone, Copy, Debug, PartialEq, Eq, Structural)]
pub struct LedgerEntryRentChange {
    pub is_persistent: bool,
    pub old_size_bytes: u32,
    pub new_size_bytes: u32,
    pub old_live_until_ledger: u32,
    pub new_live_until_ledger: u32,
}

/// Network parameters of the rent formula.
#[derive(Clone, Copy, Debug, PartialEq, Eq, Structural)]
pub struct RentFeeConfiguration {
    pub fee_per_rent_1kb: i64,
    pub fee_per_write_1kb: i64,
    pub fee_per_write_entry: i64,
    pub persistent_rent_rate_denominator: i64,
    pub temporary_rent_rate_denominator: i64,
}

impl RentFeeConfiguration {
    /// A configuration the rent formula accepts: non-negative rates and
    /// positive rate denominators.
    pub open spec fn spec_valid(&self) -> bool {
        &&& self.fee_per_rent_1kb >= 0
        &&& self.fee_per_write_1kb >= 0
        &&& self.fee_per_write_entry >= 0
        &&& self.persistent_rent_rate_denominator >= 1
        &&& self.temporary_rent_rate_denominator >= 1
    }
}

/// Ledgers of life the change buys: from the later of the old expiration and
/// the current ledger, up to the new expiration.
pub open spec fn spec_rent_extension(e: LedgerEntryRentChange, current_ledger_seq: u32) -> int {
    let base = if e.old_live_until_ledger >= current_ledger_seq {
        e.old_live_until_ledger as int
    } else {
        current_ledger_seq as int
    };
    e.new_live_until_ledger - base
}

/// Fee for writing the one synthesized time-to-live record an extension costs.
pub open spec fn spec_ttl_write_fee(c: RentFeeConfiguration) -> int {
    c.fee_per_write_entry + spec_fee_per_increment(
        TTL_RECORD_SIZE_BYTES as int,
        c.fee_per_write_1kb as int,
        DATA_SIZE_1KB as int,
    )
}

/// Rent one entry owes: the extended lifetime, charged on the entry's new
/// size at the per-kilobyte rent rate scaled by the durability's rate
/// denominator, plus the write fee of the time-to-live record; nothing when
/// the lifetime does not grow.
pub open spec fn spec_entry_rent_fee(
    e: LedgerEntryRentChange,
    c: RentFeeConfiguration,
    current_ledger_seq: u32,
) -> int {
    let ext = spec_rent_extension(e, current_ledger_seq);
    let denom = if e.is_persistent {
        c.persistent_rent_rate_denominator as int
    } else {
        c.temporary_rent_rate_denominator as int
    };
    if ext > 0 {
        spec_ceil_div(
            e.new_size_bytes * c.fee_per_rent_1kb * ext,
            DATA_SIZE_1KB * denom,
        ) + spec_ttl_write_fee(c)
    } else {
        0
    }
}

/// Addition of fees, saturating at the largest representable fee.
pub open spec fn spec_sat_add_fee(a: int, b: int) -> int {
    if a + b > i64::MAX {
        i64::MAX as int
    } else {
        a + b
    }
}

/// Total rent a change list owes: each entry's clamped fee, summed with
/// saturation.
pub open spec fn spec_rent_fee(
    changes: Seq<LedgerEntryRentChange>,
    c: RentFeeConfiguration,
    current_ledger_seq: u32,
) -> int
    decreases changes,
{
    if changes.len() == 0 {
        0
    } else {
        spec_sat_add_fee(
            spec_rent_fee(changes.drop_last(), c, current_ledger_seq),
            spec_clamp_fee(spec_entry_rent_fee(changes.last(), c, current_ledger_seq)),
        )
    }
}

/// One entry's rent fee is never negative, for a valid configuration.
pub proof fn lemma_entry_rent_fee_nonneg(
    e: LedgerEntryRentChange,
    c: RentFeeConfiguration,
    current_ledger_seq: u32,
)
    requires
        c.spec_valid(),
    ensures
        spec_entry_rent_fee(e, c, current_ledger_seq) >= 0,
{
    let ext = spec_rent_extension(e, current_ledger_seq);
    if ext > 0 {
        let denom = if e.is_persistent {
            c.persistent_rent_rate_denominator as int
        } else {
            c.temporary_rent_rate_denominator as int
        };
        lemma_mul_nonnegative(e.new_size_bytes as int, c.fee_per_rent_1kb as int);
        lemma_mul_nonnegative(e.new_size_bytes * c.fee_per_rent_1kb, ext);
        lemma_div_is_ordered(
            0,
            e.new_size_bytes * c.fee_per_rent_1kb * ext + DATA_SIZE_1KB * denom - 1,
            DATA_SIZE_1KB * denom,
        );
        lemma_fee_per_increment_bounds(
            TTL_RECORD_SIZE_BYTES as int,
            c.fee_per_write_1kb as int,
            DATA_SIZE_1KB as int,
        );
    }
}

/// Bounds of the wide arithmetic inside one entry's rent computation.
proof fn lemma_entry_rent_fee_bounds(
    e: LedgerEntryRentChange,
    c: RentFeeConfiguration,
    current_ledger_seq: u32,
)
    requires
        c.spec_valid(),
    ensures
        0 <= e.new_size_bytes * c.fee_per_rent_1kb <= 0xFFFF_FFFFint * 0x7FFF_FFFF_FFFF_FFFF,
        spec_rent_extension(e, current_ledger_seq) > 0 ==> 0 <= e.new_size_bytes
            * c.fee_per_rent_1kb * spec_rent_extension(e, current_ledger_seq) <= (0xFFFF_FFFFint
            * 0x7FFF_FFFF_FFFF_FFFF) * 0xFFFF_FFFF,
{
    lemma_mul_nonnegative(e.new_size_bytes as int, c.fee_per_rent_1kb as int);
    lemma_mul_upper_bound(
        e.new_size_bytes as int,
        0xFFFF_FFFF,
        c.fee_per_rent_1kb as int,
        0x7FFF_FFFF_FFFF_FFFF,
    );
    let ext = spec_rent_extension(e, current_ledger_seq);
    if ext > 0 {
        lemma_mul_nonnegative(e.new_size_bytes * c.fee_per_rent_1kb, ext);
        lemma_mul_upper_bound(
            e.new_size_bytes * c.fee_per_rent_1kb,
            0xFFFF_FFFFint * 0x7FFF_FFFF_FFFF_FFFF,
            ext,
            0xFFFF_FFFF,
        );
    }
}

/// Rent one entry owes, computed exactly in wide arithmetic and clamped.
fn entry_rent_fee(e: &LedgerEntryRentChange, c: &RentFeeConfiguration, current_ledger_seq: u32)
    -> (r: i64)
    requires
        c.spec_valid(),
    ensures
        r == spec_clamp_fee(spec_entry_rent_fee(*e, *c, current_ledger_seq)),
        r >= 0,
{
    proof {
        lemma_entry_rent_fee_nonneg(*e, *c, current_ledger_seq);
        lemma_entry_rent_fee_bounds(*e, *c, current_ledger_seq);
        lemma_fee_per_increment_bounds(
            TTL_RECORD_SIZE_BYTES as int,
            c.fee_per_write_1kb as int,
            DATA_SIZE_1KB as int,
        );
    }
    let base = if e.old_live_until_ledger >= current_ledger_seq {
        e.old_live_until_ledger
    } else {
        current_ledger_seq
    };
    if e.new_live_until_ledger <= base {
        return 0;
    }
    let ext: u64 = e.new_live_until_ledger as u64 - base as u64;
    let denom: i64 = if e.is_persistent {
        c.persistent_rent_rate_denominator
    } else {
        c.temporary_rent_rate_denominator
    };
    let numerator: u128 = e.new_size_bytes as u128 * c.fee_per_rent_1kb as u128 * ext as u128;
    let divisor: u128 = DATA_SIZE_1KB as u128 * denom as u128;
    let rent: u128 = (numerator + divisor - 1) / divisor;
    let ttl_write: u128 = c.fee_per_write_entry as u128 + fee_per_increment(
        TTL_RECORD_SIZE_BYTES as u64,
        c.fee_per_write_1kb,
        DATA_SIZE_1KB,
    );
    let total: u128 = rent + ttl_write;
    if total > i64::MAX as u128 {
        i64::MAX
    } else {
        total as i64
    }
}

/// Computes the total rent fee a change list owes under the given
/// configuration at the current ledger sequence. The fee is never negative.
pub fn compute_rent_fee(
    changed_entries: &Vec<LedgerEntryRentChange>,
    fee_config: RentFeeConfiguration,
    current_ledger_seq: u32,
) -> (r: i64)
    requires
        fee_config.spec_valid(),
    ensures
        r == spec_rent_fee(changed_entries@, fee_config, current_ledger_seq),
        r >= 0,
{
    let mut total: i64 = 0;
    let mut i: usize = 0;
    while i < changed_entries.len()
        invariant
            i <= changed_entries@.len(),
            fee_config.spec_valid(),
            0 <= total <= i64::MAX,
            total == spec_rent_fee(changed_entries@.take(i as int), fee_config, current_ledger_seq),
        decreases changed_entries@.len() - i,
    {
        let entry_fee = entry_rent_fee(&changed_entries[i], &fee_config, current_ledger_seq);
        proof {
            assert(changed_entries@.take(i as int + 1).drop_last() =~= changed_entries@.take(
                i as int,
            ));
            assert(changed_entries@.take(i as int + 1).last() == changed_entries@[i as int]);
        }
        if entry_fee > i64::MAX - total {
            total = i64::MAX;
        } else {
            total = total + entry_fee;
        }
        i = i + 1;
    }
    proof {
        assert(changed_entries@.take(changed_entries@.len() as int) =~= changed_entries@);
    }
    total
}

/// Saturating fee addition never decreases when neither operand does.
proof fn lemma_sat_add_fee_monotonic(a1: int, b1: int, a2: int, b2: int)
    requires
        a1 <= a2,
        b1 <= b2,
    ensures
        spec_sat_add_fee(a1, b1) <= spec_sat_add_fee(a2, b2),
{
}

/// The total rent of a change list never decreases when one entry's fee
/// grows and every other entry stays as it was.
pub proof fn lemma_rent_fee_monotonic_in_entry(
    cs1: Seq<LedgerEntryRentChange>,
    cs2: Seq<LedgerEntryRentChange>,
    k: int,
    c: RentFeeConfiguration,
    current_ledger_seq: u32,
)
    requires
        cs1.len() == cs2.len(),
        0 <= k < cs1.len(),
        forall|i: int| 0 <= i < cs1.len() && i != k ==> cs1[i] == cs2[i],
        spec_entry_rent_fee(cs1[k], c, current_ledger_seq) <= spec_entry_rent_fee(
            cs2[k],
            c,
            current_ledger_seq,
        ),
    ensures
        spec_rent_fee(cs1, c, current_ledger_seq) <= spec_rent_fee(cs2, c, current_ledger_seq),
    decreases cs1,
{
    let f1 = spec_clamp_fee(spec_entry_rent_fee(cs1.last(), c, current_ledger_seq));
    let f2 = spec_clamp_fee(spec_entry_rent_fee(cs2.last(), c, current_ledger_seq));
    if k == cs1.len() - 1 {
        assert(cs1.drop_last() =~= cs2.drop_last());
        lemma_sat_add_fee_monotonic(
            spec_rent_fee(cs1.drop_last(), c, current_ledger_seq),
            f1,
            spec_rent_fee(cs2.drop_last(), c, current_ledger_seq),
            f2,
        );
    } else {
        lemma_rent_fee_monotonic_in_entry(
            cs1.drop_last(),
            cs2.drop_last(),
            k,
            c,
            current_ledger_seq,
        );
        assert(cs1.last() == cs2.last());
        lemma_sat_add_fee_monotonic(
            spec_rent_fee(cs1.drop_last(), c, current_ledger_seq),
            f1,
            spec_rent_fee(cs2.drop_last(), c, current_ledger_seq),
            f2,
        );
    }
}

/// Rent never decreases when the new expiration moves later, everything else
/// fixed.
pub proof fn lemma_rent_fee_monotonic_in_ttl(
    e1: LedgerEntryRentChange,
    e2: LedgerEntryRentChange,
    c: RentFeeConfiguration,
    current_ledger_seq: u32,
)
    requires
        c.spec_valid(),
        e1.is_persistent == e2.is_persistent,
        e1.old_size_bytes == e2.old_size_bytes,
        e1.new_size_bytes == e2.new_size_bytes,
        e1.old_live_until_ledger == e2.old_live_until_ledger,
        e1.new_live_until_ledger <= e2.new_live_until_ledger,
    ensures
        spec_entry_rent_fee(e1, c, current_ledger_seq) <= spec_entry_rent_fee(
            e2,
            c,
            current_ledger_seq,
        ),
{
    let ext1 = spec_rent_extension(e1, current_ledger_seq);
    let ext2 = spec_rent_extension(e2, current_ledger_seq);
    lemma_entry_rent_fee_nonneg(e2, c, current_ledger_seq);
    if ext1 > 0 {
        let p = e1.new_size_bytes * c.fee_per_rent_1kb;
        let denom = if e1.is_persistent {
            c.persistent_rent_rate_denominator as int
        } else {
            c.temporary_rent_rate_denominator as int
        };
        lemma_mul_nonnegative(e1.new_size_bytes as int, c.fee_per_rent_1kb as int);
        lemma_mul_inequality(ext1, ext2, p);
        vstd::arithmetic::mul::lemma_mul_is_commutative(ext1, p);
        vstd::arithmetic::mul::lemma_mul_is_commutative(ext2, p);
        lemma_div_is_ordered(
            p * ext1 + DATA_SIZE_1KB * denom - 1,
            p * ext2 + DATA_SIZE_1KB * denom - 1,
            DATA_SIZE_1KB * denom,
        );
    }
}

/// Rent never decreases when the entry's new size grows, everything else
/// fixed.
pub proof fn lemma_rent_fee_monotonic_in_size(
    e1: LedgerEntryRentChange,
    e2: LedgerEntryRentChange,
    c: RentFeeConfiguration,
    current_ledger_seq: u32,
)
    requires
        c.spec_valid(),
        e1.is_persistent == e2.is_persistent,
        e1.old_size_bytes == e2.old_size_bytes,
        e1.new_size_bytes <= e2.new_size_bytes,
        e1.old_live_until_ledger == e2.old_live_until_ledger,
        e1.new_live_until_ledger == e2.new_live_until_ledger,
    ensures
        spec_entry_rent_fee(e1, c, current_ledger_seq) <= spec_entry_rent_fee(
            e2,
            c,
            current_ledger_seq,
        ),
{
    let ext = spec_rent_extension(e1, current_ledger_seq);
    lemma_entry_rent_fee_nonneg(e2, c, current_ledger_seq);
    if ext > 0 {
        let denom = if e1.is_persistent {
            c.persistent_rent_rate_denominator as int
        } else {
            c.temporary_rent_rate_denominator as int
        };
        lemma_mul_inequality(
            e1.new_size_bytes as int,
            e2.new_size_bytes as int,
            c.fee_per_rent_1kb as int,
        );
        lemma_mul_inequality(
            e1.new_size_bytes * c.fee_per_rent_1kb,
            e2.new_size_bytes * c.fee_per_rent_1kb,
            ext,
        );
        lemma_div_is_ordered(
            e1.new_size_bytes * c.fee_per_rent_1kb * ext + DATA_SIZE_1KB * denom - 1,
            e2.new_size_bytes * c.fee_per_rent_1kb * ext + DATA_SIZE_1KB * denom - 1,
            DATA_SIZE_1KB * denom,
        );
    }
}

/// Network parameters of the rent write-fee rate: a linear ramp up to the
/// state-size target, growing by the configured factor beyond it.
#[derive(Clone, Copy, Debug, PartialEq, Eq, Structural)]
pub struct RentWriteFeeConfiguration {
    pub state_target_size_bytes: i64,
    pub rent_fee_1kb_state_size_low: i64,
    pub rent_fee_1kb_state_size_high: i64,
    pub state_size_rent_fee_growth_factor: u32,
}

impl RentWriteFeeConfiguration {
    /// A configuration the rate formula accepts: a positive target and an
    /// ordered, non-negative fee range.
    pub open spec fn spec_valid(&self) -> bool {
        &&& self.state_target_size_bytes >= 1
        &&& 0 <= self.rent_fee_1kb_state_size_low <= self.rent_fee_1kb_state_size_high
    }
}

/// The per-kilobyte rent write-fee rate at the given state size: below the
/// target, a linear ramp from the low to the high rate; beyond it, the high
/// rate plus the growth factor times the ramp's continuation.
pub open spec fn spec_rent_write_fee_per_1kb(size: int, c: RentWriteFeeConfiguration) -> int
    recommends
        size >= 0,
        c.spec_valid(),
{
    let target = c.state_target_size_bytes as int;
    let low = c.rent_fee_1kb_state_size_low as int;
    let high = c.rent_fee_1kb_state_size_high as int;
    if size < target {
        low + (high - low) * size / target
    } else {
        high + c.state_size_rent_fee_growth_factor * ((high - low) * (size - target) / target)
    }
}

/// Computes the rent write-fee rate per kilobyte for the current total state
/// size. The rate grows with the state size and is never below the configured
/// low rate.
#[verifier::rlimit(50)]
pub fn compute_rent_write_fee_per_1kb(
    bucket_list_size: i64,
    fee_config: RentWriteFeeConfiguration,
) -> (r: i64)
    requires
        bucket_list_size >= 0,
        fee_config.spec_valid(),
    ensures
        r == spec_clamp_fee(spec_rent_write_fee_per_1kb(bucket_list_size as int, fee_config)),
        r >= fee_config.rent_fee_1kb_state_size_low,
{
    let target = fee_config.state_target_size_bytes;
    let low = fee_config.rent_fee_1kb_state_size_low;
    let high = fee_config.rent_fee_1kb_state_size_high;
    let growth = fee_config.state_size_rent_fee_growth_factor;
    let span: u128 = (high - low) as u128;
    if bucket_list_size < target {
        proof {
            lemma_mul_nonnegative(high - low, bucket_list_size as int);
            lemma_mul_upper_bound(
                high - low,
                0x7FFF_FFFF_FFFF_FFFF,
                bucket_list_size as int,
                0x7FFF_FFFF_FFFF_FFFF,
            );
            lemma_div_is_ordered(
                0,
                (high - low) * bucket_list_size,
                target as int,
            );
            vstd::arithmetic::div_mod::lemma_div_is_ordered_by_denominator(
                (high - low) * bucket_list_size,
                1,
                target as int,
            );
        }
        let ramp: u128 = span * bucket_list_size as u128 / target as u128;
        let total: u128 = low as u128 + ramp;
        proof {
            assert(ramp == (high - low) * bucket_list_size / target as int);
            assert(spec_rent_write_fee_per_1kb(bucket_list_size as int, fee_config) == low
                + ramp);
        }
        if total > i64::MAX as u128 {
            i64::MAX
        } else {
            total as i64
        }
    } else {
        proof {
            lemma_mul_nonnegative(high - low, bucket_list_size - target);
            lemma_mul_upper_bound(
                high - low,
                0x7FFF_FFFF_FFFF_FFFF,
                bucket_list_size - target,
                0x7FFF_FFFF_FFFF_FFFF,
            );
            lemma_div_is_ordered(
                0,
                (high - low) * (bucket_list_size - target),
                target as int,
            );
            vstd::arithmetic::div_mod::lemma_div_is_ordered_by_denominator(
                (high - low) * (bucket_list_size - target),
                1,
                target as int,
            );
        }
        let over: u128 = span * (bucket_list_size - target) as u128 / target as u128;
        proof {
            assert(over == (high - low) * (bucket_list_size - target) / target as int);
        }
        if growth > 0 && over > i64::MAX as u128 {
            proof {
                lemma_mul_inequality(1, growth as int, over as int);
                vstd::arithmetic::mul::lemma_mul_is_commutative(1, over as int);
                vstd::arithmetic::mul::lemma_mul_is_commutative(growth as int, over as int);
            }
            i64::MAX
        } else if growth == 0 {
            proof {
                vstd::arithmetic::mul::lemma_mul_basics(over as int);
            }
            high
        } else {
            proof {
                lemma_mul_nonnegative(growth as int, over as int);
                lemma_mul_upper_bound(
                    growth as int,
                    0xFFFF_FFFF,
                    over as int,
                    0x7FFF_FFFF_FFFF_FFFF,
                );
            }
            let scaled: u128 = growth as u128 * over;
            let total: u128 = high as u128 + scaled;
            if total > i64::MAX as u128 {
                i64::MAX
            } else {
                total as i64
            }
        }
    }
}

/// Memory a contract code entry occupies for rent purposes: the memory cost
/// model applied to the code's length, on the VM-instantiation category.
pub open spec fn spec_code_memory_size(
    mem_entries: Seq<crate::budget::CostParamEntry>,
    code_len: int,
) -> int {
    spec_param_cost(
        mem_entries[spec_cost_type_index(CostType::VmInstantiation)],
        code_len as u64,
    )
}

/// Computes a contract code entry's memory footprint for rent from its
/// encoded form and the encoded cost-parameter tables, using an unlimited
/// budget dedicated to this one computation, never a live call's budget. The
/// result is a function of the three buffers alone: the size is owed
/// whenever the buffers decode, the tables are acceptable, and the modeled
/// costs fit their types; each failure is tied to exactly one cause.
pub fn contract_code_memory_size_for_rent(
    contract_code_entry_xdr: &Vec<u8>,
    cpu_cost_params: &Vec<u8>,
    mem_cost_params: &Vec<u8>,
) -> (r: Result<u32, HostFault>)
    ensures
        ({
            let decoded_code = spec_decode_code_entry(contract_code_entry_xdr@);
            let decoded_cpu = spec_decode_cost_params(cpu_cost_params@);
            let decoded_mem = spec_decode_cost_params(mem_cost_params@);
            let vm = spec_cost_type_index(CostType::VmInstantiation);
            let code_len = decoded_code->Ok_0.len();
            let cpu_cost = spec_param_cost(decoded_cpu->Ok_0[vm], code_len as u64);
            let mem_cost = spec_param_cost(decoded_mem->Ok_0[vm], code_len as u64);
            match r {
                Ok(size) => {
                    &&& decoded_code is Ok
                    &&& decoded_cpu is Ok
                    &&& decoded_mem is Ok
                    &&& spec_entries_valid(decoded_cpu->Ok_0)
                    &&& spec_entries_valid(decoded_mem->Ok_0)
                    &&& cpu_cost <= u64::MAX
                    &&& mem_cost <= u32::MAX
                    &&& size == spec_code_memory_size(decoded_mem->Ok_0, code_len as int)
                },
                Err(f) => f == if decoded_code is Err || decoded_cpu is Err || decoded_mem
                    is Err {
                    (HostFault { category: ErrorCategory::Value, code: ErrorCode::InternalError })
                } else if !spec_entries_valid(decoded_cpu->Ok_0) || !spec_entries_valid(
                    decoded_mem->Ok_0,
                ) {
                    (HostFault { category: ErrorCategory::Context, code: ErrorCode::InvalidInput })
                } else if cpu_cost > u64::MAX || mem_cost > u64::MAX {
                    (HostFault { category: ErrorCategory::Budget, code: ErrorCode::ExceededLimit })
                } else {
                    (HostFault { category: ErrorCategory::Value, code: ErrorCode::UnexpectedSize })
                } && !(decoded_code is Ok && decoded_cpu is Ok && decoded_mem is Ok
                    && spec_entries_valid(decoded_cpu->Ok_0) && spec_entries_valid(
                    decoded_mem->Ok_0,
                ) && cpu_cost <= u64::MAX && mem_cost <= u32::MAX),
            }
        }),
{
    let code_entry = match decode_contract_code_entry(contract_code_entry_xdr) {
        Ok(e) => e,
        Err(_) => {
            return Err(
                HostFault { category: ErrorCategory::Value, code: ErrorCode::InternalError },
            );
        }
    };
    let cpu_params = match decode_contract_cost_params(cpu_cost_params) {
        Ok(p) => p,
        Err(_) => {
            return Err(
                HostFault { category: ErrorCategory::Value, code: ErrorCode::InternalError },
            );
        }
    };
    let mem_params = match decode_contract_cost_params(mem_cost_params) {
        Ok(p) => p,
        Err(_) => {
            return Err(
                HostFault { category: ErrorCategory::Value, code: ErrorCode::InternalError },
            );
        }
    };
    let mut budget = match Budget::try_from_configs(u64::MAX, u64::MAX, cpu_params, mem_params) {
        Ok(b) => b,
        Err(_) => {
            return Err(
                HostFault { category: ErrorCategory::Context, code: ErrorCode::InvalidInput },
            );
        }
    };
    match budget.charge(CostType::VmInstantiation, code_entry.code.len() as u64) {
        Ok(()) => {}
        Err(f) => {
            return Err(f);
        }
    }
    let mem = budget.get_mem_bytes_consumed();
    if mem > u32::MAX as u64 {
        return Err(HostFault { category: ErrorCategory::Value, code: ErrorCode::UnexpectedSize });
    }
    Ok(mem as u32)
}

/// The incremental fee grows with the resource.
pub proof fn lemma_fee_monotonic_in_resource(a1: int, a2: int, rate: int, increment: int)
    requires
        0 <= a1 <= a2,
        rate >= 0,
        increment >= 1,
    ensures
        spec_fee_per_increment(a1, rate, increment) <= spec_fee_per_increment(a2, rate, increment),
{
    lemma_mul_inequality(a1, a2, rate);
    lemma_div_is_ordered(a1 * rate + increment - 1, a2 * rate + increment - 1, increment);
}

} // verus!
