//! Exact values, non-negativity and monotonicity of the fee formulas, and
//! the budget they rest on.

use soroban_bridge::budget::{Budget, CostParamEntry, CostParams, CostType, COST_TYPE_COUNT};
use soroban_bridge::errors::{ConfigError, ErrorCategory, ErrorCode};
use soroban_bridge::fees::{
    compute_rent_fee, compute_rent_write_fee_per_1kb, compute_transaction_resource_fee,
    contract_code_memory_size_for_rent, FeeConfiguration, LedgerEntryRentChange,
    RentFeeConfiguration, RentWriteFeeConfiguration, TransactionResources,
};
use soroban_bridge::xdr::{encode_contract_code_entry, encode_contract_cost_params, ContractCodeEntry};

fn fee_config() -> FeeConfiguration {
    FeeConfiguration {
        fee_per_instruction_increment: 100,
        fee_per_disk_read_entry: 5,
        fee_per_write_entry: 7,
        fee_per_disk_read_1kb: 1000,
        fee_per_write_1kb: 3000,
        fee_per_historical_1kb: 300,
        fee_per_contract_event_1kb: 500,
        fee_per_transaction_size_1kb: 200,
    }
}

#[test]
fn resource_fee_zero_resources() {
    let r = TransactionResources {
        instructions: 0,
        disk_read_entries: 0,
        write_entries: 0,
        disk_read_bytes: 0,
        write_bytes: 0,
        contract_events_size_bytes: 0,
        transaction_size_bytes: 0,
    };
    let pair = compute_transaction_resource_fee(r, fee_config());
    // The historical fee still charges the fixed result size: ceil(300 * 300 / 1024) = 88.
    assert_eq!(pair.non_refundable_fee, 88);
    assert_eq!(pair.refundable_fee, 0);
}

#[test]
fn resource_fee_exact_value() {
    let r = TransactionResources {
        instructions: 25000,
        disk_read_entries: 2,
        write_entries: 1,
        disk_read_bytes: 500,
        write_bytes: 1000,
        contract_events_size_bytes: 1024,
        transaction_size_bytes: 724,
    };
    let pair = compute_transaction_resource_fee(r, fee_config());
    // 250 compute + 10 read entries + 7 write entries + 489 read bytes
    // + 2930 write bytes + 300 historical + 142 bandwidth.
    assert_eq!(pair.non_refundable_fee, 250 + 10 + 7 + 489 + 2930 + 300 + 142);
    assert_eq!(pair.refundable_fee, 500);
}

#[test]
fn resource_fee_nonnegative_and_monotonic() {
    let small = TransactionResources {
        instructions: 1,
        disk_read_entries: 1,
        write_entries: 1,
        disk_read_bytes: 1,
        write_bytes: 1,
        contract_events_size_bytes: 1,
        transaction_size_bytes: 1,
    };
    let mut large = small;
    large.instructions = 100000;
    large.write_bytes = 100000;
    let p1 = compute_transaction_resource_fee(small, fee_config());
    let p2 = compute_transaction_resource_fee(large, fee_config());
    assert!(p1.non_refundable_fee >= 0 && p1.refundable_fee >= 0);
    assert!(p2.non_refundable_fee >= p1.non_refundable_fee);
    assert!(p2.refundable_fee >= p1.refundable_fee);
}

fn rent_config() -> RentFeeConfiguration {
    RentFeeConfiguration {
        fee_per_rent_1kb: 1000,
        fee_per_write_1kb: 500,
        fee_per_write_entry: 10,
        persistent_rent_rate_denominator: 2,
        temporary_rent_rate_denominator: 4,
    }
}

fn rent_change(new_size: u32, old_live: u32, new_live: u32) -> LedgerEntryRentChange {
    LedgerEntryRentChange {
        is_persistent: true,
        old_size_bytes: new_size,
        new_size_bytes: new_size,
        old_live_until_ledger: old_live,
        new_live_until_ledger: new_live,
    }
}

#[test]
fn rent_fee_empty_list() {
    assert_eq!(compute_rent_fee(&vec![], rent_config(), 50), 0);
}

#[test]
fn rent_fee_exact_value() {
    // 1024 bytes extended by 100 ledgers at 1000 per kilobyte-ledger over a
    // denominator of 2: 50000; plus the 40-byte record's write fee
    // ceil(40 * 500 / 1024) = 20 and the per-entry write fee 10.
    let fee = compute_rent_fee(&vec![rent_change(1024, 100, 200)], rent_config(), 50);
    assert_eq!(fee, 50000 + 10 + 20);
}

#[test]
fn rent_fee_zero_without_extension() {
    let fee = compute_rent_fee(&vec![rent_change(1024, 200, 200)], rent_config(), 50);
    assert_eq!(fee, 0);
    let shrunk = compute_rent_fee(&vec![rent_change(1024, 200, 150)], rent_config(), 50);
    assert_eq!(shrunk, 0);
}

#[test]
fn rent_fee_counts_from_current_ledger_when_expired() {
    // The old expiration lies in the past, so the extension is counted from
    // the current ledger: 150 ledgers, not 190.
    let fee = compute_rent_fee(&vec![rent_change(2048, 60, 250)], rent_config(), 100);
    let expected_rent = (2048u64 * 1000 * 150 + 2047) / (1024 * 2);
    assert_eq!(fee as u64, expected_rent + 10 + 20);
}

#[test]
fn rent_fee_monotonic_in_extension_and_size() {
    let base = compute_rent_fee(&vec![rent_change(1024, 100, 200)], rent_config(), 50);
    let longer = compute_rent_fee(&vec![rent_change(1024, 100, 300)], rent_config(), 50);
    let bigger = compute_rent_fee(&vec![rent_change(4096, 100, 200)], rent_config(), 50);
    assert!(longer >= base);
    assert!(bigger >= base);
}

#[test]
fn rent_write_fee_rate_ramps_and_grows() {
    let config = RentWriteFeeConfiguration {
        state_target_size_bytes: 1000,
        rent_fee_1kb_state_size_low: 100,
        rent_fee_1kb_state_size_high: 500,
        state_size_rent_fee_growth_factor: 3,
    };
    assert_eq!(compute_rent_write_fee_per_1kb(0, config), 100);
    assert_eq!(compute_rent_write_fee_per_1kb(500, config), 300);
    assert_eq!(compute_rent_write_fee_per_1kb(1000, config), 500);
    // Beyond the target: 500 + 3 * (400 * 500 / 1000) = 500 + 600.
    assert_eq!(compute_rent_write_fee_per_1kb(1500, config), 1100);
    assert!(compute_rent_write_fee_per_1kb(5000, config) >= 1100);
}

fn cost_params_with_vm_entry(const_term: i64, linear_term: i64) -> CostParams {
    let mut entries = Vec::new();
    for _ in 0..COST_TYPE_COUNT {
        entries.push(CostParamEntry { const_term, linear_term });
    }
    CostParams { entries }
}

#[test]
fn code_memory_size_applies_the_memory_model() {
    let code = ContractCodeEntry { code: vec![0u8; 10] };
    let code_xdr = encode_contract_code_entry(&code).unwrap();
    let cpu = encode_contract_cost_params(&cost_params_with_vm_entry(1, 1)).unwrap();
    let mem = encode_contract_cost_params(&cost_params_with_vm_entry(100, 2)).unwrap();
    let size = contract_code_memory_size_for_rent(&code_xdr, &cpu, &mem).unwrap();
    assert_eq!(size, 120);
}

#[test]
fn code_memory_size_rejects_malformed_entry() {
    let cpu = encode_contract_cost_params(&cost_params_with_vm_entry(1, 1)).unwrap();
    let mem = encode_contract_cost_params(&cost_params_with_vm_entry(1, 1)).unwrap();
    let err = contract_code_memory_size_for_rent(&vec![1, 2, 3], &cpu, &mem).unwrap_err();
    assert_eq!(err.category, ErrorCategory::Value);
    assert_eq!(err.code, ErrorCode::InternalError);
}

#[test]
fn code_memory_size_rejects_oversized_result() {
    let code = ContractCodeEntry { code: vec![0u8; 4] };
    let code_xdr = encode_contract_code_entry(&code).unwrap();
    let cpu = encode_contract_cost_params(&cost_params_with_vm_entry(0, 0)).unwrap();
    let mem = encode_contract_cost_params(&cost_params_with_vm_entry(5_000_000_000, 0)).unwrap();
    let err = contract_code_memory_size_for_rent(&code_xdr, &cpu, &mem).unwrap_err();
    assert_eq!(err.category, ErrorCategory::Value);
    assert_eq!(err.code, ErrorCode::UnexpectedSize);
}

#[test]
fn budget_rejects_bad_configuration() {
    let short = CostParams { entries: vec![CostParamEntry { const_term: 1, linear_term: 1 }] };
    let full = cost_params_with_vm_entry(1, 1);
    let negative = cost_params_with_vm_entry(-1, 1);
    assert!(matches!(
        Budget::try_from_configs(1000, 1000, short, cost_params_with_vm_entry(1, 1)),
        Err(ConfigError::MissingCostParameter)
    ));
    assert!(matches!(
        Budget::try_from_configs(1000, 1000, full, negative),
        Err(ConfigError::NegativeCostParameter)
    ));
}

#[test]
fn budget_charges_by_category_and_enforces_ceilings() {
    let mut budget = Budget::try_from_configs(
        1000,
        1000,
        cost_params_with_vm_entry(10, 2),
        cost_params_with_vm_entry(5, 1),
    )
    .unwrap();
    budget.charge(CostType::VmInstantiation, 20).unwrap();
    assert_eq!(budget.get_cpu_insns_consumed(), 50);
    assert_eq!(budget.get_mem_bytes_consumed(), 25);
    let tracker = budget.get_tracker(CostType::VmInstantiation);
    assert_eq!(tracker.cpu, 50);
    assert_eq!(tracker.mem, 25);
    assert_eq!(budget.get_tracker(CostType::WasmInsnExec).cpu, 0);
    let err = budget.charge(CostType::WasmInsnExec, 100000).unwrap_err();
    assert_eq!(err.category, ErrorCategory::Budget);
    assert_eq!(err.code, ErrorCode::ExceededLimit);
    // A failed charge changes nothing.
    assert_eq!(budget.get_cpu_insns_consumed(), 50);
}

#[test]
fn budget_well_formedness_is_decidable() {
    let mut budget = Budget::try_from_configs(
        1000,
        1000,
        cost_params_with_vm_entry(10, 2),
        cost_params_with_vm_entry(5, 1),
    )
    .unwrap();
    assert!(budget.is_well_formed());
    budget.charge(CostType::VmInstantiation, 20).unwrap();
    assert!(budget.is_well_formed());
    // A total written past the trackers' backs is caught.
    budget.total_cpu += 1;
    assert!(!budget.is_well_formed());
}

#[test]
fn budget_tracks_time_per_category() {
    let mut budget = Budget::try_from_configs(
        1000,
        1000,
        cost_params_with_vm_entry(0, 0),
        cost_params_with_vm_entry(0, 0),
    )
    .unwrap();
    budget.track_time(CostType::VmInstantiation, 1500);
    budget.track_time(CostType::VmInstantiation, 500);
    assert_eq!(budget.get_time(CostType::VmInstantiation), 2000);
    assert_eq!(budget.get_time(CostType::WasmInsnExec), 0);
}
