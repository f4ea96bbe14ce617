//! Classification, effect extraction and output assembly of the invocation
//! orchestrator.

use soroban_bridge::budget::{Budget, CostParamEntry, CostParams, CostType, COST_TYPE_COUNT};
use soroban_bridge::effects::{
    extract_ledger_effects, extract_rent_changes, LedgerEntryChange, TtlChange,
};
use soroban_bridge::errors::{is_internal_error, ErrorCategory, ErrorCode, HostFault};
use soroban_bridge::codec::ScValue;
use soroban_bridge::events::{encode_diagnostic_events, ContractEventType, DiagnosticEvent};
use soroban_bridge::fees::RentFeeConfiguration;
use soroban_bridge::invoke::{
    build_budget_from_snapshot, complete_invocation, EngineOutcome, LedgerSnapshot,
};
use soroban_bridge::xdr::{decode_ttl_record, encode_contract_cost_params};

fn internal_contract_fault() -> HostFault {
    HostFault { category: ErrorCategory::Contract, code: ErrorCode::InternalError }
}

#[test]
fn internal_error_classification_changes_at_protocol_22() {
    assert!(is_internal_error(21, internal_contract_fault()));
    assert!(!is_internal_error(22, internal_contract_fault()));
    let engine_fault = HostFault {
        category: ErrorCategory::Context,
        code: ErrorCode::InternalError,
    };
    assert!(is_internal_error(21, engine_fault));
    assert!(is_internal_error(22, engine_fault));
    let guest_fault = HostFault {
        category: ErrorCategory::Contract,
        code: ErrorCode::InvalidAction,
    };
    assert!(!is_internal_error(21, guest_fault));
    assert!(!is_internal_error(22, guest_fault));
}

fn read_only_change() -> LedgerEntryChange {
    LedgerEntryChange {
        read_only: true,
        old_entry_size_bytes: 100,
        new_entry_size_bytes: 100,
        encoded_new_value: None,
        ttl_change: None,
    }
}

fn ttl_extension_change(extension: u32) -> LedgerEntryChange {
    LedgerEntryChange {
        read_only: true,
        old_entry_size_bytes: 100,
        new_entry_size_bytes: 100,
        encoded_new_value: None,
        ttl_change: Some(TtlChange {
            key_hash: vec![7u8; 32],
            old_live_until_ledger: 1000,
            new_live_until_ledger: 1000 + extension,
            is_persistent: true,
        }),
    }
}

#[test]
fn read_only_entry_without_extension_yields_nothing() {
    let effects = extract_ledger_effects(&vec![read_only_change()]).unwrap();
    assert!(effects.is_empty());
}

#[test]
fn ttl_extension_yields_exactly_one_matching_record() {
    let effects = extract_ledger_effects(&vec![ttl_extension_change(100)]).unwrap();
    assert_eq!(effects.len(), 1);
    let record = decode_ttl_record(&effects[0]).unwrap();
    assert_eq!(record.key_hash, vec![7u8; 32]);
    assert_eq!(record.live_until_ledger_seq, 1100);
    assert_eq!(record.last_modified_ledger_seq, 0);
}

#[test]
fn unchanged_ttl_yields_no_record() {
    let effects = extract_ledger_effects(&vec![ttl_extension_change(0)]).unwrap();
    assert!(effects.is_empty());
}

#[test]
fn written_entries_pass_their_new_value_through() {
    let change = LedgerEntryChange {
        read_only: false,
        old_entry_size_bytes: 10,
        new_entry_size_bytes: 20,
        encoded_new_value: Some(vec![5, 6, 7]),
        ttl_change: None,
    };
    let effects = extract_ledger_effects(&vec![change]).unwrap();
    assert_eq!(effects, vec![vec![5, 6, 7]]);
}

#[test]
fn broken_key_hash_is_an_internal_error() {
    let mut change = ttl_extension_change(5);
    change.ttl_change.as_mut().unwrap().key_hash = vec![7u8; 31];
    let err = extract_ledger_effects(&vec![change]).unwrap_err();
    assert_eq!(err.category, ErrorCategory::Value);
    assert_eq!(err.code, ErrorCode::InternalError);
}

#[test]
fn rent_changes_carry_sizes_and_expirations() {
    let changes = vec![read_only_change(), ttl_extension_change(50)];
    let rent_changes = extract_rent_changes(&changes);
    assert_eq!(rent_changes.len(), 1);
    assert_eq!(rent_changes[0].new_size_bytes, 100);
    assert_eq!(rent_changes[0].old_live_until_ledger, 1000);
    assert_eq!(rent_changes[0].new_live_until_ledger, 1050);
    assert!(rent_changes[0].is_persistent);
}

fn flat_cost_params() -> Vec<u8> {
    let mut entries = Vec::new();
    for _ in 0..COST_TYPE_COUNT {
        entries.push(CostParamEntry { const_term: 0, linear_term: 0 });
    }
    encode_contract_cost_params(&CostParams { entries }).unwrap()
}

fn snapshot(protocol_version: u32) -> LedgerSnapshot {
    LedgerSnapshot {
        protocol_version,
        sequence_number: 1234,
        timestamp: 1_700_000_000,
        network_id: vec![9u8; 32],
        base_reserve: 5_000_000,
        min_temp_entry_ttl: 16,
        min_persistent_entry_ttl: 4096,
        max_entry_ttl: 6_312_000,
        memory_limit: 0x4000_0000,
        cpu_cost_params: flat_cost_params(),
        mem_cost_params: flat_cost_params(),
    }
}

fn rent_config() -> RentFeeConfiguration {
    RentFeeConfiguration {
        fee_per_rent_1kb: 1000,
        fee_per_write_1kb: 500,
        fee_per_write_entry: 10,
        persistent_rent_rate_denominator: 2,
        temporary_rent_rate_denominator: 4,
    }
}

fn call_budget() -> Budget {
    build_budget_from_snapshot(&snapshot(22), 100_000_000).unwrap()
}

#[test]
fn budget_from_snapshot_rejects_malformed_tables() {
    let mut bad = snapshot(22);
    bad.cpu_cost_params = vec![1, 2, 3];
    let err = build_budget_from_snapshot(&bad, 100).unwrap_err();
    assert_eq!(err.category, ErrorCategory::Value);
    assert_eq!(err.code, ErrorCode::InternalError);
}

#[test]
fn budget_from_snapshot_rejects_negative_cost_terms() {
    let mut entries = Vec::new();
    for _ in 0..COST_TYPE_COUNT {
        entries.push(CostParamEntry { const_term: -5, linear_term: 0 });
    }
    let mut bad = snapshot(22);
    bad.mem_cost_params = encode_contract_cost_params(&CostParams { entries }).unwrap();
    let err = build_budget_from_snapshot(&bad, 100).unwrap_err();
    assert_eq!(err.category, ErrorCategory::Context);
    assert_eq!(err.code, ErrorCode::InvalidInput);
}

#[test]
fn successful_invocation_fills_everything() {
    let budget = call_budget();
    let outcome = EngineOutcome::Completed {
        invoke_result: Ok(vec![42, 43]),
        ledger_changes: vec![ttl_extension_change(100)],
        contract_events: vec![vec![8, 8]],
    };
    let out = complete_invocation(
        outcome,
        &budget,
        Vec::<DiagnosticEvent>::new(),
        true,
        22,
        &rent_config(),
        900,
        5000,
    )
    .unwrap();
    assert!(out.success);
    assert!(!out.is_internal_error);
    assert_eq!(out.result_value, vec![42, 43]);
    assert_eq!(out.contract_events, vec![vec![8, 8]]);
    assert_eq!(out.modified_ledger_entries.len(), 1);
    // 100 bytes extended 100 ledgers at 1000 per kilobyte-ledger over a
    // denominator of 2, rounded up, plus the record's write fees.
    let expected_rent = (100u64 * 1000 * 100 + 2047) / 2048 + 10 + 20;
    assert_eq!(out.rent_fee as u64, expected_rent);
    assert_eq!(out.time_nsecs, 5000);
    assert_eq!(out.cpu_insns, 0);
    assert_eq!(out.mem_bytes, 0);
    assert!(out.diagnostic_events.is_empty());
}

#[test]
fn failed_invocation_classifies_and_synthesizes_one_event() {
    let budget = call_budget();
    let outcome = EngineOutcome::Completed {
        invoke_result: Err(internal_contract_fault()),
        ledger_changes: vec![ttl_extension_change(100)],
        contract_events: vec![vec![1]],
    };
    let out = complete_invocation(
        outcome,
        &budget,
        Vec::<DiagnosticEvent>::new(),
        true,
        21,
        &rent_config(),
        1234,
        999,
    )
    .unwrap();
    assert!(!out.success);
    assert!(out.is_internal_error);
    assert!(out.result_value.is_empty());
    assert!(out.modified_ledger_entries.is_empty());
    assert!(out.contract_events.is_empty());
    assert_eq!(out.rent_fee, 0);
    assert_eq!(out.time_nsecs, 999);
    assert_eq!(out.diagnostic_events.len(), 1);
}

#[test]
fn failed_invocation_without_diagnostics_stays_silent() {
    let budget = call_budget();
    let outcome = EngineOutcome::Completed {
        invoke_result: Err(internal_contract_fault()),
        ledger_changes: vec![],
        contract_events: vec![],
    };
    let out = complete_invocation(
        outcome,
        &budget,
        Vec::<DiagnosticEvent>::new(),
        false,
        22,
        &rent_config(),
        1234,
        0,
    )
    .unwrap();
    assert!(!out.success);
    assert!(!out.is_internal_error);
    assert!(out.diagnostic_events.is_empty());
}

#[test]
fn crash_class_fault_yields_failure_then_next_call_succeeds() {
    let budget = call_budget();
    let out = complete_invocation(
        EngineOutcome::Crashed,
        &budget,
        Vec::<DiagnosticEvent>::new(),
        true,
        22,
        &rent_config(),
        1234,
        77,
    )
    .unwrap();
    assert!(!out.success);
    // The generic crash fault is an engine-side internal error.
    assert!(out.is_internal_error);
    assert_eq!(out.rent_fee, 0);
    assert_eq!(out.time_nsecs, 77);
    assert_eq!(out.diagnostic_events.len(), 1);
    // A subsequent, independent call on the same process succeeds normally.
    let next = complete_invocation(
        EngineOutcome::Completed {
            invoke_result: Ok(vec![1]),
            ledger_changes: vec![],
            contract_events: vec![],
        },
        &call_budget(),
        Vec::<DiagnosticEvent>::new(),
        true,
        22,
        &rent_config(),
        1235,
        10,
    )
    .unwrap();
    assert!(next.success);
}

#[test]
fn too_deep_diagnostic_event_is_dropped_not_fatal() {
    let mut data = ScValue::Void;
    for _ in 0..1000 {
        data = ScValue::List(vec![data]);
    }
    let deep_event = DiagnosticEvent {
        in_successful_contract_call: true,
        event_type: ContractEventType::Diagnostic,
        contract_id: None,
        topics: Vec::new(),
        data,
    };
    let flat_event = DiagnosticEvent {
        in_successful_contract_call: true,
        event_type: ContractEventType::Diagnostic,
        contract_id: None,
        topics: vec![ScValue::U64(1)],
        data: ScValue::Void,
    };
    let encoded = encode_diagnostic_events(&vec![deep_event, flat_event]);
    assert_eq!(encoded.len(), 1);
}

#[test]
fn metrics_exclude_vm_instantiation() {
    let mut entries = Vec::new();
    for _ in 0..COST_TYPE_COUNT {
        entries.push(CostParamEntry { const_term: 10, linear_term: 0 });
    }
    let cpu_params = CostParams { entries: entries.clone() };
    let mem_params = CostParams { entries };
    let mut budget = Budget::try_from_configs(1000, 1000, cpu_params, mem_params).unwrap();
    budget.charge(CostType::WasmInsnExec, 0).unwrap();
    budget.charge(CostType::VmInstantiation, 0).unwrap();
    budget.track_time(CostType::VmInstantiation, 400);
    let out = complete_invocation(
        EngineOutcome::Completed {
            invoke_result: Ok(vec![]),
            ledger_changes: vec![],
            contract_events: vec![],
        },
        &budget,
        Vec::<DiagnosticEvent>::new(),
        false,
        22,
        &rent_config(),
        1,
        1000,
    )
    .unwrap();
    assert_eq!(out.cpu_insns, 20);
    assert_eq!(out.cpu_insns_excluding_vm_instantiation, 10);
    assert_eq!(out.time_nsecs, 1000);
    assert_eq!(out.time_nsecs_excluding_vm_instantiation, 600);
}
