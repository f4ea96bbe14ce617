//! The invocation orchestrator's decision logic: building the per-call budget
//! from the snapshot's trusted configuration, and assembling exactly one
//! fully populated output from whatever the execution engine returned —
//! success, typed failure, or a crash caught at the fault barrier.

use vstd::prelude::*;
use crate::budget::{spec_cost_type_index, Budget, CostType};
use crate::effects::{
    extract_ledger_effects, extract_rent_changes, spec_ledger_effects, spec_rent_changes,
    LedgerEntryChange,
};
use crate::errors::{spec_is_internal_error, ErrorCategory, ErrorCode, HostFault};
use crate::events::{
    encode_diagnostic_events, host_fn_failed_event, spec_bytes_views, spec_encoded_events,
    spec_event_views, spec_fail_event, DiagnosticEvent,
};
use crate::fees::{compute_rent_fee, spec_rent_fee, RentFeeConfiguration};
use crate::xdr::{decode_contract_cost_params, spec_decode_cost_params};

verus! {

broadcast use vstd::std_specs::vec::group_vec_axioms;

/// The authoritative state parameters in effect for one call, immutable for
/// its duration: identification, lifetime bounds, resource ceilings, and the
/// encoded cost-parameter tables, decoded in the trusted internal mode.
#[derive(Debug, PartialEq, Eq)]
pub struct LedgerSnapshot {
    pub protocol_version: u32,
    pub sequence_number: u32,
    pub timestamp: u64,
    pub network_id: Vec<u8>,
    pub base_reserve: u32,
    pub min_temp_entry_ttl: u32,
    pub min_persistent_entry_ttl: u32,
    pub max_entry_ttl: u32,
    pub memory_limit: u32,
    pub cpu_cost_params: Vec<u8>,
    pub mem_cost_params: Vec<u8>,
}

impl LedgerSnapshot {
    /// A snapshot the orchestrator accepts: the network id has its full
    /// thirty-two bytes.
    pub open spec fn spec_valid(&self) -> bool {
        self.network_id@.len() == 32
    }

    /// Whether the snapshot is structurally acceptable.
    pub fn is_valid(&self) -> (r: bool)
        ensures
            r == self.spec_valid(),
    {
        self.network_id.len() == 32
    }
}

/// What the execution engine's call came back with: a completed run with its
/// result-or-error and raw outputs, or a crash-class fault caught at the
/// fault barrier around the call.
#[derive(Debug)]
pub enum EngineOutcome {
    Completed {
        invoke_result: Result<Vec<u8>, HostFault>,
        ledger_changes: Vec<LedgerEntryChange>,
        contract_events: Vec<Vec<u8>>,
    },
    Crashed,
}

/// The one output of an invocation, always fully populated: even on failure
/// every metric field carries what was consumed before the failure.
#[derive(Debug)]
pub struct InvocationOutput {
    pub success: bool,
    pub is_internal_error: bool,
    pub diagnostic_events: Vec<Vec<u8>>,
    pub cpu_insns: u64,
    pub mem_bytes: u64,
    pub time_nsecs: u64,
    pub cpu_insns_excluding_vm_instantiation: u64,
    pub time_nsecs_excluding_vm_instantiation: u64,
    pub result_value: Vec<u8>,
    pub modified_ledger_entries: Vec<Vec<u8>>,
    pub contract_events: Vec<Vec<u8>>,
    pub rent_fee: i64,
}

/// Whether a snapshot's cost-parameter tables both decode and are tables
/// the budget accepts: on exactly these snapshots budget construction is
/// owed to succeed.
pub open spec fn spec_budget_inputs_ok(snapshot: LedgerSnapshot) -> bool {
    match (
        spec_decode_cost_params(snapshot.cpu_cost_params@),
        spec_decode_cost_params(snapshot.mem_cost_params@),
    ) {
        (Ok(cpu_entries), Ok(mem_entries)) => crate::budget::spec_entries_valid(cpu_entries)
            && crate::budget::spec_entries_valid(mem_entries),
        _ => false,
    }
}

/// Builds the call's budget from the snapshot's ceilings and cost-parameter
/// tables, decoded in the trusted internal mode whose cost is constant and
/// excluded from metering. Construction succeeds exactly when both tables
/// decode and the budget accepts them: a table that does not decode is an
/// internal error, and one the budget refuses is a configuration error.
pub fn build_budget_from_snapshot(snapshot: &LedgerSnapshot, instruction_limit: u32) -> (r: Result<
    Budget,
    HostFault,
>)
    ensures
        match r {
            Ok(b) => {
                &&& spec_budget_inputs_ok(*snapshot)
                &&& spec_decode_cost_params(snapshot.cpu_cost_params@) == Ok::<_, crate::errors::MarshallingError>(b.cpu_params.entries@)
                &&& spec_decode_cost_params(snapshot.mem_cost_params@) == Ok::<_, crate::errors::MarshallingError>(b.mem_params.entries@)
                &&& b.wf()
                &&& b.cpu_limit == instruction_limit
                &&& b.mem_limit == snapshot.memory_limit
                &&& b.total_cpu == 0
                &&& b.total_mem == 0
                &&& forall|i: int|
                    0 <= i < crate::budget::COST_TYPE_COUNT ==> (#[trigger] b.trackers@[i])
                        == (crate::budget::CostTracker { cpu: 0, mem: 0, time_nsecs: 0 })
            },
            Err(f) => {
                &&& !spec_budget_inputs_ok(*snapshot)
                &&& f == if spec_decode_cost_params(snapshot.cpu_cost_params@) is Err
                    || spec_decode_cost_params(snapshot.mem_cost_params@) is Err {
                    (HostFault { category: ErrorCategory::Value, code: ErrorCode::InternalError })
                } else {
                    (HostFault { category: ErrorCategory::Context, code: ErrorCode::InvalidInput })
                }
            },
        },
{
    let cpu_params = match decode_contract_cost_params(&snapshot.cpu_cost_params) {
        Ok(p) => p,
        Err(_) => {
            return Err(
                HostFault { category: ErrorCategory::Value, code: ErrorCode::InternalError },
            );
        }
    };
    let mem_params = match decode_contract_cost_params(&snapshot.mem_cost_params) {
        Ok(p) => p,
        Err(_) => {
            return Err(
                HostFault { category: ErrorCategory::Value, code: ErrorCode::InternalError },
            );
        }
    };
    match Budget::try_from_configs(
        instruction_limit as u64,
        snapshot.memory_limit as u64,
        cpu_params,
        mem_params,
    ) {
        Ok(b) => Ok(b),
        Err(_) => Err(
            HostFault { category: ErrorCategory::Context, code: ErrorCode::InvalidInput },
        ),
    }
}

/// CPU instructions consumed outside VM instantiation: the total, less the
/// instantiation category's tracked share.
pub open spec fn spec_cpu_excluding_vm(budget: Budget) -> int {
    let vm = budget.trackers@[spec_cost_type_index(CostType::VmInstantiation)].cpu as int;
    if budget.total_cpu >= vm {
        budget.total_cpu - vm
    } else {
        0
    }
}

/// Wall time spent outside VM instantiation: the measured time, less the
/// instantiation category's tracked share, saturating at zero.
pub open spec fn spec_time_excluding_vm(budget: Budget, time_nsecs: u64) -> int {
    let vm = budget.trackers@[spec_cost_type_index(CostType::VmInstantiation)].time_nsecs as int;
    if time_nsecs >= vm {
        time_nsecs - vm
    } else {
        0
    }
}

/// The fault reported for an engine failure, typed for a completed run and
/// generic for a crash caught at the barrier.
pub open spec fn spec_outcome_fault(outcome: EngineOutcome) -> HostFault
    recommends
        !(outcome matches EngineOutcome::Completed { invoke_result: Ok(_), .. }),
{
    match outcome {
        EngineOutcome::Completed { invoke_result, .. } => match invoke_result {
            Err(f) => f,
            Ok(_) => HostFault { category: ErrorCategory::Context, code: ErrorCode::InternalError },
        },
        EngineOutcome::Crashed => HostFault {
            category: ErrorCategory::Context,
            code: ErrorCode::InternalError,
        },
    }
}

/// Assembles the one `InvocationOutput` of a call from the engine's outcome,
/// the spent budget, the accumulated diagnostic events, and the measured wall
/// time. On success the rent fee and the serialized effects are computed from
/// the returned changes; on any failure — typed or crash-class — the output
/// carries the classification of the fault, a synthesized diagnostic event
/// when diagnostics are enabled, empty results, and a zero rent fee. Every
/// path fills every metric field; only a broken effect list aborts with no
/// output.
pub fn complete_invocation(
    outcome: EngineOutcome,
    budget: &Budget,
    diagnostic_events: Vec<DiagnosticEvent>,
    enable_diagnostics: bool,
    protocol_version: u32,
    rent_fee_configuration: &RentFeeConfiguration,
    ledger_seq_num: u32,
    time_nsecs: u64,
) -> (r: Result<InvocationOutput, HostFault>)
    requires
        budget.wf(),
        rent_fee_configuration.spec_valid(),
    ensures
        match r {
            Ok(out) => {
                &&& out.cpu_insns == budget.total_cpu
                &&& out.mem_bytes == budget.total_mem
                &&& out.time_nsecs == time_nsecs
                &&& out.cpu_insns_excluding_vm_instantiation == spec_cpu_excluding_vm(*budget)
                &&& out.time_nsecs_excluding_vm_instantiation == spec_time_excluding_vm(
                    *budget,
                    time_nsecs,
                )
                &&& match outcome {
                    EngineOutcome::Completed {
                        invoke_result: Ok(result_value),
                        ledger_changes,
                        contract_events,
                    } => {
                        &&& out.success == true
                        &&& out.is_internal_error == false
                        &&& out.result_value@ == result_value@
                        &&& spec_ledger_effects(ledger_changes@) == Ok::<_, HostFault>(
                            spec_bytes_views(out.modified_ledger_entries@),
                        )
                        &&& out.rent_fee == spec_rent_fee(
                            spec_rent_changes(ledger_changes@),
                            *rent_fee_configuration,
                            ledger_seq_num,
                        )
                        &&& out.contract_events@ == contract_events@
                        &&& spec_bytes_views(out.diagnostic_events@) == spec_encoded_events(
                            spec_event_views(diagnostic_events@),
                        )
                    },
                    _ => {
                        let f = spec_outcome_fault(outcome);
                        &&& out.success == false
                        &&& out.is_internal_error == spec_is_internal_error(protocol_version, f)
                        &&& out.result_value@.len() == 0
                        &&& out.modified_ledger_entries@.len() == 0
                        &&& out.contract_events@.len() == 0
                        &&& out.rent_fee == 0
                        &&& spec_bytes_views(out.diagnostic_events@) == spec_encoded_events(
                            if enable_diagnostics {
                                spec_event_views(diagnostic_events@).push(spec_fail_event(f))
                            } else {
                                spec_event_views(diagnostic_events@)
                            },
                        )
                    },
                }
            },
            Err(f) => outcome matches EngineOutcome::Completed { invoke_result: Ok(_), ledger_changes, .. }
                && spec_ledger_effects(ledger_changes@) == Err::<Seq<Seq<u8>>, _>(f),
        },
{
    let cpu_insns = budget.get_cpu_insns_consumed();
    let mem_bytes = budget.get_mem_bytes_consumed();
    let vm_tracker = budget.get_tracker(CostType::VmInstantiation);
    let cpu_insns_excluding_vm_instantiation = if cpu_insns >= vm_tracker.cpu {
        cpu_insns - vm_tracker.cpu
    } else {
        0
    };
    let time_nsecs_excluding_vm_instantiation = if time_nsecs >= vm_tracker.time_nsecs {
        time_nsecs - vm_tracker.time_nsecs
    } else {
        0
    };
    match outcome {
        EngineOutcome::Completed { invoke_result: Ok(result_value), ledger_changes, contract_events } => {
            let rent_changes = extract_rent_changes(&ledger_changes);
            let rent_fee = compute_rent_fee(&rent_changes, *rent_fee_configuration, ledger_seq_num);
            let modified_ledger_entries = match extract_ledger_effects(&ledger_changes) {
                Ok(v) => v,
                Err(f) => {
                    return Err(f);
                }
            };
            Ok(
                InvocationOutput {
                    success: true,
                    is_internal_error: false,
                    diagnostic_events: encode_diagnostic_events(&diagnostic_events),
                    cpu_insns,
                    mem_bytes,
                    time_nsecs,
                    cpu_insns_excluding_vm_instantiation,
                    time_nsecs_excluding_vm_instantiation,
                    result_value,
                    modified_ledger_entries,
                    contract_events,
                    rent_fee,
                },
            )
        }
        EngineOutcome::Completed { invoke_result: Err(fault), .. } => Ok(
            failure_output(
                fault,
                diagnostic_events,
                enable_diagnostics,
                protocol_version,
                cpu_insns,
                mem_bytes,
                time_nsecs,
                cpu_insns_excluding_vm_instantiation,
                time_nsecs_excluding_vm_instantiation,
            ),
        ),
        EngineOutcome::Crashed => Ok(
            failure_output(
                HostFault::unrecoverable(),
                diagnostic_events,
                enable_diagnostics,
                protocol_version,
                cpu_insns,
                mem_bytes,
                time_nsecs,
                cpu_insns_excluding_vm_instantiation,
                time_nsecs_excluding_vm_instantiation,
            ),
        ),
    }
}

/// The fully populated failure output for one fault: classification under
/// the active protocol, the synthesized diagnostic event when diagnostics
/// are enabled, empty results, a zero rent fee, and the metrics collected
/// before the failure.
fn failure_output(
    fault: HostFault,
    diagnostic_events: Vec<DiagnosticEvent>,
    enable_diagnostics: bool,
    protocol_version: u32,
    cpu_insns: u64,
    mem_bytes: u64,
    time_nsecs: u64,
    cpu_insns_excluding_vm_instantiation: u64,
    time_nsecs_excluding_vm_instantiation: u64,
) -> (out: InvocationOutput)
    ensures
        out.success == false,
        out.is_internal_error == spec_is_internal_error(protocol_version, fault),
        out.result_value@.len() == 0,
        out.modified_ledger_entries@.len() == 0,
        out.contract_events@.len() == 0,
        out.rent_fee == 0,
        out.cpu_insns == cpu_insns,
        out.mem_bytes == mem_bytes,
        out.time_nsecs == time_nsecs,
        out.cpu_insns_excluding_vm_instantiation == cpu_insns_excluding_vm_instantiation,
        out.time_nsecs_excluding_vm_instantiation == time_nsecs_excluding_vm_instantiation,
        spec_bytes_views(out.diagnostic_events@) == spec_encoded_events(
            if enable_diagnostics {
                spec_event_views(diagnostic_events@).push(spec_fail_event(fault))
            } else {
                spec_event_views(diagnostic_events@)
            },
        ),
{
    let mut events = diagnostic_events;
    if enable_diagnostics {
        let ghost before = events@;
        events.push(host_fn_failed_event(fault));
        proof {
            assert(spec_event_views(events@) =~= spec_event_views(before).push(
                spec_fail_event(fault),
            ));
        }
    }
    let is_internal = crate::errors::is_internal_error(protocol_version, fault);
    InvocationOutput {
        success: false,
        is_internal_error: is_internal,
        diagnostic_events: encode_diagnostic_events(&events),
        cpu_insns,
        mem_bytes,
        time_nsecs,
        cpu_insns_excluding_vm_instantiation,
        time_nsecs_excluding_vm_instantiation,
        result_value: Vec::new(),
        modified_ledger_entries: Vec::new(),
        contract_events: Vec::new(),
        rent_fee: 0,
    }
}

} // verus!
