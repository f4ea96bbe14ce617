//! Diagnostic events: informational records from execution, encoded for the
//! caller. An event that does not fit the output limit is dropped rather than
//! failing the call.

use vstd::prelude::*;
use crate::codec::{
    depth_exceeds, depth_exceeds_any, encode_value_into, encode_value_seq_into,
    lemma_encode_list_len, lemma_encode_value_len, lemma_view_value_list, push_bytes, push_u32_be,
    spec_be4, spec_depth_list, spec_depth_value, spec_encode_list, spec_encode_value, view_value,
    view_value_list, ScValue, ValueModel, ENCODE_OUTPUT_LIMIT, MARSHALLING_STACK_LIMIT,
};
use crate::errors::{HostFault, MarshallingError};

verus! {

broadcast use vstd::std_specs::vec::group_vec_axioms;

/// What kind of event the execution engine emitted.
#[derive(Clone, Copy, Debug, PartialEq, Eq, Structural)]
pub enum ContractEventType {
    Contract,
    System,
    Diagnostic,
}

/// One diagnostic event: whether it was recorded in a successful call, its
/// kind, the emitting contract if any, and its topics and data values.
#[derive(Debug, PartialEq, Eq)]
pub struct DiagnosticEvent {
    pub in_successful_contract_call: bool,
    pub event_type: ContractEventType,
    pub contract_id: Option<Vec<u8>>,
    pub topics: Vec<ScValue>,
    pub data: ScValue,
}

/// The mathematical model of a diagnostic event.
pub struct EventModel {
    pub in_successful_contract_call: bool,
    pub event_type: ContractEventType,
    pub contract_id: Option<Seq<u8>>,
    pub topics: Seq<ValueModel>,
    pub data: ValueModel,
}

impl View for DiagnosticEvent {
    type V = EventModel;

    open spec fn view(&self) -> EventModel {
        EventModel {
            in_successful_contract_call: self.in_successful_contract_call,
            event_type: self.event_type,
            contract_id: match self.contract_id {
                Some(id) => Some(id@),
                None => None,
            },
            topics: view_value_list(self.topics@),
            data: view_value(self.data),
        }
    }
}

/// The byte standing for an event kind.
pub open spec fn spec_event_type_byte(t: ContractEventType) -> u8 {
    match t {
        ContractEventType::Contract => 0,
        ContractEventType::System => 1,
        ContractEventType::Diagnostic => 2,
    }
}

/// The encoding of one event: two flag bytes, the optional contract id with
/// a length prefix, then the topics and the data value.
pub open spec fn spec_encode_event(e: EventModel) -> Seq<u8> {
    seq![
        if e.in_successful_contract_call {
            1u8
        } else {
            0u8
        },
        spec_event_type_byte(e.event_type),
    ] + (match e.contract_id {
        None => seq![0u8],
        Some(id) => seq![1u8] + spec_be4(id.len() as u32) + id,
    }) + spec_be4(e.topics.len() as u32) + spec_encode_list(e.topics) + spec_encode_value(e.data)
}

/// Nesting depth of one event: its topic sequence counts as one nested
/// level around the topics, and the data value stands on its own.
pub open spec fn spec_event_depth(e: EventModel) -> nat {
    let topics_depth = 1 + spec_depth_list(e.topics);
    let data_depth = spec_depth_value(e.data);
    if topics_depth >= data_depth {
        topics_depth
    } else {
        data_depth
    }
}

/// Encodes one diagnostic event under the nesting-depth and output limits;
/// an event too deep or too large is reported, never truncated.
pub fn encode_diagnostic_event(event: &DiagnosticEvent) -> (r: Result<Vec<u8>, MarshallingError>)
    ensures
        match r {
            Ok(b) => spec_event_depth(event@) <= MARSHALLING_STACK_LIMIT && b@
                == spec_encode_event(event@) && b@.len() <= ENCODE_OUTPUT_LIMIT,
            Err(e) => match e {
                MarshallingError::DepthLimitExceeded => spec_event_depth(event@)
                    > MARSHALLING_STACK_LIMIT,
                MarshallingError::LengthLimitExceeded => spec_event_depth(event@)
                    <= MARSHALLING_STACK_LIMIT && spec_encode_event(event@).len()
                    > ENCODE_OUTPUT_LIMIT,
                MarshallingError::Malformed => false,
            },
        },
{
    if depth_exceeds_any(&event.topics, MARSHALLING_STACK_LIMIT - 1) || depth_exceeds(
        &event.data,
        MARSHALLING_STACK_LIMIT,
    ) {
        return Err(MarshallingError::DepthLimitExceeded);
    }
    proof {
        lemma_encode_list_len(view_value_list(event.topics@));
        lemma_encode_value_len(view_value(event.data));
        lemma_view_value_list(event.topics@);
    }
    let mut out: Vec<u8> = Vec::new();
    out.push(if event.in_successful_contract_call { 1u8 } else { 0u8 });
    out.push(
        match event.event_type {
            ContractEventType::Contract => 0u8,
            ContractEventType::System => 1u8,
            ContractEventType::Diagnostic => 2u8,
        },
    );
    match &event.contract_id {
        None => {
            out.push(0u8);
        }
        Some(id) => {
            if id.len() > ENCODE_OUTPUT_LIMIT {
                return Err(MarshallingError::LengthLimitExceeded);
            }
            out.push(1u8);
            push_u32_be(id.len() as u32, &mut out);
            push_bytes(id, &mut out);
        }
    }
    if event.topics.len() as u64 > 0xFFFF_FFFFu64 {
        return Err(MarshallingError::LengthLimitExceeded);
    }
    if out.len() + 5 > ENCODE_OUTPUT_LIMIT {
        return Err(MarshallingError::LengthLimitExceeded);
    }
    push_u32_be(event.topics.len() as u32, &mut out);
    let ghost header = out@;
    proof {
        assert(spec_encode_event(event@) =~= header + spec_encode_list(event@.topics)
            + spec_encode_value(event@.data));
    }
    match encode_value_seq_into(&event.topics, &mut out) {
        Ok(()) => {}
        Err(_) => {
            return Err(MarshallingError::LengthLimitExceeded);
        }
    }
    match encode_value_into(&event.data, &mut out) {
        Ok(()) => {}
        Err(_) => {
            return Err(MarshallingError::LengthLimitExceeded);
        }
    }
    proof {
        assert(out@ =~= spec_encode_event(event@));
    }
    Ok(out)
}

/// The views of a sequence of byte buffers.
pub open spec fn spec_bytes_views(s: Seq<Vec<u8>>) -> Seq<Seq<u8>> {
    Seq::new(s.len(), |i: int| s[i]@)
}

/// The views of a sequence of events.
pub open spec fn spec_event_views(s: Seq<DiagnosticEvent>) -> Seq<EventModel> {
    Seq::new(s.len(), |i: int| s[i]@)
}

/// The encodings of the events that fit the nesting-depth and output
/// limits, in order; events that do not fit contribute nothing.
pub open spec fn spec_encoded_events(es: Seq<EventModel>) -> Seq<Seq<u8>>
    decreases es,
{
    if es.len() == 0 {
        Seq::empty()
    } else {
        let front = spec_encoded_events(es.drop_last());
        let enc = spec_encode_event(es.last());
        if spec_event_depth(es.last()) <= MARSHALLING_STACK_LIMIT && enc.len()
            <= ENCODE_OUTPUT_LIMIT {
            front.push(enc)
        } else {
            front
        }
    }
}

/// Encodes every diagnostic event that fits the output limit, dropping the
/// ones that do not, never failing the call for an optional payload.
pub fn encode_diagnostic_events(events: &Vec<DiagnosticEvent>) -> (r: Vec<Vec<u8>>)
    ensures
        spec_bytes_views(r@) == spec_encoded_events(spec_event_views(events@)),
{
    let mut out: Vec<Vec<u8>> = Vec::new();
    let mut i: usize = 0;
    proof {
        assert(spec_bytes_views(out@) =~= spec_encoded_events(
            spec_event_views(events@).take(0),
        ));
    }
    #[verifier::loop_isolation(false)]
    while i < events.len()
        invariant
            i <= events@.len(),
            spec_bytes_views(out@) == spec_encoded_events(spec_event_views(events@).take(i as int)),
        decreases events@.len() - i,
    {
        let ghost before = out@;
        proof {
            assert(spec_event_views(events@).take(i as int + 1).drop_last() =~= spec_event_views(
                events@,
            ).take(i as int));
            assert(spec_event_views(events@).take(i as int + 1).last() == events@[i as int]@);
        }
        match encode_diagnostic_event(&events[i]) {
            Ok(b) => {
                out.push(b);
                proof {
                    assert(spec_bytes_views(out@) =~= spec_bytes_views(before).push(
                        spec_encode_event(events@[i as int]@),
                    ));
                }
            }
            Err(_) => {}
        }
        i = i + 1;
    }
    proof {
        assert(spec_event_views(events@).take(events@.len() as int) =~= spec_event_views(events@));
    }
    out
}

/// The topic marking the synthesized failure event.
pub open spec fn spec_fail_marker() -> Seq<u8> {
    seq![104u8, 111u8, 115u8, 116u8, 95u8, 102u8, 110u8, 95u8, 102u8, 97u8, 105u8, 108u8, 101u8,
        100u8]
}

/// The model of the one event synthesized for a failed invocation.
pub open spec fn spec_fail_event(fault: HostFault) -> EventModel {
    EventModel {
        in_successful_contract_call: false,
        event_type: ContractEventType::Diagnostic,
        contract_id: None,
        topics: seq![ValueModel::Bytes(spec_fail_marker()), ValueModel::Error(fault)],
        data: ValueModel::Void,
    }
}

/// Synthesizes the one diagnostic event recorded for a failed invocation: a
/// fixed marker topic and the failure's error value, with no data.
pub fn host_fn_failed_event(fault: HostFault) -> (r: DiagnosticEvent)
    ensures
        r@ == spec_fail_event(fault),
{
    let marker: Vec<u8> = vec![104u8, 111, 115, 116, 95, 102, 110, 95, 102, 97, 105, 108, 101,
        100];
    let topics: Vec<ScValue> = vec![ScValue::Bytes(marker), ScValue::Error(fault)];
    let r = DiagnosticEvent {
        in_successful_contract_call: false,
        event_type: ContractEventType::Diagnostic,
        contract_id: None,
        topics,
        data: ScValue::Void,
    };
    proof {
        lemma_view_value_list(r.topics@);
        assert(r.topics@[0]@ == ValueModel::Bytes(spec_fail_marker()));
        assert(r@.topics =~= seq![
            ValueModel::Bytes(spec_fail_marker()),
            ValueModel::Error(fault),
        ]);
    }
    r
}

} // verus!
