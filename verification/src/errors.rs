//! Error taxonomy of the invocation boundary and the protocol-version
//! dependent classification of execution faults.

use vstd::prelude::*;

verus! {

/// First protocol version in which an `InternalError` attributed to the
/// guest contract is no longer treated as an engine-side bug.
pub const PROTO_CONTRACT_ATTRIBUTED_INTERNAL: u32 = 22;

/// Broad category of a typed fault surfaced by the execution engine.
#[derive(Clone, Copy, Debug, PartialEq, Eq, Structural)]
pub enum ErrorCategory {
    Contract,
    WasmVm,
    Context,
    Storage,
    Object,
    Crypto,
    Events,
    Budget,
    Value,
    Auth,
}

/// Specific code of a typed fault surfaced by the execution engine.
#[derive(Clone, Copy, Debug, PartialEq, Eq, Structural)]
pub enum ErrorCode {
    ArithDomain,
    IndexBounds,
    InvalidInput,
    MissingValue,
    ExistingValue,
    ExceededLimit,
    InvalidAction,
    InternalError,
    UnexpectedType,
    UnexpectedSize,
}

/// Typed error surfaced by the execution engine during a call. A `HostFault`
/// never aborts the call: it yields a fully populated failure output.
#[derive(Clone, Copy, Debug, PartialEq, Eq, Structural)]
pub struct HostFault {
    pub category: ErrorCategory,
    pub code: ErrorCode,
}

/// Failure of the limited binary decoder or encoder: the input was malformed,
/// nested too deeply, or an encoding exceeded the output length limit.
#[derive(Clone, Copy, Debug, PartialEq, Eq, Structural)]
pub enum MarshallingError {
    DepthLimitExceeded,
    LengthLimitExceeded,
    Malformed,
}

/// Invalid budget or cost-parameter configuration, detected before any
/// execution occurs.
#[derive(Clone, Copy, Debug, PartialEq, Eq, Structural)]
pub enum ConfigError {
    MissingCostParameter,
    NegativeCostParameter,
}

impl HostFault {
    /// The fault reported at the fault barrier for a crash-class failure of
    /// the execution path: a generic engine-side internal error.
    pub fn unrecoverable() -> (r: HostFault)
        ensures
            r.category is Context,
            r.code is InternalError,
    {
        HostFault { category: ErrorCategory::Context, code: ErrorCode::InternalError }
    }

    /// The fault that stands for a marshalling failure of exchanged data.
    pub fn from_marshalling(_e: MarshallingError) -> (r: HostFault)
        ensures
            r.category is Value,
            r.code is InvalidInput,
    {
        HostFault { category: ErrorCategory::Value, code: ErrorCode::InvalidInput }
    }
}

/// Classification rule for failed invocations: below protocol version 22 a
/// failure is internal exactly when its code is `InternalError`; from version
/// 22 on, an `InternalError` attributed to the guest contract no longer
/// counts as an engine bug.
pub open spec fn spec_is_internal_error(protocol_version: u32, fault: HostFault) -> bool {
    if protocol_version < PROTO_CONTRACT_ATTRIBUTED_INTERNAL {
        fault.code is InternalError
    } else {
        fault.code is InternalError && !(fault.category is Contract)
    }
}

/// Decides whether a failed invocation is attributed to the engine itself,
/// under the classification rule of the active protocol version.
pub fn is_internal_error(protocol_version: u32, fault: HostFault) -> (r: bool)
    ensures
        r == spec_is_internal_error(protocol_version, fault),
{
    if protocol_version < PROTO_CONTRACT_ATTRIBUTED_INTERNAL {
        matches!(fault.code, ErrorCode::InternalError)
    } else {
        matches!(fault.code, ErrorCode::InternalError)
            && !matches!(fault.category, ErrorCategory::Contract)
    }
}

} // verus!
