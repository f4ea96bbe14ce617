//! Per-call budget: CPU-instruction and memory-byte consumption tracked per
//! cost category against configured ceilings.

use vstd::prelude::*;
use crate::errors::{ConfigError, ErrorCategory, ErrorCode, HostFault};

verus! {

broadcast use vstd::std_specs::vec::group_vec_axioms;

/// Cost categories metered by the budget. VM instantiation is tracked
/// separately so that fixed setup cost can be excluded from dynamic metrics.
#[derive(Clone, Copy, Debug, PartialEq, Eq, Structural)]
pub enum CostType {
    WasmInsnExec,
    MemAlloc,
    ComputeSha256,
    VmInstantiation,
    ParseWasmBytes,
}

/// How many cost categories the budget meters.
pub const COST_TYPE_COUNT: usize = 5;

/// Position of a cost category in the tracker table and the parameter tables.
pub open spec fn spec_cost_type_index(t: CostType) -> int {
    match t {
        CostType::WasmInsnExec => 0,
        CostType::MemAlloc => 1,
        CostType::ComputeSha256 => 2,
        CostType::VmInstantiation => 3,
        CostType::ParseWasmBytes => 4,
    }
}

/// Position of a cost category in the tracker table and the parameter tables.
pub fn cost_type_index(t: CostType) -> (r: usize)
    ensures
        r == spec_cost_type_index(t),
        r < COST_TYPE_COUNT,
{
    match t {
        CostType::WasmInsnExec => 0,
        CostType::MemAlloc => 1,
        CostType::ComputeSha256 => 2,
        CostType::VmInstantiation => 3,
        CostType::ParseWasmBytes => 4,
    }
}

/// One term pair of the linear cost model: cost = const_term + linear_term
/// times the input.
#[derive(Clone, Copy, Debug, PartialEq, Eq, Structural)]
pub struct CostParamEntry {
    pub const_term: i64,
    pub linear_term: i64,
}

/// A cost-parameter table, one entry per cost category in category order.
#[derive(Debug, PartialEq, Eq)]
pub struct CostParams {
    pub entries: Vec<CostParamEntry>,
}

impl CostParams {
    /// The table covers every metered category.
    pub open spec fn spec_complete(&self) -> bool {
        self.entries@.len() >= COST_TYPE_COUNT
    }

    /// No term of the table is negative.
    pub open spec fn spec_nonneg(&self) -> bool {
        forall|i: int|
            0 <= i < self.entries@.len() ==> (#[trigger] self.entries@[i]).const_term >= 0
                && self.entries@[i].linear_term >= 0
    }

    /// A table the budget accepts: complete and non-negative.
    pub open spec fn spec_valid(&self) -> bool {
        self.spec_complete() && self.spec_nonneg()
    }

    /// Whether no term of the table is negative.
    pub fn nonneg(&self) -> (r: bool)
        ensures
            r == self.spec_nonneg(),
    {
        let mut i: usize = 0;
        while i < self.entries.len()
            invariant
                i <= self.entries@.len(),
                forall|t: int|
                    0 <= t < i ==> (#[trigger] self.entries@[t]).const_term >= 0
                        && self.entries@[t].linear_term >= 0,
            decreases self.entries@.len() - i,
        {
            let e = self.entries[i];
            if e.const_term < 0 || e.linear_term < 0 {
                return false;
            }
            i = i + 1;
        }
        true
    }
}

/// A table the budget accepts, stated over its bare entries: one entry per
/// metered category and no negative term.
pub open spec fn spec_entries_valid(es: Seq<CostParamEntry>) -> bool {
    &&& es.len() >= COST_TYPE_COUNT
    &&& forall|i: int|
        0 <= i < es.len() ==> (#[trigger] es[i]).const_term >= 0 && es[i].linear_term >= 0
}

/// The cost the linear model assigns to one call of a metered operation.
pub open spec fn spec_param_cost(e: CostParamEntry, input: u64) -> int {
    e.const_term + e.linear_term * input
}

/// Consumption recorded for one cost category.
#[derive(Clone, Copy, Debug, PartialEq, Eq, Structural)]
pub struct CostTracker {
    pub cpu: u64,
    pub mem: u64,
    pub time_nsecs: u64,
}

/// Total CPU instructions recorded over a tracker table.
pub open spec fn spec_sum_cpu(ts: Seq<CostTracker>) -> int
    decreases ts,
{
    if ts.len() == 0 {
        0
    } else {
        ts[0].cpu + spec_sum_cpu(ts.subrange(1, ts.len() as int))
    }
}

/// Total memory bytes recorded over a tracker table.
pub open spec fn spec_sum_mem(ts: Seq<CostTracker>) -> int
    decreases ts,
{
    if ts.len() == 0 {
        0
    } else {
        ts[0].mem + spec_sum_mem(ts.subrange(1, ts.len() as int))
    }
}

/// Updating one tracker moves each total by that tracker's change.
pub proof fn lemma_sum_update(ts: Seq<CostTracker>, i: int, t: CostTracker)
    requires
        0 <= i < ts.len(),
    ensures
        spec_sum_cpu(ts.update(i, t)) == spec_sum_cpu(ts) - ts[i].cpu + t.cpu,
        spec_sum_mem(ts.update(i, t)) == spec_sum_mem(ts) - ts[i].mem + t.mem,
    decreases ts,
{
    if i == 0 {
        assert(ts.update(0, t).subrange(1, ts.len() as int) =~= ts.subrange(1, ts.len() as int));
    } else {
        lemma_sum_update(ts.subrange(1, ts.len() as int), i - 1, t);
        assert(ts.update(i, t).subrange(1, ts.len() as int) =~= ts.subrange(
            1,
            ts.len() as int,
        ).update(i - 1, t));
    }
}

/// Every tracker's recorded value is at most the total.
pub proof fn lemma_sum_bounds(ts: Seq<CostTracker>, i: int)
    requires
        0 <= i < ts.len(),
    ensures
        ts[i].cpu <= spec_sum_cpu(ts),
        ts[i].mem <= spec_sum_mem(ts),
    decreases ts,
{
    lemma_sum_nonneg(ts.subrange(1, ts.len() as int));
    if i > 0 {
        lemma_sum_bounds(ts.subrange(1, ts.len() as int), i - 1);
    }
}

/// Totals over a tracker table are never negative.
pub proof fn lemma_sum_nonneg(ts: Seq<CostTracker>)
    ensures
        spec_sum_cpu(ts) >= 0,
        spec_sum_mem(ts) >= 0,
    decreases ts,
{
    if ts.len() > 0 {
        lemma_sum_nonneg(ts.subrange(1, ts.len() as int));
    }
}

/// One more tracker extends each running total by that tracker's values.
pub proof fn lemma_sum_take_succ(ts: Seq<CostTracker>, i: int)
    requires
        0 <= i < ts.len(),
    ensures
        spec_sum_cpu(ts.take(i + 1)) == spec_sum_cpu(ts.take(i)) + ts[i].cpu,
        spec_sum_mem(ts.take(i + 1)) == spec_sum_mem(ts.take(i)) + ts[i].mem,
    decreases i,
{
    if i == 0 {
        assert(ts.take(1)[0] == ts[0]);
        assert(ts.take(1).subrange(1, 1) =~= Seq::<CostTracker>::empty());
        assert(ts.take(0) =~= Seq::<CostTracker>::empty());
    } else {
        let tail = ts.subrange(1, ts.len() as int);
        lemma_sum_take_succ(tail, i - 1);
        assert(ts.take(i + 1)[0] == ts[0]);
        assert(ts.take(i + 1).subrange(1, i + 1) =~= tail.take(i));
        assert(ts.take(i)[0] == ts[0]);
        assert(ts.take(i).subrange(1, i) =~= tail.take(i - 1));
        assert(tail[i - 1] == ts[i]);
    }
}

/// Per-call accounting of CPU instructions and memory bytes, by category,
/// against fixed ceilings. One budget serves exactly one call.
#[derive(Debug)]
pub struct Budget {
    pub cpu_limit: u64,
    pub mem_limit: u64,
    pub cpu_params: CostParams,
    pub mem_params: CostParams,
    pub trackers: Vec<CostTracker>,
    pub total_cpu: u64,
    pub total_mem: u64,
}

impl Budget {
    /// The budget's internal consistency: a tracker per category, valid
    /// parameter tables, and totals that agree with the trackers and fit
    /// under the ceilings.
    pub open spec fn wf(&self) -> bool {
        &&& self.trackers@.len() == COST_TYPE_COUNT
        &&& self.cpu_params.spec_valid()
        &&& self.mem_params.spec_valid()
        &&& self.total_cpu == spec_sum_cpu(self.trackers@)
        &&& self.total_mem == spec_sum_mem(self.trackers@)
        &&& self.total_cpu <= self.cpu_limit
        &&& self.total_mem <= self.mem_limit
    }

    /// Builds a budget from the call's ceilings and decoded cost-parameter
    /// tables. An incomplete table, or one with a negative term, is a
    /// configuration error and nothing is constructed.
    pub fn try_from_configs(
        cpu_limit: u64,
        mem_limit: u64,
        cpu_params: CostParams,
        mem_params: CostParams,
    ) -> (r: Result<Budget, ConfigError>)
        ensures
            match r {
                Ok(b) => cpu_params.spec_valid() && mem_params.spec_valid() && b.wf()
                    && b.cpu_limit == cpu_limit && b.mem_limit == mem_limit && b.cpu_params
                    == cpu_params && b.mem_params == mem_params && b.total_cpu == 0 && b.total_mem
                    == 0 && forall|i: int|
                    0 <= i < COST_TYPE_COUNT ==> b.trackers@[i] == (CostTracker {
                        cpu: 0,
                        mem: 0,
                        time_nsecs: 0,
                    }),
                Err(ConfigError::MissingCostParameter) => !cpu_params.spec_complete()
                    || !mem_params.spec_complete(),
                Err(ConfigError::NegativeCostParameter) => cpu_params.spec_complete()
                    && mem_params.spec_complete() && (!cpu_params.spec_nonneg()
                    || !mem_params.spec_nonneg()),
            },
    {
        if cpu_params.entries.len() < COST_TYPE_COUNT || mem_params.entries.len()
            < COST_TYPE_COUNT {
            return Err(ConfigError::MissingCostParameter);
        }
        if !cpu_params.nonneg() || !mem_params.nonneg() {
            return Err(ConfigError::NegativeCostParameter);
        }
        let mut trackers: Vec<CostTracker> = Vec::new();
        let mut i: usize = 0;
        while i < COST_TYPE_COUNT
            invariant
                i <= COST_TYPE_COUNT,
                trackers@.len() == i,
                forall|t: int|
                    0 <= t < i ==> trackers@[t] == (CostTracker { cpu: 0, mem: 0, time_nsecs: 0 }),
                spec_sum_cpu(trackers@) == 0,
                spec_sum_mem(trackers@) == 0,
            decreases COST_TYPE_COUNT - i,
        {
            let ghost before = trackers@;
            trackers.push(CostTracker { cpu: 0, mem: 0, time_nsecs: 0 });
            proof {
                lemma_sum_push_zero(before);
            }
            i = i + 1;
        }
        Ok(
            Budget {
                cpu_limit,
                mem_limit,
                cpu_params,
                mem_params,
                trackers,
                total_cpu: 0,
                total_mem: 0,
            },
        )
    }

    /// Whether the budget is internally consistent, decided executably so
    /// that unverified callers can test it before relying on it: a tracker
    /// per category, valid parameter tables, and totals that agree with the
    /// trackers and fit under the ceilings.
    pub fn is_well_formed(&self) -> (r: bool)
        ensures
            r == self.wf(),
    {
        if self.trackers.len() != COST_TYPE_COUNT {
            return false;
        }
        if self.cpu_params.entries.len() < COST_TYPE_COUNT || !self.cpu_params.nonneg() {
            return false;
        }
        if self.mem_params.entries.len() < COST_TYPE_COUNT || !self.mem_params.nonneg() {
            return false;
        }
        let mut sum_cpu: u128 = 0;
        let mut sum_mem: u128 = 0;
        let mut i: usize = 0;
        proof {
            assert(self.trackers@.take(0) =~= Seq::<CostTracker>::empty());
        }
        #[verifier::loop_isolation(false)]
        while i < self.trackers.len()
            invariant
                i <= self.trackers@.len(),
                sum_cpu == spec_sum_cpu(self.trackers@.take(i as int)),
                sum_mem == spec_sum_mem(self.trackers@.take(i as int)),
                sum_cpu <= i * 0xFFFF_FFFF_FFFF_FFFFu128,
                sum_mem <= i * 0xFFFF_FFFF_FFFF_FFFFu128,
            decreases self.trackers@.len() - i,
        {
            proof {
                lemma_sum_take_succ(self.trackers@, i as int);
                assert((i + 1) * 0xFFFF_FFFF_FFFF_FFFFu128 == i * 0xFFFF_FFFF_FFFF_FFFFu128
                    + 0xFFFF_FFFF_FFFF_FFFF) by (nonlinear_arith);
                vstd::arithmetic::mul::lemma_mul_inequality(
                    i as int + 1,
                    COST_TYPE_COUNT as int,
                    0xFFFF_FFFF_FFFF_FFFF,
                );
            }
            let tracker = self.trackers[i];
            sum_cpu = sum_cpu + tracker.cpu as u128;
            sum_mem = sum_mem + tracker.mem as u128;
            i = i + 1;
        }
        proof {
            assert(self.trackers@.take(self.trackers@.len() as int) =~= self.trackers@);
        }
        sum_cpu == self.total_cpu as u128 && sum_mem == self.total_mem as u128 && self.total_cpu
            <= self.cpu_limit && self.total_mem <= self.mem_limit
    }

    /// CPU instructions consumed so far, over all categories.
    pub fn get_cpu_insns_consumed(&self) -> (r: u64)
        ensures
            r == self.total_cpu,
    {
        self.total_cpu
    }

    /// Memory bytes consumed so far, over all categories.
    pub fn get_mem_bytes_consumed(&self) -> (r: u64)
        ensures
            r == self.total_mem,
    {
        self.total_mem
    }

    /// Consumption recorded for one category.
    pub fn get_tracker(&self, t: CostType) -> (r: CostTracker)
        requires
            self.wf(),
        ensures
            r == self.trackers@[spec_cost_type_index(t)],
    {
        self.trackers[cost_type_index(t)]
    }

    /// Wall time recorded for one category.
    pub fn get_time(&self, t: CostType) -> (r: u64)
        requires
            self.wf(),
        ensures
            r == self.trackers@[spec_cost_type_index(t)].time_nsecs,
    {
        self.trackers[cost_type_index(t)].time_nsecs
    }

    /// Charges one metered operation with the given input weight to one
    /// category, on both the CPU and the memory ceiling. A charge that would
    /// pass either ceiling fails with `ExceededLimit` and changes nothing.
    pub fn charge(&mut self, t: CostType, input: u64) -> (r: Result<(), HostFault>)
        requires
            old(self).wf(),
        ensures
            final(self).wf(),
            final(self).cpu_limit == old(self).cpu_limit,
            final(self).mem_limit == old(self).mem_limit,
            final(self).cpu_params == old(self).cpu_params,
            final(self).mem_params == old(self).mem_params,
            match r {
                Ok(()) => {
                    let i = spec_cost_type_index(t);
                    let cpu_cost = spec_param_cost(old(self).cpu_params.entries@[i], input);
                    let mem_cost = spec_param_cost(old(self).mem_params.entries@[i], input);
                    &&& old(self).total_cpu + cpu_cost <= old(self).cpu_limit
                    &&& old(self).total_mem + mem_cost <= old(self).mem_limit
                    &&& final(self).total_cpu == old(self).total_cpu + cpu_cost
                    &&& final(self).total_mem == old(self).total_mem + mem_cost
                    &&& final(self).trackers@ == old(self).trackers@.update(
                        i,
                        CostTracker {
                            cpu: (old(self).trackers@[i].cpu + cpu_cost) as u64,
                            mem: (old(self).trackers@[i].mem + mem_cost) as u64,
                            time_nsecs: old(self).trackers@[i].time_nsecs,
                        },
                    )
                },
                Err(f) => {
                    let i = spec_cost_type_index(t);
                    let cpu_cost = spec_param_cost(old(self).cpu_params.entries@[i], input);
                    let mem_cost = spec_param_cost(old(self).mem_params.entries@[i], input);
                    &&& f.category is Budget
                    &&& f.code is ExceededLimit
                    &&& (old(self).total_cpu + cpu_cost > old(self).cpu_limit || old(
                        self,
                    ).total_mem + mem_cost > old(self).mem_limit)
                    &&& *final(self) == *old(self)
                },
            },
    {
        let i = cost_type_index(t);
        let cpu_entry = self.cpu_params.entries[i];
        let mem_entry = self.mem_params.entries[i];
        proof {
            assert(self.cpu_params.entries@[i as int].const_term >= 0);
            assert(self.mem_params.entries@[i as int].const_term >= 0);
            vstd::arithmetic::mul::lemma_mul_upper_bound(
                cpu_entry.linear_term as int,
                0x7FFF_FFFF_FFFF_FFFF,
                input as int,
                0xFFFF_FFFF_FFFF_FFFF,
            );
            vstd::arithmetic::mul::lemma_mul_upper_bound(
                mem_entry.linear_term as int,
                0x7FFF_FFFF_FFFF_FFFF,
                input as int,
                0xFFFF_FFFF_FFFF_FFFF,
            );
            vstd::arithmetic::mul::lemma_mul_nonnegative(
                cpu_entry.linear_term as int,
                input as int,
            );
            vstd::arithmetic::mul::lemma_mul_nonnegative(
                mem_entry.linear_term as int,
                input as int,
            );
        }
        let cpu_cost: u128 = cpu_entry.const_term as u128 + cpu_entry.linear_term as u128
            * input as u128;
        let mem_cost: u128 = mem_entry.const_term as u128 + mem_entry.linear_term as u128
            * input as u128;
        let cpu_room: u128 = (self.cpu_limit - self.total_cpu) as u128;
        let mem_room: u128 = (self.mem_limit - self.total_mem) as u128;
        if cpu_cost > cpu_room || mem_cost > mem_room {
            return Err(
                HostFault { category: ErrorCategory::Budget, code: ErrorCode::ExceededLimit },
            );
        }
        let old_tracker = self.trackers[i];
        proof {
            lemma_sum_bounds(self.trackers@, i as int);
        }
        let new_tracker = CostTracker {
            cpu: old_tracker.cpu + cpu_cost as u64,
            mem: old_tracker.mem + mem_cost as u64,
            time_nsecs: old_tracker.time_nsecs,
        };
        proof {
            lemma_sum_update(self.trackers@, i as int, new_tracker);
        }
        self.trackers.set(i, new_tracker);
        self.total_cpu = self.total_cpu + cpu_cost as u64;
        self.total_mem = self.total_mem + mem_cost as u64;
        Ok(())
    }

    /// Records wall time spent in one category, saturating at the largest
    /// representable value.
    pub fn track_time(&mut self, t: CostType, nsecs: u64)
        requires
            old(self).wf(),
        ensures
            final(self).wf(),
            final(self).cpu_limit == old(self).cpu_limit,
            final(self).mem_limit == old(self).mem_limit,
            final(self).cpu_params == old(self).cpu_params,
            final(self).mem_params == old(self).mem_params,
            final(self).total_cpu == old(self).total_cpu,
            final(self).total_mem == old(self).total_mem,
            ({
                let i = spec_cost_type_index(t);
                let new_time = if old(self).trackers@[i].time_nsecs + nsecs <= u64::MAX {
                    (old(self).trackers@[i].time_nsecs + nsecs) as u64
                } else {
                    u64::MAX
                };
                final(self).trackers@ == old(self).trackers@.update(
                    i,
                    CostTracker {
                        cpu: old(self).trackers@[i].cpu,
                        mem: old(self).trackers@[i].mem,
                        time_nsecs: new_time,
                    },
                )
            }),
    {
        let i = cost_type_index(t);
        let old_tracker = self.trackers[i];
        let added = if nsecs <= u64::MAX - old_tracker.time_nsecs {
            old_tracker.time_nsecs + nsecs
        } else {
            u64::MAX
        };
        let new_tracker = CostTracker {
            cpu: old_tracker.cpu,
            mem: old_tracker.mem,
            time_nsecs: added,
        };
        proof {
            lemma_sum_update(self.trackers@, i as int, new_tracker);
        }
        self.trackers.set(i, new_tracker);
    }
}

/// Appending a zeroed tracker leaves both totals unchanged.
pub proof fn lemma_sum_push_zero(ts: Seq<CostTracker>)
    ensures
        spec_sum_cpu(ts.push(CostTracker { cpu: 0, mem: 0, time_nsecs: 0 })) == spec_sum_cpu(ts),
        spec_sum_mem(ts.push(CostTracker { cpu: 0, mem: 0, time_nsecs: 0 })) == spec_sum_mem(ts),
    decreases ts,
{
    let z = CostTracker { cpu: 0, mem: 0, time_nsecs: 0 };
    let p = ts.push(z);
    assert(p.len() == ts.len() + 1);
    if ts.len() == 0 {
        assert(p[0] == z);
        assert(p.subrange(1, 1) =~= Seq::<CostTracker>::empty());
        assert(spec_sum_cpu(p) == z.cpu + spec_sum_cpu(p.subrange(1, 1)));
        assert(spec_sum_mem(p) == z.mem + spec_sum_mem(p.subrange(1, 1)));
    } else {
        lemma_sum_push_zero(ts.subrange(1, ts.len() as int));
        assert(p[0] == ts[0]);
        assert(p.subrange(1, ts.len() as int + 1) =~= ts.subrange(1, ts.len() as int).push(z));
        assert(spec_sum_cpu(p) == ts[0].cpu + spec_sum_cpu(p.subrange(1, ts.len() as int + 1)));
        assert(spec_sum_mem(p) == ts[0].mem + spec_sum_mem(p.subrange(1, ts.len() as int + 1)));
    }
}

} // verus!
