//! Reconstruction of ledger-state effects from the execution engine's
//! per-entry changes: the new serialized values of writable entries, and one
//! synthesized time-to-live record for each entry whose lifetime grew.

use vstd::prelude::*;
use crate::errors::{ErrorCategory, ErrorCode, HostFault};
use crate::events::spec_bytes_views;
use crate::fees::LedgerEntryRentChange;
use crate::xdr::{encode_ttl_record, spec_encode_ttl_record, TtlEntryRecord};
use crate::codec::read_bytes;

verus! {

broadcast use vstd::std_specs::vec::group_vec_axioms;

/// A change of one entry's time-to-live, reported by the execution engine:
/// the entry key's hash and the expiration ledger before and after the call.
#[derive(Debug, PartialEq, Eq)]
pub struct TtlChange {
    pub key_hash: Vec<u8>,
    pub old_live_until_ledger: u32,
    pub new_live_until_ledger: u32,
    pub is_persistent: bool,
}

/// One per-entry change produced by the execution engine and consumed once:
/// whether the entry was read-only, its sizes for rent, its new serialized
/// value if it was written, and its time-to-live change if any.
#[derive(Debug, PartialEq, Eq)]
pub struct LedgerEntryChange {
    pub read_only: bool,
    pub old_entry_size_bytes: u32,
    pub new_entry_size_bytes: u32,
    pub encoded_new_value: Option<Vec<u8>>,
    pub ttl_change: Option<TtlChange>,
}

/// The rent-relevant changes among a change list: one per entry with a
/// time-to-live change, in order.
pub open spec fn spec_rent_changes(cs: Seq<LedgerEntryChange>) -> Seq<LedgerEntryRentChange>
    decreases cs,
{
    if cs.len() == 0 {
        Seq::empty()
    } else {
        let front = spec_rent_changes(cs.drop_last());
        match cs.last().ttl_change {
            Some(t) => front.push(
                LedgerEntryRentChange {
                    is_persistent: t.is_persistent,
                    old_size_bytes: cs.last().old_entry_size_bytes,
                    new_size_bytes: cs.last().new_entry_size_bytes,
                    old_live_until_ledger: t.old_live_until_ledger,
                    new_live_until_ledger: t.new_live_until_ledger,
                },
            ),
            None => front,
        }
    }
}

/// Derives the per-entry rent changes from the engine's change list, for the
/// rent-fee computation.
pub fn extract_rent_changes(entry_changes: &Vec<LedgerEntryChange>) -> (r: Vec<
    LedgerEntryRentChange,
>)
    ensures
        r@ == spec_rent_changes(entry_changes@),
{
    let mut out: Vec<LedgerEntryRentChange> = Vec::new();
    let mut i: usize = 0;
    proof {
        assert(entry_changes@.take(0) =~= Seq::<LedgerEntryChange>::empty());
    }
    #[verifier::loop_isolation(false)]
    while i < entry_changes.len()
        invariant
            i <= entry_changes@.len(),
            out@ == spec_rent_changes(entry_changes@.take(i as int)),
        decreases entry_changes@.len() - i,
    {
        proof {
            assert(entry_changes@.take(i as int + 1).drop_last() =~= entry_changes@.take(
                i as int,
            ));
            assert(entry_changes@.take(i as int + 1).last() == entry_changes@[i as int]);
        }
        match &entry_changes[i].ttl_change {
            Some(t) => {
                out.push(
                    LedgerEntryRentChange {
                        is_persistent: t.is_persistent,
                        old_size_bytes: entry_changes[i].old_entry_size_bytes,
                        new_size_bytes: entry_changes[i].new_entry_size_bytes,
                        old_live_until_ledger: t.old_live_until_ledger,
                        new_live_until_ledger: t.new_live_until_ledger,
                    },
                );
            }
            None => {}
        }
        i = i + 1;
    }
    proof {
        assert(entry_changes@.take(entry_changes@.len() as int) =~= entry_changes@);
    }
    out
}

/// The serialized effect list of a change list: for each writable entry its
/// new value, and for each entry whose time-to-live strictly grew one
/// synthesized record with the key hash and the new expiration; a key hash
/// that is not thirty-two bytes is an internal error.
pub open spec fn spec_ledger_effects(cs: Seq<LedgerEntryChange>) -> Result<Seq<Seq<u8>>, HostFault>
    decreases cs,
{
    if cs.len() == 0 {
        Ok(Seq::empty())
    } else {
        match spec_ledger_effects(cs.drop_last()) {
            Err(e) => Err(e),
            Ok(front) => {
                let c = cs.last();
                let with_value = if !c.read_only && c.encoded_new_value is Some {
                    front.push(c.encoded_new_value->0@)
                } else {
                    front
                };
                match c.ttl_change {
                    Some(t) => {
                        if t.new_live_until_ledger > t.old_live_until_ledger {
                            if t.key_hash@.len() == 32 {
                                Ok(
                                    with_value.push(
                                        spec_encode_ttl_record(
                                            0u32,
                                            t.key_hash@,
                                            t.new_live_until_ledger,
                                        ),
                                    ),
                                )
                            } else {
                                Err(
                                    HostFault {
                                        category: ErrorCategory::Value,
                                        code: ErrorCode::InternalError,
                                    },
                                )
                            }
                        } else {
                            Ok(with_value)
                        }
                    }
                    None => Ok(with_value),
                }
            }
        }
    }
}

/// A failure at some prefix of the change list decides the whole list.
proof fn lemma_effects_err_persists(cs: Seq<LedgerEntryChange>, k: int)
    requires
        0 <= k <= cs.len(),
        spec_ledger_effects(cs.take(k)) is Err,
    ensures
        spec_ledger_effects(cs) == spec_ledger_effects(cs.take(k)),
    decreases cs,
{
    if k == cs.len() {
        assert(cs.take(k) =~= cs);
    } else {
        assert(cs.drop_last().take(k) =~= cs.take(k));
        lemma_effects_err_persists(cs.drop_last(), k);
    }
}

/// Copies a byte buffer.
fn copy_bytes(b: &Vec<u8>) -> (r: Vec<u8>)
    ensures
        r@ == b@,
{
    let r = read_bytes(b, 0, b.len());
    assert(r@ =~= b@);
    r
}

/// Reconstructs the minimal serialized effect list from the engine's change
/// list. The synthesized time-to-live records leave the last-modified
/// sequence at zero, for the caller to fill.
pub fn extract_ledger_effects(entry_changes: &Vec<LedgerEntryChange>) -> (r: Result<
    Vec<Vec<u8>>,
    HostFault,
>)
    ensures
        match r {
            Ok(v) => spec_ledger_effects(entry_changes@) == Ok::<_, HostFault>(
                spec_bytes_views(v@),
            ),
            Err(e) => spec_ledger_effects(entry_changes@) == Err::<Seq<Seq<u8>>, _>(e),
        },
{
    let mut out: Vec<Vec<u8>> = Vec::new();
    let mut i: usize = 0;
    proof {
        assert(entry_changes@.take(0) =~= Seq::<LedgerEntryChange>::empty());
        assert(spec_bytes_views(out@) =~= Seq::<Seq<u8>>::empty());
    }
    #[verifier::loop_isolation(false)]
    while i < entry_changes.len()
        invariant
            i <= entry_changes@.len(),
            spec_ledger_effects(entry_changes@.take(i as int)) == Ok::<_, HostFault>(
                spec_bytes_views(out@),
            ),
        decreases entry_changes@.len() - i,
    {
        proof {
            assert(entry_changes@.take(i as int + 1).drop_last() =~= entry_changes@.take(
                i as int,
            ));
            assert(entry_changes@.take(i as int + 1).last() == entry_changes@[i as int]);
        }
        let c = &entry_changes[i];
        if !c.read_only {
            match &c.encoded_new_value {
                Some(v) => {
                    let ghost before = out@;
                    let copied = copy_bytes(v);
                    out.push(copied);
                    proof {
                        assert(spec_bytes_views(out@) =~= spec_bytes_views(before).push(v@));
                    }
                }
                None => {}
            }
        }
        match &c.ttl_change {
            Some(t) => {
                if t.new_live_until_ledger > t.old_live_until_ledger {
                    if t.key_hash.len() != 32 {
                        proof {
                            lemma_effects_err_persists(entry_changes@, i as int + 1);
                        }
                        return Err(
                            HostFault {
                                category: ErrorCategory::Value,
                                code: ErrorCode::InternalError,
                            },
                        );
                    }
                    let record = TtlEntryRecord {
                        last_modified_ledger_seq: 0,
                        key_hash: copy_bytes(&t.key_hash),
                        live_until_ledger_seq: t.new_live_until_ledger,
                    };
                    let encoded = encode_ttl_record(&record);
                    let ghost before = out@;
                    out.push(encoded);
                    proof {
                        assert(spec_bytes_views(out@) =~= spec_bytes_views(before).push(
                            spec_encode_ttl_record(0u32, t.key_hash@, t.new_live_until_ledger),
                        ));
                    }
                }
            }
            None => {}
        }
        i = i + 1;
    }
    proof {
        assert(entry_changes@.take(entry_changes@.len() as int) =~= entry_changes@);
    }
    Ok(out)
}

} // verus!
