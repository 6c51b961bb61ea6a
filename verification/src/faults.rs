//! The first of the faults found while going through a list.

use vstd::prelude::*;
use crate::governance::{GovernanceControllerError, GovernanceErrorView};

verus! {

/// The first fault in `faults`, where each entry is the fault of one item of
/// a list, if it has one.
pub open spec fn first_fault<E>(faults: Seq<Option<E>>) -> Option<E>
    decreases faults.len(),
{
    if faults.len() == 0 {
        None
    } else {
        match first_fault(faults.drop_last()) {
            Some(e) => Some(e),
            None => faults.last(),
        }
    }
}

/// Where the first `k` items have no fault, the first fault of the first
/// `k + 1` is that of item `k`.
pub proof fn lemma_first_fault_step<E>(faults: Seq<Option<E>>, k: int)
    requires
        0 <= k < faults.len(),
        first_fault(faults.take(k)) is None,
    ensures
        first_fault(faults.take(k + 1)) == faults[k],
{
    assert(faults.take(k + 1).drop_last() =~= faults.take(k));
    assert(faults.take(k + 1).last() == faults[k]);
}

/// A fault among the first `k` items is the first fault of the whole list.
pub proof fn lemma_first_fault_stays<E>(faults: Seq<Option<E>>, k: int)
    requires
        0 <= k <= faults.len(),
        first_fault(faults.take(k)) is Some,
    ensures
        first_fault(faults) == first_fault(faults.take(k)),
    decreases faults.len() - k,
{
    if k == faults.len() {
        assert(faults.take(k) =~= faults);
    } else {
        assert(faults.take(k + 1).drop_last() =~= faults.take(k));
        lemma_first_fault_stays(faults, k + 1);
    }
}

/// Whether a result is the error that `fault` names, or a success where it
/// names none.
pub open spec fn agrees<T>(
    r: Result<T, GovernanceControllerError>,
    fault: Option<GovernanceErrorView>,
) -> bool {
    match fault {
        Some(e) => r is Err && r->Err_0@ == e,
        None => r is Ok,
    }
}

} // verus!
