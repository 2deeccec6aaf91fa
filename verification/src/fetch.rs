//! Gathering the outcomes of many fetches that ran side by side: every
//! outcome stays at the position of the item it belongs to, and one failure
//! spoils nothing but its own item.

use vstd::prelude::*;

verus! {

/// Why one fetch failed.
#[derive(Clone, Copy, Debug, PartialEq, Eq, Structural)]
pub enum FetchError {
    /// The request did not get through.
    Network,
    /// The server answered with a status that is no success.
    Status,
    /// The body could not be written to its file.
    Write,
}

/// One failed item: its position among the items, and the cause.
#[derive(Clone, Copy, Debug, PartialEq, Eq, Structural)]
pub struct Failure {
    pub index: usize,
    pub cause: FetchError,
}

/// What a batch yields unless every item failed.
pub struct Report {
    /// One value per item, in the items' order; 0 where the item failed.
    pub values: Vec<u32>,
    /// The failed items, by ascending position. Empty when all went well.
    pub failed: Vec<Failure>,
}

/// Most fetches that may run at one time.
pub const MAX_WORKERS: usize = 32;

/// The failed items among `outcomes`, by ascending position.
pub open spec fn failures_of(outcomes: Seq<Result<u32, FetchError>>) -> Seq<Failure>
    decreases outcomes.len(),
{
    if outcomes.len() == 0 {
        Seq::empty()
    } else {
        let earlier = failures_of(outcomes.drop_last());
        match outcomes.last() {
            Err(cause) => earlier.push(
                Failure { index: (outcomes.len() - 1) as usize, cause },
            ),
            Ok(_) => earlier,
        }
    }
}

/// The value of each item, 0 for a failed one.
pub open spec fn values_of(outcomes: Seq<Result<u32, FetchError>>) -> Seq<u32> {
    Seq::new(
        outcomes.len(),
        |k: int|
            match outcomes[k] {
                Ok(value) => value,
                Err(_) => 0,
            },
    )
}

/// Whether the batch is not empty and every item of it failed.
pub open spec fn all_failed(outcomes: Seq<Result<u32, FetchError>>) -> bool {
    outcomes.len() > 0 && forall|k: int| 0 <= k < outcomes.len() ==> (#[trigger] outcomes[k]) is Err
}

/// No more failures are listed than there are items, and as many only
/// when every item failed.
pub proof fn lemma_failure_count(outcomes: Seq<Result<u32, FetchError>>)
    ensures
        failures_of(outcomes).len() <= outcomes.len(),
        failures_of(outcomes).len() == outcomes.len() <==> forall|k: int|
            0 <= k < outcomes.len() ==> (#[trigger] outcomes[k]) is Err,
    decreases outcomes.len(),
{
    if outcomes.len() > 0 {
        let shorter = outcomes.drop_last();
        lemma_failure_count(shorter);
        if failures_of(outcomes).len() == outcomes.len() {
            assert forall|k: int| 0 <= k < outcomes.len() implies (#[trigger] outcomes[k]) is Err by {
                if k < shorter.len() {
                    assert(shorter[k] is Err);
                }
            }
        }
        if forall|k: int| 0 <= k < outcomes.len() ==> (#[trigger] outcomes[k]) is Err {
            assert forall|k: int| 0 <= k < shorter.len() implies (#[trigger] shorter[k]) is Err by {
                assert(outcomes[k] is Err);
            }
            assert(outcomes[outcomes.len() - 1] is Err);
        }
    }
}

/// Whether `f` names an item of `outcomes` that failed for the cause given.
pub open spec fn names_failure(outcomes: Seq<Result<u32, FetchError>>, f: Failure) -> bool {
    f.index < outcomes.len() && outcomes[f.index as int] == Err::<u32, FetchError>(f.cause)
}

/// Every listed failure names an item that failed, with its cause.
pub proof fn lemma_failures_sound(outcomes: Seq<Result<u32, FetchError>>, j: int)
    requires
        outcomes.len() <= usize::MAX,
        0 <= j < failures_of(outcomes).len(),
    ensures
        names_failure(outcomes, failures_of(outcomes)[j]),
    decreases outcomes.len(),
{
    let shorter = outcomes.drop_last();
    let earlier = failures_of(shorter);
    if j < earlier.len() {
        lemma_failures_sound(shorter, j);
        assert(failures_of(outcomes)[j] == earlier[j]);
        assert(shorter[earlier[j].index as int] == outcomes[earlier[j].index as int]);
    }
}

/// The failures are listed by ascending position, so none is listed twice.
pub proof fn lemma_failures_ascend(outcomes: Seq<Result<u32, FetchError>>, i: int, j: int)
    requires
        outcomes.len() <= usize::MAX,
        0 <= i < j < failures_of(outcomes).len(),
    ensures
        failures_of(outcomes)[i].index < failures_of(outcomes)[j].index,
    decreases outcomes.len(),
{
    let shorter = outcomes.drop_last();
    let earlier = failures_of(shorter);
    assert(failures_of(outcomes)[i] == earlier[i]);
    if j < earlier.len() {
        lemma_failures_ascend(shorter, i, j);
        assert(failures_of(outcomes)[j] == earlier[j]);
    } else {
        lemma_failures_sound(shorter, i);
    }
}

/// Every item that failed is listed.
pub proof fn lemma_failures_complete(outcomes: Seq<Result<u32, FetchError>>, k: int)
    requires
        0 <= k < outcomes.len() <= usize::MAX,
        outcomes[k] is Err,
    ensures
        exists|j: int|
            0 <= j < failures_of(outcomes).len() && (#[trigger] failures_of(outcomes)[j]).index
                == k,
    decreases outcomes.len(),
{
    let shorter = outcomes.drop_last();
    let earlier = failures_of(shorter);
    let all = failures_of(outcomes);
    if k < shorter.len() {
        lemma_failures_complete(shorter, k);
        let j = choose|j: int| 0 <= j < earlier.len() && (#[trigger] earlier[j]).index == k;
        assert(all[j] == earlier[j]);
    } else {
        assert(all[all.len() - 1].index == k);
    }
}

/// Gathers the outcomes of a batch. The batch as a whole fails only when
/// it is not empty and every item failed; otherwise the report holds each
/// item's value at the item's position and lists the failures.
pub fn collect(outcomes: &Vec<Result<u32, FetchError>>) -> (r: Result<Report, Vec<Failure>>)
    ensures
        r is Err <==> all_failed(outcomes@),
        r matches Err(failed) ==> failed@ == failures_of(outcomes@),
        r matches Ok(report) ==> report.values@ == values_of(outcomes@) && report.failed@
            == failures_of(outcomes@),
{
    let mut values: Vec<u32> = Vec::new();
    let mut failed: Vec<Failure> = Vec::new();
    let mut k: usize = 0;
    assert(outcomes@.take(0) =~= Seq::empty());
    while k < outcomes.len()
        invariant
            k <= outcomes.len(),
            values@ == values_of(outcomes@.take(k as int)),
            failed@ == failures_of(outcomes@.take(k as int)),
        decreases outcomes.len() - k,
    {
        proof {
            assert(outcomes@.take(k + 1).drop_last() =~= outcomes@.take(k as int));
            assert(outcomes@.take(k + 1).last() == outcomes@[k as int]);
        }
        match outcomes[k] {
            Ok(value) => {
                values.push(value);
            },
            Err(cause) => {
                values.push(0);
                failed.push(Failure { index: k, cause });
            },
        }
        assert(values@ =~= values_of(outcomes@.take(k + 1)));
        k = k + 1;
    }
    assert(outcomes@.take(k as int) =~= outcomes@);
    proof {
        lemma_failure_count(outcomes@);
    }
    if outcomes.len() > 0 && failed.len() == outcomes.len() {
        Err(failed)
    } else {
        Ok(Report { values, failed })
    }
}

/// The number of fetches to run at one time: the configured number, but at
/// least one and at most [`MAX_WORKERS`].
pub fn workers(configured: usize) -> (n: usize)
    ensures
        1 <= n <= MAX_WORKERS,
        1 <= configured <= MAX_WORKERS ==> n == configured,
        configured == 0 ==> n == 1,
        configured > MAX_WORKERS ==> n == MAX_WORKERS,
{
    if configured == 0 {
        1
    } else if configured > MAX_WORKERS {
        MAX_WORKERS
    } else {
        configured
    }
}

} // verus!
