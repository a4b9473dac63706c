//! Aggregation of per-target outcomes into the sweep's report.
//!
//! After every probe unit has finished, the run holds one record per target —
//! exactly one outcome each, none depending on another. The aggregation
//! filters them into the reachable set and the set of targets whose check
//! failed to run, in record order, losing neither to the other.

use vstd::prelude::*;

use crate::probe::ProbeOutcome;

verus! {

/// One target with its probe outcome.
pub struct ProbeRecord {
    pub target: String,
    pub outcome: ProbeOutcome,
}

/// The result of a sweep.
pub struct SweepReport {
    /// The targets confirmed reachable, in record order.
    pub reachable: Vec<String>,
    /// The targets whose check could not be run or read, in record order;
    /// they are neither reachable nor unreachable.
    pub failed: Vec<String>,
}

/// The targets of the records whose outcome is `Reachable`, in order.
pub open spec fn reachable_of(recs: Seq<ProbeRecord>) -> Seq<Seq<char>>
    decreases recs.len(),
{
    if recs.len() == 0 {
        Seq::empty()
    } else {
        reachable_of(recs.drop_last()) + (if recs.last().outcome is Reachable {
            seq![recs.last().target@]
        } else {
            Seq::empty()
        })
    }
}

/// The targets of the records whose outcome is `ProbeFailed`, in order.
pub open spec fn failed_of(recs: Seq<ProbeRecord>) -> Seq<Seq<char>>
    decreases recs.len(),
{
    if recs.len() == 0 {
        Seq::empty()
    } else {
        failed_of(recs.drop_last()) + (if recs.last().outcome is ProbeFailed {
            seq![recs.last().target@]
        } else {
            Seq::empty()
        })
    }
}

/// Joins the finished probe units into the report: the reachable set is
/// exactly the reachable records' targets, the failure list exactly the
/// failed records' targets, each in record order.
pub fn aggregate(records: &Vec<ProbeRecord>) -> (r: SweepReport)
    ensures
        r.reachable@.map_values(|s: String| s@) == reachable_of(records@),
        r.failed@.map_values(|s: String| s@) == failed_of(records@),
{
    let mut reachable: Vec<String> = Vec::new();
    let mut failed: Vec<String> = Vec::new();
    let mut k: usize = 0;
    while k < records.len()
        invariant
            k <= records@.len(),
            reachable@.map_values(|s: String| s@) == reachable_of(records@.subrange(0, k as int)),
            failed@.map_values(|s: String| s@) == failed_of(records@.subrange(0, k as int)),
        decreases records@.len() - k,
    {
        let ghost prefix = records@.subrange(0, k as int);
        proof {
            let longer = records@.subrange(0, k + 1);
            assert(longer.drop_last() =~= prefix);
            assert(longer.last() == records@[k as int]);
        }
        let rec = &records[k];
        match &rec.outcome {
            ProbeOutcome::Reachable => {
                proof {
                    assert(reachable@.push(rec.target).map_values(|s: String| s@)
                        =~= reachable@.map_values(|s: String| s@).push(rec.target@));
                    assert(reachable_of(prefix) + seq![rec.target@] =~= reachable_of(
                        prefix,
                    ).push(rec.target@));
                    assert(failed_of(prefix) + Seq::<Seq<char>>::empty() =~= failed_of(prefix));
                }
                reachable.push(rec.target.clone());
            },
            ProbeOutcome::Unreachable => {
                proof {
                    assert(reachable_of(prefix) + Seq::<Seq<char>>::empty() =~= reachable_of(
                        prefix,
                    ));
                    assert(failed_of(prefix) + Seq::<Seq<char>>::empty() =~= failed_of(prefix));
                }
            },
            ProbeOutcome::ProbeFailed(_) => {
                proof {
                    assert(failed@.push(rec.target).map_values(|s: String| s@) =~= failed@.map_values(
                        |s: String| s@,
                    ).push(rec.target@));
                    assert(failed_of(prefix) + seq![rec.target@] =~= failed_of(prefix).push(
                        rec.target@,
                    ));
                    assert(reachable_of(prefix) + Seq::<Seq<char>>::empty() =~= reachable_of(
                        prefix,
                    ));
                }
                failed.push(rec.target.clone());
            },
        }
        k += 1;
    }
    proof {
        assert(records@.subrange(0, records@.len() as int) =~= records@);
    }
    SweepReport { reachable, failed }
}

/// Determinism law: two sweeps over the same target list whose checks return
/// the same answer at every position compute the same reachable set — running
/// the sweep twice against one static list and one deterministic check is
/// idempotent.
pub proof fn lemma_sweep_deterministic(r1: Seq<ProbeRecord>, r2: Seq<ProbeRecord>)
    requires
        r1.len() == r2.len(),
        forall|i: int| 0 <= i < r1.len() ==> #[trigger] r1[i].target@ == r2[i].target@,
        forall|i: int|
            0 <= i < r1.len() ==> (#[trigger] r1[i].outcome is Reachable <==> r2[i].outcome
                is Reachable),
    ensures
        reachable_of(r1) == reachable_of(r2),
    decreases r1.len(),
{
    if r1.len() > 0 {
        lemma_sweep_deterministic(r1.drop_last(), r2.drop_last());
        assert(r1[r1.len() - 1].target@ == r2[r2.len() - 1].target@);
        assert(r1[r1.len() - 1].outcome is Reachable <==> r2[r2.len() - 1].outcome is Reachable);
        if r1.last().outcome is Reachable {
            assert(seq![r1.last().target@] =~= seq![r2.last().target@]);
        }
        assert(reachable_of(r1) =~= reachable_of(r2));
    } else {
        assert(reachable_of(r1) =~= reachable_of(r2));
    }
}

} // verus!
