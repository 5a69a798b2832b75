//! The worker pool's decisions: what one worker does with a fetch
//! outcome, which post ids a stored discussion already provides, and
//! which entity ids the full and retry drivers enqueue. The pool itself —
//! channel, tasks, limiter — lives outside the library and only carries
//! these decisions out.

use vstd::prelude::*;
use std::collections::HashSet;
use crate::api::{FetchError, GetDiscussionResult};
use crate::entity::{jobs_view, Discussion, Job, JobStatus, JobV};

verus! {

broadcast use vstd::std_specs::hash::group_hash_axioms;

/// What one worker does with one fetch outcome: what to persist, if
/// anything, and the status to record in the ledger.
pub struct WorkerStep {
    pub save: Option<Discussion>,
    pub status: JobStatus,
}

/// Classify one discussion fetch outcome: an impossible discussion is
/// recorded and not persisted, a complete or partial discussion is
/// persisted and recorded as `Success` or `Partial`, and any error is
/// recorded as `Failed` — a failure never aborts the worker.
pub fn classify_outcome(outcome: Result<GetDiscussionResult, FetchError>) -> (r: WorkerStep)
    ensures
        match outcome {
            Ok(res) => match res {
                GetDiscussionResult::Impossible => r.save is None && r.status
                    == JobStatus::Impossible,
                GetDiscussionResult::Success(d) => r.save == Some(d) && r.status
                    == JobStatus::Success,
                GetDiscussionResult::PartialError(d) => r.save == Some(d) && r.status
                    == JobStatus::Partial,
            },
            Err(_) => r.save is None && r.status == JobStatus::Failed,
        },
{
    match outcome {
        Ok(res) => match res {
            GetDiscussionResult::Impossible => WorkerStep {
                save: None,
                status: JobStatus::Impossible,
            },
            GetDiscussionResult::Success(d) => WorkerStep {
                save: Some(d),
                status: JobStatus::Success,
            },
            GetDiscussionResult::PartialError(d) => WorkerStep {
                save: Some(d),
                status: JobStatus::Partial,
            },
        },
        Err(_) => WorkerStep { save: None, status: JobStatus::Failed },
    }
}

/// The ids of the posts a stored discussion already carries: the set that
/// prunes redundant post fetches on a re-crawl.
pub fn existing_post_ids(d: &Discussion) -> (r: HashSet<u64>)
    ensures
        forall|id: u64|
            r@.contains(id) <==> exists|i: int|
                0 <= i < d.posts@.len() && (#[trigger] d.posts@[i]).id == id,
{
    let mut r: HashSet<u64> = HashSet::new();
    let mut i: usize = 0;
    while i < d.posts.len()
        invariant
            i <= d.posts@.len(),
            forall|id: u64|
                r@.contains(id) <==> exists|j: int|
                    0 <= j < i && (#[trigger] d.posts@[j]).id == id,
        decreases d.posts@.len() - i,
    {
        let ghost prev = r@;
        r.insert(d.posts[i].id);
        proof {
            assert(r@ == prev.insert(d.posts@[i as int].id));
            assert forall|id: u64| r@.contains(id) implies exists|j: int|
                0 <= j < i + 1 && (#[trigger] d.posts@[j]).id == id by {
                if prev.contains(id) {
                } else {
                    assert(d.posts@[i as int].id == id);
                }
            }
        }
        i = i + 1;
    }
    r
}

/// The entity ids of the ledger rows, in row order.
pub open spec fn job_ids(js: Seq<JobV>) -> Seq<u64> {
    js.map_values(|j: JobV| j.entity_id)
}

/// Some row names this entity id.
pub open spec fn has_job_id(js: Seq<JobV>, id: u64) -> bool {
    exists|i: int| 0 <= i < js.len() && (#[trigger] js[i]).entity_id == id
}

/// The retry candidates: the entities whose last crawl failed, then those
/// that were only partially fetched, in ledger order.
pub fn retry_candidates(failed: &Vec<Job>, partial: &Vec<Job>) -> (r: Vec<u64>)
    ensures
        r@ == job_ids(jobs_view(failed@)) + job_ids(jobs_view(partial@)),
{
    let mut r: Vec<u64> = Vec::new();
    let mut i: usize = 0;
    while i < failed.len()
        invariant
            i <= failed@.len(),
            r@ == job_ids(jobs_view(failed@)).take(i as int),
        decreases failed@.len() - i,
    {
        r.push(failed[i].entity_id);
        assert(r@ =~= job_ids(jobs_view(failed@)).take(i + 1));
        i = i + 1;
    }
    assert(r@ =~= job_ids(jobs_view(failed@)));
    let ghost base = r@;
    let mut k: usize = 0;
    while k < partial.len()
        invariant
            k <= partial@.len(),
            r@ == base + job_ids(jobs_view(partial@)).take(k as int),
        decreases partial@.len() - k,
    {
        r.push(partial[k].entity_id);
        assert(r@ =~= base + job_ids(jobs_view(partial@)).take(k + 1));
        k = k + 1;
    }
    assert(r@ =~= base + job_ids(jobs_view(partial@)));
    r
}

/// The ids a full crawl skips: entities recorded `Impossible` always,
/// and those recorded `Success` only when the caller opts into skipping
/// what is already fetched.
pub fn build_ignore_set(impossible: &Vec<Job>, success: &Vec<Job>, ignore_existed: bool) -> (r:
    HashSet<u64>)
    ensures
        forall|id: u64|
            r@.contains(id) <==> (has_job_id(jobs_view(impossible@), id) || (ignore_existed
                && has_job_id(jobs_view(success@), id))),
{
    let mut r: HashSet<u64> = HashSet::new();
    let mut i: usize = 0;
    while i < impossible.len()
        invariant
            i <= impossible@.len(),
            forall|id: u64|
                r@.contains(id) <==> has_job_id(jobs_view(impossible@).take(i as int), id),
        decreases impossible@.len() - i,
    {
        let ghost prev = r@;
        r.insert(impossible[i].entity_id);
        proof {
            assert(r@ == prev.insert(impossible@[i as int]@.entity_id));
            assert forall|id: u64| r@.contains(id) implies has_job_id(
                jobs_view(impossible@).take(i + 1),
                id,
            ) by {
                if prev.contains(id) {
                    let w = choose|j: int|
                        0 <= j < i && (#[trigger] jobs_view(impossible@).take(i as int)[j]).entity_id
                            == id;
                    assert(jobs_view(impossible@).take(i + 1)[w].entity_id == id);
                } else {
                    assert(jobs_view(impossible@).take(i + 1)[i as int].entity_id == id);
                }
            }
            assert forall|id: u64| has_job_id(jobs_view(impossible@).take(i + 1), id) implies r@
                .contains(id) by {
                let w = choose|j: int|
                    0 <= j < i + 1 && (#[trigger] jobs_view(impossible@).take(i + 1)[j]).entity_id
                        == id;
                if w < i {
                    assert(jobs_view(impossible@).take(i as int)[w].entity_id == id);
                }
            }
        }
        i = i + 1;
    }
    proof {
        assert(jobs_view(impossible@).take(impossible@.len() as int) =~= jobs_view(impossible@));
    }
    if !ignore_existed {
        return r;
    }
    let ghost base = jobs_view(impossible@);
    let mut k: usize = 0;
    while k < success.len()
        invariant
            k <= success@.len(),
            forall|id: u64|
                r@.contains(id) <==> (has_job_id(base, id) || has_job_id(
                    jobs_view(success@).take(k as int),
                    id,
                )),
        decreases success@.len() - k,
    {
        let ghost prev = r@;
        let ghost kk = k as int;
        r.insert(success[k].entity_id);
        k = k + 1;
        proof {
            assert(r@ == prev.insert(success@[kk]@.entity_id));
            assert(jobs_view(success@).take(k as int)[kk] == success@[kk]@);
            assert forall|id: u64| r@.contains(id) implies (has_job_id(base, id) || has_job_id(
                jobs_view(success@).take(k as int),
                id,
            )) by {
                if prev.contains(id) {
                    if !has_job_id(base, id) {
                        let w = choose|j: int|
                            0 <= j < kk && (#[trigger] jobs_view(success@).take(kk)[j]).entity_id
                                == id;
                        assert(jobs_view(success@).take(k as int)[w].entity_id == id);
                    }
                } else {
                    assert(jobs_view(success@).take(k as int)[kk].entity_id == id);
                }
            }
            assert forall|id: u64|
                (has_job_id(base, id) || has_job_id(
                    jobs_view(success@).take(k as int),
                    id,
                )) implies r@.contains(id) by {
                if !has_job_id(base, id) {
                    let w = choose|j: int|
                        0 <= j < k && (#[trigger] jobs_view(success@).take(
                            k as int,
                        )[j]).entity_id == id;
                    if w < kk {
                        assert(jobs_view(success@).take(kk)[w].entity_id == id);
                    } else {
                        assert(id == success@[kk]@.entity_id);
                    }
                }
            }
        }
    }
    proof {
        assert(jobs_view(success@).take(success@.len() as int) =~= jobs_view(success@));
    }
    r
}

} // verus!
