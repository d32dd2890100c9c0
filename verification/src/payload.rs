//! Payloads that are stored as objects of their own.

use crate::enqueue::{prepared_views, EnqueueResult, PreparedJob, PreparedView};
use crate::ids::{new_payload_ref, ulid_digits, RANDOM_VALUES, TIME_VALUES};
use crate::job::{opt_text, JobRecord, JobView};
use vstd::prelude::*;
use vstd::utf8::encode_utf8;

verus! {

/// A payload object to write.
#[derive(Debug)]
pub struct PayloadObject {
    /// Its name.
    pub name: String,
    /// Its contents.
    pub bytes: Vec<u8>,
}

/// Whether a payload goes into an object of its own.
pub open spec fn offloads(payload: Seq<u8>, threshold: Option<usize>) -> bool {
    threshold matches Some(limit) && payload.len() > limit
}

/// Takes a payload over the threshold out of its job, which then refers to it
/// by name, and returns the object to write.
pub fn offload(job: &mut JobRecord, threshold: Option<usize>, now: u64) -> (r: Option<
    PayloadObject,
>)
    requires
        now < TIME_VALUES,
    ensures
        match r {
            None => !offloads(old(job)@.payload, threshold) && final(job)@ == old(job)@,
            Some(object) => {
                &&& offloads(old(job)@.payload, threshold)
                &&& object.bytes@ == old(job)@.payload
                &&& final(job)@ == (JobView {
                    payload: Seq::empty(),
                    payload_ref: Some(object.name@),
                    ..old(job)@
                })
                &&& exists|v: u128|
                    v / RANDOM_VALUES == now && encode_utf8(object.name@) == #[trigger] ulid_digits(
                        v,
                    )
            },
        },
{
    let limit: usize = match threshold {
        Some(limit) => limit,
        None => {
            return None;
        },
    };
    if job.payload.len() <= limit {
        return None;
    }
    let name = new_payload_ref(now);
    let mut bytes: Vec<u8> = Vec::new();
    std::mem::swap(&mut bytes, &mut job.payload);
    job.payload_ref = Some(name.clone());
    assert(job@.payload =~= Seq::empty());
    Some(PayloadObject { name, bytes })
}

/// The payload object of a job.
pub fn payload_object(job: &JobRecord) -> (r: Option<String>)
    ensures
        opt_text(r) == job@.payload_ref,
{
    job.payload_ref.clone()
}

/// The payload objects that no record refers to once an enqueue has ended:
/// that of a job that was not written.
pub fn unreferenced_after_write(job: &JobRecord, result: Option<&EnqueueResult>) -> (r: Option<
    String,
>)
    ensures
        opt_text(r) == if result matches Some(EnqueueResult::New(_)) {
            None
        } else {
            job@.payload_ref
        },
{
    match result {
        Some(EnqueueResult::New(_)) => None,
        _ => job.payload_ref.clone(),
    }
}

/// The payload objects of the jobs of a list for which there is no record
/// once their settlement has ended: all of them where the effects were not
/// applied, and otherwise those of the enqueues that a deduplication key
/// turned away.
pub open spec fn unreferenced(
    jobs: Seq<PreparedView>,
    results: Option<Seq<crate::enqueue::EnqueueResultView>>,
) -> Seq<Seq<char>>
    decreases jobs.len(),
{
    if jobs.len() == 0 {
        Seq::empty()
    } else {
        let rest = unreferenced(jobs.drop_last(), results);
        let dropped = match results {
            None => true,
            Some(list) => jobs.len() <= list.len() && list[jobs.len() - 1] is AlreadyEnqueued,
        };
        match jobs.last().job.payload_ref {
            Some(name) if dropped => rest.push(name),
            _ => rest,
        }
    }
}

/// The payload objects to delete once a settlement has ended. `None` means
/// that the effects were not applied.
pub fn finish_effects(jobs: &Vec<PreparedJob>, results: Option<&Vec<EnqueueResult>>) -> (r: Vec<
    String,
>)
    ensures
        crate::read::texts(r@) == unreferenced(
            prepared_views(jobs@),
            match results {
                Some(list) => Some(crate::enqueue::result_views(list@)),
                None => None,
            },
        ),
{
    let ghost all = prepared_views(jobs@);
    let ghost outcome = match results {
        Some(list) => Some(crate::enqueue::result_views(list@)),
        None => None,
    };
    let mut names: Vec<String> = Vec::new();
    let mut i: usize = 0;
    proof {
        assert(crate::read::texts(names@) =~= unreferenced(all.subrange(0, 0), outcome));
    }
    while i < jobs.len()
        invariant
            0 <= i <= jobs@.len(),
            all == prepared_views(jobs@),
            outcome == (match results {
                Some(list) => Some(crate::enqueue::result_views(list@)),
                None => None,
            }),
            crate::read::texts(names@) == unreferenced(all.subrange(0, i as int), outcome),
        decreases jobs@.len() - i,
    {
        let ghost so_far = crate::read::texts(names@);
        proof {
            assert(all.subrange(0, i + 1).drop_last() =~= all.subrange(0, i as int));
            assert(all.subrange(0, i + 1).last() == jobs@[i as int]@);
        }
        let dropped: bool = match results {
            None => true,
            Some(list) => if i < list.len() {
                match &list[i] {
                    EnqueueResult::AlreadyEnqueued(_) => true,
                    EnqueueResult::New(_) => false,
                }
            } else {
                false
            },
        };
        if dropped {
            if let Some(name) = &jobs[i].job.payload_ref {
                names.push(name.clone());
                proof {
                    assert(crate::read::texts(names@) =~= so_far.push(name@));
                }
            }
        }
        i += 1;
    }
    proof {
        assert(all.subrange(0, i as int) =~= all);
    }
    names
}

} // verus!
