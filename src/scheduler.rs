//! The scheduler's state: a bounded FIFO of jobs keyed by id, the per-chunk
//! lifecycle with bounded retry, and the rollup of chunk outcomes into a
//! document status. Channels, timers and workers are driven by the caller.
use crate::doc_status::{sv, DocStatus};
use crate::ids::job_id;
use crate::keyed::{find_key, has_key, keys_unique, lemma_lookup_index, lemma_lookup_some, lookup, put, to_map};
use crate::chunker::Chunk;
use crate::doc_status::{record_of, status_of, DocProcessingStatus, JsonDocStatusStorage};
use crate::pipeline::{complete, selectable};
use crate::status_service::transition_view;
use crate::graph::{build_graph_payloads, entity_ids, relation_ids, relation_record_ok};
use crate::json::JsonValue;
use crate::kv_store::JsonKvStorage;
use crate::pipeline::{from_records, pending_chunks_for_doc};
use crate::schemas::EntitiesRelationships;
use crate::status_service::DocStatusService;
use vstd::prelude::*;

verus! {

/// Where a chunk is in its lifecycle.
#[derive(Clone, Copy, Debug, PartialEq, Eq, Structural)]
pub enum ChunkStatus {
    Success,
    Failed,
    Pending,
    Running,
}

/// Where a job is in its lifecycle.
#[derive(Clone, Copy, Debug, PartialEq, Eq, Structural)]
pub enum JobStatus {
    Pending,
    Processing,
    Done,
    Failed,
    PartiallyFailed,
}

/// The scheduler's record of one chunk of a job.
#[derive(Debug)]
pub struct ChunkState {
    pub chunk_id: String,
    pub doc_id: String,
    pub chunk_status: ChunkStatus,
    pub chunk_order_index: usize,
    pub content: String,
    pub error: Option<String>,
    pub output: Option<EntitiesRelationships>,
    pub max_retries: u8,
    pub current_retry: u8,
    /// Unix seconds.
    pub created_at: i64,
    pub oai_resp_id: Option<String>,
}

/// Retries allowed to a chunk.
pub const CHUNK_MAX_RETRIES: u8 = 10;

/// Retries allowed to a job.
pub const JOB_MAX_RETRIES: u8 = 5;

/// A unit of work for one document.
pub struct Job {
    pub job_id: String,
    pub doc_id: String,
    pub max_retries: u8,
    pub current_retry: u8,
    pub job_status: JobStatus,
    pub chunks: Vec<ChunkState>,
    /// Unix seconds.
    pub created_at: i64,
    /// Monotonic time, in milliseconds, before which the job is not run.
    pub next_run_at: u64,
    pub last_error: Option<String>,
}

/// Relies on `chrono::Utc::now` and `DateTime::timestamp`: some number of
/// seconds; nothing is known of which.
#[verifier::external_body]
fn unix_now() -> (r: i64) {
    chrono::Utc::now().timestamp()
}

impl Job {
    /// A pending job for `doc_id` created at `created_at` (Unix seconds),
    /// eligible from monotonic time `now`.
    pub fn new_at(doc_id: String, created_at: i64, now: u64) -> (r: Job)
        ensures
            r.job_id@ == crate::ids::job_id_spec(doc_id@, created_at as int),
            r.doc_id == doc_id,
            r.max_retries == JOB_MAX_RETRIES,
            r.current_retry == 0,
            r.job_status == JobStatus::Pending,
            r.chunks@.len() == 0,
            r.created_at == created_at,
            r.next_run_at == now,
            r.last_error is None,
    {
        let id = job_id(doc_id.as_str(), created_at);
        Job {
            job_id: id,
            doc_id,
            max_retries: JOB_MAX_RETRIES,
            current_retry: 0,
            job_status: JobStatus::Pending,
            chunks: Vec::new(),
            created_at,
            next_run_at: now,
            last_error: None,
        }
    }

    /// A pending job for `doc_id` created now, eligible from monotonic time `now`.
    pub fn new(doc_id: String, now: u64) -> (r: Job)
        ensures
            r.job_id@ == crate::ids::job_id_spec(doc_id@, r.created_at as int),
            r.doc_id == doc_id,
            r.max_retries == JOB_MAX_RETRIES,
            r.current_retry == 0,
            r.job_status == JobStatus::Pending,
            r.chunks@.len() == 0,
            r.next_run_at == now,
            r.last_error is None,
    {
        let created_at = unix_now();
        Job::new_at(doc_id, created_at, now)
    }
}

/// Why a queue operation was refused.
#[derive(Clone, Copy, Debug, PartialEq, Eq, Structural)]
pub enum QueueError {
    AlreadyQueued,
    CapacityReached,
    MaxRetriesReached,
    UnknownJob,
}

/// A job may run: pending and due.
pub open spec fn eligible(j: Job, now: u64) -> bool {
    j.job_status == JobStatus::Pending && j.next_run_at <= now
}

/// The first id of `order` whose job is eligible.
pub open spec fn first_eligible(order: Seq<Seq<char>>, jobs: Map<Seq<char>, Job>, now: u64) -> Option<Seq<char>>
    decreases order.len(),
{
    if order.len() == 0 {
        None
    } else if jobs.contains_key(order[0]) && eligible(jobs[order[0]], now) {
        Some(order[0])
    } else {
        first_eligible(order.drop_first(), jobs, now)
    }
}

/// Bounded FIFO of jobs with lookup by id.
pub struct Queue {
    jobs: Vec<String>,
    jobs_map: Vec<(String, Job)>,
    capacity: u32,
}

impl Queue {
    /// Job ids in FIFO order.
    pub closed spec fn order(&self) -> Seq<Seq<char>> {
        sv(self.jobs@)
    }

    /// Jobs by id.
    pub closed spec fn job_map(&self) -> Map<Seq<char>, Job> {
        to_map(self.jobs_map@)
    }

    pub closed spec fn capacity_spec(&self) -> nat {
        self.capacity as nat
    }

    /// Each queued id appears once and has its job, and only queued ids do.
    pub closed spec fn wf(&self) -> bool {
        &&& keys_unique(self.jobs_map@)
        &&& self.order().no_duplicates()
        &&& forall|k: Seq<char>| self.order().contains(k) <==> self.job_map().contains_key(k)
    }

    pub fn new(capacity: u32) -> (r: Queue)
        ensures
            r.wf(),
            r.order() == Seq::<Seq<char>>::empty(),
            r.job_map() == Map::<Seq<char>, Job>::empty(),
            r.capacity_spec() == capacity,
    {
        let r = Queue { jobs: Vec::new(), jobs_map: Vec::new(), capacity };
        assert(r.order() =~= Seq::<Seq<char>>::empty());
        assert(r.job_map() =~= Map::<Seq<char>, Job>::empty());
        r
    }

    pub fn len(&self) -> (r: usize)
        ensures
            r == self.order().len(),
    {
        self.jobs.len()
    }

    fn position(&self, id: &String) -> (r: Option<usize>)
        ensures
            r is Some ==> r->0 < self.order().len() && self.order()[r->0 as int] == id@,
            r is None ==> !self.order().contains(id@),
    {
        let mut i: usize = 0;
        while i < self.jobs.len()
            invariant
                i <= self.jobs@.len(),
                forall|j: int| 0 <= j < i ==> self.jobs@[j]@ != id@,
            decreases self.jobs.len() - i,
        {
            if self.jobs[i] == *id {
                return Some(i);
            }
            i = i + 1;
        }
        proof {
            if self.order().contains(id@) {
                let j = choose|j: int| 0 <= j < self.order().len() && self.order()[j] == id@;
                assert(self.jobs@[j]@ == id@);
            }
        }
        None
    }

    /// Appends a job. Refused when its id is queued already or the queue is full.
    pub fn enqueue(&mut self, job_id: String, job: Job) -> (r: Result<String, QueueError>)
        requires
            old(self).wf(),
        ensures
            final(self).wf(),
            final(self).capacity_spec() == old(self).capacity_spec(),
            old(self).order().contains(job_id@) ==> r == Err::<String, QueueError>(QueueError::AlreadyQueued) && final(self).order() == old(self).order() && final(self).job_map() == old(self).job_map(),
            !old(self).order().contains(job_id@) && old(self).order().len() >= old(self).capacity_spec() ==> r == Err::<String, QueueError>(QueueError::CapacityReached) && final(self).order() == old(self).order() && final(self).job_map() == old(self).job_map(),
            !old(self).order().contains(job_id@) && old(self).order().len() < old(self).capacity_spec() ==> r is Ok && r->Ok_0 == job_id && final(self).order() == old(self).order().push(job_id@) && final(self).job_map() == old(self).job_map().insert(job_id@, job),
    {
        if self.position(&job_id).is_some() {
            return Err(QueueError::AlreadyQueued);
        }
        if self.jobs.len() >= self.capacity as usize {
            return Err(QueueError::CapacityReached);
        }
        let ghost old_order = self.order();
        let ghost old_map = self.job_map();
        proof {
            crate::keyed::lemma_lookup_some(self.jobs_map@, job_id@);
        }
        self.jobs.push(job_id.clone());
        put(&mut self.jobs_map, job_id.clone(), job);
        proof {
            assert(self.order() =~= old_order.push(job_id@));
            assert forall|k: Seq<char>| self.order().contains(k) <==> self.job_map().contains_key(k) by {
                if self.order().contains(k) {
                    let j = choose|j: int| 0 <= j < self.order().len() && self.order()[j] == k;
                    if j < old_order.len() {
                        assert(old_order.contains(k));
                    }
                }
                if old_order.contains(k) {
                    let j = choose|j: int| 0 <= j < old_order.len() && old_order[j] == k;
                    assert(self.order()[j] == k);
                }
                if k == job_id@ {
                    assert(self.order()[old_order.len() as int] == k);
                }
            }
        }
        Ok(job_id)
    }

    /// Removes and returns the job at the front.
    pub fn dequeue(&mut self) -> (r: Option<Job>)
        requires
            old(self).wf(),
        ensures
            final(self).wf(),
            final(self).capacity_spec() == old(self).capacity_spec(),
            old(self).order().len() == 0 ==> r is None && final(self).order() == old(self).order() && final(self).job_map() == old(self).job_map(),
            old(self).order().len() > 0 ==> r == Some(old(self).job_map()[old(self).order()[0]]) && final(self).order() == old(self).order().drop_first() && final(self).job_map() == old(self).job_map().remove(old(self).order()[0]),
    {
        if self.jobs.len() == 0 {
            return None;
        }
        let ghost old_order = self.order();
        let ghost old_map = self.job_map();
        assert(old_order.no_duplicates());
        let id = self.jobs.remove(0);
        assert(self.order() =~= old_order.drop_first());
        assert(old_order.contains(id@)) by {
            assert(old_order[0] == id@);
        }
        match find_key(&self.jobs_map, &id) {
            Some(i) => {
                let ghost before = self.jobs_map@;
                proof {
                    assert forall|q: Seq<char>| lookup(before.remove(i as int), q) == (if q == id@ { None::<Job> } else { lookup(before, q) }) by {
                        crate::keyed::lemma_lookup_remove(before, i as int, q);
                    }
                    crate::keyed::lemma_lookup_remove(before, i as int, id@);
                }
                let (_, job) = self.jobs_map.remove(i);
                proof {
                    assert(self.job_map() =~= old_map.remove(id@));
                    assert forall|k: Seq<char>| self.order().contains(k) <==> self.job_map().contains_key(k) by {
                        if self.order().contains(k) {
                            let j = choose|j: int| 0 <= j < self.order().len() && self.order()[j] == k;
                            assert(old_order[j + 1] == k);
                            assert(old_order.contains(k));
                            assert(old_order.no_duplicates());
                            assert(old_order[j + 1] != old_order[0]);
                            assert(k != id@);
                        }
                        if self.job_map().contains_key(k) {
                            assert(old_order.contains(k));
                            let j = choose|j: int| 0 <= j < old_order.len() && old_order[j] == k;
                            assert(j != 0);
                            assert(self.order()[j - 1] == k);
                        }
                    }
                }
                Some(job)
            },
            None => {
                proof {
                    assert(false);
                }
                None
            },
        }
    }

    /// Sets `next_run_at` to `now` and enqueues the job, unless its retries
    /// are used up.
    pub fn requeue(&mut self, job: Job, now: u64) -> (r: Result<String, QueueError>)
        requires
            old(self).wf(),
        ensures
            final(self).wf(),
            final(self).capacity_spec() == old(self).capacity_spec(),
            job.current_retry > job.max_retries ==> r == Err::<String, QueueError>(QueueError::MaxRetriesReached) && final(self).order() == old(self).order() && final(self).job_map() == old(self).job_map(),
            job.current_retry <= job.max_retries && old(self).order().contains(job.job_id@) ==> r == Err::<String, QueueError>(QueueError::AlreadyQueued) && final(self).order() == old(self).order() && final(self).job_map() == old(self).job_map(),
            job.current_retry <= job.max_retries && !old(self).order().contains(job.job_id@) && old(self).order().len() >= old(self).capacity_spec() ==> r == Err::<String, QueueError>(QueueError::CapacityReached) && final(self).order() == old(self).order() && final(self).job_map() == old(self).job_map(),
            job.current_retry <= job.max_retries && !old(self).order().contains(job.job_id@) && old(self).order().len() < old(self).capacity_spec() ==> r is Ok && final(self).order() == old(self).order().push(job.job_id@) && final(self).job_map() == old(self).job_map().insert(job.job_id@, Job { next_run_at: now, ..job }),
    {
        if job.current_retry > job.max_retries {
            return Err(QueueError::MaxRetriesReached);
        }
        let id = job.job_id.clone();
        let job = Job { next_run_at: now, ..job };
        self.enqueue(id, job)
    }

    /// Id of the first queued job that is pending and due at `now`.
    pub fn peek(&self, now: u64) -> (r: Option<String>)
        requires
            self.wf(),
        ensures
            match r {
                Some(id) => first_eligible(self.order(), self.job_map(), now) == Some(id@),
                None => first_eligible(self.order(), self.job_map(), now) is None,
            },
    {
        let mut i: usize = 0;
        assert(self.order().subrange(0, self.order().len() as int) =~= self.order());
        while i < self.jobs.len()
            invariant
                self.wf(),
                i <= self.jobs@.len(),
                first_eligible(self.order(), self.job_map(), now) == first_eligible(self.order().subrange(i as int, self.order().len() as int), self.job_map(), now),
            decreases self.jobs.len() - i,
        {
            let ghost rest = self.order().subrange(i as int, self.order().len() as int);
            assert(rest[0] == self.jobs@[i as int]@);
            assert(rest.drop_first() =~= self.order().subrange(i + 1, self.order().len() as int));
            match find_key(&self.jobs_map, &self.jobs[i]) {
                Some(p) => {
                    let j = &self.jobs_map[p].1;
                    if j.job_status == JobStatus::Pending && j.next_run_at <= now {
                        return Some(self.jobs[i].clone());
                    }
                },
                None => {},
            }
            i = i + 1;
        }
        None
    }

    /// The job with id `id`.
    pub fn get(&self, id: &String) -> (r: Option<&Job>)
        requires
            self.wf(),
        ensures
            match r {
                Some(j) => self.job_map().contains_key(id@) && *j == self.job_map()[id@],
                None => !self.job_map().contains_key(id@),
            },
    {
        match find_key(&self.jobs_map, id) {
            Some(p) => Some(&self.jobs_map[p].1),
            None => None,
        }
    }

    /// Replaces the job with id `id` by `f(job)`; the caller gives the new job.
    fn replace(&mut self, id: &String, job: Job)
        requires
            old(self).wf(),
            old(self).job_map().contains_key(id@),
        ensures
            final(self).wf(),
            final(self).capacity_spec() == old(self).capacity_spec(),
            final(self).order() == old(self).order(),
            final(self).job_map() == old(self).job_map().insert(id@, job),
    {
        let ghost old_map = self.job_map();
        put(&mut self.jobs_map, id.clone(), job);
        proof {
            assert(self.job_map().dom() =~= old_map.dom());
        }
    }

    /// Takes the job with id `id` out of the map, leaving a placeholder.
    fn take(&mut self, id: &String) -> (r: Option<Job>)
        requires
            old(self).wf(),
        ensures
            final(self).capacity_spec() == old(self).capacity_spec(),
            final(self).order() == old(self).order(),
            match r {
                Some(j) => old(self).job_map().contains_key(id@) && j == old(self).job_map()[id@] && final(self).wf() && final(self).job_map().dom() == old(self).job_map().dom() && (forall|k: Seq<char>| k != id@ && #[trigger] final(self).job_map().contains_key(k) ==> final(self).job_map()[k] == old(self).job_map()[k]),
                None => !old(self).job_map().contains_key(id@) && *final(self) == *old(self),
            },
    {
        match find_key(&self.jobs_map, id) {
            Some(p) => {
                let ghost old_map = self.job_map();
                let placeholder = Job {
                    job_id: String::new(),
                    doc_id: String::new(),
                    max_retries: 0,
                    current_retry: 0,
                    job_status: JobStatus::Failed,
                    chunks: Vec::new(),
                    created_at: 0,
                    next_run_at: 0,
                    last_error: None,
                };
                let (k, job) = self.jobs_map.remove(p);
                let ghost removed = self.jobs_map@;
                self.jobs_map.insert(p, (k, placeholder));
                proof {
                    lemma_lookup_index(old(self).jobs_map@, p as int);
                    let e = (k, placeholder);
                    assert(self.jobs_map@ =~= old(self).jobs_map@.update(p as int, e));
                    crate::keyed::lemma_lookup_update(old(self).jobs_map@, p as int, e, id@);
                    assert(self.job_map() == old_map.insert(id@, placeholder));
                    assert(self.job_map().dom() =~= old_map.dom());
                }
                Some(job)
            },
            None => None,
        }
    }

    fn set_status(&mut self, job_id: &String, status: JobStatus) -> (r: Result<(), QueueError>)
        requires
            old(self).wf(),
        ensures
            final(self).wf(),
            final(self).capacity_spec() == old(self).capacity_spec(),
            final(self).order() == old(self).order(),
            old(self).job_map().contains_key(job_id@) ==> r is Ok && final(self).job_map() == old(self).job_map().insert(job_id@, Job { job_status: status, ..old(self).job_map()[job_id@] }),
            !old(self).job_map().contains_key(job_id@) ==> r == Err::<(), QueueError>(QueueError::UnknownJob) && final(self).job_map() == old(self).job_map(),
    {
        let ghost old_map = self.job_map();
        match self.take(job_id) {
            Some(job) => {
                let updated = Job { job_status: status, ..job };
                self.replace(job_id, updated);
                proof {
                    assert(self.job_map() =~= old_map.insert(job_id@, Job { job_status: status, ..old_map[job_id@] }));
                }
                Ok(())
            },
            None => Err(QueueError::UnknownJob),
        }
    }

    pub fn mark_processing(&mut self, job_id: &String) -> (r: Result<(), QueueError>)
        requires
            old(self).wf(),
        ensures
            final(self).wf(),
            final(self).capacity_spec() == old(self).capacity_spec(),
            final(self).order() == old(self).order(),
            old(self).job_map().contains_key(job_id@) ==> r is Ok && final(self).job_map() == old(self).job_map().insert(job_id@, Job { job_status: JobStatus::Processing, ..old(self).job_map()[job_id@] }),
            !old(self).job_map().contains_key(job_id@) ==> r == Err::<(), QueueError>(QueueError::UnknownJob) && final(self).job_map() == old(self).job_map(),
    {
        self.set_status(job_id, JobStatus::Processing)
    }

    pub fn mark_done(&mut self, job_id: &String) -> (r: Result<(), QueueError>)
        requires
            old(self).wf(),
        ensures
            final(self).wf(),
            final(self).capacity_spec() == old(self).capacity_spec(),
            final(self).order() == old(self).order(),
            old(self).job_map().contains_key(job_id@) ==> r is Ok && final(self).job_map() == old(self).job_map().insert(job_id@, Job { job_status: JobStatus::Done, ..old(self).job_map()[job_id@] }),
            !old(self).job_map().contains_key(job_id@) ==> r == Err::<(), QueueError>(QueueError::UnknownJob) && final(self).job_map() == old(self).job_map(),
    {
        self.set_status(job_id, JobStatus::Done)
    }

    pub fn mark_failed(&mut self, job_id: &String) -> (r: Result<(), QueueError>)
        requires
            old(self).wf(),
        ensures
            final(self).wf(),
            final(self).capacity_spec() == old(self).capacity_spec(),
            final(self).order() == old(self).order(),
            old(self).job_map().contains_key(job_id@) ==> r is Ok && final(self).job_map() == old(self).job_map().insert(job_id@, Job { job_status: JobStatus::Failed, ..old(self).job_map()[job_id@] }),
            !old(self).job_map().contains_key(job_id@) ==> r == Err::<(), QueueError>(QueueError::UnknownJob) && final(self).job_map() == old(self).job_map(),
    {
        self.set_status(job_id, JobStatus::Failed)
    }

    pub fn mark_partially_failed(&mut self, job_id: &String) -> (r: Result<(), QueueError>)
        requires
            old(self).wf(),
        ensures
            final(self).wf(),
            final(self).capacity_spec() == old(self).capacity_spec(),
            final(self).order() == old(self).order(),
            old(self).job_map().contains_key(job_id@) ==> r is Ok && final(self).job_map() == old(self).job_map().insert(job_id@, Job { job_status: JobStatus::PartiallyFailed, ..old(self).job_map()[job_id@] }),
            !old(self).job_map().contains_key(job_id@) ==> r == Err::<(), QueueError>(QueueError::UnknownJob) && final(self).job_map() == old(self).job_map(),
    {
        self.set_status(job_id, JobStatus::PartiallyFailed)
    }
}

/// `i` is the first position of a chunk with id `id`.
pub open spec fn first_chunk(cs: Seq<ChunkState>, id: Seq<char>, i: int) -> bool {
    0 <= i < cs.len() && cs[i].chunk_id@ == id && forall|j: int| 0 <= j < i ==> (#[trigger] cs[j]).chunk_id@ != id
}

/// No chunk has id `id`.
pub open spec fn no_chunk(cs: Seq<ChunkState>, id: Seq<char>) -> bool {
    forall|j: int| 0 <= j < cs.len() ==> (#[trigger] cs[j]).chunk_id@ != id
}

/// `n` is job `j` with chunks `cs` and every other field unchanged.
pub open spec fn job_with_chunks(j: Job, cs: Seq<ChunkState>, n: Job) -> bool {
    n.chunks@ == cs && n == Job { chunks: n.chunks, ..j }
}

fn find_chunk(cs: &Vec<ChunkState>, id: &String) -> (r: Option<usize>)
    ensures
        match r {
            Some(i) => first_chunk(cs@, id@, i as int),
            None => no_chunk(cs@, id@),
        },
{
    let mut i: usize = 0;
    while i < cs.len()
        invariant
            i <= cs@.len(),
            forall|j: int| 0 <= j < i ==> (#[trigger] cs@[j]).chunk_id@ != id@,
        decreases cs.len() - i,
    {
        if cs[i].chunk_id == *id {
            return Some(i);
        }
        i = i + 1;
    }
    None
}

/// One failed extraction of chunk `c` with message `err`: the chunk becomes
/// `Failed` with that error, and while retries remain it is dispatched
/// again with one more retry counted.
pub open spec fn failure_step(c: ChunkState, err: String) -> (ChunkState, bool) {
    let resend = c.current_retry < c.max_retries;
    (ChunkState {
        chunk_status: ChunkStatus::Failed,
        error: Some(err),
        current_retry: if resend { (c.current_retry + 1) as u8 } else { c.current_retry },
        ..c
    }, resend)
}

/// The chunk after a failed extraction with message `err`: `Failed`, and,
/// while retries remain, one more retry counted. The flag tells whether the
/// chunk is dispatched again.
pub fn record_failure(c: ChunkState, err: String) -> (r: (ChunkState, bool))
    ensures
        r == failure_step(c, err),
{
    let resend = c.current_retry < c.max_retries;
    let retry = if resend { c.current_retry + 1 } else { c.current_retry };
    (ChunkState { chunk_status: ChunkStatus::Failed, error: Some(err), current_retry: retry, ..c }, resend)
}

/// A chunk is settled: it succeeded, or it failed with no retry left.
pub open spec fn is_terminal(c: ChunkState) -> bool {
    c.chunk_status == ChunkStatus::Success || (c.chunk_status == ChunkStatus::Failed
        && c.current_retry >= c.max_retries)
}

/// Outcome of a document whose chunks are all settled.
#[derive(Clone, Copy, Debug, PartialEq, Eq, Structural)]
pub enum Rollup {
    Processed,
    Failed,
    PartiallyFailed,
}

/// The outcome once every chunk is settled: processed when all succeeded,
/// failed when all failed (or when there is no chunk), partially failed
/// otherwise; `None` while a chunk is unsettled.
pub open spec fn rollup_spec(cs: Seq<ChunkState>) -> Option<Rollup> {
    if exists|i: int| 0 <= i < cs.len() && !is_terminal(#[trigger] cs[i]) {
        None
    } else if cs.len() == 0 {
        Some(Rollup::Failed)
    } else if forall|i: int| 0 <= i < cs.len() ==> (#[trigger] cs[i]).chunk_status == ChunkStatus::Success {
        Some(Rollup::Processed)
    } else if forall|i: int| 0 <= i < cs.len() ==> (#[trigger] cs[i]).chunk_status == ChunkStatus::Failed {
        Some(Rollup::Failed)
    } else {
        Some(Rollup::PartiallyFailed)
    }
}

/// The outcome of a job's chunks.
pub fn rollup(chunks: &Vec<ChunkState>) -> (r: Option<Rollup>)
    ensures
        r == rollup_spec(chunks@),
{
    let mut all_success = true;
    let mut all_failed = true;
    let mut i: usize = 0;
    while i < chunks.len()
        invariant
            i <= chunks@.len(),
            forall|j: int| 0 <= j < i ==> is_terminal(#[trigger] chunks@[j]),
            all_success == forall|j: int| 0 <= j < i ==> (#[trigger] chunks@[j]).chunk_status == ChunkStatus::Success,
            all_failed == forall|j: int| 0 <= j < i ==> (#[trigger] chunks@[j]).chunk_status == ChunkStatus::Failed,
        decreases chunks.len() - i,
    {
        let c = &chunks[i];
        let terminal = c.chunk_status == ChunkStatus::Success || (c.chunk_status == ChunkStatus::Failed && c.current_retry >= c.max_retries);
        if !terminal {
            return None;
        }
        if c.chunk_status != ChunkStatus::Success {
            all_success = false;
        }
        if c.chunk_status != ChunkStatus::Failed {
            all_failed = false;
        }
        i = i + 1;
    }
    if chunks.len() == 0 {
        Some(Rollup::Failed)
    } else if all_success {
        Some(Rollup::Processed)
    } else if all_failed {
        Some(Rollup::Failed)
    } else {
        Some(Rollup::PartiallyFailed)
    }
}

/// The document status an outcome is written as.
pub open spec fn rollup_doc_status_spec(r: Rollup) -> DocStatus {
    match r {
        Rollup::Processed => DocStatus::PROCESSED,
        Rollup::Failed => DocStatus::FAILED,
        Rollup::PartiallyFailed => DocStatus::PARTIALLY_FAILED,
    }
}

pub fn rollup_doc_status(r: Rollup) -> (s: DocStatus)
    ensures
        s == rollup_doc_status_spec(r),
{
    match r {
        Rollup::Processed => DocStatus::PROCESSED,
        Rollup::Failed => DocStatus::FAILED,
        Rollup::PartiallyFailed => DocStatus::PARTIALLY_FAILED,
    }
}

/// Pending chunk states for the chunks of document `doc_id`, created at
/// `now` (Unix seconds).
pub fn chunk_to_chunk_state(chunks: Vec<crate::chunker::Chunk>, doc_id: &String, now: i64) -> (r: Vec<ChunkState>)
    ensures
        r@.len() == chunks@.len(),
        forall|i: int| 0 <= i < r@.len() ==> {
            let c = #[trigger] r@[i];
            &&& c.chunk_id == chunks@[i].id
            &&& c.doc_id == *doc_id
            &&& c.chunk_status == ChunkStatus::Pending
            &&& c.chunk_order_index == chunks@[i].order
            &&& c.content == chunks@[i].content
            &&& c.error is None
            &&& c.output is None
            &&& c.max_retries == CHUNK_MAX_RETRIES
            &&& c.current_retry == 0
            &&& c.created_at == now
            &&& c.oai_resp_id is None
        },
{
    let mut out: Vec<ChunkState> = Vec::new();
    let mut i: usize = 0;
    while i < chunks.len()
        invariant
            i <= chunks@.len(),
            out@.len() == i,
            forall|j: int| 0 <= j < i ==> {
                let c = #[trigger] out@[j];
                &&& c.chunk_id == chunks@[j].id
                &&& c.doc_id == *doc_id
                &&& c.chunk_status == ChunkStatus::Pending
                &&& c.chunk_order_index == chunks@[j].order
                &&& c.content == chunks@[j].content
                &&& c.error is None
                &&& c.output is None
                &&& c.max_retries == CHUNK_MAX_RETRIES
                &&& c.current_retry == 0
                &&& c.created_at == now
                &&& c.oai_resp_id is None
            },
        decreases chunks.len() - i,
    {
        let ch = &chunks[i];
        out.push(ChunkState {
            chunk_id: ch.id.clone(),
            doc_id: doc_id.clone(),
            chunk_status: ChunkStatus::Pending,
            chunk_order_index: ch.order,
            content: ch.content.clone(),
            error: None,
            output: None,
            max_retries: CHUNK_MAX_RETRIES,
            current_retry: 0,
            created_at: now,
            oai_resp_id: None,
        });
        i = i + 1;
    }
    out
}

impl Queue {
    /// Gives job `job_id` its chunk states.
    pub fn attach_chunks(&mut self, job_id: &String, chunks: Vec<ChunkState>) -> (r: Result<(), QueueError>)
        requires
            old(self).wf(),
        ensures
            final(self).wf(),
            final(self).capacity_spec() == old(self).capacity_spec(),
            final(self).order() == old(self).order(),
            old(self).job_map().contains_key(job_id@) ==> r is Ok && final(self).job_map() == old(self).job_map().insert(job_id@, Job { chunks, ..old(self).job_map()[job_id@] }),
            !old(self).job_map().contains_key(job_id@) ==> r == Err::<(), QueueError>(QueueError::UnknownJob) && final(self).job_map() == old(self).job_map(),
    {
        let ghost old_map = self.job_map();
        match self.take(job_id) {
            Some(job) => {
                let updated = Job { chunks, ..job };
                self.replace(job_id, updated);
                proof {
                    assert(self.job_map() =~= old_map.insert(job_id@, Job { chunks, ..old_map[job_id@] }));
                }
                Ok(())
            },
            None => Err(QueueError::UnknownJob),
        }
    }

    /// Applies `kind` to the first chunk `chunk_id` of job `job_id` and
    /// returns its position.
    pub fn update_chunk(&mut self, job_id: &String, chunk_id: &String, kind: ChunkUpdate) -> (r: Option<usize>)
        requires
            old(self).wf(),
        ensures
            final(self).wf(),
            final(self).capacity_spec() == old(self).capacity_spec(),
            final(self).order() == old(self).order(),
            match r {
                Some(i) => {
                    let j = old(self).job_map()[job_id@];
                    &&& old(self).job_map().contains_key(job_id@)
                    &&& first_chunk(j.chunks@, chunk_id@, i as int)
                    &&& final(self).job_map().dom() == old(self).job_map().dom()
                    &&& job_with_chunks(j, j.chunks@.update(i as int, updated_chunk(j.chunks@[i as int], kind)), final(self).job_map()[job_id@])
                    &&& forall|k: Seq<char>| k != job_id@ && #[trigger] final(self).job_map().contains_key(k) ==> final(self).job_map()[k] == old(self).job_map()[k]
                },
                None => final(self).job_map() == old(self).job_map() && (!old(self).job_map().contains_key(job_id@) || no_chunk(old(self).job_map()[job_id@].chunks@, chunk_id@)),
            },
    {
        let ghost old_map = self.job_map();
        match self.take(job_id) {
            Some(mut job) => {
                match find_chunk(&job.chunks, chunk_id) {
                    Some(i) => {
                        let ghost before = job.chunks@;
                        let ghost oj = job;
                        let c = job.chunks.remove(i);
                        let c2 = apply_update(c, kind);
                        job.chunks.insert(i, c2);
                        assert(job.chunks@ =~= before.update(i as int, c2));
                        let ghost nj = job;
                        self.replace(job_id, job);
                        proof {
                            assert(self.job_map()[job_id@] == nj);
                            assert(nj == Job { chunks: nj.chunks, ..oj });
                        }
                        Some(i)
                    },
                    None => {
                        let ghost nj = job;
                        self.replace(job_id, job);
                        proof {
                            assert(self.job_map() =~= old_map);
                        }
                        None
                    },
                }
            },
            None => None,
        }
    }

    /// Whether every chunk of job `job_id` is settled, and the outcome.
    pub fn job_rollup(&self, job_id: &String) -> (r: Option<Rollup>)
        requires
            self.wf(),
        ensures
            self.job_map().contains_key(job_id@) ==> r == rollup_spec(self.job_map()[job_id@].chunks@),
            !self.job_map().contains_key(job_id@) ==> r is None,
    {
        match self.get(job_id) {
            Some(job) => rollup(&job.chunks),
            None => None,
        }
    }
}

/// A change to one chunk of a job.
pub enum ChunkUpdate {
    /// A worker took the chunk.
    Running,
    /// Extraction succeeded with this output.
    Success(EntitiesRelationships),
    /// Extraction failed with this message.
    Failure(String),
}

/// The chunk after `kind`.
pub open spec fn updated_chunk(c: ChunkState, kind: ChunkUpdate) -> ChunkState {
    match kind {
        ChunkUpdate::Running => ChunkState { chunk_status: ChunkStatus::Running, ..c },
        ChunkUpdate::Success(er) => ChunkState { chunk_status: ChunkStatus::Success, output: Some(er), ..c },
        ChunkUpdate::Failure(err) => ChunkState {
            chunk_status: ChunkStatus::Failed,
            error: Some(err),
            current_retry: if c.current_retry < c.max_retries { (c.current_retry + 1) as u8 } else { c.current_retry },
            ..c
        },
    }
}

fn apply_update(c: ChunkState, kind: ChunkUpdate) -> (r: ChunkState)
    ensures
        r == updated_chunk(c, kind),
{
    match kind {
        ChunkUpdate::Running => ChunkState { chunk_status: ChunkStatus::Running, ..c },
        ChunkUpdate::Success(er) => ChunkState { chunk_status: ChunkStatus::Success, output: Some(er), ..c },
        ChunkUpdate::Failure(err) => record_failure(c, err).0,
    }
}

/// `c` is the chunk state of a complete stored chunk record of `doc` that
/// still needs extraction.
pub open spec fn from_pending_record(c: ChunkState, records: Seq<(String, JsonValue)>, doc: Seq<char>) -> bool {
    exists|q: int| 0 <= q < records.len() && {
        let (k, v) = #[trigger] records[q];
        &&& selectable(v, doc)
        &&& complete(v)
        &&& k@ == c.chunk_id@
        &&& v.str_field_spec("content"@) == Some(c.content@)
        &&& crate::pipeline::nat_of(v.field_spec("chunk_order_index"@)) == Some(c.chunk_order_index as nat)
    }
}

/// One chunk handed to the worker pool.
pub struct JobDispatch {
    pub job_id: String,
    pub chunk: ChunkState,
}

/// A worker's successful extraction of one chunk.
pub struct JobResult {
    pub entity_relationships: EntitiesRelationships,
    pub chunk_id: String,
    pub job_id: String,
    pub doc_id: String,
    pub chunk_order_index: usize,
}

/// What a schedule tick started.
pub struct TickPlan {
    pub job_id: String,
    pub doc_id: String,
    pub chunk_ids: Vec<String>,
    pub dispatches: Vec<JobDispatch>,
}

fn copy_chunks(v: &Vec<Chunk>) -> (r: Vec<Chunk>)
    ensures
        r@.len() == v@.len(),
        forall|i: int| 0 <= i < v@.len() ==> (#[trigger] r@[i]) == v@[i],
{
    let mut r: Vec<Chunk> = Vec::new();
    let mut i: usize = 0;
    while i < v.len()
        invariant
            i <= v@.len(),
            r@.len() == i,
            forall|j: int| 0 <= j < i ==> (#[trigger] r@[j]) == v@[j],
        decreases v.len() - i,
    {
        let c = &v[i];
        r.push(Chunk { id: c.id.clone(), content: c.content.clone(), order: c.order, token_count: c.token_count });
        i = i + 1;
    }
    r
}

/// Starts the first eligible job: its chunks still needing extraction are
/// read from the stored chunk records, attached to the job in ascending
/// chunk order, the job and (when recorded) its document are marked
/// PROCESSING, and one dispatch per chunk is returned, in the same order.
/// `now` is monotonic time in milliseconds, `now_secs` Unix seconds.
#[verifier::rlimit(60)]
pub fn schedule_tick(
    queue: &mut Queue,
    chunk_records: &Vec<(String, JsonValue)>,
    doc_status: &mut JsonDocStatusStorage,
    now: u64,
    now_secs: i64,
) -> (r: Option<TickPlan>)
    requires
        old(queue).wf(),
        old(doc_status).wf(),
    ensures
        final(queue).wf(),
        final(doc_status).wf(),
        final(queue).order() == old(queue).order(),
        match r {
            None => first_eligible(old(queue).order(), old(queue).job_map(), now) is None && final(queue).job_map() == old(queue).job_map() && final(doc_status)@ == old(doc_status)@,
            Some(plan) => {
                let id = plan.job_id@;
                let j = final(queue).job_map()[id];
                &&& first_eligible(old(queue).order(), old(queue).job_map(), now) == Some(id)
                &&& final(queue).job_map().contains_key(id)
                &&& j.job_status == JobStatus::Processing
                &&& plan.doc_id == old(queue).job_map()[id].doc_id
                &&& j.chunks@.len() == plan.dispatches@.len()
                &&& plan.chunk_ids@.len() == plan.dispatches@.len()
                &&& forall|t: int| 0 <= t < plan.dispatches@.len() ==> {
                    let d = #[trigger] plan.dispatches@[t];
                    &&& d.job_id@ == id
                    &&& d.chunk.chunk_status == ChunkStatus::Pending
                    &&& d.chunk.current_retry == 0
                    &&& d.chunk.chunk_id == j.chunks@[t].chunk_id
                    &&& plan.chunk_ids@[t] == d.chunk.chunk_id
                    &&& j.chunks@[t].chunk_status == ChunkStatus::Pending
                }
                &&& forall|a: int, b: int| 0 <= a < b < plan.dispatches@.len() ==> plan.dispatches@[a].chunk.chunk_order_index <= plan.dispatches@[b].chunk.chunk_order_index
                &&& forall|t: int| 0 <= t < plan.dispatches@.len() ==> from_pending_record((#[trigger] plan.dispatches@[t]).chunk, chunk_records@, plan.doc_id@)
                &&& forall|q: int| 0 <= q < chunk_records@.len() && selectable(chunk_records@[q].1, plan.doc_id@) && complete(chunk_records@[q].1) ==> exists|t: int| 0 <= t < plan.dispatches@.len() && (#[trigger] plan.dispatches@[t]).chunk.chunk_id@ == chunk_records@[q].0@
                &&& crate::keyed::keys_unique(chunk_records@) ==> forall|a: int, b: int| 0 <= a < plan.dispatches@.len() && 0 <= b < plan.dispatches@.len() && a != b ==> (#[trigger] plan.dispatches@[a]).chunk.chunk_id@ != (#[trigger] plan.dispatches@[b]).chunk.chunk_id@
                &&& final(doc_status)@.dom() == old(doc_status)@.dom()
                &&& forall|k: Seq<char>| k != plan.doc_id@ && #[trigger] final(doc_status)@.contains_key(k) ==> final(doc_status)@[k] == old(doc_status)@[k]
                &&& !old(doc_status)@.contains_key(plan.doc_id@) ==> final(doc_status)@ == old(doc_status)@
                &&& old(doc_status)@.contains_key(plan.doc_id@) ==> exists|at: Seq<char>| final(doc_status)@[plan.doc_id@] == record_of(transition_view(plan.doc_id@, status_of(plan.doc_id@, old(doc_status)@[plan.doc_id@]), DocStatus::PROCESSING, at, sv(plan.chunk_ids@), None))
            },
        },
{
    let id = match queue.peek(now) {
        Some(id) => id,
        None => {
            return None;
        },
    };
    let doc_id = match queue.get(&id) {
        Some(job) => job.doc_id.clone(),
        None => {
            proof {
                assert(false) by {
                    lemma_first_eligible_in(queue.order(), queue.job_map(), now);
                }
            }
            return None;
        },
    };
    let chunks = pending_chunks_for_doc(chunk_records, &doc_id);
    let ghost cv = chunks@;
    let again = copy_chunks(&chunks);
    let mut chunk_ids: Vec<String> = Vec::new();
    let mut i: usize = 0;
    while i < chunks.len()
        invariant
            i <= chunks@.len(),
            chunk_ids@.len() == i,
            forall|t: int| 0 <= t < i ==> (#[trigger] chunk_ids@[t]) == chunks@[t].id,
        decreases chunks.len() - i,
    {
        chunk_ids.push(chunks[i].id.clone());
        i = i + 1;
    }
    let states = chunk_to_chunk_state(chunks, &doc_id, now_secs);
    let for_dispatch = chunk_to_chunk_state(again, &doc_id, now_secs);
    let ghost states_v = states@;
    let _ = queue.attach_chunks(&id, states);
    let _ = queue.mark_processing(&id);
    let mut dispatches: Vec<JobDispatch> = Vec::new();
    let mut rest = for_dispatch;
    let ghost fd = rest@;
    let n = rest.len();
    let mut rev: Vec<JobDispatch> = Vec::new();
    while rest.len() > 0
        invariant
            rest@.len() + rev@.len() == n,
            n == fd.len(),
            forall|t: int| 0 <= t < rest@.len() ==> #[trigger] rest@[t] == fd[t],
            forall|t: int| 0 <= t < rev@.len() ==> (#[trigger] rev@[t]).chunk == fd[n - 1 - t] && rev@[t].job_id == id,
        decreases rest.len(),
    {
        let c = rest.pop().unwrap();
        rev.push(JobDispatch { job_id: id.clone(), chunk: c });
    }
    while rev.len() > 0
        invariant
            rev@.len() + dispatches@.len() == n,
            n == fd.len(),
            forall|t: int| 0 <= t < rev@.len() ==> (#[trigger] rev@[t]).chunk == fd[n - 1 - t] && rev@[t].job_id == id,
            forall|t: int| 0 <= t < dispatches@.len() ==> (#[trigger] dispatches@[t]).chunk == fd[t] && dispatches@[t].job_id == id,
        decreases rev.len(),
    {
        let d = rev.pop().unwrap();
        dispatches.push(d);
    }
    match doc_status.get_by_id(&doc_id) {
        Some(prev) => {
            let service = DocStatusService;
            service.mark_processing(doc_status, &doc_id, &prev, &chunk_ids);
            proof {
                assert(doc_status@.dom() =~= old(doc_status)@.dom());
            }
        },
        None => {},
    }
    proof {
        lemma_first_eligible_in(old(queue).order(), old(queue).job_map(), now);
        assert forall|t: int| 0 <= t < dispatches@.len() implies from_pending_record((#[trigger] dispatches@[t]).chunk, chunk_records@, doc_id@) by {
            let c = cv[t];
            assert(dispatches@[t].chunk == fd[t]);
            assert(again@[t] == c);
            assert(from_records(c, chunk_records@, doc_id@));
            let q = choose|q: int| 0 <= q < chunk_records@.len() && selectable(chunk_records@[q].1, doc_id@) && crate::pipeline::record_chunk(#[trigger] chunk_records@[q].0@, chunk_records@[q].1, c);
            assert(chunk_records@[q].0@ == dispatches@[t].chunk.chunk_id@);
        }
        assert forall|q: int| 0 <= q < chunk_records@.len() && selectable(chunk_records@[q].1, doc_id@) && complete(chunk_records@[q].1) implies exists|t: int| 0 <= t < dispatches@.len() && (#[trigger] dispatches@[t]).chunk.chunk_id@ == chunk_records@[q].0@ by {
            let t = choose|t: int| 0 <= t < cv.len() && (#[trigger] cv[t]).id@ == chunk_records@[q].0@;
            assert(dispatches@[t].chunk == fd[t]);
            assert(again@[t] == cv[t]);
        }
        if crate::keyed::keys_unique(chunk_records@) {
            assert forall|a: int, b: int| 0 <= a < dispatches@.len() && 0 <= b < dispatches@.len() && a != b implies (#[trigger] dispatches@[a]).chunk.chunk_id@ != (#[trigger] dispatches@[b]).chunk.chunk_id@ by {
                assert(dispatches@[a].chunk == fd[a] && dispatches@[b].chunk == fd[b]);
                assert(again@[a] == cv[a] && again@[b] == cv[b]);
                assert(fd[a].chunk_id == again@[a].id && fd[b].chunk_id == again@[b].id);
                assert(crate::pipeline::distinct_ids(cv));
                assert(cv[a].id@ != cv[b].id@);
            }
        }
    }
    proof {
        assert(first_eligible(old(queue).order(), old(queue).job_map(), now) == Some(id@));
        assert(queue.job_map().contains_key(id@));
        assert(queue.job_map()[id@].job_status == JobStatus::Processing);
        assert(queue.job_map()[id@].chunks@ == states_v);
        assert(doc_id == old(queue).job_map()[id@].doc_id);
        assert(doc_status@.dom() == old(doc_status)@.dom());
    }
    Some(TickPlan { job_id: id, doc_id, chunk_ids, dispatches })
}

proof fn lemma_first_eligible_in(order: Seq<Seq<char>>, jobs: Map<Seq<char>, Job>, now: u64)
    ensures
        first_eligible(order, jobs, now) is Some ==> jobs.contains_key(first_eligible(order, jobs, now)->0),
    decreases order.len(),
{
    if order.len() > 0 {
        lemma_first_eligible_in(order.drop_first(), jobs, now);
    }
}

/// Records a chunk's successful extraction: the chunk becomes `Success`
/// with its output, its entities and relationships are upserted (at Unix
/// time `now_secs`) into the entity and relation stores, and the job's
/// outcome is returned once every chunk is settled.
pub fn process_chunk_result(
    queue: &mut Queue,
    result: JobResult,
    full_entities: &mut JsonKvStorage,
    full_relations: &mut JsonKvStorage,
    now_secs: i64,
) -> (r: Option<Rollup>)
    requires
        old(queue).wf(),
        old(full_entities).wf(),
        old(full_relations).wf(),
        result.chunk_order_index <= i64::MAX,
    ensures
        final(queue).wf(),
        final(full_entities).wf(),
        final(full_relations).wf(),
        final(queue).order() == old(queue).order(),
        final(full_entities)@.dom() == old(full_entities)@.dom().union(entity_ids(result.doc_id@, result.entity_relationships.entities@)),
        final(full_relations)@.dom() == old(full_relations)@.dom().union(relation_ids(result.doc_id@, result.entity_relationships.entities@, result.entity_relationships.relationships@)),
        forall|k: Seq<char>| relation_ids(result.doc_id@, result.entity_relationships.entities@, result.entity_relationships.relationships@).contains(k) ==> {
            let v = #[trigger] final(full_relations)@[k];
            &&& final(full_entities)@.contains_key(v.str_field_spec("source_entity_id"@)->0)
            &&& final(full_entities)@.contains_key(v.str_field_spec("target_entity_id"@)->0)
            &&& relation_record_ok(v, result.doc_id@, result.chunk_id@, entity_ids(result.doc_id@, result.entity_relationships.entities@))
            &&& exists|j: int| 0 <= j < result.entity_relationships.relationships@.len() && crate::graph::resolvable(result.entity_relationships.entities@, #[trigger] result.entity_relationships.relationships@[j]) && k == crate::ids::relation_id_spec(result.doc_id@, result.entity_relationships.relationships@[j].source_entity@, result.entity_relationships.relationships@[j].target_entity@) && crate::graph::relation_fields_ok(v, result.entity_relationships.relationships@[j])
        },
        final(queue).job_map().contains_key(result.job_id@) ==> r == rollup_spec(final(queue).job_map()[result.job_id@].chunks@),
        final(queue).job_map().dom() == old(queue).job_map().dom(),
        ({
            let j = old(queue).job_map()[result.job_id@];
            if old(queue).job_map().contains_key(result.job_id@) && !no_chunk(j.chunks@, result.chunk_id@) {
                exists|i: int| first_chunk(j.chunks@, result.chunk_id@, i) && job_with_chunks(j, j.chunks@.update(i, updated_chunk(j.chunks@[i], ChunkUpdate::Success(result.entity_relationships))), #[trigger] final(queue).job_map()[result.job_id@])
            } else {
                final(queue).job_map() == old(queue).job_map()
            }
        }),
        forall|k: Seq<char>| #[trigger] entity_ids(result.doc_id@, result.entity_relationships.entities@).contains(k) ==> exists|i: int| 0 <= i < result.entity_relationships.entities@.len() && k == crate::ids::entity_id_spec(result.doc_id@, (#[trigger] result.entity_relationships.entities@[i]).entity_name@, crate::schemas::entity_type_name(result.entity_relationships.entities@[i].entity_type)) && crate::graph::entity_record_ok(final(full_entities)@[k], result.doc_id@, result.chunk_id@, result.chunk_order_index as int, result.entity_relationships.entities@[i]),
{
    let (ents, rels) = build_graph_payloads(&result.doc_id, &result.chunk_id, result.chunk_order_index, &result.entity_relationships);
    let ghost ev = ents@;
    let ghost rv = rels@;
    let ghost ent_dom = crate::keyed::to_map(ev).dom();
    proof {
        assert forall|k: Seq<char>| crate::keyed::key_set(ev).contains(k) == ent_dom.contains(k) by {
            lemma_lookup_some(ev, k);
        }
        assert(crate::keyed::key_set(ev) =~= ent_dom);
        assert forall|k: Seq<char>| crate::keyed::key_set(rv).contains(k) == crate::keyed::to_map(rv).dom().contains(k) by {
            lemma_lookup_some(rv, k);
        }
        assert(crate::keyed::key_set(rv) =~= crate::keyed::to_map(rv).dom());
    }
    let ghost erv = result.entity_relationships;
    let _ = queue.update_chunk(&result.job_id, &result.chunk_id, ChunkUpdate::Success(result.entity_relationships));
    full_entities.upsert(ents, now_secs);
    proof {
        assert forall|k: Seq<char>| #[trigger] entity_ids(result.doc_id@, erv.entities@).contains(k) implies exists|i: int| 0 <= i < erv.entities@.len() && k == crate::ids::entity_id_spec(result.doc_id@, (#[trigger] erv.entities@[i]).entity_name@, crate::schemas::entity_type_name(erv.entities@[i].entity_type)) && crate::graph::entity_record_ok(full_entities@[k], result.doc_id@, result.chunk_id@, result.chunk_order_index as int, erv.entities@[i]) by {
            assert(ent_dom.contains(k));
            assert(has_key(ev, k));
            let x = lookup(ev, k)->0;
            assert(crate::keyed::to_map(ev)[k] == x);
            let i = choose|i: int| 0 <= i < erv.entities@.len() && k == crate::ids::entity_id_spec(result.doc_id@, (#[trigger] erv.entities@[i]).entity_name@, crate::schemas::entity_type_name(erv.entities@[i].entity_type)) && crate::graph::entity_record_ok(crate::keyed::to_map(ev)[k], result.doc_id@, result.chunk_id@, result.chunk_order_index as int, erv.entities@[i]);
            assert(full_entities@.contains_key(k));
            crate::graph::lemma_entity_record_kept(full_entities@[k], k, x, now_secs as int, full_entities.cache_list_spec(), result.doc_id@, result.chunk_id@, result.chunk_order_index as int, erv.entities@[i]);
        }
    }
    let ghost before_rel = full_relations@;
    full_relations.upsert(rels, now_secs);
    proof {
        assert forall|k: Seq<char>| relation_ids(result.doc_id@, erv.entities@, erv.relationships@).contains(k) implies ({
            let v = #[trigger] full_relations@[k];
            &&& full_entities@.contains_key(v.str_field_spec("source_entity_id"@)->0)
            &&& full_entities@.contains_key(v.str_field_spec("target_entity_id"@)->0)
            &&& relation_record_ok(v, result.doc_id@, result.chunk_id@, entity_ids(result.doc_id@, erv.entities@))
            &&& exists|j: int| 0 <= j < erv.relationships@.len() && crate::graph::resolvable(erv.entities@, #[trigger] erv.relationships@[j]) && k == crate::ids::relation_id_spec(result.doc_id@, erv.relationships@[j].source_entity@, erv.relationships@[j].target_entity@) && crate::graph::relation_fields_ok(v, erv.relationships@[j])
        }) by {
            assert(crate::keyed::to_map(rv).contains_key(k));
            assert(has_key(rv, k));
            let x = lookup(rv, k)->0;
            assert(crate::keyed::to_map(rv)[k] == x);
            assert(relation_record_ok(x, result.doc_id@, result.chunk_id@, ent_dom));
            let v = full_relations@[k];
            assert(full_relations@.contains_key(k));
            assert(crate::kv_store::decorated(v, k, x, now_secs as int, full_relations.cache_list_spec()));
            crate::graph::lemma_relation_record_kept(v, k, x, now_secs as int, full_relations.cache_list_spec(), result.doc_id@, result.chunk_id@, ent_dom);
            let j = choose|j: int| 0 <= j < erv.relationships@.len() && crate::graph::resolvable(erv.entities@, #[trigger] erv.relationships@[j]) && k == crate::ids::relation_id_spec(result.doc_id@, erv.relationships@[j].source_entity@, erv.relationships@[j].target_entity@) && crate::graph::relation_fields_ok(crate::keyed::to_map(rv)[k], erv.relationships@[j]);
            crate::graph::lemma_relation_fields_kept(v, k, x, now_secs as int, full_relations.cache_list_spec(), erv.relationships@[j]);
            crate::laws::law_entity_locality(old(full_entities)@, full_entities@, ev, now_secs as int, full_entities.cache_list_spec(), v, result.doc_id@, result.chunk_id@);
        }
    }
    queue.job_rollup(&result.job_id)
}

/// The job status an outcome is written as.
pub open spec fn rollup_job_status_spec(r: Rollup) -> JobStatus {
    match r {
        Rollup::Processed => JobStatus::Done,
        Rollup::Failed => JobStatus::Failed,
        Rollup::PartiallyFailed => JobStatus::PartiallyFailed,
    }
}

/// Number of chunks with status `st`.
pub open spec fn count_with(cs: Seq<ChunkState>, st: ChunkStatus) -> nat
    decreases cs.len(),
{
    if cs.len() == 0 {
        0
    } else {
        count_with(cs.drop_last(), st) + if cs.last().chunk_status == st { 1nat } else { 0nat }
    }
}

/// The error of the first failed chunk that has one.
pub open spec fn first_error(cs: Seq<ChunkState>) -> Option<Seq<char>>
    decreases cs.len(),
{
    if cs.len() == 0 {
        None
    } else if cs[0].chunk_status == ChunkStatus::Failed && cs[0].error is Some {
        Some(cs[0].error->0@)
    } else {
        first_error(cs.drop_first())
    }
}

/// The message a failed or partially failed document carries: the first
/// failed chunk's error.
pub open spec fn failure_message(cs: Seq<ChunkState>) -> Seq<char> {
    if cs.len() == 0 {
        "document produced no chunks"@
    } else {
        match first_error(cs) {
            Some(e) => e,
            None => "chunk extraction failed"@,
        }
    }
}

/// A count as a JSON integer, saturated at `i64::MAX`.
pub open spec fn json_count(n: nat) -> i64 {
    if n <= i64::MAX { n as i64 } else { i64::MAX }
}

fn failure_summary(cs: &Vec<ChunkState>) -> (r: (i64, i64, String))
    ensures
        r.0 == json_count(count_with(cs@, ChunkStatus::Success)),
        r.1 == json_count(count_with(cs@, ChunkStatus::Failed)),
        r.2@ == failure_message(cs@),
{
    let mut succeeded: usize = 0;
    let mut failed: usize = 0;
    let mut i: usize = 0;
    assert(cs@.subrange(0, 0) =~= Seq::<ChunkState>::empty());
    while i < cs.len()
        invariant
            i <= cs@.len(),
            succeeded as nat == count_with(cs@.subrange(0, i as int), ChunkStatus::Success),
            failed as nat == count_with(cs@.subrange(0, i as int), ChunkStatus::Failed),
            succeeded <= i,
            failed <= i,
        decreases cs.len() - i,
    {
        assert(cs@.subrange(0, i + 1).drop_last() =~= cs@.subrange(0, i as int));
        if cs[i].chunk_status == ChunkStatus::Success {
            succeeded = succeeded + 1;
        } else if cs[i].chunk_status == ChunkStatus::Failed {
            failed = failed + 1;
        }
        i = i + 1;
    }
    assert(cs@.subrange(0, i as int) =~= cs@);
    let succeeded_count: i64 = if (succeeded as u64) <= (i64::MAX as u64) { succeeded as i64 } else { i64::MAX };
    let failed_count: i64 = if (failed as u64) <= (i64::MAX as u64) { failed as i64 } else { i64::MAX };
    if cs.len() == 0 {
        return (succeeded_count, failed_count, String::from_str("document produced no chunks"));
    }
    let mut j: usize = 0;
    assert(cs@.subrange(0, cs@.len() as int) =~= cs@);
    while j < cs.len()
        invariant
            j <= cs@.len(),
            cs@.len() > 0,
            succeeded_count == json_count(count_with(cs@, ChunkStatus::Success)),
            failed_count == json_count(count_with(cs@, ChunkStatus::Failed)),
            first_error(cs@) == first_error(cs@.subrange(j as int, cs@.len() as int)),
        decreases cs.len() - j,
    {
        let ghost rest = cs@.subrange(j as int, cs@.len() as int);
        assert(rest[0] == cs@[j as int]);
        assert(rest.drop_first() =~= cs@.subrange(j + 1, cs@.len() as int));
        if cs[j].chunk_status == ChunkStatus::Failed {
            match &cs[j].error {
                Some(e) => {
                    return (succeeded_count, failed_count, e.clone());
                },
                None => {},
            }
        }
        j = j + 1;
    }
    assert(cs@.subrange(j as int, cs@.len() as int) =~= Seq::<ChunkState>::empty());
    (succeeded_count, failed_count, String::from_str("chunk extraction failed"))
}

/// Writes a job's outcome once every chunk is settled: the job becomes
/// done, failed or partially failed, and its document (when recorded)
/// PROCESSED, FAILED or PARTIALLY_FAILED. A failed or partially failed
/// document carries the first failed chunk's error, and a partially failed
/// one records in `metadata` how many chunks succeeded and failed. Nothing
/// changes while a chunk is unsettled.
pub fn apply_rollup(
    queue: &mut Queue,
    doc_status: &mut JsonDocStatusStorage,
    job_id: &String,
    doc_id: &String,
) -> (r: Result<Option<Rollup>, QueueError>)
    requires
        old(queue).wf(),
        old(doc_status).wf(),
    ensures
        final(queue).wf(),
        final(doc_status).wf(),
        final(queue).order() == old(queue).order(),
        !old(queue).job_map().contains_key(job_id@) ==> r == Err::<Option<Rollup>, QueueError>(QueueError::UnknownJob) && final(queue).job_map() == old(queue).job_map() && final(doc_status)@ == old(doc_status)@,
        old(queue).job_map().contains_key(job_id@) ==> ({
            let j = old(queue).job_map()[job_id@];
            let cs = j.chunks@;
            match rollup_spec(cs) {
                None => r == Ok::<Option<Rollup>, QueueError>(None) && final(queue).job_map() == old(queue).job_map() && final(doc_status)@ == old(doc_status)@,
                Some(o) => {
                    &&& r == Ok::<Option<Rollup>, QueueError>(Some(o))
                    &&& final(queue).job_map() == old(queue).job_map().insert(job_id@, Job { job_status: rollup_job_status_spec(o), ..j })
                    &&& final(doc_status)@.dom() == old(doc_status)@.dom()
                    &&& forall|k: Seq<char>| k != doc_id@ && #[trigger] final(doc_status)@.contains_key(k) ==> final(doc_status)@[k] == old(doc_status)@[k]
                    &&& !old(doc_status)@.contains_key(doc_id@) ==> final(doc_status)@ == old(doc_status)@
                    &&& old(doc_status)@.contains_key(doc_id@) ==> {
                        let d = final(doc_status)@[doc_id@];
                        &&& d.status == crate::scheduler::rollup_doc_status_spec(o)
                        &&& (o == Rollup::Processed ==> d.error_msg is None)
                        &&& (o != Rollup::Processed ==> d.error_msg == Some(failure_message(cs)))
                        &&& (o == Rollup::PartiallyFailed ==> crate::status_service::mixed_outcome(d.metadata, json_count(count_with(cs, ChunkStatus::Success)), json_count(count_with(cs, ChunkStatus::Failed))))
                    }
                },
            }
        }),
{
    let (outcome, succeeded, failed, message) = match queue.get(job_id) {
        None => {
            return Err(QueueError::UnknownJob);
        },
        Some(job) => match rollup(&job.chunks) {
            None => {
                return Ok(None);
            },
            Some(o) => {
                let (s, f, m) = failure_summary(&job.chunks);
                (o, s, f, m)
            },
        },
    };
    let service = DocStatusService;
    match doc_status.get_by_id(doc_id) {
        Some(prev) => {
            let chunks: Vec<String> = match &prev.chunks_list {
                Some(c) => crate::doc_status::clone_strings(c),
                None => Vec::new(),
            };
            match outcome {
                Rollup::Processed => service.mark_processed(doc_status, doc_id, &prev, &chunks),
                Rollup::Failed => service.mark_failed(doc_status, doc_id, &prev, &message),
                Rollup::PartiallyFailed => service.mark_partially_failed(doc_status, doc_id, &prev, &chunks, &message, succeeded, failed),
            }
            proof {
                assert(doc_status@.dom() =~= old(doc_status)@.dom());
            }
        },
        None => {},
    }
    let _ = match outcome {
        Rollup::Processed => queue.mark_done(job_id),
        Rollup::Failed => queue.mark_failed(job_id),
        Rollup::PartiallyFailed => queue.mark_partially_failed(job_id),
    };
    Ok(Some(outcome))
}

} // verus!
