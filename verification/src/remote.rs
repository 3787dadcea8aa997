//! The remote batch run: the source artifact goes to object storage, one
//! batch job runs per chunk, and polling drains terminal jobs back into
//! per-case results.
//!
//! Network and scheduler calls live outside this crate.  What stands here is
//! the orchestration state: which chunks are not yet submitted, which jobs
//! are outstanding, and how a terminal job's artifacts resolve into exactly
//! one result per test case of its chunk.

use crate::chunks::Chunk;
use crate::chunks::chunk_len;
use crate::chunks::chunks_partition;
use crate::chunks::plan_chunks;
use crate::dec::dec_str;
use crate::dec::u64_to_dec;
use crate::execution::ExecutionResult;
use crate::local::result_ids;
use crate::markers::markers_of;
use vstd::multiset::Multiset;
use vstd::prelude::*;

verus! {

/// The object-storage key of the uploaded source artifact: a time-based
/// prefix keeps distinct runs from colliding.
pub fn source_object_key(timestamp: u64, filename: &str) -> (r: String)
    ensures
        r@ == dec_str(timestamp as nat) + "-"@ + filename@,
{
    let mut s = u64_to_dec(timestamp);
    s.append("-");
    s.append(filename);
    s
}

/// The object-storage key a remote job writes one test case's standard
/// output under.
pub fn output_object_key(index: u64) -> (r: String)
    ensures
        r@ == "outputs/output_"@ + dec_str(index as nat) + ".txt"@,
{
    let mut s = String::from_str("outputs/output_");
    let d = u64_to_dec(index);
    s.append(d.as_str());
    s.append(".txt");
    s
}

/// The object-storage key a remote job writes one test case's standard
/// error under.
pub fn error_object_key(index: u64) -> (r: String)
    ensures
        r@ == "errors/error_"@ + dec_str(index as nat) + ".txt"@,
{
    let mut s = String::from_str("errors/error_");
    let d = u64_to_dec(index);
    s.append(d.as_str());
    s.append(".txt");
    s
}

/// The display name of one chunk's batch job.
pub fn job_name(chunk_index: u64) -> (r: String)
    ensures
        r@ == "aws-runner-chunk-"@ + dec_str(chunk_index as nat),
{
    let mut s = String::from_str("aws-runner-chunk-");
    let d = u64_to_dec(chunk_index);
    s.append(d.as_str());
    s
}

/// The environment a chunk's batch job runs under: where the code lives,
/// where the artifacts go, and the inclusive index range the job iterates.
pub fn chunk_job_env(bucket: &str, code_key: &str, chunk: &Chunk) -> (r: Vec<(String, String)>)
    ensures
        r@.len() == 5,
        r@[0].0@ == "CODE_BUCKET"@ && r@[0].1@ == bucket@,
        r@[1].0@ == "CODE_KEY"@ && r@[1].1@ == code_key@,
        r@[2].0@ == "IO_BUCKET"@ && r@[2].1@ == bucket@,
        r@[3].0@ == "SEED_START"@ && r@[3].1@ == dec_str(chunk.start as nat),
        r@[4].0@ == "SEED_END"@ && r@[4].1@ == dec_str(chunk.end as nat),
{
    let mut v: Vec<(String, String)> = Vec::new();
    v.push((String::from_str("CODE_BUCKET"), String::from_str(bucket)));
    v.push((String::from_str("CODE_KEY"), String::from_str(code_key)));
    v.push((String::from_str("IO_BUCKET"), String::from_str(bucket)));
    v.push((String::from_str("SEED_START"), u64_to_dec(chunk.start as u64)));
    v.push((String::from_str("SEED_END"), u64_to_dec(chunk.end as u64)));
    v
}

/// What the poller fetched from object storage for one test case of a
/// terminal job: the stdout artifact (or the storage error's text), and the
/// stderr artifact when one exists.
#[derive(Debug)]
pub struct CaseOutcome {
    pub stdout_fetch: Result<String, String>,
    pub stderr_fetch: Option<String>,
}

/// The standard output a resolved test case reports: the fetched artifact on
/// a successful job, empty otherwise.
pub open spec fn resolved_stdout(job_succeeded: bool, o: CaseOutcome) -> Seq<char> {
    if job_succeeded {
        match o.stdout_fetch {
            Ok(out) => out@,
            Err(_) => Seq::<char>::empty(),
        }
    } else {
        Seq::<char>::empty()
    }
}

/// The diagnostic text a resolved test case carries.  The stderr artifact
/// wins when it exists; otherwise a successful job leaves it empty (or, when
/// the stdout artifact could not be fetched, carries that storage error),
/// and a failed job falls back to the scheduler's status reason.
pub open spec fn resolved_stderr(job_succeeded: bool, o: CaseOutcome, reason: Option<
    String,
>) -> Seq<char> {
    match o.stderr_fetch {
        Some(e) => e@,
        None => {
            if job_succeeded {
                match o.stdout_fetch {
                    Ok(_) => Seq::<char>::empty(),
                    Err(m) => "Failed to fetch output from S3: "@ + m@,
                }
            } else {
                match reason {
                    Some(t) => t@,
                    None => "Job failed"@,
                }
            }
        },
    }
}

/// A resolved test case succeeds only when its job succeeded and its stdout
/// artifact could be read.
pub open spec fn resolved_success(job_succeeded: bool, o: CaseOutcome) -> bool {
    job_succeeded && o.stdout_fetch is Ok
}

/// How one test case of a terminal job resolves into a result.
pub open spec fn is_resolved_case(
    r: ExecutionResult,
    test_case_id: u32,
    job_succeeded: bool,
    o: CaseOutcome,
    reason: Option<String>,
) -> bool {
    &&& r.test_case_id == test_case_id
    &&& r.success == resolved_success(job_succeeded, o)
    &&& r.stdout@ == resolved_stdout(job_succeeded, o)
    &&& r.stderr@ == resolved_stderr(job_succeeded, o, reason)
    &&& (r.score, r.execution_time_ms) == markers_of(resolved_stderr(job_succeeded, o, reason))
}

/// Builds one test case's result from what its terminal job left behind,
/// running the marker protocol over the resolved diagnostic text.
pub fn resolve_remote_case(
    test_case_id: u32,
    job_succeeded: bool,
    outcome: CaseOutcome,
    status_reason: &Option<String>,
) -> (r: ExecutionResult)
    ensures
        is_resolved_case(r, test_case_id, job_succeeded, outcome, *status_reason),
{
    let CaseOutcome { stdout_fetch, stderr_fetch } = outcome;
    if job_succeeded {
        match stdout_fetch {
            Ok(out) => {
                let stderr = match stderr_fetch {
                    Some(e) => e,
                    None => String::new(),
                };
                ExecutionResult::from_captured(test_case_id, true, out, stderr)
            },
            Err(m) => {
                let stderr = match stderr_fetch {
                    Some(e) => e,
                    None => {
                        let mut s = String::from_str("Failed to fetch output from S3: ");
                        s.append(m.as_str());
                        s
                    },
                };
                ExecutionResult::from_captured(test_case_id, false, String::new(), stderr)
            },
        }
    } else {
        let stderr = match stderr_fetch {
            Some(e) => e,
            None => match status_reason {
                Some(t) => t.clone(),
                None => String::from_str("Job failed"),
            },
        };
        ExecutionResult::from_captured(test_case_id, false, String::new(), stderr)
    }
}

/// One outstanding batch job and the chunk it carries.
#[derive(Debug)]
pub struct RemoteJob {
    pub job_id: String,
    pub chunk: Chunk,
}

/// The chunks a job sequence carries.
pub open spec fn job_chunks(jobs: Seq<RemoteJob>) -> Seq<Chunk> {
    jobs.map_values(|j: RemoteJob| j.chunk)
}

/// How many test cases a chunk sequence carries in all.
pub open spec fn size_sum(cs: Seq<Chunk>) -> int
    decreases cs.len(),
{
    if cs.len() == 0 {
        0
    } else {
        chunk_len(cs.first()) + size_sum(cs.drop_first())
    }
}

proof fn lemma_size_sum_push(cs: Seq<Chunk>, c: Chunk)
    ensures
        size_sum(cs.push(c)) == size_sum(cs) + chunk_len(c),
    decreases cs.len(),
{
    assert(cs.push(c).len() == cs.len() + 1);
    assert(size_sum(cs.push(c)) == chunk_len(cs.push(c).first()) + size_sum(
        cs.push(c).drop_first(),
    ));
    if cs.len() == 0 {
        assert(cs.push(c).first() == c);
        assert(cs.push(c).drop_first() =~= Seq::<Chunk>::empty());
        assert(size_sum(Seq::<Chunk>::empty()) == 0);
    } else {
        assert(cs.push(c).first() == cs.first());
        assert(cs.push(c).drop_first() =~= cs.drop_first().push(c));
        lemma_size_sum_push(cs.drop_first(), c);
    }
}

proof fn lemma_size_sum_remove(cs: Seq<Chunk>, k: int)
    requires
        0 <= k < cs.len(),
    ensures
        size_sum(cs.remove(k)) == size_sum(cs) - chunk_len(cs[k]),
    decreases k,
{
    if k == 0 {
        assert(cs.remove(0) =~= cs.drop_first());
    } else {
        assert(cs.remove(k).drop_first() =~= cs.drop_first().remove(k - 1));
        lemma_size_sum_remove(cs.drop_first(), k - 1);
    }
}

proof fn lemma_size_sum_skip(cs: Seq<Chunk>, k: int)
    requires
        0 <= k < cs.len(),
    ensures
        size_sum(cs.skip(k)) == chunk_len(cs[k]) + size_sum(cs.skip(k + 1)),
{
    assert(cs.skip(k).drop_first() =~= cs.skip(k + 1));
}

/// The ids of the test cases a chunk's range carries.
pub open spec fn range_ids(ids: Seq<u32>, c: Chunk) -> Seq<u32> {
    ids.subrange(c.start as int, c.end + 1)
}

/// The ids all chunks of a sequence carry, counted with multiplicity.
pub open spec fn chunks_ids(cs: Seq<Chunk>, ids: Seq<u32>) -> Multiset<u32>
    decreases cs.len(),
{
    if cs.len() == 0 {
        Multiset::<u32>::empty()
    } else {
        range_ids(ids, cs.first()).to_multiset().add(chunks_ids(cs.drop_first(), ids))
    }
}

proof fn lemma_chunks_ids_push(cs: Seq<Chunk>, c: Chunk, ids: Seq<u32>)
    ensures
        chunks_ids(cs.push(c), ids) == chunks_ids(cs, ids).add(range_ids(ids, c).to_multiset()),
    decreases cs.len(),
{
    broadcast use vstd::multiset::group_multiset_axioms;

    assert(cs.push(c).len() == cs.len() + 1);
    assert(chunks_ids(cs.push(c), ids) == range_ids(ids, cs.push(c).first()).to_multiset().add(
        chunks_ids(cs.push(c).drop_first(), ids),
    ));
    if cs.len() == 0 {
        assert(cs.push(c).first() == c);
        assert(cs.push(c).drop_first() =~= Seq::<Chunk>::empty());
        assert(chunks_ids(Seq::<Chunk>::empty(), ids) == Multiset::<u32>::empty());
        assert(chunks_ids(cs.push(c), ids) =~= chunks_ids(cs, ids).add(
            range_ids(ids, c).to_multiset(),
        ));
    } else {
        assert(cs.push(c).first() == cs.first());
        assert(cs.push(c).drop_first() =~= cs.drop_first().push(c));
        lemma_chunks_ids_push(cs.drop_first(), c, ids);
        assert(chunks_ids(cs.push(c), ids) =~= chunks_ids(cs, ids).add(
            range_ids(ids, c).to_multiset(),
        ));
    }
}

proof fn lemma_chunks_ids_remove(cs: Seq<Chunk>, k: int, ids: Seq<u32>)
    requires
        0 <= k < cs.len(),
    ensures
        chunks_ids(cs.remove(k), ids).add(range_ids(ids, cs[k]).to_multiset()) == chunks_ids(
            cs,
            ids,
        ),
    decreases k,
{
    broadcast use vstd::multiset::group_multiset_axioms;

    if k == 0 {
        assert(cs.remove(0) =~= cs.drop_first());
        assert(chunks_ids(cs.drop_first(), ids).add(range_ids(ids, cs[0]).to_multiset())
            =~= chunks_ids(cs, ids));
    } else {
        assert(cs.remove(k).first() == cs.first());
        assert(cs.remove(k).drop_first() =~= cs.drop_first().remove(k - 1));
        lemma_chunks_ids_remove(cs.drop_first(), k - 1, ids);
        assert(chunks_ids(cs.remove(k), ids).add(range_ids(ids, cs[k]).to_multiset())
            =~= chunks_ids(cs, ids));
    }
}

proof fn lemma_chunks_ids_skip(cs: Seq<Chunk>, k: int, ids: Seq<u32>)
    requires
        0 <= k < cs.len(),
    ensures
        chunks_ids(cs.skip(k), ids) == range_ids(ids, cs[k]).to_multiset().add(
            chunks_ids(cs.skip(k + 1), ids),
        ),
{
    assert(cs.skip(k).first() == cs[k]);
    assert(cs.skip(k).drop_first() =~= cs.skip(k + 1));
}

#[verifier::rlimit(30)]
proof fn lemma_chunks_ids_run(cs: Seq<Chunk>, ids: Seq<u32>)
    requires
        cs.len() > 0,
        forall|i: int|
            0 <= i < cs.len() ==> (#[trigger] cs[i]).start <= cs[i].end < ids.len(),
        forall|i: int| 0 <= i < cs.len() - 1 ==> (#[trigger] cs[i]).end + 1 == cs[i + 1].start,
    ensures
        cs[0].start <= cs[cs.len() - 1].end + 1,
        chunks_ids(cs, ids) == ids.subrange(
            cs[0].start as int,
            cs[cs.len() - 1].end + 1,
        ).to_multiset(),
    decreases cs.len(),
{
    broadcast use vstd::multiset::group_multiset_axioms;

    assert(cs.first() == cs[0]);
    assert(chunks_ids(cs, ids) == range_ids(ids, cs.first()).to_multiset().add(
        chunks_ids(cs.drop_first(), ids),
    ));
    if cs.len() == 1 {
        assert(cs.drop_first() =~= Seq::<Chunk>::empty());
        assert(chunks_ids(Seq::<Chunk>::empty(), ids) == Multiset::<u32>::empty());
        assert(ids.subrange(cs[0].start as int, cs[0].end + 1) == range_ids(ids, cs[0]));
        assert(chunks_ids(cs, ids) =~= range_ids(ids, cs[0]).to_multiset());
    } else {
        let tail = cs.drop_first();
        assert(forall|i: int| 0 <= i < tail.len() ==> (#[trigger] tail[i]) == cs[i + 1]);
        lemma_chunks_ids_run(tail, ids);
        assert(tail[0] == cs[1]);
        assert(tail[tail.len() - 1] == cs[cs.len() - 1]);
        let whole = ids.subrange(cs[0].start as int, cs[cs.len() - 1].end + 1);
        assert(whole =~= range_ids(ids, cs[0]) + ids.subrange(
            cs[1].start as int,
            cs[cs.len() - 1].end + 1,
        ));
        vstd::seq_lib::lemma_multiset_commutative(
            range_ids(ids, cs[0]),
            ids.subrange(cs[1].start as int, cs[cs.len() - 1].end + 1),
        );
    }
}

/// A chunk sequence that covers `[0, total)` back to back.
pub open spec fn chunks_cover(cs: Seq<Chunk>, total: int) -> bool {
    if total == 0 {
        cs.len() == 0
    } else {
        &&& cs.len() > 0
        &&& cs[0].start == 0
        &&& cs[cs.len() - 1].end == total - 1
        &&& forall|i: int| 0 <= i < cs.len() ==> (#[trigger] cs[i]).start <= cs[i].end < total
        &&& forall|i: int| 0 <= i < cs.len() - 1 ==> (#[trigger] cs[i]).end + 1 == cs[i + 1].start
    }
}

proof fn lemma_size_sum_run(cs: Seq<Chunk>)
    requires
        cs.len() > 0,
        forall|i: int| 0 <= i < cs.len() ==> (#[trigger] cs[i]).start <= cs[i].end,
        forall|i: int| 0 <= i < cs.len() - 1 ==> (#[trigger] cs[i]).end + 1 == cs[i + 1].start,
    ensures
        size_sum(cs) == cs[cs.len() - 1].end - cs[0].start + 1,
    decreases cs.len(),
{
    assert(cs.first() == cs[0]);
    assert(size_sum(cs) == chunk_len(cs.first()) + size_sum(cs.drop_first()));
    if cs.len() == 1 {
        assert(cs.drop_first() =~= Seq::<Chunk>::empty());
        assert(size_sum(Seq::<Chunk>::empty()) == 0);
    } else {
        let tail = cs.drop_first();
        assert(forall|i: int| 0 <= i < tail.len() ==> (#[trigger] tail[i]) == cs[i + 1]);
        lemma_size_sum_run(tail);
        assert(tail[0] == cs[1]);
        assert(tail[tail.len() - 1] == cs[cs.len() - 1]);
        assert(cs[0].end + 1 == cs[1].start);
    }
}

/// The orchestration state of one remote run: the fixed chunk plan, the
/// submission cursor, the outstanding jobs, and the results resolved so far.
pub struct RemoteRun {
    ids: Vec<u32>,
    chunks: Vec<Chunk>,
    submitted: usize,
    pending: Vec<RemoteJob>,
    results: Vec<ExecutionResult>,
}

/// The first outstanding job carrying `id`, if any.
pub open spec fn find_job_index(jobs: Seq<RemoteJob>, id: Seq<char>) -> int
    decreases jobs.len(),
{
    if jobs.len() == 0 {
        -1
    } else if jobs.first().job_id@ == id {
        0
    } else {
        let r = find_job_index(jobs.drop_first(), id);
        if r < 0 {
            -1
        } else {
            r + 1
        }
    }
}

proof fn lemma_find_job_at(jobs: Seq<RemoteJob>, id: Seq<char>, k: int)
    requires
        0 <= k <= jobs.len(),
        forall|m: int| 0 <= m < k ==> (#[trigger] jobs[m]).job_id@ != id,
        k == jobs.len() || jobs[k].job_id@ == id,
    ensures
        find_job_index(jobs, id) == if k == jobs.len() {
            -1int
        } else {
            k
        },
    decreases jobs.len(),
{
    if jobs.len() > 0 {
        if jobs.first().job_id@ == id {
        } else {
            let tail = jobs.drop_first();
            assert(forall|i: int| 0 <= i < tail.len() ==> (#[trigger] tail[i]) == jobs[i + 1]);
            lemma_find_job_at(tail, id, k - 1);
        }
    }
}

impl RemoteRun {
    /// The ids of the test cases of the run, in submission order.
    pub closed spec fn case_ids(self) -> Seq<u32> {
        self.ids@
    }

    /// The fixed chunk plan.
    pub closed spec fn plan(self) -> Seq<Chunk> {
        self.chunks@
    }

    /// How many chunks have been handed to the scheduler.
    pub closed spec fn submitted_count(self) -> int {
        self.submitted as int
    }

    /// The submitted jobs not yet observed in a terminal state.
    pub closed spec fn pending_jobs(self) -> Seq<RemoteJob> {
        self.pending@
    }

    /// The results resolved so far.
    pub closed spec fn collected(self) -> Seq<ExecutionResult> {
        self.results@
    }

    /// The first outstanding job carrying `id`, if any.
    pub closed spec fn find_job(self, id: Seq<char>) -> Option<Chunk> {
        let k = find_job_index(self.pending@, id);
        if k < 0 {
            None
        } else {
            Some(self.pending@[k].chunk)
        }
    }

    /// The accounting invariant: every test case is carried by exactly one
    /// of — an unsubmitted chunk, an outstanding job, or a resolved result.
    pub closed spec fn wf(self) -> bool {
        &&& self.submitted as int <= self.chunks@.len()
        &&& self.results@.len() + size_sum(job_chunks(self.pending@)) + size_sum(
            self.chunks@.skip(self.submitted as int),
        ) == self.ids@.len()
        &&& result_ids(self.results@).to_multiset().add(
            chunks_ids(job_chunks(self.pending@), self.ids@),
        ).add(chunks_ids(self.chunks@.skip(self.submitted as int), self.ids@))
            == self.ids@.to_multiset()
        &&& forall|i: int|
            0 <= i < self.pending@.len() ==> (#[trigger] self.pending@[i]).chunk.start
                <= self.pending@[i].chunk.end < self.ids@.len()
        &&& forall|i: int|
            self.submitted as int <= i < self.chunks@.len() ==> (#[trigger] self.chunks@[i]).start
                <= self.chunks@[i].end < self.ids@.len()
    }

    /// A fresh run over `test_case_ids`, with `chunks` as its plan.
    pub fn new(test_case_ids: Vec<u32>, chunks: Vec<Chunk>) -> (r: RemoteRun)
        requires
            chunks_cover(chunks@, test_case_ids@.len() as int),
        ensures
            r.wf(),
            r.case_ids() == test_case_ids@,
            r.plan() == chunks@,
            r.submitted_count() == 0,
            r.pending_jobs() == Seq::<RemoteJob>::empty(),
            r.collected() == Seq::<ExecutionResult>::empty(),
    {
        proof {
            broadcast use vstd::multiset::group_multiset_axioms;
            broadcast use vstd::seq_lib::group_to_multiset_ensures;

            if test_case_ids@.len() > 0 {
                lemma_size_sum_run(chunks@);
                lemma_chunks_ids_run(chunks@, test_case_ids@);
                assert(test_case_ids@.subrange(
                    chunks@[0].start as int,
                    chunks@[chunks@.len() - 1].end + 1,
                ) =~= test_case_ids@);
            } else {
                assert(test_case_ids@ =~= Seq::<u32>::empty());
                assert(test_case_ids@.to_multiset() =~= Multiset::<u32>::empty());
            }
            assert(chunks@.skip(0) =~= chunks@);
            assert(job_chunks(Seq::<RemoteJob>::empty()) =~= Seq::<Chunk>::empty());
            assert(result_ids(Seq::<ExecutionResult>::empty()) =~= Seq::<u32>::empty());
            assert(result_ids(Seq::<ExecutionResult>::empty()).to_multiset()
                =~= Multiset::<u32>::empty());
            assert(Multiset::<u32>::empty().add(
                chunks_ids(Seq::<Chunk>::empty(), test_case_ids@),
            ).add(chunks_ids(chunks@, test_case_ids@)) =~= chunks_ids(chunks@, test_case_ids@));
        }
        RemoteRun { ids: test_case_ids, chunks, submitted: 0, pending: Vec::new(), results: Vec::new() }
    }

    /// The next chunk awaiting submission, if any.
    pub fn next_unsubmitted(&self) -> (r: Option<Chunk>)
        ensures
            r == if self.submitted_count() < self.plan().len() {
                Some(self.plan()[self.submitted_count()])
            } else {
                None::<Chunk>
            },
    {
        if self.submitted < self.chunks.len() {
            Some(self.chunks[self.submitted])
        } else {
            None
        }
    }

    /// Records that the next chunk was submitted and the scheduler answered
    /// with `job_id`.
    pub fn mark_submitted(&mut self, job_id: String)
        requires
            old(self).wf(),
            old(self).submitted_count() < old(self).plan().len(),
        ensures
            final(self).wf(),
            final(self).case_ids() == old(self).case_ids(),
            final(self).plan() == old(self).plan(),
            final(self).submitted_count() == old(self).submitted_count() + 1,
            final(self).collected() == old(self).collected(),
            final(self).pending_jobs() == old(self).pending_jobs().push(
                RemoteJob { job_id, chunk: old(self).plan()[old(self).submitted_count()] },
            ),
    {
        let n = self.chunks.len();
        let c = self.chunks[self.submitted];
        proof {
            assert(self.submitted < n);
            lemma_size_sum_skip(self.chunks@, self.submitted as int);
            lemma_size_sum_push(job_chunks(self.pending@), c);
            lemma_chunks_ids_skip(self.chunks@, self.submitted as int, self.ids@);
            lemma_chunks_ids_push(job_chunks(self.pending@), c, self.ids@);
        }
        let ghost pre_pending = self.pending@;
        self.pending.push(RemoteJob { job_id, chunk: c });
        self.submitted = self.submitted + 1;
        proof {
            broadcast use vstd::multiset::group_multiset_axioms;

            assert(job_chunks(self.pending@) =~= job_chunks(pre_pending).push(c));
            assert(result_ids(self.results@).to_multiset().add(
                chunks_ids(job_chunks(self.pending@), self.ids@),
            ).add(chunks_ids(self.chunks@.skip(self.submitted as int), self.ids@))
                =~= result_ids(self.results@).to_multiset().add(
                chunks_ids(job_chunks(pre_pending), self.ids@),
            ).add(chunks_ids(self.chunks@.skip(self.submitted as int - 1), self.ids@)));
        }
    }

    /// The ids of the outstanding jobs, for one polling query.
    pub fn pending_job_ids(&self) -> (r: Vec<String>)
        ensures
            r@.len() == self.pending_jobs().len(),
            forall|k: int|
                0 <= k < r@.len() ==> (#[trigger] r@[k])@ == self.pending_jobs()[k].job_id@,
    {
        let mut v: Vec<String> = Vec::new();
        let mut i: usize = 0;
        while i < self.pending.len()
            invariant
                0 <= i <= self.pending@.len(),
                v@.len() == i,
                forall|k: int| 0 <= k < i ==> (#[trigger] v@[k])@ == self.pending@[k].job_id@,
            decreases self.pending@.len() - i,
        {
            v.push(self.pending[i].job_id.clone());
            i = i + 1;
        }
        v
    }

    /// The chunk of the outstanding job carrying `job_id`, if any.
    pub fn job_chunk(&self, job_id: &String) -> (r: Option<Chunk>)
        ensures
            r == self.find_job(job_id@),
    {
        let n = self.pending.len();
        let mut k: usize = 0;
        while k < n
            invariant
                0 <= k <= n,
                n == self.pending@.len(),
                forall|m: int| 0 <= m < k ==> (#[trigger] self.pending@[m]).job_id@ != job_id@,
            decreases n - k,
        {
            if self.pending[k].job_id == *job_id {
                proof {
                    lemma_find_job_at(self.pending@, job_id@, k as int);
                }
                return Some(self.pending[k].chunk);
            }
            k = k + 1;
        }
        proof {
            lemma_find_job_at(self.pending@, job_id@, n as int);
        }
        None
    }

    /// Settles one job observed in a terminal state: every test case of its
    /// chunk resolves into exactly one result from what the poller fetched,
    /// and the job leaves the outstanding set.  A job id that is not
    /// outstanding changes nothing.
    #[verifier::loop_isolation(false)]
    pub fn resolve_job(
        &mut self,
        job_id: &String,
        job_succeeded: bool,
        outcomes: Vec<CaseOutcome>,
        status_reason: Option<String>,
    ) -> (resolved: bool)
        requires
            old(self).wf(),
            old(self).find_job(job_id@) matches Some(c) ==> outcomes@.len() == chunk_len(c),
        ensures
            final(self).wf(),
            resolved == (old(self).find_job(job_id@) is Some),
            final(self).case_ids() == old(self).case_ids(),
            final(self).plan() == old(self).plan(),
            final(self).submitted_count() == old(self).submitted_count(),
            !resolved ==> final(self).pending_jobs() == old(self).pending_jobs()
                && final(self).collected() == old(self).collected(),
            resolved ==> ({
                let k = find_job_index(old(self).pending_jobs(), job_id@);
                let c = old(self).pending_jobs()[k].chunk;
                &&& final(self).pending_jobs() == old(self).pending_jobs().remove(k)
                &&& final(self).collected().len() == old(self).collected().len() + chunk_len(c)
                &&& final(self).collected().take(old(self).collected().len() as int) == old(
                    self,
                ).collected()
                &&& forall|q: int|
                    0 <= q < chunk_len(c) ==> is_resolved_case(
                        #[trigger] final(self).collected()[old(self).collected().len() + q],
                        old(self).case_ids()[c.start + q],
                        job_succeeded,
                        outcomes@[q],
                        status_reason,
                    )
            }),
    {
        let n = self.pending.len();
        let mut k: usize = 0;
        while k < n
            invariant
                0 <= k <= n,
                *self == *old(self),
                n == self.pending@.len(),
                forall|m: int| 0 <= m < k ==> (#[trigger] self.pending@[m]).job_id@ != job_id@,
            decreases n - k,
        {
            if self.pending[k].job_id == *job_id {
                proof {
                    lemma_find_job_at(self.pending@, job_id@, k as int);
                    lemma_size_sum_remove(job_chunks(self.pending@), k as int);
                    lemma_chunks_ids_remove(job_chunks(self.pending@), k as int, self.ids@);
                    assert(self.pending@[k as int].chunk.start <= self.pending@[k as int].chunk.end
                        < self.ids@.len());
                }
                let total = self.ids.len();
                let job = self.pending.remove(k);
                let c = job.chunk;
                proof {
                    assert(c.end < total);
                }
                proof {
                    assert(job_chunks(self.pending@) =~= job_chunks(
                        old(self).pending@,
                    ).remove(k as int));
                }
                let size = c.end - c.start + 1;
                let mut outcomes = outcomes;
                let ghost all_outcomes = outcomes@;
                let ghost pre_results = self.results@;
                proof {
                    broadcast use vstd::multiset::group_multiset_axioms;
                    broadcast use vstd::seq_lib::group_to_multiset_ensures;

                    let s0 = self.ids@.subrange(c.start as int, c.start as int);
                    assert(s0 =~= Seq::<u32>::empty());
                    vstd::multiset::lemma_multiset_empty_len(s0.to_multiset());
                    assert(result_ids(self.results@).to_multiset() =~= result_ids(
                        pre_results,
                    ).to_multiset().add(s0.to_multiset()));
                }
                let mut i: usize = 0;
                while i < size
                    invariant
                        0 <= i <= size,
                        size == chunk_len(c),
                        c.start <= c.end < self.ids@.len(),
                        outcomes@ == all_outcomes.skip(i as int),
                        all_outcomes.len() == size,
                        self.ids@ == old(self).ids@,
                        self.chunks@ == old(self).chunks@,
                        self.submitted == old(self).submitted,
                        self.pending@ == old(self).pending@.remove(k as int),
                        self.results@.len() == pre_results.len() + i,
                        self.results@.take(pre_results.len() as int) == pre_results,
                        result_ids(self.results@).to_multiset() == result_ids(
                            pre_results,
                        ).to_multiset().add(
                            self.ids@.subrange(c.start as int, c.start + i).to_multiset(),
                        ),
                        forall|q: int|
                            0 <= q < i ==> is_resolved_case(
                                #[trigger] self.results@[pre_results.len() + q],
                                self.ids@[c.start + q],
                                job_succeeded,
                                all_outcomes[q],
                                status_reason,
                            ),
                    decreases size - i,
                {
                    let oc = outcomes.remove(0);
                    proof {
                        assert(oc == all_outcomes[i as int]);
                        assert(all_outcomes.skip(i as int).remove(0) =~= all_outcomes.skip(
                            i as int + 1,
                        ));
                    }
                    let id = self.ids[c.start + i];
                    let r = resolve_remote_case(id, job_succeeded, oc, &status_reason);
                    let ghost before_push = self.results@;
                    self.results.push(r);
                    proof {
                        broadcast use vstd::multiset::group_multiset_axioms;
                        broadcast use vstd::seq_lib::group_to_multiset_ensures;

                        assert(self.results@.take(pre_results.len() as int) =~= before_push.take(
                            pre_results.len() as int,
                        ));
                        assert(result_ids(self.results@) =~= result_ids(before_push).push(
                            r.test_case_id,
                        ));
                        assert(result_ids(before_push).push(r.test_case_id).to_multiset()
                            =~= result_ids(before_push).to_multiset().insert(r.test_case_id));
                        let sub_i = self.ids@.subrange(c.start as int, c.start + i);
                        let sub_next = self.ids@.subrange(c.start as int, c.start + i + 1);
                        assert(sub_next =~= sub_i.push(self.ids@[c.start + i]));
                        assert(sub_i.push(self.ids@[c.start + i]).to_multiset()
                            =~= sub_i.to_multiset().insert(self.ids@[c.start + i]));
                        assert(result_ids(self.results@).to_multiset() =~= result_ids(
                            pre_results,
                        ).to_multiset().add(sub_next.to_multiset()));
                    }
                    i = i + 1;
                }
                proof {
                    broadcast use vstd::multiset::group_multiset_axioms;

                    assert(self.results@.len() + size_sum(job_chunks(self.pending@)) + size_sum(
                        self.chunks@.skip(self.submitted as int),
                    ) == self.ids@.len());
                    assert(job_chunks(old(self).pending@)[k as int] == c);
                    assert(self.ids@.subrange(c.start as int, c.start + size) =~= range_ids(
                        self.ids@,
                        c,
                    ));
                    assert(result_ids(self.results@).to_multiset().add(
                        chunks_ids(job_chunks(self.pending@), self.ids@),
                    ).add(chunks_ids(self.chunks@.skip(self.submitted as int), self.ids@))
                        =~= self.ids@.to_multiset());
                }
                return true;
            }
            k = k + 1;
        }
        proof {
            lemma_find_job_at(self.pending@, job_id@, n as int);
        }
        false
    }

    /// Whether every chunk was submitted and every job has settled.
    pub fn is_done(&self) -> (r: bool)
        ensures
            r == (self.submitted_count() == self.plan().len() && self.pending_jobs().len() == 0),
    {
        self.submitted == self.chunks.len() && self.pending.len() == 0
    }

    /// The resolved results, in resolution order.
    pub fn into_results(self) -> (r: Vec<ExecutionResult>)
        ensures
            r@ == self.collected(),
    {
        self.results
    }
}

/// Law: a remote run that has submitted its whole plan and drained every
/// job holds exactly one result per test case — as many results as cases,
/// carrying exactly the submitted ids; a failed chunk's cases resolve to
/// failed results, never to dropped ones.
pub proof fn lemma_remote_run_complete(run: RemoteRun)
    requires
        run.wf(),
        run.submitted_count() == run.plan().len(),
        run.pending_jobs().len() == 0,
    ensures
        run.collected().len() == run.case_ids().len(),
        result_ids(run.collected()).to_multiset() == run.case_ids().to_multiset(),
{
    broadcast use vstd::multiset::group_multiset_axioms;

    assert(job_chunks(run.pending_jobs()) =~= Seq::<Chunk>::empty());
    assert(run.plan().skip(run.plan().len() as int) =~= Seq::<Chunk>::empty());
    assert(result_ids(run.collected()).to_multiset().add(
        chunks_ids(Seq::<Chunk>::empty(), run.case_ids()),
    ).add(chunks_ids(Seq::<Chunk>::empty(), run.case_ids())) =~= result_ids(
        run.collected(),
    ).to_multiset());
}

/// Orchestrates one remote batch run.
pub struct AWSRunner;

impl AWSRunner {
    pub fn new() -> (r: AWSRunner) {
        AWSRunner
    }

    /// Begins a remote run: plans the chunks for `parallel`-way sharding and
    /// sets up the orchestration state.  With no test cases the run is
    /// complete at once, and no job is ever submitted.
    pub fn start_run(&self, test_case_ids: Vec<u32>, parallel: usize) -> (r: RemoteRun)
        requires
            parallel >= 1,
        ensures
            r.wf(),
            r.case_ids() == test_case_ids@,
            chunks_partition(r.plan(), test_case_ids@.len() as int, parallel as int),
            r.submitted_count() == 0,
            r.pending_jobs() == Seq::<RemoteJob>::empty(),
            r.collected() == Seq::<ExecutionResult>::empty(),
    {
        let chunks = plan_chunks(test_case_ids.len(), parallel);
        RemoteRun::new(test_case_ids, chunks)
    }
}

} // verus!
