//! The local run: compilation gates the run, and a bounded worker pool then
//! produces exactly one result per submitted test case, in completion order.
//!
//! The pool, the child processes and the channel live outside this crate;
//! what stands here is the accounting they must follow.  A `LocalRun` owes
//! one result per submitted test case id; recording a result settles one
//! pending id, and a complete run holds exactly as many results as ids were
//! submitted, with the same ids.
//!
//! The run contract accepts a timeout hint, but the local path treats it as
//! advisory: no per-process deadline is enforced, and every child runs to
//! exit.

use crate::execution::EngineError;
use crate::execution::ExecutionResult;
use vstd::multiset::Multiset;
use vstd::prelude::*;

verus! {

/// The ids the results of a collection carry, in collection order.
pub open spec fn result_ids(rs: Seq<ExecutionResult>) -> Seq<u32> {
    rs.map_values(|r: ExecutionResult| r.test_case_id)
}

/// The accounting of one local run: which test cases still owe a result,
/// and the results collected so far.
pub struct LocalRun {
    expected: Ghost<Seq<u32>>,
    pending: Vec<u32>,
    results: Vec<ExecutionResult>,
}

impl LocalRun {
    /// The ids the run was started with, in submission order.
    pub closed spec fn expected_ids(self) -> Seq<u32> {
        self.expected@
    }

    /// The ids that have not reported yet.
    pub closed spec fn pending_ids(self) -> Multiset<u32> {
        self.pending@.to_multiset()
    }

    /// The results collected so far, in completion order.
    pub closed spec fn collected(self) -> Seq<ExecutionResult> {
        self.results@
    }

    /// The accounting invariant: every submitted id is either still pending
    /// or carried by exactly one collected result.
    pub closed spec fn wf(self) -> bool {
        result_ids(self.results@).to_multiset().add(self.pending@.to_multiset())
            == self.expected@.to_multiset()
    }

    /// A fresh run owing one result per submitted id.
    pub fn new(test_case_ids: &Vec<u32>) -> (r: LocalRun)
        ensures
            r.wf(),
            r.expected_ids() == test_case_ids@,
            r.pending_ids() == test_case_ids@.to_multiset(),
            r.collected() == Seq::<ExecutionResult>::empty(),
    {
        let mut pending: Vec<u32> = Vec::new();
        let mut i: usize = 0;
        while i < test_case_ids.len()
            invariant
                0 <= i <= test_case_ids@.len(),
                pending@ == test_case_ids@.take(i as int),
            decreases test_case_ids@.len() - i,
        {
            pending.push(test_case_ids[i]);
            proof {
                assert(pending@ =~= test_case_ids@.take(i + 1));
            }
            i = i + 1;
        }
        proof {
            assert(pending@ =~= test_case_ids@);
        }
        let r = LocalRun {
            expected: Ghost(test_case_ids@),
            pending,
            results: Vec::new(),
        };
        proof {
            broadcast use vstd::seq_lib::group_to_multiset_ensures;

            assert(result_ids(r.results@) =~= Seq::<u32>::empty());
            assert(result_ids(r.results@).to_multiset() =~= Multiset::<u32>::empty());
            assert(result_ids(r.results@).to_multiset().add(r.pending@.to_multiset())
                =~= r.expected@.to_multiset());
        }
        r
    }

    /// Records one result.  A result whose id is still pending settles that
    /// id; one whose id is not owed is refused and changes nothing.
    pub fn record(&mut self, r: ExecutionResult) -> (accepted: bool)
        ensures
            accepted == old(self).pending_ids().contains(r.test_case_id),
            final(self).expected_ids() == old(self).expected_ids(),
            accepted ==> final(self).pending_ids() == old(self).pending_ids().remove(
                r.test_case_id,
            ) && final(self).collected() == old(self).collected().push(r),
            !accepted ==> final(self).pending_ids() == old(self).pending_ids()
                && final(self).collected() == old(self).collected(),
            old(self).wf() ==> final(self).wf(),
    {
        proof {
            broadcast use vstd::seq_lib::group_to_multiset_ensures;

        }
        let n = self.pending.len();
        let mut k: usize = 0;
        while k < n
            invariant
                0 <= k <= n,
                *self == *old(self),
                n == self.pending@.len(),
                forall|m: int| 0 <= m < k ==> self.pending@[m] != r.test_case_id,
            decreases n - k,
        {
            if self.pending[k] == r.test_case_id {
                proof {
                    broadcast use vstd::seq_lib::group_to_multiset_ensures;

                    assert(self.pending@.contains(r.test_case_id));
                }
                let ghost pre = *self;
                self.pending.remove(k);
                self.results.push(r);
                proof {
                    broadcast use vstd::seq_lib::group_to_multiset_ensures;

                    assert(result_ids(self.results@) =~= result_ids(pre.results@).push(
                        r.test_case_id,
                    ));
                    if pre.wf() {
                        assert(result_ids(self.results@).to_multiset().add(
                            self.pending@.to_multiset(),
                        ) =~= self.expected@.to_multiset());
                    }
                }
                return true;
            }
            k = k + 1;
        }
        proof {
            broadcast use vstd::seq_lib::group_to_multiset_ensures;

            assert(!self.pending@.contains(r.test_case_id));
        }
        false
    }

    /// Whether every submitted test case has reported.
    pub fn is_complete(&self) -> (r: bool)
        ensures
            r == (self.pending_ids().len() == 0),
    {
        proof {
            broadcast use vstd::seq_lib::group_to_multiset_ensures;

        }
        self.pending.len() == 0
    }

    /// The collected results, in completion order.
    pub fn into_results(self) -> (r: Vec<ExecutionResult>)
        ensures
            r@ == self.collected(),
    {
        self.results
    }
}

/// Law: a complete run returns exactly one result per submitted test case —
/// as many results as ids were submitted, carrying exactly the submitted
/// ids, a spawn failure counting like any other report.
pub proof fn lemma_complete_run_accounts_for_every_case(run: LocalRun)
    requires
        run.wf(),
        run.pending_ids().len() == 0,
    ensures
        run.collected().len() == run.expected_ids().len(),
        result_ids(run.collected()).to_multiset() == run.expected_ids().to_multiset(),
{
    broadcast use vstd::seq_lib::group_to_multiset_ensures;
    broadcast use vstd::multiset::group_multiset_axioms;

    vstd::multiset::lemma_multiset_empty_len(run.pending_ids());
    assert(result_ids(run.collected()).to_multiset().add(run.pending_ids())
        =~= result_ids(run.collected()).to_multiset());
    assert(result_ids(run.collected()).to_multiset().len() == result_ids(run.collected()).len());
    assert(run.expected_ids().to_multiset().len() == run.expected_ids().len());
    assert(result_ids(run.collected()).len() == run.collected().len());
}

/// Orchestrates one local run over a bounded worker pool.
pub struct LocalRunner;

impl LocalRunner {
    pub fn new() -> (r: LocalRunner) {
        LocalRunner
    }

    /// Begins a run once the one-shot compilation step has finished.  A
    /// non-zero toolchain exit aborts the whole run: the error carries the
    /// toolchain's diagnostic stream and no per-case result ever exists.
    pub fn start_run(&self, compile_ok: bool, compile_diagnostics: String, test_case_ids: &Vec<
        u32,
    >) -> (r: Result<LocalRun, EngineError>)
        ensures
            match r {
                Ok(run) => {
                    &&& compile_ok
                    &&& run.wf()
                    &&& run.expected_ids() == test_case_ids@
                    &&& run.pending_ids() == test_case_ids@.to_multiset()
                    &&& run.collected() == Seq::<ExecutionResult>::empty()
                },
                Err(e) => {
                    &&& !compile_ok
                    &&& e matches EngineError::CompileFailed { diagnostics }
                    &&& diagnostics@ == compile_diagnostics@
                },
            },
    {
        if compile_ok {
            Ok(LocalRun::new(test_case_ids))
        } else {
            Err(EngineError::CompileFailed { diagnostics: compile_diagnostics })
        }
    }
}

} // verus!
