use vstd::prelude::*;
use crate::pool::{count_executing, ThreadPool};
use crate::worker::WorkerState;
use vstd::set_lib::lemma_set_disjoint_lens;

verus! {

/// Every submitted job is in exactly one place: waiting in the queue (at the
/// position given by its number), running on exactly one worker, or done.
pub proof fn lemma_each_job_in_one_place<J>(p: ThreadPool<J>, id: nat)
    requires
        p.wf(),
        id < p.submitted(),
    ensures
        p.is_queued(id) || p.is_running(id) || p.done().contains(id),
        p.is_queued(id) ==> !p.is_running(id) && !p.done().contains(id),
        p.is_running(id) ==> !p.done().contains(id),
        p.is_queued(id) ==> p.queued()[id - p.taken()] == p.history()[id as int],
        forall|v: int, w: int| p.runs(v, id) && p.runs(w, id) ==> v == w,
{
    if p.is_running(id) {
        let w = choose|w: int| p.runs(w, id);
        assert(p.job_of()[w] < p.taken());
    }
    assert forall|v: int, w: int| p.runs(v, id) && p.runs(w, id) implies v == w by {
        if v != w {
            assert(p.job_of()[v] != p.job_of()[w]);
        }
    }
}

/// Counting executing workers: never more than the entries, as many exactly
/// when every entry executes, and none exactly when no entry executes.
pub proof fn lemma_count_executing_bound(s: Seq<WorkerState>)
    ensures
        count_executing(s) <= s.len(),
        count_executing(s) == s.len() <==> forall|w: int| 0 <= w < s.len() ==> s[w] is Executing,
        count_executing(s) == 0 <==> forall|w: int| 0 <= w < s.len() ==> !(s[w] is Executing),
    decreases s.len(),
{
    if s.len() > 0 {
        lemma_count_executing_bound(s.drop_last());
        assert forall|w: int| 0 <= w < s.len() - 1 implies s.drop_last()[w] == s[w] by {}
        assert(s.last() == s[s.len() - 1]);
    }
}

/// At most `size` jobs run at once. When `size` jobs run, every worker is
/// executing, so no worker can take a further job until one finishes.
pub proof fn lemma_concurrency_ceiling<J>(p: ThreadPool<J>)
    requires
        p.wf(),
    ensures
        count_executing(p.states()) <= p.size(),
        count_executing(p.states()) == p.size() ==> forall|w: int|
            0 <= w < p.size() ==> p.states()[w] is Executing,
{
    lemma_count_executing_bound(p.states());
}

/// A free worker is never held up by running jobs: while fewer than `size`
/// jobs run and no worker has stopped, some worker is waiting, and a waiting
/// worker that asks is handed the front job whatever the others are running.
pub proof fn lemma_free_worker_waits<J>(p: ThreadPool<J>)
    requires
        p.wf(),
        count_executing(p.states()) < p.size(),
        forall|w: int| 0 <= w < p.size() ==> !(#[trigger] p.states()[w] is Stopped),
    ensures
        exists|w: int| 0 <= w < p.size() && #[trigger] p.states()[w] is Waiting,
{
    lemma_count_executing_bound(p.states());
    let w = choose|w: int| 0 <= w < p.size() && !(p.states()[w] is Executing);
    assert(p.states()[w] is Waiting);
}

/// Every job eventually runs: while any work is outstanding, some worker can
/// take a step, either a running job finishes or a waiting worker takes the
/// front job, and each such step lowers `outstanding()` by exactly one. A job
/// failing changes nothing in this, as `finish` returns its worker to the
/// pool. So, with no further submissions, every queued and running job is
/// done after `outstanding()` steps, in whatever order the workers take them.
pub proof fn lemma_progress<J>(p: ThreadPool<J>)
    requires
        p.wf(),
        p.outstanding() > 0,
    ensures
        (exists|w: int| 0 <= w < p.size() && #[trigger] p.states()[w] is Executing) || (
        p.queued().len() > 0 && exists|w: int|
            0 <= w < p.size() && #[trigger] p.states()[w] is Waiting),
{
    lemma_count_executing_bound(p.states());
    if count_executing(p.states()) > 0 {
        let w = choose|w: int| 0 <= w < p.size() && p.states()[w] is Executing;
        assert(p.states()[w] is Executing);
    } else {
        assert(p.queued().len() > 0);
        assert(!p.all_stopped_spec());
        let w = choose|w: int| 0 <= w < p.size() && !(p.states()[w] is Stopped);
        assert(p.states()[w] is Waiting);
    }
}

/// The numbers below `n`.
spec fn below(n: nat) -> Set<nat> {
    Set::new(|id: nat| id < n)
}

proof fn lemma_below(n: nat)
    ensures
        below(n).finite(),
        below(n).len() == n,
    decreases n,
{
    if n == 0 {
        assert(below(0) =~= Set::empty());
    } else {
        lemma_below((n - 1) as nat);
        assert(below((n - 1) as nat).insert((n - 1) as nat) =~= below(n));
    }
}

/// The jobs that the first `k` workers are running.
spec fn jobs_run_by(states: Seq<WorkerState>, job_of: Seq<nat>, k: nat) -> Set<nat>
    decreases k,
{
    if k == 0 {
        Set::empty()
    } else {
        let rest = jobs_run_by(states, job_of, (k - 1) as nat);
        if states[k - 1] is Executing {
            rest.insert(job_of[k - 1])
        } else {
            rest
        }
    }
}

proof fn lemma_jobs_run_by<J>(p: ThreadPool<J>, k: nat)
    requires
        p.wf(),
        k <= p.size(),
    ensures
        jobs_run_by(p.states(), p.job_of(), k).finite(),
        jobs_run_by(p.states(), p.job_of(), k).len() == count_executing(
            p.states().subrange(0, k as int),
        ),
        forall|id: nat|
            #[trigger] jobs_run_by(p.states(), p.job_of(), k).contains(id) <==> exists|w: int|
                0 <= w < k && p.runs(w, id),
    decreases k,
{
    if k == 0 {
        assert(p.states().subrange(0, 0) =~= Seq::<WorkerState>::empty());
    } else {
        let j = (k - 1) as nat;
        lemma_jobs_run_by(p, j);
        let rest = jobs_run_by(p.states(), p.job_of(), j);
        assert(p.states().subrange(0, k as int).drop_last() =~= p.states().subrange(0, j as int));
        if p.states()[j as int] is Executing {
            let id = p.job_of()[j as int];
            if rest.contains(id) {
                let w = choose|w: int| 0 <= w < j && p.runs(w, id);
                assert(p.job_of()[w] != p.job_of()[j as int]);
            }
            assert(p.runs(j as int, id));
        }
        assert forall|id: nat| #[trigger]
            jobs_run_by(p.states(), p.job_of(), k).contains(id) <==> exists|w: int|
                0 <= w < k && p.runs(w, id) by {
            if exists|w: int| 0 <= w < k && p.runs(w, id) {
                let w = choose|w: int| 0 <= w < k && p.runs(w, id);
                if w < j {
                    assert(rest.contains(id));
                }
            }
        }
    }
}

/// No job is lost: every submitted job that is not done is either in the
/// queue or being run, so the jobs submitted are the jobs done, plus those
/// queued, plus one for each executing worker.
pub proof fn lemma_no_job_lost<J>(p: ThreadPool<J>)
    requires
        p.wf(),
    ensures
        p.done().finite(),
        p.submitted() == p.done().len() + p.queued().len() + count_executing(p.states()),
{
    let r = jobs_run_by(p.states(), p.job_of(), p.size());
    lemma_jobs_run_by(p, p.size());
    lemma_below(p.taken());
    assert(p.states().subrange(0, p.size() as int) =~= p.states());
    assert forall|id: nat| #[trigger] r.contains(id) implies id < p.taken() by {
        let w = choose|w: int| 0 <= w < p.size() && p.runs(w, id);
    }
    assert(p.done() =~= below(p.taken()).difference(r));
    assert(below(p.taken()) =~= p.done() + r);
    lemma_set_disjoint_lens(p.done(), r);
}

} // verus!
