//! The worker pool: naming workers, deciding the order in which the
//! collector gathers results, and the record each worker hands back.

use vstd::prelude::*;

use crate::digits::dec_digits;
use crate::digits::push_decimal;

verus! {

/// The name of worker `i`.
pub open spec fn worker_name_spec(i: nat) -> Seq<char> {
    "worker"@ + dec_digits(i)
}

/// Builds the name of worker `i`.
pub fn worker_name(i: usize) -> (r: String)
    ensures
        r@ == worker_name_spec(i as nat),
{
    let mut s = String::from_str("worker");
    push_decimal(&mut s, i as u64);
    s
}

/// Names are unique per run: distinct workers get distinct names.
pub proof fn lemma_worker_names_unique(i: nat, j: nat)
    requires
        i != j,
    ensures
        worker_name_spec(i) != worker_name_spec(j),
{
    crate::digits::lemma_dec_digits_value(i);
    crate::digits::lemma_dec_digits_value(j);
    if worker_name_spec(i) == worker_name_spec(j) {
        let a = dec_digits(i);
        let b = dec_digits(j);
        let w = "worker"@;
        assert(w + a == w + b);
        assert((w + a).len() == w.len() + a.len());
        assert((w + b).len() == w.len() + b.len());
        assert(a.len() == b.len());
        assert forall|k: int| 0 <= k < a.len() implies a[k] == b[k] by {
            assert((w + a)[w.len() + k] == a[k]);
            assert((w + b)[w.len() + k] == b[k]);
        }
        assert(a =~= b);
        assert(false);
    }
}

/// The start indices of the workers that started, in start order.
pub open spec fn started_indices(s: Seq<bool>) -> Seq<usize>
    decreases s.len(),
{
    if s.len() == 0 {
        Seq::empty()
    } else if s.last() {
        started_indices(s.drop_last()).push((s.len() - 1) as usize)
    } else {
        started_indices(s.drop_last())
    }
}

/// The order in which the collector gathers results, given which
/// workers started: one entry per started worker, in start order,
/// workers that failed to start skipped.
pub fn report_order(started: &Vec<bool>) -> (r: Vec<usize>)
    ensures
        r@ == started_indices(started@),
{
    let mut r: Vec<usize> = Vec::new();
    let mut i: usize = 0;
    proof {
        assert(started@.subrange(0, 0) =~= Seq::<bool>::empty());
    }
    while i < started.len()
        invariant
            0 <= i <= started@.len(),
            r@ == started_indices(started@.subrange(0, i as int)),
        decreases started@.len() - i,
    {
        proof {
            assert(started@.subrange(0, i + 1).drop_last() =~= started@.subrange(0, i as int));
        }
        if started[i] {
            r.push(i);
        }
        i = i + 1;
    }
    proof {
        assert(started@.subrange(0, started@.len() as int) =~= started@);
    }
    r
}

/// The report order is fixed by the start indices alone, whatever
/// order the workers finish in: it lists exactly the indices of the
/// workers that started, each once, strictly ascending.
pub proof fn lemma_report_order_deterministic(s: Seq<bool>)
    requires
        s.len() <= usize::MAX,
    ensures
        forall|k: int|
            0 <= k < started_indices(s).len() ==> #[trigger] started_indices(s)[k] < s.len()
                && s[started_indices(s)[k] as int],
        forall|k1: int, k2: int|
            0 <= k1 < k2 < started_indices(s).len() ==> #[trigger] started_indices(s)[k1]
                < #[trigger] started_indices(s)[k2],
        forall|i: int| 0 <= i < s.len() && s[i] ==> started_indices(s).contains(i as usize),
    decreases s.len(),
{
    if s.len() > 0 {
        let p = started_indices(s.drop_last());
        let q = started_indices(s);
        lemma_report_order_deterministic(s.drop_last());
        assert(forall|i: int| 0 <= i < s.len() - 1 ==> s.drop_last()[i] == s[i]);
        if s.last() {
            assert(q == p.push((s.len() - 1) as usize));
            assert forall|k: int| 0 <= k < q.len() implies #[trigger] q[k] < s.len() && s[q[k] as int] by {
                if k < p.len() {
                    assert(q[k] == p[k]);
                    assert(p[k] < s.len() - 1);
                } else {
                    assert(q[k] == (s.len() - 1) as usize);
                }
            }
            assert forall|k1: int, k2: int| 0 <= k1 < k2 < q.len() implies #[trigger] q[k1]
                < #[trigger] q[k2] by {
                if k2 < p.len() {
                    assert(q[k1] == p[k1] && q[k2] == p[k2]);
                } else {
                    assert(q[k1] == p[k1]);
                    assert(p[k1] < s.len() - 1);
                    assert(q[k2] == (s.len() - 1) as usize);
                }
            }
            assert forall|i: int| 0 <= i < s.len() && s[i] implies q.contains(i as usize) by {
                if i < s.len() - 1 {
                    assert(p.contains(i as usize));
                    let k = choose|k: int| 0 <= k < p.len() && p[k] == i as usize;
                    assert(q[k] == i as usize);
                } else {
                    assert(q[p.len() as int] == (s.len() - 1) as usize);
                }
            }
        } else {
            assert(q == p);
            assert forall|i: int| 0 <= i < s.len() && s[i] implies q.contains(i as usize) by {
                assert(s.drop_last()[i] == s[i]);
                assert(p.contains(i as usize));
            }
        }
    }
}

/// One worker's result: its name, the trial tally, and how long its
/// sampling loop ran.
pub struct WorkerResult {
    /// The worker's name.
    pub name: String,
    /// Trials that fell inside the circle.
    pub inside: u64,
    /// Trials run in all.
    pub iterations: u64,
    /// Time the sampling loop took, in nanoseconds.
    pub elapsed_nanos: u64,
}

impl WorkerResult {
    /// A sensible tally: at least one trial, and no more trials inside
    /// the circle than were run.
    pub open spec fn wf(self) -> bool {
        self.inside <= self.iterations && self.iterations > 0
    }

    /// The estimate of pi as an exact ratio: four times the inside
    /// tally, over the trial count.
    pub fn estimate_parts(&self) -> (r: (u64, u64))
        requires
            self.wf(),
            self.iterations <= u64::MAX / 4,
        ensures
            r.0 == 4 * self.inside,
            r.1 == self.iterations,
    {
        (4 * self.inside, self.iterations)
    }
}

/// The longest any single worker ran, in nanoseconds; zero with no
/// results. Meaningful when `s` is the whole result set: since the
/// workers run at the same time, a run's total wall-clock time should
/// be at least this, never near the sum.
pub open spec fn max_elapsed_spec(s: Seq<WorkerResult>) -> nat
    decreases s.len(),
{
    if s.len() == 0 {
        0
    } else if s.last().elapsed_nanos > max_elapsed_spec(s.drop_last()) {
        s.last().elapsed_nanos as nat
    } else {
        max_elapsed_spec(s.drop_last())
    }
}

/// The longest any single worker ran, in nanoseconds.
pub fn max_elapsed_nanos(results: &Vec<WorkerResult>) -> (r: u64)
    ensures
        r == max_elapsed_spec(results@),
{
    let mut r: u64 = 0;
    let mut i: usize = 0;
    proof {
        assert(results@.subrange(0, 0) =~= Seq::<WorkerResult>::empty());
    }
    while i < results.len()
        invariant
            0 <= i <= results@.len(),
            r == max_elapsed_spec(results@.subrange(0, i as int)),
        decreases results@.len() - i,
    {
        proof {
            assert(results@.subrange(0, i + 1).drop_last() =~= results@.subrange(0, i as int));
        }
        if results[i].elapsed_nanos > r {
            r = results[i].elapsed_nanos;
        }
        i = i + 1;
    }
    proof {
        assert(results@.subrange(0, results@.len() as int) =~= results@);
    }
    r
}

} // verus!
