use vstd::prelude::*;

verus! {

/// An ordered chain of middleware stages. The first stage is the outermost:
/// it runs first and decides whether the rest of the chain runs.
#[derive(Debug, Clone)]
pub struct Middleware<S> {
    pub stages: Vec<S>,
}

/// One piece of code that runs while a chain handles a request.
#[derive(Debug, Clone, Copy, PartialEq, Eq, Structural)]
pub enum Step {
    /// The code of stage `i` before it calls its continuation.
    Pre(usize),
    /// The innermost handler.
    Leaf,
    /// The code of stage `i` after its continuation returned, or after it
    /// chose not to call it.
    Post(usize),
}

/// The order in which code runs from stage `i` inwards, where `calls[j]`
/// says whether stage `j` calls its continuation.
pub open spec fn onion(calls: Seq<bool>, i: int) -> Seq<Step>
    decreases calls.len() - i,
{
    if i < 0 || i >= calls.len() {
        seq![Step::Leaf]
    } else if calls[i] {
        seq![Step::Pre(i as usize)] + onion(calls, i + 1) + seq![Step::Post(i as usize)]
    } else {
        seq![Step::Pre(i as usize), Step::Post(i as usize)]
    }
}

/// `Pre(lo)`, ..., `Pre(hi - 1)`.
pub open spec fn pres(lo: int, hi: int) -> Seq<Step> {
    Seq::new((hi - lo) as nat, |j: int| Step::Pre((lo + j) as usize))
}

/// `Post(hi - 1)`, ..., `Post(lo)`.
pub open spec fn posts(lo: int, hi: int) -> Seq<Step> {
    Seq::new((hi - lo) as nat, |j: int| Step::Post((hi - 1 - j) as usize))
}

impl<S: Copy> Middleware<S> {
    pub fn new() -> (m: Middleware<S>)
        ensures
            m.stages@ == Seq::<S>::empty(),
    {
        Middleware { stages: Vec::new() }
    }

    /// Appends a stage as the new innermost one.
    pub fn join(&mut self, stage: S)
        ensures
            final(self).stages@ == old(self).stages@.push(stage),
    {
        self.stages.push(stage);
    }

    /// The chain that runs `outer`'s stages, then `inner`'s.
    pub fn chain(outer: &Middleware<S>, inner: &Middleware<S>) -> (m: Middleware<S>)
        ensures
            m.stages@ == outer.stages@ + inner.stages@,
    {
        let mut stages: Vec<S> = Vec::new();
        let mut i: usize = 0;
        while i < outer.stages.len()
            invariant
                i <= outer.stages@.len(),
                stages@ == outer.stages@.take(i as int),
            decreases outer.stages@.len() - i,
        {
            stages.push(outer.stages[i]);
            proof {
                assert(outer.stages@.take(i + 1) =~= outer.stages@.take(i as int).push(
                    outer.stages@[i as int],
                ));
            }
            i = i + 1;
        }
        let mut k: usize = 0;
        while k < inner.stages.len()
            invariant
                k <= inner.stages@.len(),
                stages@ == outer.stages@ + inner.stages@.take(k as int),
            decreases inner.stages@.len() - k,
        {
            stages.push(inner.stages[k]);
            proof {
                assert(inner.stages@.take(k + 1) =~= inner.stages@.take(k as int).push(
                    inner.stages@[k as int],
                ));
                assert(outer.stages@ + inner.stages@.take(k + 1) =~= (outer.stages@
                    + inner.stages@.take(k as int)).push(inner.stages@[k as int]));
            }
            k = k + 1;
        }
        proof {
            assert(outer.stages@.take(outer.stages@.len() as int) =~= outer.stages@);
            assert(inner.stages@.take(inner.stages@.len() as int) =~= inner.stages@);
        }
        Middleware { stages }
    }
}

impl<S> Middleware<S> {
    /// The order in which the chain's code runs when stage `j` calls its
    /// continuation exactly when `calls_next[j]` holds.
    pub fn trace(&self, calls_next: &Vec<bool>) -> (r: Vec<Step>)
        requires
            calls_next@.len() == self.stages@.len(),
        ensures
            r@ == onion(calls_next@, 0),
    {
        trace_from(calls_next, 0)
    }
}

fn trace_from(calls: &Vec<bool>, i: usize) -> (r: Vec<Step>)
    requires
        i <= calls@.len(),
    ensures
        r@ == onion(calls@, i as int),
    decreases calls@.len() - i,
{
    if i == calls.len() {
        return vec![Step::Leaf];
    }
    let mut out: Vec<Step> = Vec::new();
    out.push(Step::Pre(i));
    if calls[i] {
        let mut inner = trace_from(calls, i + 1);
        out.append(&mut inner);
    }
    out.push(Step::Post(i));
    proof {
        if calls@[i as int] {
            assert(out@ =~= seq![Step::Pre(i)] + onion(calls@, i + 1) + seq![Step::Post(i)]);
        } else {
            assert(out@ =~= seq![Step::Pre(i), Step::Post(i)]);
        }
    }
    out
}

/// When every stage calls its continuation, all pre-processing runs
/// outermost first, then the innermost handler, then all post-processing
/// innermost first.
pub proof fn lemma_onion_full(calls: Seq<bool>, i: int)
    requires
        0 <= i <= calls.len(),
        forall|j: int| 0 <= j < calls.len() ==> #[trigger] calls[j],
        calls.len() < usize::MAX,
    ensures
        onion(calls, i) == pres(i, calls.len() as int) + seq![Step::Leaf] + posts(
            i,
            calls.len() as int,
        ),
    decreases calls.len() - i,
{
    let n = calls.len() as int;
    if i == n {
        assert(pres(i, n) =~= Seq::<Step>::empty());
        assert(posts(i, n) =~= Seq::<Step>::empty());
        assert(onion(calls, i) =~= seq![Step::Leaf]);
    } else {
        lemma_onion_full(calls, i + 1);
        assert(pres(i, n) =~= seq![Step::Pre(i as usize)] + pres(i + 1, n));
        assert(posts(i, n) =~= posts(i + 1, n) + seq![Step::Post(i as usize)]);
        assert(onion(calls, i) =~= pres(i, n) + seq![Step::Leaf] + posts(i, n));
    }
}

/// When stage `k` is the first that does not call its continuation, stages
/// `0..=k` run their pre- and post-processing around nothing: no later
/// stage and no innermost handler runs.
pub proof fn lemma_onion_short_circuit(calls: Seq<bool>, k: int, i: int)
    requires
        0 <= i <= k < calls.len(),
        !calls[k],
        forall|j: int| 0 <= j < k ==> #[trigger] calls[j],
        calls.len() < usize::MAX,
    ensures
        onion(calls, i) == pres(i, k + 1) + posts(i, k + 1),
        !onion(calls, i).contains(Step::Leaf),
    decreases k - i,
{
    if i == k {
        assert(pres(i, k + 1) =~= seq![Step::Pre(i as usize)]);
        assert(posts(i, k + 1) =~= seq![Step::Post(i as usize)]);
        assert(onion(calls, i) =~= pres(i, k + 1) + posts(i, k + 1));
    } else {
        lemma_onion_short_circuit(calls, k, i + 1);
        assert(pres(i, k + 1) =~= seq![Step::Pre(i as usize)] + pres(i + 1, k + 1));
        assert(posts(i, k + 1) =~= posts(i + 1, k + 1) + seq![Step::Post(i as usize)]);
        assert(onion(calls, i) =~= pres(i, k + 1) + posts(i, k + 1));
    }
    let t = onion(calls, i);
    assert(!t.contains(Step::Leaf)) by {
        if t.contains(Step::Leaf) {
            let j = choose|j: int| 0 <= j < t.len() && t[j] == Step::Leaf;
            if j < k + 1 - i {
                assert(t[j] == pres(i, k + 1)[j]);
            } else {
                assert(t[j] == posts(i, k + 1)[j - (k + 1 - i)]);
            }
        }
    }
}

} // verus!
