use vstd::prelude::*;
use crate::context::Context;
use crate::result::Failure;

verus! {

/// A unit of request processing.
pub trait Middleware: Send + Sync {
    /// What the stage's `call` may return for a context; a stage that states
    /// nothing here promises nothing.
    open spec fn call_post(&self, ctx: Context, r: Result<Context, Failure>) -> bool {
        true
    }

    /// What the stage's `after` may return for a finished context; a stage
    /// that states nothing here promises nothing.
    open spec fn after_post(&self, ctx: Context, r: Result<Context, Failure>) -> bool {
        true
    }

    /// The work of the stage, run on a context that no earlier stage has
    /// finished.
    fn call(&self, ctx: Context) -> (r: Result<Context, Failure>)
        requires
            !ctx.is_finished(),
        ensures
            self.call_post(ctx, r),
    ;

    /// Run instead of `call` on a context that an earlier stage has finished;
    /// it keeps the context finished and leaves the request as it is. A stage
    /// with nothing to do here hands the context on with `ctx.next()`.
    fn after(&self, ctx: Context) -> (r: Result<Context, Failure>)
        requires
            ctx.is_finished(),
        ensures
            self.after_post(ctx, r),
            r matches Ok(c) ==> c.is_finished() && c.req == ctx.req,
    ;
}

/// One stage of a chain.
struct Stage {
    inner: Box<dyn Middleware>,
}

/// An ordered sequence of middleware run as one.
pub struct Chain {
    middlewares: Vec<Stage>,
}

/// Whether a finished context `c` stays finished, with its request, in the
/// outcome `o` of a stage.
pub open spec fn keeps_finished(c: Context, o: Result<Context, Failure>) -> bool {
    c.is_finished() ==> (o matches Ok(c2) ==> c2.is_finished() && c2.req == c.req)
}

impl Chain {
    /// The number of stages.
    pub closed spec fn len(&self) -> nat {
        self.middlewares@.len()
    }

    /// Whether the `call` of stage `i` may turn context `c` into outcome `o`.
    pub closed spec fn stage_call_post(&self, i: int, c: Context, o: Result<Context, Failure>) -> bool {
        self.middlewares@[i].inner.call_post(c, o)
    }

    /// Whether the `after` of stage `i` may turn context `c` into outcome `o`.
    pub closed spec fn stage_after_post(&self, i: int, c: Context, o: Result<Context, Failure>) -> bool {
        self.middlewares@[i].inner.after_post(c, o)
    }

    /// Whether stage `i`, given context `c`, may give outcome `o`: through its
    /// `after` where `c` is finished, else through its `call`.
    pub open spec fn step_ok(&self, i: int, c: Context, o: Result<Context, Failure>) -> bool {
        if c.is_finished() {
            self.stage_after_post(i, c, o)
        } else {
            self.stage_call_post(i, c, o)
        }
    }

    /// Whether `o` is the sequence of contexts of a run on `ctx` that ended
    /// in `r`: `o[0]` is `ctx`, each `o[i + 1]` is what stage `i` made of the
    /// context `o[i]`, a failure ends the run, and otherwise every stage ran.
    pub open spec fn run_outcomes(
        &self,
        ctx: Context,
        o: Seq<Result<Context, Failure>>,
        r: Result<Context, Failure>,
    ) -> bool {
        &&& 1 <= o.len() <= self.len() + 1
        &&& o[0] == Ok::<Context, Failure>(ctx)
        &&& forall|i: int|
            0 <= i < o.len() - 1 ==> {
                &&& (#[trigger] o[i]) is Ok
                &&& self.step_ok(i, o[i]->Ok_0, o[i + 1])
                &&& keeps_finished(o[i]->Ok_0, o[i + 1])
            }
        &&& o.last() is Ok ==> o.len() == self.len() + 1
        &&& r == o.last()
    }

    /// A chain without stages.
    pub fn new() -> (r: Chain)
        ensures
            r.len() == 0,
    {
        Chain { middlewares: Vec::new() }
    }

    fn push_stage(&mut self, stage: Stage)
        ensures
            final(self).len() == old(self).len() + 1,
            forall|i: int, c: Context, o: Result<Context, Failure>|
                0 <= i < old(self).len() ==> final(self).step_ok(i, c, o) == old(self).step_ok(i, c, o),
    {
        self.middlewares.push(stage);
    }

    /// Appends a stage at the end of the chain.
    pub fn push<M: Middleware + 'static>(&mut self, middleware: M)
        ensures
            final(self).len() == old(self).len() + 1,
            forall|i: int, c: Context, o: Result<Context, Failure>|
                0 <= i < old(self).len() ==> final(self).step_ok(i, c, o) == old(self).step_ok(i, c, o),
    {
        let stage: Box<dyn Middleware> = Box::new(middleware);
        self.push_stage(Stage { inner: stage });
    }

    /// Appends a stage at the end of the chain and returns the chain.
    pub fn with<M: Middleware + 'static>(self, middleware: M) -> (r: Chain)
        ensures
            r.len() == self.len() + 1,
            forall|i: int, c: Context, o: Result<Context, Failure>|
                0 <= i < self.len() ==> r.step_ok(i, c, o) == self.step_ok(i, c, o),
    {
        let mut chain = self;
        chain.push(middleware);
        chain
    }

    /// Runs the stages in order on `ctx`: `after` on a finished context,
    /// `call` on one that is not, stopping at the first failure.
    pub fn run(&self, ctx: Context) -> (r: Result<Context, Failure>)
        ensures
            exists|o: Seq<Result<Context, Failure>>| #[trigger] self.run_outcomes(ctx, o, r),
            keeps_finished(ctx, r),
    {
        let ghost start = ctx;
        let ghost mut o: Seq<Result<Context, Failure>> = seq![Ok::<Context, Failure>(ctx)];
        let mut cur = ctx;
        let mut i: usize = 0;
        while i < self.middlewares.len()
            invariant
                i <= self.middlewares@.len(),
                self.len() == self.middlewares@.len(),
                start == ctx,
                o.len() == i + 1,
                o[0] == Ok::<Context, Failure>(start),
                o.last() == Ok::<Context, Failure>(cur),
                forall|j: int|
                    0 <= j < o.len() - 1 ==> {
                        &&& (#[trigger] o[j]) is Ok
                        &&& self.step_ok(j, o[j]->Ok_0, o[j + 1])
                        &&& keeps_finished(o[j]->Ok_0, o[j + 1])
                    },
                keeps_finished(start, Ok::<Context, Failure>(cur)),
            decreases self.middlewares@.len() - i,
        {
            let ghost before = cur;
            let st = &self.middlewares[i];
            assert(*st == self.middlewares@[i as int]);
            let fin = cur.finished();
            let step = if fin {
                st.inner.after(cur)
            } else {
                st.inner.call(cur)
            };

            let ghost prev = o;
            proof {
                assert(self.step_ok(i as int, before, step));
                o = o.push(step);
                assert(o[i as int] == Ok::<Context, Failure>(before));
                assert forall|j: int| 0 <= j < o.len() - 1 implies {
                    &&& (#[trigger] o[j]) is Ok
                    &&& self.step_ok(j, o[j]->Ok_0, o[j + 1])
                    &&& keeps_finished(o[j]->Ok_0, o[j + 1])
                } by {
                    if j < i {
                        assert(o[j] == prev[j]);
                        assert(o[j + 1] == prev[j + 1]);
                    }
                }
            }
            match step {
                Ok(c) => {
                    cur = c;
                },
                Err(f) => {
                    let r: Result<Context, Failure> = Err(f);
                    assert(self.run_outcomes(start, o, r));
                    return r;
                },
            }
            i = i + 1;
        }
        let r: Result<Context, Failure> = Ok(cur);
        assert(self.run_outcomes(start, o, r));
        r
    }
}

/// Once a stage hands on a finished context, every later stage gets the
/// context finished, with the same request, and runs its `after`, never its
/// `call`.
pub proof fn lemma_finished_runs_after_hooks(
    chain: Chain,
    ctx: Context,
    o: Seq<Result<Context, Failure>>,
    r: Result<Context, Failure>,
    i: int,
    j: int,
)
    requires
        chain.run_outcomes(ctx, o, r),
        0 <= i <= j < o.len(),
        o[i] matches Ok(c) && c.is_finished(),
    ensures
        o[j] is Err || (o[j]->Ok_0.is_finished() && o[j]->Ok_0.req == o[i]->Ok_0.req),
        j < o.len() - 1 ==> chain.stage_after_post(j, o[j]->Ok_0, o[j + 1]),
    decreases j - i,
{
    if i < j {
        lemma_finished_runs_after_hooks(chain, ctx, o, r, i, j - 1);
        assert(o[j - 1] is Ok);
        assert(keeps_finished(o[j - 1]->Ok_0, o[j]));
    }
    if j < o.len() - 1 {
        assert(o[j] is Ok);
        assert(chain.step_ok(j, o[j]->Ok_0, o[j + 1]));
    }
}

/// A stage that fails is the last one that runs, and the chain returns its
/// failure unchanged.
pub proof fn lemma_failure_stops_the_chain(
    chain: Chain,
    ctx: Context,
    o: Seq<Result<Context, Failure>>,
    r: Result<Context, Failure>,
    i: int,
)
    requires
        chain.run_outcomes(ctx, o, r),
        0 <= i < o.len(),
        o[i] is Err,
    ensures
        i == o.len() - 1,
        r == o[i],
{
    if i < o.len() - 1 {
        assert(o[i] is Ok);
    }
}

impl Default for Chain {
    fn default() -> (r: Chain)
        ensures
            r.len() == 0,
    {
        Chain::new()
    }
}

impl Middleware for Chain {
    open spec fn call_post(&self, ctx: Context, r: Result<Context, Failure>) -> bool {
        exists|o: Seq<Result<Context, Failure>>| #[trigger] self.run_outcomes(ctx, o, r)
    }

    open spec fn after_post(&self, ctx: Context, r: Result<Context, Failure>) -> bool {
        exists|o: Seq<Result<Context, Failure>>| #[trigger] self.run_outcomes(ctx, o, r)
    }

    fn call(&self, ctx: Context) -> (r: Result<Context, Failure>) {
        self.run(ctx)
    }

    fn after(&self, ctx: Context) -> (r: Result<Context, Failure>) {
        self.run(ctx)
    }
}

/// A finished context stays finished, with its request, through a whole run.
proof fn lemma_run_keeps_finished(
    chain: Chain,
    ctx: Context,
    o: Seq<Result<Context, Failure>>,
    r: Result<Context, Failure>,
    j: int,
)
    requires
        chain.run_outcomes(ctx, o, r),
        ctx.is_finished(),
        0 <= j < o.len(),
    ensures
        o[j] matches Ok(c) ==> c.is_finished() && c.req == ctx.req,
    decreases j,
{
    if j > 0 {
        lemma_run_keeps_finished(chain, ctx, o, r, j - 1);
        assert(o[j - 1] is Ok);
        assert(keeps_finished(o[j - 1]->Ok_0, o[j]));
    }
}

/// Nesting is flattening: a chain whose first `a` stages are those of a flat
/// chain and whose last stage is a chain of the flat chain's remaining stages
/// may give exactly the outcomes that the flat chain may give.
pub proof fn lemma_nested_chain_is_flat(
    flat: Chain,
    nested: Chain,
    inner: Chain,
    a: int,
    ctx: Context,
    r: Result<Context, Failure>,
)
    requires
        0 <= a,
        flat.len() == a + inner.len(),
        nested.len() == a + 1,
        forall|i: int, c: Context, o: Result<Context, Failure>|
            0 <= i < a ==> flat.step_ok(i, c, o) == nested.step_ok(i, c, o),
        forall|i: int, c: Context, o: Result<Context, Failure>|
            0 <= i < inner.len() ==> flat.step_ok(a + i, c, o) == inner.step_ok(i, c, o),
        forall|c: Context, o: Result<Context, Failure>|
            nested.step_ok(a, c, o) == exists|o2: Seq<Result<Context, Failure>>|
                #[trigger] inner.run_outcomes(c, o2, o),
    ensures
        (exists|o: Seq<Result<Context, Failure>>| #[trigger] flat.run_outcomes(ctx, o, r)) <==> (exists|
            o: Seq<Result<Context, Failure>>,
        | #[trigger] nested.run_outcomes(ctx, o, r)),
{
    if exists|o: Seq<Result<Context, Failure>>| #[trigger] flat.run_outcomes(ctx, o, r) {
        let o = choose|o: Seq<Result<Context, Failure>>| #[trigger] flat.run_outcomes(ctx, o, r);
        if o.len() <= a || (o.len() == a + 1 && o[a] is Err) {
            // the run stopped before the inner stages
            assert(nested.run_outcomes(ctx, o, r)) by {
                assert forall|i: int| 0 <= i < o.len() - 1 implies {
                    &&& (#[trigger] o[i]) is Ok
                    &&& nested.step_ok(i, o[i]->Ok_0, o[i + 1])
                    &&& keeps_finished(o[i]->Ok_0, o[i + 1])
                } by {
                    assert(flat.step_ok(i, o[i]->Ok_0, o[i + 1]));
                }
            }
        } else {
            let c = o[a]->Ok_0;
            let o2 = o.subrange(a, o.len() as int);
            assert(o[a] is Ok) by {
                if a < o.len() - 1 {
                    assert(o[a] is Ok);
                }
            }
            assert(inner.run_outcomes(c, o2, r)) by {
                assert forall|i: int| 0 <= i < o2.len() - 1 implies {
                    &&& (#[trigger] o2[i]) is Ok
                    &&& inner.step_ok(i, o2[i]->Ok_0, o2[i + 1])
                    &&& keeps_finished(o2[i]->Ok_0, o2[i + 1])
                } by {
                    assert(o2[i] == o[a + i]);
                    assert(o2[i + 1] == o[a + i + 1]);
                    assert(o[a + i] is Ok);
                    assert(flat.step_ok(a + i, o[a + i]->Ok_0, o[a + i + 1]));
                }
                assert(o2.last() == o.last());
            }
            let og = o.subrange(0, a + 1).push(r);
            assert(nested.step_ok(a, c, r));
            assert(keeps_finished(c, r)) by {
                if c.is_finished() {
                    lemma_run_keeps_finished(inner, c, o2, r, o2.len() - 1);
                    assert(o2.last() == r);
                }
            }
            assert(nested.run_outcomes(ctx, og, r)) by {
                assert forall|i: int| 0 <= i < og.len() - 1 implies {
                    &&& (#[trigger] og[i]) is Ok
                    &&& nested.step_ok(i, og[i]->Ok_0, og[i + 1])
                    &&& keeps_finished(og[i]->Ok_0, og[i + 1])
                } by {
                    assert(og[i] == o[i]);
                    if i < a {
                        assert(og[i + 1] == o[i + 1]);
                        assert(o[i] is Ok);
                        assert(flat.step_ok(i, o[i]->Ok_0, o[i + 1]));
                    }
                }
            }
        }
    }
    if exists|o: Seq<Result<Context, Failure>>| #[trigger] nested.run_outcomes(ctx, o, r) {
        let o = choose|o: Seq<Result<Context, Failure>>| #[trigger] nested.run_outcomes(ctx, o, r);
        if o.len() <= a || (o.len() == a + 1 && o[a] is Err) {
            assert(flat.run_outcomes(ctx, o, r)) by {
                assert forall|i: int| 0 <= i < o.len() - 1 implies {
                    &&& (#[trigger] o[i]) is Ok
                    &&& flat.step_ok(i, o[i]->Ok_0, o[i + 1])
                    &&& keeps_finished(o[i]->Ok_0, o[i + 1])
                } by {
                    assert(nested.step_ok(i, o[i]->Ok_0, o[i + 1]));
                }
            }
        } else {
            assert(o.len() == a + 2) by {
                if o.len() == a + 1 {
                    assert(o.last() == o[a]);
                }
            }
            assert(o[a] is Ok);
            let c = o[a]->Ok_0;
            assert(nested.step_ok(a, c, o[a + 1]));
            let o2 = choose|o2: Seq<Result<Context, Failure>>| #[trigger] inner.run_outcomes(c, o2, o[a + 1]);
            assert(o[a + 1] == r);
            let of = o.subrange(0, a) + o2;
            assert(flat.run_outcomes(ctx, of, r)) by {
                assert(of[0] == Ok::<Context, Failure>(ctx)) by {
                    if a == 0 {
                        assert(o2[0] == Ok::<Context, Failure>(c));
                    }
                }
                assert forall|i: int| 0 <= i < of.len() - 1 implies {
                    &&& (#[trigger] of[i]) is Ok
                    &&& flat.step_ok(i, of[i]->Ok_0, of[i + 1])
                    &&& keeps_finished(of[i]->Ok_0, of[i + 1])
                } by {
                    if i < a {
                        assert(of[i] == o[i]);
                        assert(o[i] is Ok);
                        assert(nested.step_ok(i, o[i]->Ok_0, o[i + 1]));
                        if i + 1 < a {
                            assert(of[i + 1] == o[i + 1]);
                        } else {
                            assert(of[i + 1] == o2[0]);
                        }
                    } else {
                        let k = i - a;
                        assert(of[i] == o2[k]);
                        assert(of[i + 1] == o2[k + 1]);
                        assert(o2[k] is Ok);
                        assert(inner.step_ok(k, o2[k]->Ok_0, o2[k + 1]));
                    }
                }
                assert(of.last() == o2.last());
            }
        }
    }
}

} // verus!
