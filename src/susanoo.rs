use vstd::prelude::*;
use crate::context::Context;
use crate::middleware::{Chain, Middleware};
use crate::request::Request;
use crate::result::{Failure, Response, STATUS_NOT_FOUND};

verus! {

/// Whether `r` is the response that the client gets for the outcome of the
/// middleware: the response of a finished context, an empty 404 for a context
/// that no stage finished, and the fallback response of a failure.
pub open spec fn responds(outcome: Result<Context, Failure>, r: Response) -> bool {
    match outcome {
        Ok(ctx) => match ctx.res {
            Some(res) => r == res,
            None => {
                &&& r.status == STATUS_NOT_FOUND
                &&& r.headers@.len() == 0
                &&& r.body@.len() == 0
            },
        },
        Err(f) => r == f.response,
    }
}

/// Whether `c` is the fresh context that a request `req` starts in.
pub open spec fn fresh_context(c: Context, req: Request) -> bool {
    &&& c.req == req
    &&& c.res is None
    &&& c.captures is None
    &&& c.ext@ == Map::<Seq<char>, Seq<char>>::empty()
}

/// A run of a chain in which no stage fails and no stage finishes the context
/// becomes an empty 404 response at the boundary.
pub proof fn lemma_unfinished_run_is_not_found(
    chain: Chain,
    ctx: Context,
    o: Seq<Result<Context, Failure>>,
    out: Result<Context, Failure>,
    r: Response,
)
    requires
        chain.run_outcomes(ctx, o, out),
        forall|i: int| 0 <= i < o.len() ==> ((#[trigger] o[i]) matches Ok(c) && !c.is_finished()),
        responds(out, r),
    ensures
        r.status == STATUS_NOT_FOUND,
        r.headers@.len() == 0,
        r.body@.len() == 0,
{
    assert(o[o.len() - 1] matches Ok(c) && !c.is_finished());
}

/// The response that the client gets for the outcome of the middleware.
pub fn into_response(outcome: Result<Context, Failure>) -> (r: Response)
    ensures
        responds(outcome, r),
{
    match outcome {
        Ok(ctx) => match ctx.res {
            Some(res) => res,
            None => Response::new().with_status(STATUS_NOT_FOUND),
        },
        Err(f) => f.response,
    }
}

/// The root of an application: the middleware that every request goes
/// through.
pub struct Susanoo {
    middleware: Box<dyn Middleware>,
}

impl Susanoo {
    /// Whether the `call` of the root middleware may turn context `c` into
    /// outcome `r`.
    pub closed spec fn root_call_post(&self, c: Context, r: Result<Context, Failure>) -> bool {
        self.middleware.call_post(c, r)
    }

    /// An application whose requests go through `middleware`.
    pub fn new<M: Middleware + 'static>(middleware: M) -> (r: Susanoo) {
        let root: Box<dyn Middleware> = Box::new(middleware);
        Susanoo { middleware: root }
    }

    /// Handles one request: a fresh context goes through the middleware and
    /// its outcome becomes the response.
    pub fn handle(&self, req: Request) -> (r: Response)
        ensures
            exists|c: Context, out: Result<Context, Failure>|
                #[trigger] self.root_call_post(c, out) && fresh_context(c, req) && responds(out, r),
    {
        let ctx = Context::new(req);
        let ghost c = ctx;
        let out = self.middleware.call(ctx);
        let ghost gout = out;
        let r = into_response(out);
        assert(self.root_call_post(c, gout) && fresh_context(c, req) && responds(gout, r));
        r
    }
}

} // verus!
