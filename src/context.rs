use vstd::prelude::*;
use crate::regex_pattern::OwnedCaptures;
use crate::request::Request;
use crate::result::{Failure, Response};
use crate::extensions::Extensions;

verus! {

/// The state of one request while it passes through the middleware: the
/// request, the response once a stage has produced one, the captures of the
/// route that matched, and a registry of named values that stages use to
/// hand data to later stages.
///
/// A context is finished once it holds a response; no stage takes the
/// response away again.
pub struct Context {
    pub req: Request,
    pub res: Option<Response>,
    pub captures: Option<OwnedCaptures>,
    pub ext: Extensions,
}

impl Context {
    /// Whether a stage has produced the response.
    pub open spec fn is_finished(&self) -> bool {
        self.res is Some
    }

    /// A fresh, unfinished context for `req`.
    pub fn new(req: Request) -> (r: Context)
        ensures
            r.req == req,
            r.res is None,
            r.captures is None,
            r.ext@ == Map::<Seq<char>, Seq<char>>::empty(),
    {
        Context { req, res: None, captures: None, ext: Extensions::new() }
    }

    /// Whether a stage has produced the response.
    pub fn finished(&self) -> (r: bool)
        ensures
            r == self.is_finished(),
    {
        self.res.is_some()
    }

    /// Hands the context on to the next stage unchanged.
    pub fn next(self) -> (r: Result<Context, Failure>)
        ensures
            r == Ok::<Context, Failure>(self),
    {
        Ok(self)
    }

    /// Sets the response, which finishes the context, and hands it on.
    pub fn finish(self, res: Response) -> (r: Result<Context, Failure>)
        ensures
            r matches Ok(c) && c.req == self.req && c.res == Some(res) && c.captures
                == self.captures && c.ext == self.ext,
    {
        let mut ctx = self;
        ctx.res = Some(res);
        Ok(ctx)
    }
}

} // verus!
