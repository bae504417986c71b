use std::sync::{Arc, Mutex};
use susanoo::susanoo::into_response;
use susanoo::{Chain, Context, Failure, HttpVersion, Method, Middleware, Request, Response};

type Log = Arc<Mutex<Vec<String>>>;

struct Stage {
    name: &'static str,
    log: Log,
    finish: bool,
    fail: bool,
}

impl Middleware for Stage {
    fn call(&self, ctx: Context) -> Result<Context, Failure> {
        self.log.lock().unwrap().push(format!("call {}", self.name));
        if self.fail {
            Err(Failure::new(format!("{} failed", self.name)))
        } else if self.finish {
            ctx.finish(Response::new().with_body(self.name.to_string()))
        } else {
            ctx.next()
        }
    }

    fn after(&self, ctx: Context) -> Result<Context, Failure> {
        self.log.lock().unwrap().push(format!("after {}", self.name));
        Ok(ctx)
    }
}

fn stage(name: &'static str, log: &Log, finish: bool, fail: bool) -> Stage {
    Stage { name, log: log.clone(), finish, fail }
}

fn context() -> Context {
    match Request::new(Method::Get, "http://localhost/".to_string(), HttpVersion::Http11, Vec::new(), Vec::new()) {
        Ok(req) => Context::new(req),
        Err(_) => panic!("bad url in test"),
    }
}

fn entries(log: &Log) -> Vec<String> {
    log.lock().unwrap().clone()
}

#[test]
fn finished_context_runs_after_hooks_only() {
    let log: Log = Arc::new(Mutex::new(Vec::new()));
    let chain = Chain::new()
        .with(stage("A", &log, true, false))
        .with(stage("B", &log, false, false))
        .with(stage("C", &log, false, false));
    let ctx = chain.run(context()).unwrap_or_else(|_| panic!("failed"));
    assert_eq!(entries(&log), vec!["call A", "after B", "after C"]);
    assert_eq!(ctx.res.map(|r| r.body), Some("A".to_string()));
}

#[test]
fn failure_skips_the_rest() {
    let log: Log = Arc::new(Mutex::new(Vec::new()));
    let chain = Chain::new()
        .with(stage("A", &log, false, true))
        .with(stage("B", &log, true, false))
        .with(stage("C", &log, false, false));
    match chain.run(context()) {
        Ok(_) => panic!("no failure"),
        Err(f) => {
            assert_eq!(f.err, "A failed");
            assert_eq!(f.response.status, 500);
            assert_eq!(f.response.body, "Internal Server Error: A failed");
        }
    }
    assert_eq!(entries(&log), vec!["call A"]);
}

#[test]
fn ongoing_context_calls_every_stage() {
    let log: Log = Arc::new(Mutex::new(Vec::new()));
    let chain = Chain::new()
        .with(stage("A", &log, false, false))
        .with(stage("B", &log, true, false))
        .with(stage("C", &log, false, false));
    let ctx = chain.run(context()).unwrap_or_else(|_| panic!("failed"));
    assert_eq!(entries(&log), vec!["call A", "call B", "after C"]);
    assert_eq!(ctx.res.map(|r| r.body), Some("B".to_string()));
}

#[test]
fn nested_chain_behaves_as_flat() {
    let log: Log = Arc::new(Mutex::new(Vec::new()));
    let inner = Chain::new().with(stage("B", &log, false, false)).with(stage("C", &log, false, false));
    let chain = Chain::new().with(stage("A", &log, true, false)).with(inner);
    chain.run(context()).unwrap_or_else(|_| panic!("failed"));
    assert_eq!(entries(&log), vec!["call A", "after B", "after C"]);
}

#[test]
fn empty_chain_hands_context_back() {
    let mut chain = Chain::new();
    let ctx = chain.run(context()).unwrap_or_else(|_| panic!("failed"));
    assert!(!ctx.finished());
    let log: Log = Arc::new(Mutex::new(Vec::new()));
    chain.push(stage("A", &log, false, false));
    chain.run(context()).unwrap_or_else(|_| panic!("failed"));
    assert_eq!(entries(&log), vec!["call A"]);
}

#[test]
fn boundary_turns_outcomes_into_responses() {
    let finished = context().finish(Response::new().with_status(201).with_body("made".to_string()));
    let res = into_response(finished);
    assert_eq!(res.status, 201);
    assert_eq!(res.body, "made");

    let res = into_response(context().next());
    assert_eq!(res.status, 404);
    assert_eq!(res.body, "");

    let failed = Failure::new("boom".to_string());
    let res = into_response(Err(failed));
    assert_eq!(res.status, 500);
    assert_eq!(res.body, "Internal Server Error: boom");

    let teapot = Failure::new("boom".to_string()).with_response(Response::new().with_status(418));
    assert_eq!(teapot.err, "boom");
    let res = into_response(Err(teapot));
    assert_eq!(res.status, 418);
    assert_eq!(res.body, "");
}

#[test]
fn response_builders() {
    let res = Response::new()
        .with_status(302)
        .with_header("Location".to_string(), "/".to_string())
        .with_header("X-A".to_string(), "1".to_string())
        .with_body("moved".to_string());
    assert_eq!(res.status, 302);
    assert_eq!(res.headers, vec![("Location".to_string(), "/".to_string()), ("X-A".to_string(), "1".to_string())]);
    assert_eq!(res.body, "moved");
    assert_eq!(Response::new().status, 200);
}

struct Forward;

impl Middleware for Forward {
    fn call(&self, ctx: Context) -> Result<Context, Failure> {
        ctx.next()
    }

    fn after(&self, ctx: Context) -> Result<Context, Failure> {
        ctx.next()
    }
}

#[test]
fn chain_macro() {
    let mut chain = Chain::default();
    chain.push(Forward);
    chain.push(Forward);
    let ctx = chain.run(context()).unwrap_or_else(|_| panic!("failed"));
    assert!(!ctx.finished());
}

#[test]
fn extensions_hold_one_value_per_name() {
    let mut ext = susanoo::Extensions::new();
    assert_eq!(ext.get("user"), None);
    assert_eq!(ext.insert("user".to_string(), "alice".to_string()), None);
    assert_eq!(ext.insert("role".to_string(), "admin".to_string()), None);
    assert_eq!(ext.get("user"), Some("alice"));
    assert_eq!(ext.insert("user".to_string(), "bob".to_string()), Some("alice".to_string()));
    assert_eq!(ext.get("user"), Some("bob"));
    assert_eq!(ext.remove("user"), Some("bob".to_string()));
    assert_eq!(ext.get("user"), None);
    assert_eq!(ext.remove("user"), None);
    assert_eq!(ext.get("role"), Some("admin"));
}

struct SetUser;

impl Middleware for SetUser {
    fn call(&self, mut ctx: Context) -> Result<Context, Failure> {
        ctx.ext.insert("user".to_string(), "alice".to_string());
        ctx.next()
    }

    fn after(&self, ctx: Context) -> Result<Context, Failure> {
        ctx.next()
    }
}

struct Greet;

impl Middleware for Greet {
    fn call(&self, mut ctx: Context) -> Result<Context, Failure> {
        let name = ctx.ext.remove("user").unwrap_or_else(|| "nobody".to_string());
        ctx.finish(Response::new().with_body(format!("Welcome, {}!", name)))
    }

    fn after(&self, ctx: Context) -> Result<Context, Failure> {
        ctx.next()
    }
}

#[test]
fn stages_hand_data_through_extensions() {
    let chain = Chain::new().with(SetUser).with(Greet);
    let ctx = chain.run(context()).unwrap_or_else(|_| panic!("failed"));
    assert_eq!(ctx.res.map(|r| r.body), Some("Welcome, alice!".to_string()));
    assert_eq!(ctx.ext.get("user"), None);
}
