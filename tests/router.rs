use susanoo::router::{normalize_pattern, pattern_body_of};
use susanoo::{
    Chain, Context, Failure, HttpVersion, Method, Middleware, NoRoute, RegexPattern, Request,
    Response, Router, Susanoo,
};

struct Reply(&'static str);

impl Middleware for Reply {
    fn call(&self, ctx: Context) -> Result<Context, Failure> {
        ctx.finish(Response::new().with_body(self.0.to_string()))
    }

    fn after(&self, ctx: Context) -> Result<Context, Failure> {
        ctx.next()
    }
}

struct Pass;

impl Middleware for Pass {
    fn call(&self, ctx: Context) -> Result<Context, Failure> {
        ctx.next()
    }

    fn after(&self, ctx: Context) -> Result<Context, Failure> {
        ctx.next()
    }
}

struct Echo;

impl Middleware for Echo {
    fn call(&self, ctx: Context) -> Result<Context, Failure> {
        let text = match &ctx.captures {
            Some(c) => format!("{}-{}", c.get(1).unwrap_or("?"), c.name("hoge").unwrap_or("?")),
            None => "none".to_string(),
        };
        ctx.finish(Response::new().with_body(text))
    }

    fn after(&self, ctx: Context) -> Result<Context, Failure> {
        ctx.next()
    }
}

fn request(method: Method, url: &str) -> Request {
    match Request::new(method, url.to_string(), HttpVersion::Http11, Vec::new(), Vec::new()) {
        Ok(req) => req,
        Err(_) => panic!("bad url in test"),
    }
}

fn ok_router(r: Result<Router, susanoo::regex_pattern::InvalidPattern>) -> Router {
    match r {
        Ok(router) => router,
        Err(_) => panic!("pattern rejected"),
    }
}

#[test]
fn normalize_cases() {
    assert_eq!(normalize_pattern("/"), "^/$");
    assert_eq!(normalize_pattern("/path/to"), "^/path/to/?$");
    assert_eq!(normalize_pattern("/path/to/"), "^/path/to/?$");
}

#[test]
fn normalize_strips_anchors_and_white_space() {
    assert_eq!(normalize_pattern("  ^/path/to/$ \t"), "^/path/to/?$");
    assert_eq!(normalize_pattern(""), "^/$");
    assert_eq!(normalize_pattern("^$"), "^/$");
    assert_eq!(normalize_pattern("^^/a//"), "^^/a//?$");
    assert_eq!(normalize_pattern("/a//"), "^/a//?$");
    assert_eq!(normalize_pattern("/a$$"), "^/a$/?$");
    assert_eq!(pattern_body_of(" ^/a/b/$ "), "/a/b");
}

#[test]
fn normalize_of_body_is_the_same() {
    for p in ["/", "/path/to", "/path/to/", " ^/x/(?P<id>[0-9]+)$ "] {
        assert_eq!(normalize_pattern(pattern_body_of(p)), normalize_pattern(p));
        assert_eq!(pattern_body_of(pattern_body_of(p)), pattern_body_of(p));
    }
    assert_eq!(normalize_pattern("/path/to"), normalize_pattern("/path/to/"));
}

#[test]
fn captures_round_trip() {
    let pattern = normalize_pattern("/echo/([^/]+)/(?P<hoge>[^/]+)/([^/]+)");
    let compiled = match RegexPattern::compile(&pattern) {
        Ok(p) => p,
        Err(_) => panic!("pattern rejected"),
    };
    let caps = compiled.owned_captures("/echo/a/b/c").unwrap();
    assert_eq!(caps.get(0), Some("/echo/a/b/c"));
    assert_eq!(caps.get(1), Some("a"));
    assert_eq!(caps.name("hoge"), Some("b"));
    assert_eq!(caps.get(2), Some("b"));
    assert_eq!(caps.get(3), Some("c"));
    assert_eq!(caps.get(4), None);
    assert_eq!(caps.name("fuga"), None);
    assert!(compiled.owned_captures("/echo/a/b").is_none());
}

#[test]
fn unmatched_group_is_absent_not_empty() {
    let compiled = match RegexPattern::compile(&normalize_pattern("/x(/y)?(z*)")) {
        Ok(p) => p,
        Err(_) => panic!("pattern rejected"),
    };
    let caps = compiled.owned_captures("/x").unwrap();
    assert_eq!(caps.get(1), None);
    assert_eq!(caps.get(2), Some(""));
}

#[test]
fn invalid_pattern_is_rejected() {
    let mut router = Router::new();
    match router.add_route(Method::Get, "/(", Reply("x")) {
        Ok(()) => panic!("pattern accepted"),
        Err(e) => assert_eq!(e.pattern, "^/(/?$"),
    }
    match RegexPattern::compile("(") {
        Ok(_) => panic!("pattern accepted"),
        Err(e) => assert_eq!(e.pattern, "("),
    }
}

#[test]
fn first_registered_route_wins() {
    let router = Router::new();
    let router = ok_router(router.with_route(Method::Get, "/items/([0-9]+)", Reply("number")));
    let router = ok_router(router.with_route(Method::Get, "/items/([^/]+)", Reply("any")));
    let router = ok_router(router.with_route(Method::Post, "/items/([0-9]+)", Reply("post")));
    let (k, caps) = router.recognize(&Method::Get, "/items/42").unwrap_or_else(|_| panic!("no route"));
    assert_eq!(k, 0);
    assert_eq!(caps.get(1), Some("42"));
    let (k, _) = router.recognize(&Method::Get, "/items/abc/").unwrap_or_else(|_| panic!("no route"));
    assert_eq!(k, 1);
    let (k, _) = router.recognize(&Method::Post, "/items/7").unwrap_or_else(|_| panic!("no route"));
    assert_eq!(k, 2);

    let app = Susanoo::new(router);
    let res = app.handle(request(Method::Get, "http://localhost/items/42"));
    assert_eq!(res.status, 200);
    assert_eq!(res.body, "number");
}

#[test]
fn unmatched_request_gets_404() {
    let router = ok_router(Router::new().with_route(Method::Get, "/", Reply("index")));
    assert!(router.recognize(&Method::Get, "/missing").is_err());
    assert!(router.recognize(&Method::Post, "/").is_err());
    let ctx = Context::new(request(Method::Get, "http://localhost/missing"));
    match router.dispatch(ctx) {
        Ok(_) => panic!("routed"),
        Err(f) => {
            assert_eq!(f.err, "no route");
            assert_eq!(f.response.status, 404);
            assert_eq!(f.response.body, "");
        }
    }
    let app = Susanoo::new(router);
    let res = app.handle(request(Method::Delete, "http://localhost/"));
    assert_eq!(res.status, 404);
    assert_eq!(res.body, "");
}

#[test]
fn root_pattern_matches_slash_only() {
    let router = ok_router(Router::new().with_route(Method::Get, "/", Reply("index")));
    assert!(router.recognize(&Method::Get, "/").is_ok());
    assert!(router.recognize(&Method::Get, "").is_err());
    assert!(router.recognize(&Method::Get, "/a").is_err());
}

#[test]
fn route_captures_reach_the_target() {
    let router = ok_router(
        Router::new().with_route(Method::Get, "/echo/([^/]+)/(?P<hoge>[^/]+)/([^/]+)", Echo),
    );
    let res = Susanoo::new(router).handle(request(Method::Get, "http://localhost/echo/a/b/c"));
    assert_eq!(res.body, "a-b");
}

#[test]
fn unfinished_route_gets_404() {
    let chain = Chain::new().with(Pass).with(Pass);
    let router = ok_router(Router::new().with_route(Method::Get, "/quiet", chain));
    let res = Susanoo::new(router).handle(request(Method::Get, "http://localhost/quiet"));
    assert_eq!(res.status, 404);
    assert_eq!(res.body, "");
}

#[test]
fn extension_methods_compare_by_name() {
    let router = ok_router(Router::new().with_route(Method::Extension("PURGE".to_string()), "/c", Reply("purged")));
    assert!(router.recognize(&Method::Extension("PURGE".to_string()), "/c").is_ok());
    assert!(router.recognize(&Method::Extension("LINK".to_string()), "/c").is_err());
    assert!(Method::Get.is_same(&Method::Get));
    assert!(!Method::Get.is_same(&Method::Head));
}

#[test]
fn no_route_describes_itself() {
    assert_eq!(NoRoute.description(), "no route");
    assert_eq!(NoRoute.to_string(), "no route");
}
