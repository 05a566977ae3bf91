use std::io::Read;

use reqsink::admin::AdminPage;
use reqsink::context::{AppContext, Opts};
use reqsink::ignore::load_rules;
use reqsink::reply::Reply;
use reqsink::request::{ClientIp, Header, IncomingRequest, RawBody, StoredRequest};
use reqsink::serve::{
    admin_reply, finish_clear, handle_admin, handle_admin_clear, handle_req, Answer, ClearStep,
};
use tera::{Context, Tera, Value};
use tiny_http::{Method, Request, StatusCode, TestRequest};

const ADMIN_HTML: &str = r#"<h1>Welcome to reqsink</h1>
<p>{{ range_from }} to {{ range_to }} of {{ total_matched }} ({{ req_count }} recorded) {{ q }}</p>
{% for r in reqs %}<div><span data-ts="{{ r.time_epoch_ms }}">{{ r.time }}</span> {{ r.method }} {{ r.path }}</div>
{% endfor %}
{% if has_prev %}<a href="/admin?q={{ q_encoded }}&start={{ prev_page }}">Prev 10</a>{% endif %}
{% if has_next %}<a href="/admin?q={{ q_encoded }}&start={{ next_page }}">Next 10</a>{% endif %}
"#;

fn request_value(request: &StoredRequest) -> Value {
    let mut value = tera::Map::new();
    value.insert("time".to_string(), Value::from(request.time.as_str()));
    value.insert("time_epoch_ms".to_string(), Value::from(request.time_epoch_ms));
    value.insert("method".to_string(), Value::from(request.method.as_str()));
    value.insert("path".to_string(), Value::from(request.path.as_str()));
    value.insert("body".to_string(), Value::from(request.body.as_str()));
    Value::Object(value)
}

fn render(page: &AdminPage) -> String {
    let mut tera = Tera::default();
    tera.add_raw_template("admin.html", ADMIN_HTML).unwrap();
    let reqs: Vec<Value> = page.reqs.iter().map(|r| request_value(r)).collect();
    let mut context = Context::new();
    context.insert("reqs", &reqs);
    context.insert("req_count", &page.req_count);
    context.insert("total_matched", &page.total_matched);
    context.insert("q", &page.q);
    context.insert("q_encoded", &page.q_encoded);
    context.insert("range_from", &page.range_from);
    context.insert("range_to", &page.range_to);
    context.insert("prev_page", &page.prev_page);
    context.insert("next_page", &page.next_page);
    context.insert("has_prev", &page.has_prev);
    context.insert("has_next", &page.has_next);
    tera.render("admin.html", &context).unwrap()
}

fn incoming(request: &mut Request) -> IncomingRequest {
    let headers = request
        .headers()
        .iter()
        .map(|h| Header::new(&h.field.as_str().to_string(), h.value.as_str()))
        .collect();
    // Test requests come from the local host.
    let remote_ip = request.remote_addr().map(|_| ClientIp::V4([127, 0, 0, 1]));
    let mut raw: Vec<u8> = Vec::new();
    let failure = request.as_reader().read_to_end(&mut raw).err().map(|e| format!("{:?}", e));
    IncomingRequest {
        method: request.method().as_str().to_string(),
        url: request.url().to_string(),
        headers,
        remote_ip,
        body: RawBody { bytes: raw, failure },
    }
}

struct TestServer {
    app_ctx: AppContext,
}

impl TestServer {
    fn new() -> Self {
        TestServer::with_args(&[])
    }

    /// `args` are extra command-line arguments, e.g. `&["--no-default-ignore"]`.
    fn with_args(args: &[&str]) -> Self {
        let no_default_ignore = args.contains(&"--no-default-ignore");
        let app_ctx = AppContext {
            req_cache: Vec::new(),
            user_templates: None,
            ignore_rules: load_rules(None, !no_default_ignore),
            opts: Opts { req_limit: 1000, sqlite: None },
        };
        TestServer { app_ctx }
    }

    fn handle_request(&mut self, request: &mut Request) -> Reply {
        let outcome = handle_req(&incoming(request), &mut self.app_ctx).unwrap();
        match outcome.answer {
            Answer::Ready(reply) => reply,
            Answer::Render { .. } => panic!("no template was set up"),
        }
    }

    fn handle_admin(&mut self, request: &mut Request) -> Reply {
        let request = incoming(request);
        let page = match handle_admin(&request, &self.app_ctx) {
            Ok(page) => page,
            Err(e) => panic!("{:?}", e),
        };
        admin_reply(&render(&page))
    }

    fn handle_admin_clear(&mut self, request: &mut Request) -> Reply {
        match handle_admin_clear(&incoming(request), &mut self.app_ctx) {
            ClearStep::Answered(reply) => reply,
            ClearStep::ClearArchive { path, cleared } => finish_clear(cleared, &path, Ok(())),
        }
    }

    /// Record one request through the normal handler path
    fn send(&mut self, method: Method, path: &str) {
        let mut request: Request =
            TestRequest::new().with_method(method).with_path(path).into();
        self.handle_request(&mut request);
    }

    /// Fetch the rendered admin page for the given query string
    fn admin_body(&mut self, url: &str) -> String {
        let mut request: Request =
            TestRequest::new().with_method(Method::Get).with_path(url).into();
        let resp = self.handle_admin(&mut request);
        String::from_utf8(resp.body).unwrap()
    }

    fn cached_paths(&self) -> Vec<&str> {
        self.app_ctx.req_cache.iter().map(|r| r.path.as_str()).collect()
    }
}

/// Tera autoescapes `/` to `&#x2F;` in .html templates, so a rendered path never
/// appears verbatim in the response body.
fn esc(path: &str) -> String {
    path.replace('/', "&#x2F;")
}

#[test]
fn basic_response() {
    let trequest =
        TestRequest::new().with_method(Method::Post).with_path("/api/widgets").with_body("42");

    let mut request: Request = trequest.into();

    let mut server = TestServer::new();
    let response = server.handle_request(&mut request);
    assert_eq!(StatusCode(response.status), StatusCode(200));
    let c = String::from_utf8(response.body).unwrap();
    println!("{:?}", c);
    assert_eq!(c, "OK");
}

#[test]
fn basic_admin_response() {
    let trequest = TestRequest::new().with_method(Method::Get).with_path("/admin");

    let mut request: Request = trequest.into();

    let mut server = TestServer::new();
    let response = server.handle_admin(&mut request);
    assert_eq!(StatusCode(response.status), StatusCode(200));
    let c = String::from_utf8(response.body).unwrap();
    assert!(c.contains("Welcome to reqsink"))
}

#[test]
fn ignored_request_is_not_cached_but_still_answered() {
    let trequest = TestRequest::new().with_method(Method::Get).with_path("/favicon.ico");
    let mut request: Request = trequest.into();

    let mut server = TestServer::new();
    let response = server.handle_request(&mut request);

    assert_eq!(StatusCode(response.status), StatusCode(200));
    let c = String::from_utf8(response.body).unwrap();
    assert_eq!(c, "OK");
    assert!(server.app_ctx.req_cache.is_empty());
}

#[test]
fn non_ignored_requests_are_cached() {
    let mut server = TestServer::new();
    // Default rules only cover GET / and GET /favicon.ico, so the method matters
    server.send(Method::Post, "/");
    server.send(Method::Get, "/api/widgets");
    server.send(Method::Get, "/");

    assert_eq!(server.cached_paths(), vec!["/", "/api/widgets"]);
}

#[test]
fn no_default_ignore_flag_disables_the_built_in_rules() {
    let mut server = TestServer::with_args(&["--no-default-ignore"]);
    server.send(Method::Get, "/favicon.ico");
    server.send(Method::Get, "/");

    assert_eq!(server.cached_paths(), vec!["/favicon.ico", "/"]);
}

#[test]
fn stored_request_carries_epoch_millis() {
    let mut server = TestServer::new();
    server.send(Method::Get, "/api/widgets");

    let sr = &server.app_ctx.req_cache[0];
    let now_ms = chrono::Utc::now().timestamp_millis();
    assert!(sr.time_epoch_ms > 0);
    // Same instant as the human-readable string, give or take test overhead
    assert!(
        (now_ms - sr.time_epoch_ms).abs() < 5_000,
        "epoch {} too far from now {}",
        sr.time_epoch_ms,
        now_ms
    );
}

#[test]
fn admin_page_exposes_epoch_for_client_side_rendering() {
    let mut server = TestServer::new();
    server.send(Method::Get, "/api/widgets");

    let body = server.admin_body("/admin");
    let ts = server.app_ctx.req_cache[0].time_epoch_ms;
    assert!(body.contains(&format!("data-ts=\"{}\"", ts)), "body was: {}", body);
}

#[test]
fn admin_filters_by_path_query() {
    let mut server = TestServer::new();
    server.send(Method::Get, "/api/alpha");
    server.send(Method::Get, "/api/beta");
    server.send(Method::Get, "/other/gamma");

    let body = server.admin_body("/admin?q=/api");
    assert!(body.contains(&esc("/api/alpha")));
    assert!(body.contains(&esc("/api/beta")));
    assert!(!body.contains(&esc("/other/gamma")));
}

#[test]
fn admin_search_is_case_insensitive_substring_match() {
    let mut server = TestServer::new();
    server.send(Method::Get, "/api/Widgets");
    let hit = esc("/api/Widgets");

    assert!(server.admin_body("/admin?q=WIDGET").contains(&hit));
    assert!(server.admin_body("/admin?q=widget").contains(&hit));
    assert!(!server.admin_body("/admin?q=gadget").contains(&hit));
}

#[test]
fn admin_query_params_are_url_decoded() {
    let mut server = TestServer::new();
    server.send(Method::Get, "/api/alpha");
    server.send(Method::Get, "/other/gamma");

    // %2F is '/' -- hand-splitting the query string would leave it literal
    let body = server.admin_body("/admin?q=%2Fapi%2F");
    assert!(body.contains(&esc("/api/alpha")));
    assert!(!body.contains(&esc("/other/gamma")));
}

#[test]
fn admin_pagination_respects_the_filter() {
    let mut server = TestServer::new();
    for i in 0..15 {
        server.send(Method::Get, &format!("/api/w{}", i));
    }
    for i in 0..5 {
        server.send(Method::Get, &format!("/other/x{}", i));
    }

    // Newest first, so page one is w14..w5 and there must be a next page
    let page1 = server.admin_body("/admin?q=/api");
    assert!(page1.contains(&esc("/api/w14")));
    assert!(page1.contains(&esc("/api/w5")));
    assert!(!page1.contains(&esc("/api/w4")));
    assert!(page1.contains("Next 10"));
    assert!(!page1.contains("Prev 10"));

    // Page two holds the remaining five and terminates
    let page2 = server.admin_body("/admin?q=/api&start=10");
    assert!(page2.contains(&esc("/api/w4")));
    assert!(page2.contains(&esc("/api/w0")));
    assert!(!page2.contains(&esc("/api/w5")));
    assert!(!page2.contains("Next 10"));
    assert!(page2.contains("Prev 10"));
    // The filter must survive into the pagination links
    assert!(page2.contains("q=%2Fapi"));
}

#[test]
fn admin_start_beyond_the_end_yields_an_empty_page() {
    let mut server = TestServer::new();
    server.send(Method::Get, "/api/alpha");

    let body = server.admin_body("/admin?start=9999");
    assert!(!body.contains(&esc("/api/alpha")));
    assert!(!body.contains("Next 10"));
}

#[test]
fn clear_empties_the_cache_and_redirects() {
    let mut server = TestServer::new();
    server.send(Method::Get, "/api/alpha");
    server.send(Method::Get, "/api/beta");
    assert_eq!(server.app_ctx.req_cache.len(), 2);

    let mut request: Request =
        TestRequest::new().with_method(Method::Post).with_path("/admin/clear").into();
    let response = server.handle_admin_clear(&mut request);

    assert_eq!(StatusCode(response.status), StatusCode(303));
    assert!(server.app_ctx.req_cache.is_empty());
}

#[test]
fn clear_rejects_non_post_and_leaves_the_cache_alone() {
    let mut server = TestServer::new();
    server.send(Method::Get, "/api/alpha");

    let mut request: Request =
        TestRequest::new().with_method(Method::Get).with_path("/admin/clear").into();
    let response = server.handle_admin_clear(&mut request);

    assert_eq!(StatusCode(response.status), StatusCode(405));
    assert_eq!(server.app_ctx.req_cache.len(), 1);
}
