use std::io::{Read, Write};

use reqsink::admin::{admin_page, matching};
use reqsink::archive::archive_rows;
use reqsink::batch::prune_count;
use reqsink::context::{prune_requests, AppContext, Opts, UserTemplate};
use reqsink::ignore::{load_rules, IgnoreRule};
use reqsink::request::{
    body_from, get_request_body, headers_to_hashmap, is_gzip, store, unpack_outcome, ClientIp,
    Header, IncomingRequest, RawBody, StoredRequest, UnpackError, EARLIEST_MS, LATEST_MS,
};
use reqsink::serve::{
    admin_reply, finish_clear, handle_admin, handle_admin_clear, handle_req, handle_req_at,
    handle_static, last_path_segment, template_reply, Answer, ClearStep, StaticContent,
};
use reqsink::string_map::StringMap;
use reqsink::target::{get_param_map, resolve, RequestError, RequestTarget};
use reqsink::text::{contains, eq_ignore_ascii_case, parse_usize, push_decimal, text_eq, trim};

fn whole(bytes: Vec<u8>) -> RawBody {
    RawBody { bytes, failure: None }
}

fn broken(bytes: Vec<u8>, failure: &str) -> RawBody {
    RawBody { bytes, failure: Some(failure.to_string()) }
}

fn request(method: &str, url: &str) -> IncomingRequest {
    IncomingRequest {
        method: method.to_string(),
        url: url.to_string(),
        headers: Vec::new(),
        remote_ip: None,
        body: whole(Vec::new()),
    }
}

fn context(req_limit: usize, sqlite: Option<&str>) -> AppContext {
    AppContext {
        req_cache: Vec::new(),
        user_templates: None,
        ignore_rules: Vec::new(),
        opts: Opts { req_limit, sqlite: sqlite.map(|s| s.to_string()) },
    }
}

fn stored(path: &str) -> StoredRequest {
    let target = RequestTarget { path: path.to_string(), query: None };
    store(&request("GET", path), target, 0)
}

fn paths(requests: &[StoredRequest]) -> Vec<String> {
    requests.iter().map(|r| r.path.clone()).collect()
}

fn text(body: Vec<u8>) -> String {
    String::from_utf8(body).unwrap()
}

fn ready(answer: Answer) -> String {
    match answer {
        Answer::Ready(reply) => text(reply.body),
        Answer::Render { .. } => panic!("expected a reply"),
    }
}

// -- Text ------------------------------------------------------------------

#[test]
fn text_comparison() {
    assert!(text_eq("abc", "abc"));
    assert!(!text_eq("abc", "abC"));
    assert!(!text_eq("ab", "abc"));
    assert!(eq_ignore_ascii_case("Content-Encoding", "content-ENCODING"));
    assert!(!eq_ignore_ascii_case("É", "é"));
    assert!(!eq_ignore_ascii_case("@", "`"));
}

#[test]
fn trimming_and_searching() {
    assert_eq!(trim("  /api\t\n"), "/api");
    assert_eq!(trim("\u{a0}\u{3000}x y\u{2003}"), "x y");
    assert_eq!(trim(" \r\n"), "");
    assert_eq!(trim("\u{b}a\u{c}"), "a");
    assert!(contains("/api/widgets", "/wid"));
    assert!(contains("aab", "ab"));
    assert!(contains("", ""));
    assert!(!contains("ab", "abc"));
    assert!(!contains("aaa", "ab"));
}

#[test]
fn numbers_in_decimal() {
    assert_eq!(parse_usize("10"), Some(10));
    assert_eq!(parse_usize("+007"), Some(7));
    assert_eq!(parse_usize(""), None);
    assert_eq!(parse_usize("+"), None);
    assert_eq!(parse_usize("-0"), None);
    assert_eq!(parse_usize(" 1"), None);
    assert_eq!(parse_usize("1_0"), None);
    assert_eq!(parse_usize("++1"), None);
    for n in [0, 9, 10, 99, 1000, usize::MAX - 1, usize::MAX] {
        let mut s = "n=".to_string();
        push_decimal(&mut s, n);
        assert_eq!(s, format!("n={}", n));
        assert_eq!(parse_usize(&s[2..]), Some(n));
    }
    let mut past = (usize::MAX / 10).to_string();
    past.push('9');
    for s in ["1844674407370955161600", past.as_str(), "0000000000000000000000012", "１"] {
        assert_eq!(parse_usize(s), s.parse::<usize>().ok());
    }
}

// -- Maps ------------------------------------------------------------------

#[test]
fn the_last_value_of_a_key_counts() {
    let mut map: StringMap<String> = StringMap::new();
    map.insert("a".to_string(), "1".to_string());
    map.insert("b".to_string(), "2".to_string());
    map.insert("a".to_string(), "3".to_string());
    assert_eq!(map.get("a").unwrap(), "3");
    assert_eq!(map.get("b").unwrap(), "2");
    assert!(map.get("A").is_none());
    assert_eq!(map.entries().len(), 2);
    let copy = map.duplicate();
    assert_eq!(copy.entries(), map.entries());
}

#[test]
fn headers_are_keyed_by_their_exact_field() {
    let raw = vec![
        Header::new("Accept", "a"),
        Header::new("accept", "b"),
        Header::new("Accept", "c"),
    ];
    let headers = headers_to_hashmap(&raw);
    assert_eq!(headers.get("Accept").unwrap(), "c");
    assert_eq!(headers.get("accept").unwrap(), "b");
    assert_eq!(headers.entries().len(), 2);
}

// -- Targets ---------------------------------------------------------------

#[test]
fn targets_are_resolved() {
    let plain = resolve("/api/widgets.v1?q=%2Fapi&start=10").unwrap();
    assert_eq!(plain.path, "/api/widgets.v1");
    assert_eq!(plain.query.unwrap(), "q=%2Fapi&start=10");
    let root = resolve("/").unwrap();
    assert_eq!(root.path, "/");
    assert!(root.query.is_none());
    assert_eq!(resolve("/admin?").unwrap().query.unwrap(), "");
    let dots = resolve("/a/../b c?x y#z").unwrap();
    assert_eq!(dots.path, "/b%20c");
    assert_eq!(dots.query.unwrap(), "x%20y");
    assert_eq!(resolve("http://other.example/x").unwrap().path, "/x");
    assert_eq!(resolve("http://[").unwrap_err(), RequestError::BadTarget);
}

#[test]
fn parameters_are_decoded() {
    let target = resolve("/admin?q=a%2Bb+c&start=1&q=%2Fapi").unwrap();
    let params = get_param_map(&target);
    assert_eq!(params.get("q").unwrap(), "/api");
    assert_eq!(params.get("start").unwrap(), "1");
    assert!(params.get("other").is_none());
    let target = resolve("/admin?q=a%2Bb+c").unwrap();
    assert_eq!(get_param_map(&target).get("q").unwrap(), "a+b c");
    let none = resolve("/admin").unwrap();
    assert!(get_param_map(&none).entries().is_empty());
}

#[test]
fn last_segments() {
    assert_eq!(last_path_segment("/static/app.js"), Some("app.js"));
    assert_eq!(last_path_segment("/static/"), Some(""));
    assert_eq!(last_path_segment("/"), Some(""));
    assert_eq!(last_path_segment("x"), None);
    assert_eq!(last_path_segment(""), None);
}

// -- Static files ----------------------------------------------------------

#[test]
fn static_files_are_served_by_their_last_segment() {
    let mut files: StringMap<Vec<u8>> = StringMap::new();
    files.insert("app.js".to_string(), b"let x = 1;".to_vec());
    files.insert("logo.png".to_string(), vec![0xff, 0xfe]);
    let content = StaticContent { files };

    let reply = handle_static(&request("GET", "/static/app.js?v=1"), &content).unwrap();
    assert_eq!(reply.status, 200);
    assert_eq!(reply.headers.len(), 2);
    assert_eq!(reply.headers[0].field, "Content-Type");
    assert_eq!(reply.headers[0].value, "text/javascript; charset=UTF-8");
    assert_eq!(reply.headers[1].field, "Cache-Control");
    assert_eq!(reply.headers[1].value, "public, max-age=604800, immutable");
    assert_eq!(text(reply.body), "let x = 1;");

    let missing = handle_static(&request("GET", "/static/none.js"), &content).unwrap();
    assert_eq!(missing.status, 200);
    assert_eq!(missing.headers[0].value, "text/plain; charset=UTF-8");
    assert_eq!(text(missing.body), "I couldn't find that.");

    let error = |url: &str| handle_static(&request("GET", url), &content).unwrap_err();
    assert_eq!(error("/static/logo.png"), RequestError::NotText);
    assert_eq!(error("mailto:x"), RequestError::NoSegments);
    assert_eq!(error("http://["), RequestError::BadTarget);
}

// -- Bodies ----------------------------------------------------------------

#[test]
fn gzipped_bodies_are_unpacked() {
    let mut encoder =
        flate2::write::GzEncoder::new(Vec::new(), flate2::Compression::default());
    encoder.write_all("grüße".as_bytes()).unwrap();
    let packed = encoder.finish().unwrap();

    let mut req = request("POST", "/x");
    req.headers.push(Header::new("content-encoding", "gzip"));
    req.body = whole(packed.clone());
    assert_eq!(get_request_body(&req), "grüße");

    // Without the header the bytes are not text.
    req.headers.clear();
    assert!(get_request_body(&req)
        .starts_with("Could not parse request body - is this a binary format? "));

    req.headers.push(Header::new("Content-Encoding", "gzip"));
    req.body = whole(b"plain".to_vec());
    assert!(get_request_body(&req).starts_with("Could not parse gzipped request body: "));
}

#[test]
fn plain_bodies_are_read_as_utf8() {
    let mut req = request("POST", "/x");
    req.body = whole("größe 42".as_bytes().to_vec());
    assert_eq!(get_request_body(&req), "größe 42");
    req.body = whole(vec![0x66, 0xff]);
    let error = std::io::Read::read_to_string(&mut &[0x66u8, 0xff][..], &mut String::new());
    assert_eq!(
        get_request_body(&req),
        format!(
            "Could not parse request body - is this a binary format? {:?}",
            error.unwrap_err()
        )
    );
    req.body = broken(b"text".to_vec(), "Kind(UnexpectedEof)");
    assert_eq!(
        get_request_body(&req),
        "Could not parse request body - is this a binary format? Kind(UnexpectedEof)"
    );
    req.headers.push(Header::new("Content-Encoding", "gzip"));
    assert_eq!(
        get_request_body(&req),
        "Could not parse gzipped request body: Kind(UnexpectedEof)"
    );
    assert_eq!(body_from(true, Ok("t".to_string())), "t");
}

#[test]
fn a_failure_matters_only_where_it_cuts_a_packed_body_short() {
    let mut encoder =
        flate2::write::GzEncoder::new(Vec::new(), flate2::Compression::default());
    encoder.write_all(b"hello").unwrap();
    let packed = encoder.finish().unwrap();

    let mut req = request("POST", "/x");
    req.headers.push(Header::new("Content-Encoding", "gzip"));
    req.body = broken(packed.clone(), "Kind(ConnectionReset)");
    assert_eq!(get_request_body(&req), "hello");
    for length in 0..packed.len() {
        req.body = broken(packed[..length].to_vec(), "Kind(ConnectionReset)");
        assert_eq!(
            get_request_body(&req),
            "Could not parse gzipped request body: Kind(ConnectionReset)"
        );
        // The same bytes without a failure: the decoder's own error.
        req.body = whole(packed[..length].to_vec());
        let body = get_request_body(&req);
        assert!(body.starts_with("Could not parse gzipped request body: "));
        assert!(!body.contains("ConnectionReset"));
    }

    let mut bad = packed.clone();
    let checksum = bad.len() - 8;
    bad[checksum] ^= 1;
    req.body = broken(bad.clone(), "Kind(ConnectionReset)");
    let with_failure = get_request_body(&req);
    req.body = whole(bad);
    assert_eq!(with_failure, get_request_body(&req));
    assert!(with_failure.contains("corrupt gzip stream"));

    let error = |cut_short: bool| Err(UnpackError { cut_short, text: "e".to_string() });
    let failure = Some("f".to_string());
    assert_eq!(unpack_outcome(error(true), &failure), Err("f".to_string()));
    assert_eq!(unpack_outcome(error(false), &failure), Err("e".to_string()));
    assert_eq!(unpack_outcome(error(true), &None), Err("e".to_string()));
    assert_eq!(unpack_outcome(Ok("t".to_string()), &failure), Ok("t".to_string()));
}

#[test]
fn only_the_first_content_encoding_counts() {
    let mut headers =
        vec![Header::new("Content-Encoding", "br"), Header::new("Content-Encoding", "gzip")];
    assert!(!is_gzip(&headers));
    headers.remove(0);
    assert!(is_gzip(&headers));
    assert!(!is_gzip(&vec![Header::new("Content-Encoding", "GZIP")]));
    assert!(!is_gzip(&Vec::new()));
}

// -- Recording -------------------------------------------------------------

#[test]
fn a_record_holds_what_came_in() {
    let mut req = request("PUT", "/a/b?x=1");
    req.headers.push(Header::new("X-A", "1"));
    req.headers.push(Header::new("X-A", "2"));
    req.body = whole(b"hello".to_vec());
    let mut ctx = context(1000, None);
    assert!(handle_req_at(&req, 1785135776123, &mut ctx).is_ok());
    let sr = &ctx.req_cache[0];
    assert_eq!(sr.time, "Mon, 27 Jul 2026 07:02:56 +0000");
    assert_eq!(sr.time_epoch_ms, 1785135776123);
    assert_eq!(sr.method, "PUT");
    assert_eq!(sr.path, "/a/b");
    assert_eq!(sr.params.as_deref(), Some("x=1"));
    assert_eq!(sr.header_count, 2);
    assert_eq!(sr.headers.entries().len(), 1);
    assert_eq!(sr.headers.get("X-A").unwrap(), "2");
    assert_eq!(sr.body, "hello");
    assert_eq!(sr.ip_addr, ClientIp::V4([127, 0, 0, 1]));

    req.remote_ip = Some(ClientIp::V4([10, 0, 0, 7]));
    assert!(handle_req_at(&req, 0, &mut ctx).is_ok());
    assert_eq!(ctx.req_cache[1].ip_addr, ClientIp::V4([10, 0, 0, 7]));
    assert_eq!(ctx.req_cache[1].time, "Thu, 1 Jan 1970 00:00:00 +0000");
}

#[test]
fn the_earliest_and_the_latest_instant_can_be_recorded() {
    let mut ctx = context(1000, None);
    assert!(handle_req_at(&request("GET", "/"), EARLIEST_MS, &mut ctx).is_ok());
    assert!(handle_req_at(&request("GET", "/"), LATEST_MS, &mut ctx).is_ok());
    assert_eq!(ctx.req_cache[0].time, "Sat, 1 Jan 0000 00:00:00 +0000");
    assert_eq!(ctx.req_cache[1].time, "Fri, 31 Dec 9999 23:59:59 +0000");
    for instant in [EARLIEST_MS - 1, LATEST_MS + 1, i64::MIN, i64::MAX] {
        assert!(matches!(
            handle_req_at(&request("GET", "/"), instant, &mut ctx),
            Err(RequestError::ClockOutOfRange)
        ));
        assert!(matches!(
            handle_req_at(&request("GET", "http://["), instant, &mut ctx),
            Err(RequestError::BadTarget)
        ));
    }
    assert_eq!(ctx.req_cache.len(), 2);
}

#[test]
fn recording_does_not_show_in_the_answer() {
    let rules = || vec![IgnoreRule::new("*", "/robots*")];
    for instant in [0, LATEST_MS + 1] {
        for url in ["/robots.txt", "/other", "http://["] {
            let mut plain = with_template("GET", None);
            let mut ignoring = with_template("GET", None);
            ignoring.ignore_rules = rules();
            ignoring.req_cache.push(stored("/before"));
            let a = handle_req_at(&request("GET", url), instant, &mut plain);
            let b = handle_req_at(&request("GET", url), instant, &mut ignoring);
            match (a, b) {
                (Ok(a), Ok(b)) => match (a.answer, b.answer) {
                    (Answer::Ready(a), Answer::Ready(b)) => assert_eq!(a.body, b.body),
                    (
                        Answer::Render { template: a, request: x, content_type: c },
                        Answer::Render { template: b, request: y, content_type: d },
                    ) => {
                        assert_eq!((a, c, x.path, x.time), (b, d, y.path, y.time));
                    }
                    _ => panic!("one request, two answers"),
                },
                (Err(a), Err(b)) => assert_eq!(a, b),
                _ => panic!("one request, two outcomes"),
            }
        }
    }
}

#[test]
fn a_bad_target_changes_nothing() {
    let mut ctx = context(1000, None);
    assert!(matches!(
        handle_req(&request("GET", "http://["), &mut ctx),
        Err(RequestError::BadTarget)
    ));
    assert!(matches!(
        handle_req_at(&request("GET", "http://["), 0, &mut ctx),
        Err(RequestError::BadTarget)
    ));
    assert!(ctx.req_cache.is_empty());
    assert!(matches!(
        handle_admin(&request("GET", "http://["), &ctx),
        Err(RequestError::BadTarget)
    ));
}

#[test]
fn the_prune_count_is_the_single_precision_product_or_one() {
    let mut limits: Vec<usize> = (0..20_000).collect();
    for shift in 14..40 {
        for offset in 0..40 {
            limits.push((1usize << shift) + offset * 7);
            limits.push((1usize << shift) - offset);
        }
    }
    for k in 0..64 {
        limits.push(usize::MAX - k * 0x00ab_cdef_0123);
    }
    for limit in limits {
        let product = (limit as f32 * 0.1) as usize;
        assert_eq!(prune_count(limit), product.max(1), "limit {}", limit);
    }
    assert_eq!(prune_count(1000), 100);
    assert_eq!(prune_count(0), 1);
    assert_eq!(prune_count(9), 1);
    assert_eq!(prune_count(10), 1);
    assert_eq!(prune_count(20), 2);
}

#[test]
fn overflow_leaves_oldest_first() {
    let mut ctx = context(20, Some("archive.db"));
    for i in 0..20 {
        let outcome = handle_req(&request("GET", &format!("/r{}", i)), &mut ctx).unwrap();
        assert!(outcome.archive.is_none());
    }
    assert_eq!(ctx.req_cache.len(), 20);
    let outcome = handle_req(&request("GET", "/r20"), &mut ctx).unwrap();
    let archive = outcome.archive.unwrap();
    assert_eq!(archive.path, "archive.db");
    assert_eq!(paths(&archive.requests), vec!["/r0", "/r1"]);
    assert_eq!(ctx.req_cache.len(), 19);
    assert_eq!(ctx.req_cache[0].path, "/r2");
    assert_eq!(ctx.req_cache[18].path, "/r20");
}

#[test]
fn overflow_without_a_database_is_dropped() {
    let mut ctx = context(10, None);
    for i in 0..11 {
        let outcome = handle_req(&request("GET", &format!("/r{}", i)), &mut ctx).unwrap();
        assert!(outcome.archive.is_none());
    }
    assert_eq!(ctx.req_cache.len(), 10);
    assert_eq!(ctx.req_cache[0].path, "/r1");
    assert!(prune_requests(&mut ctx).is_none());
    assert_eq!(ctx.req_cache[0].path, "/r2");
}

#[test]
fn the_limit_is_a_maximum() {
    for limit in 1..25 {
        let mut ctx = context(limit, Some("a.db"));
        let mut archived: Vec<String> = Vec::new();
        for i in 0..60 {
            let path = format!("/r{}", i);
            let outcome = handle_req(&request("GET", &path), &mut ctx).unwrap();
            assert!(ctx.req_cache.len() <= limit);
            assert_eq!(ctx.req_cache.last().unwrap().path, path);
            if let Some(archive) = outcome.archive {
                archived.extend(paths(&archive.requests));
            }
        }
        archived.extend(paths(&ctx.req_cache));
        let all: Vec<String> = (0..60).map(|i| format!("/r{}", i)).collect();
        assert_eq!(archived, all);
    }
    let mut ctx = context(9, None);
    for i in 0..10 {
        handle_req(&request("GET", &format!("/r{}", i)), &mut ctx).unwrap();
    }
    assert_eq!(ctx.req_cache.len(), 9);
    assert_eq!(ctx.req_cache[0].path, "/r1");

    let mut ctx = context(0, None);
    handle_req(&request("GET", "/r"), &mut ctx).unwrap();
    assert!(ctx.req_cache.is_empty());
}

// -- Answers ---------------------------------------------------------------

fn with_template(method: &str, content_type: Option<&str>) -> AppContext {
    let mut templates: StringMap<UserTemplate> = StringMap::new();
    templates.insert(
        "/robots.txt".to_string(),
        UserTemplate {
            method: method.to_string(),
            template: "robots.html".to_string(),
            content_type: content_type.map(|s| s.to_string()),
        },
    );
    let mut ctx = context(1000, None);
    ctx.user_templates = Some(templates);
    ctx
}

#[test]
fn user_templates_answer_their_route() {
    let mut ctx = with_template("get", Some("text/plain"));
    let outcome = handle_req(&request("GET", "/robots.txt?x"), &mut ctx).unwrap();
    match outcome.answer {
        Answer::Render { template, request, content_type } => {
            assert_eq!(template, "robots.html");
            assert_eq!(request.path, "/robots.txt");
            assert_eq!(content_type, "text/plain");
        }
        Answer::Ready(_) => panic!("expected a template"),
    }
    let other_method = handle_req(&request("POST", "/robots.txt"), &mut ctx).unwrap();
    assert_eq!(ready(other_method.answer), "OK");
    let other_path = handle_req(&request("GET", "/robots"), &mut ctx).unwrap();
    assert_eq!(ready(other_path.answer), "OK");

    let mut ctx = with_template("straße", None);
    let outcome = handle_req(&request("STRASSE", "/robots.txt"), &mut ctx).unwrap();
    match outcome.answer {
        Answer::Render { content_type, .. } => {
            assert_eq!(content_type, "text/html; charset=UTF-8")
        }
        Answer::Ready(_) => panic!("expected a template"),
    }
}

#[test]
fn an_ignored_route_keeps_its_template() {
    let mut ctx = with_template("GET", None);
    ctx.ignore_rules = load_rules(Some(vec![IgnoreRule::new("*", "/robots.*")]), true);
    let outcome = handle_req(&request("GET", "/robots.txt"), &mut ctx).unwrap();
    assert!(matches!(outcome.answer, Answer::Render { .. }));
    assert!(ctx.req_cache.is_empty());
}

#[test]
fn rendered_replies_carry_their_content_type() {
    let reply = template_reply("<b>ü</b>", "text/css").unwrap();
    assert_eq!(reply.status, 200);
    assert_eq!(reply.headers.len(), 1);
    assert_eq!(reply.headers[0].field, "Content-Type");
    assert_eq!(reply.headers[0].value, "text/css");
    assert_eq!(text(reply.body), "<b>ü</b>");
    assert!(template_reply("x", "text/ü").is_none());

    let reply = admin_reply("<html>");
    assert_eq!(reply.headers[0].value, "text/html; charset=UTF-8");
    assert_eq!(text(reply.body), "<html>");

    let mut ctx = context(1000, None);
    match handle_req(&request("GET", "/x"), &mut ctx).unwrap().answer {
        Answer::Ready(reply) => {
            assert_eq!(reply.status, 200);
            assert_eq!(reply.headers[0].value, "text/plain; charset=UTF-8");
        }
        Answer::Render { .. } => panic!("expected a reply"),
    }
}

// -- Admin page ------------------------------------------------------------

#[test]
fn paging_keeps_the_search() {
    let mut ctx = context(1000, None);
    for i in 0..25 {
        ctx.req_cache.push(stored(&format!("/a&b c/{}", i)));
        ctx.req_cache.push(stored("/other"));
    }
    let mut url = "/admin?q=+A%26B+C".to_string();
    let mut seen: Vec<String> = Vec::new();
    loop {
        let req = request("GET", &url);
        let page = handle_admin(&req, &ctx).unwrap_or_else(|e| panic!("{:?}", e));
        assert_eq!(page.q, "A&B C");
        assert_eq!(page.q_encoded, "A%26B+C");
        assert_eq!(page.total_matched, 25);
        assert_eq!(page.req_count, 50);
        assert_eq!(page.has_prev, page.start > 0);
        assert_eq!(page.range_from, page.start + 1);
        assert_eq!(page.range_to, page.start + page.reqs.len());
        assert_eq!(page.prev_page, page.start.saturating_sub(10));
        seen.extend(page.reqs.iter().map(|r| r.path.clone()));
        if !page.has_next {
            assert_eq!(page.reqs.len(), 5);
            break;
        }
        url = format!("/admin?q={}&start={}", page.q_encoded, page.next_page);
    }
    let expected: Vec<String> = (0..25).rev().map(|i| format!("/a&b c/{}", i)).collect();
    assert_eq!(seen, expected);
}

#[test]
fn following_the_links_shows_all_matches() {
    for count in [0usize, 1, 9, 10, 11, 20, 25] {
        let mut ctx = context(1000, None);
        for i in 0..count {
            ctx.req_cache.push(stored(&format!("/api/w{}", i)));
            ctx.req_cache.push(stored(&format!("/other/x{}", i)));
        }
        let mut shown: Vec<String> = Vec::new();
        let mut url = "/admin?q=%2FAPI".to_string();
        loop {
            let page = handle_admin(&request("GET", &url), &ctx).unwrap();
            shown.extend(page.reqs.iter().map(|r| r.path.clone()));
            if !page.has_next {
                break;
            }
            assert_eq!(page.reqs.len(), 10);
            url = format!("/admin?q={}&start={}", page.q_encoded, page.next_page);
        }
        let expected: Vec<String> = (0..count).rev().map(|i| format!("/api/w{}", i)).collect();
        assert_eq!(shown, expected);
    }
}

#[test]
fn an_empty_page_starts_at_zero() {
    let cache = vec![stored("/a")];
    let mut params: StringMap<String> = StringMap::new();
    let all = admin_page(&params, &cache);
    assert_eq!((all.range_from, all.range_to, all.next_page), (1, 1, 10));
    assert!(!all.has_prev && !all.has_next);
    params.insert("start".to_string(), "99999999999999999999999".to_string());
    let unparsed = admin_page(&params, &cache);
    assert_eq!(unparsed.start, 0);
    params.insert("start".to_string(), "5".to_string());
    let past = admin_page(&params, &cache);
    assert_eq!((past.start, past.range_from, past.range_to), (1, 0, 1));
    assert!(past.reqs.is_empty());
    assert!(past.has_prev);
}

#[test]
fn searching_lowers_all_letters() {
    let cache = vec![stored("/ÉCOLE"), stored("/ecole")];
    let hits = matching(&cache, "école");
    assert_eq!(hits.len(), 1);
    assert_eq!(hits[0].path, "/ÉCOLE");
    assert_eq!(matching(&cache, "ÉC").len(), 1);
    assert_eq!(matching(&cache, "").len(), 2);
}

// -- Clearing --------------------------------------------------------------

#[test]
fn clearing_with_a_database_clears_it_first() {
    let mut ctx = context(1000, Some("archive.db"));
    ctx.req_cache.push(stored("/a"));
    ctx.req_cache.push(stored("/b"));
    match handle_admin_clear(&request("post", "/admin/clear"), &mut ctx) {
        ClearStep::ClearArchive { path, cleared } => {
            assert_eq!(path, "archive.db");
            assert_eq!(cleared, 2);
        }
        ClearStep::Answered(_) => panic!("the archive is to be cleared first"),
    }
    assert!(ctx.req_cache.is_empty());
    let params: StringMap<String> = StringMap::new();
    assert_eq!(admin_page(&params, &ctx.req_cache).total_matched, 0);

    let failed = finish_clear(2, "archive.db", Err("disk is full".to_string()));
    assert_eq!(failed.status, 500);
    assert_eq!(
        text(failed.body),
        "Cleared 2 in-memory requests, but clearing archive.db failed: disk is full"
    );
    let done = finish_clear(2, "archive.db", Ok(()));
    assert_eq!(done.status, 303);
    assert_eq!(done.headers[0].field, "Location");
    assert_eq!(done.headers[0].value, "/admin");
    assert!(done.body.is_empty());
}

#[test]
fn a_refused_clear_says_why() {
    let mut ctx = context(1000, None);
    match handle_admin_clear(&request("GET", "/admin/clear"), &mut ctx) {
        ClearStep::Answered(reply) => {
            assert_eq!(reply.status, 405);
            assert_eq!(text(reply.body), "Method Not Allowed - use POST to clear the cache");
        }
        ClearStep::ClearArchive { .. } => panic!("only POST clears"),
    }
}

// -- Archive ---------------------------------------------------------------

#[test]
fn archive_rows_are_snappy_frames() {
    let long: Vec<u8> = (0..200_000u32).map(|i| (i % 251) as u8).collect();
    let encoded = vec![b"first".to_vec(), Vec::new(), long];
    let rows = archive_rows(&encoded);
    assert_eq!(rows.len(), 3);
    for (row, data) in rows.iter().zip(encoded.iter()) {
        let mut unpacked: Vec<u8> = Vec::new();
        snap::read::FrameDecoder::new(row.as_slice()).read_to_end(&mut unpacked).unwrap();
        assert_eq!(&unpacked, data);
    }
    assert_eq!(&rows[0][..10], &[0xff, 0x06, 0x00, 0x00, 0x73, 0x4e, 0x61, 0x50, 0x70, 0x59]);
}
