//! The handlers: what the sink does with a request and what it answers.

use vstd::prelude::*;
use crate::admin::{admin_page, AdminPage, PAGE_SIZE};
use crate::context::{prune_requests, AppContext, Archive, UserTemplate};
use crate::ignore::is_ignored;
use crate::reply::Reply;
use crate::request::{
    now_ms, read_text, store, IncomingRequest, StoredRequest, EARLIEST_MS, LATEST_MS,
};
use crate::string_map::StringMap;
use crate::target::{get_param_map, resolve, RequestError, RequestTarget};
use crate::text::{char_vec, eq_ignore_ascii_case, push_decimal, text_eq};
#[allow(unused_imports)]
use crate::admin::{
    law_page_link_resolves, lemma_link_spelled, link_pairs, link_params, link_spellings, page_link,
    page_view,
};
#[allow(unused_imports)]
use crate::batch::{batch, law_batch_is_bounded};
#[allow(unused_imports)]
use crate::context::{archive_view, cache_view, prune_archive, pruned, ContextView, TemplateView};
#[allow(unused_imports)]
use crate::ignore::{
    filled, ignored, law_one_rule_is_enough, star_count, RuleView,
};
#[allow(unused_imports)]
use crate::reply::{data_reply, text_reply, ReplyView};
#[allow(unused_imports)]
use crate::request::{
    headers_view, law_a_record_holds_what_came, law_packed_text_is_recorded_unpacked,
    law_text_is_recorded_as_it_came, gunzipped, rfc2822_text, says_gzip, stored_view, StoredView,
};
#[allow(unused_imports)]
use crate::target::{
    form_of, form_pairs, form_text, pairs_map, resolved, spell_pairs, TargetView, PLAIN_TARGET_MAX,
};
#[allow(unused_imports)]
use crate::text::{
    ascii_folded, decimal, differ_in_case_only, law_case_is_compared_place_by_place,
    same_ignoring_ascii_case, uppercase,
};

verus! {

/// The files that the sink serves, by name.
pub struct StaticContent {
    pub files: StringMap<Vec<u8>>,
}

/// What stands after the last slash.
pub open spec fn after_last_slash(path: Seq<char>) -> Seq<char>
    decreases path.len(),
{
    if path.len() == 0 || path.last() == '/' {
        Seq::empty()
    } else {
        after_last_slash(path.drop_last()).push(path.last())
    }
}

/// The last segment of a path; a path without a leading slash has none.
pub open spec fn last_segment(path: Seq<char>) -> Option<Seq<char>> {
    if path.len() > 0 && path[0] == '/' {
        Some(after_last_slash(path))
    } else {
        None
    }
}

/// The last segment of a path; a path without a leading slash has none.
pub fn last_path_segment(path: &str) -> (r: Option<&str>)
    ensures
        match r {
            Some(s) => last_segment(path@) == Some(s@),
            None => last_segment(path@) is None,
        },
{
    let x = char_vec(path);
    if x.len() == 0 || x[0] != '/' {
        return None;
    }
    let mut from: usize = x.len();
    assert(path@.subrange(from as int, path@.len() as int) =~= Seq::<char>::empty());
    assert(path@.take(from as int) =~= path@);
    while x[from - 1] != '/'
        invariant
            x@ == path@,
            0 < from <= x@.len(),
            x@[0] == '/',
            after_last_slash(path@) == after_last_slash(path@.take(from as int)) + path@.subrange(
                from as int,
                path@.len() as int,
            ),
        decreases from,
    {
        proof {
            let head = path@.take(from as int);
            assert(head.drop_last() =~= path@.take(from - 1));
            assert(path@.subrange(from - 1, path@.len() as int) =~= seq![head.last()]
                + path@.subrange(from as int, path@.len() as int));
            assert(after_last_slash(head.drop_last()).push(head.last()) + path@.subrange(
                from as int,
                path@.len() as int,
            ) =~= after_last_slash(head.drop_last()) + path@.subrange(
                from - 1,
                path@.len() as int,
            ));
        }
        from -= 1;
    }
    proof {
        assert(path@.take(from as int).last() == '/');
        assert(Seq::<char>::empty() + path@.subrange(from as int, path@.len() as int)
            =~= path@.subrange(from as int, path@.len() as int));
    }
    Some(path.substring_char(from, x.len()))
}

/// The reply with the content of a static file, or to a request for a file that
/// there is not.
pub open spec fn static_reply(content: Option<Seq<u8>>) -> ReplyView {
    match content {
        Some(body) => data_reply(
            200,
            seq![
                ("Content-Type"@, "text/javascript; charset=UTF-8"@),
                ("Cache-Control"@, "public, max-age=604800, immutable"@),
            ],
            body,
        ),
        None => text_reply(200, "I couldn't find that."@),
    }
}

/// The content of the file with the given name.
pub open spec fn file_content(files: Map<Seq<char>, Seq<u8>>, name: Seq<char>) -> Option<Seq<u8>> {
    if files.dom().contains(name) {
        Some(files[name])
    } else {
        None
    }
}

/// What a request for a static file gets: the file named by the last segment of
/// the path, which has to be text.
pub open spec fn static_outcome(
    target: Option<TargetView>,
    files: Map<Seq<char>, Seq<u8>>,
) -> Result<ReplyView, RequestError> {
    match target {
        None => Err(RequestError::BadTarget),
        Some(target) => match last_segment(target.path) {
            None => Err(RequestError::NoSegments),
            Some(name) => match file_content(files, name) {
                Some(body) => if vstd::utf8::valid_utf8(body) {
                    Ok(static_reply(Some(body)))
                } else {
                    Err(RequestError::NotText)
                },
                None => Ok(static_reply(None)),
            },
        },
    }
}

/// What a result says of a reply.
pub open spec fn reply_outcome(r: Result<Reply, RequestError>) -> Result<
    ReplyView,
    RequestError,
> {
    match r {
        Ok(reply) => Ok(reply@),
        Err(e) => Err(e),
    }
}

/// Serves a static file.
pub fn handle_static(request: &IncomingRequest, content: &StaticContent) -> (r: Result<
    Reply,
    RequestError,
>)
    ensures
        reply_outcome(r) == static_outcome(resolved(request.url@), content.files@),
{
    let target = match resolve(request.url.as_str()) {
        Ok(target) => target,
        Err(e) => return Err(e),
    };
    let name: &str = match last_path_segment(target.path.as_str()) {
        Some(name) => name,
        None => return Err(RequestError::NoSegments),
    };
    match content.files.get(name) {
        Some(body) => {
            let bytes: &[u8] = body.as_slice();
            match read_text(bytes) {
                Ok(_) => {
                    let mut reply = Reply::from_data(200, vstd::slice::slice_to_vec(bytes));
                    reply.add_header("Content-Type", "text/javascript; charset=UTF-8");
                    reply.add_header("Cache-Control", "public, max-age=604800, immutable");
                    assert(reply@.headers =~= static_reply(Some(body@)).headers);
                    Ok(reply)
                },
                Err(_) => Err(RequestError::NotText),
            }
        },
        None => Ok(Reply::from_string(200, "I couldn't find that.")),
    }
}

/// Computes the admin page. A link to a page keeps the search: it leads to the
/// page that starts where the link says, of the requests that its text finds.
pub fn handle_admin<'a>(request: &IncomingRequest, app_ctx: &'a AppContext) -> (r: Result<
    AdminPage<'a>,
    RequestError,
>)
    requires
        app_ctx.req_cache.len() + PAGE_SIZE <= usize::MAX,
    ensures
        match resolved(request.url@) {
            Some(target) => r is Ok && r->Ok_0@ == page_view(
                pairs_map(form_pairs(form_of(target))),
                app_ctx@.cache,
            ),
            None => r is Err && r->Err_0 == RequestError::BadTarget,
        },
        forall|spellings: Seq<(Seq<char>, Seq<char>)>, pairs: Seq<(Seq<char>, Seq<char>)>| #[trigger]
            spell_pairs(spellings, pairs) && resolved(request.url@) is Some && form_of(
                resolved(request.url@)->Some_0,
            ) == form_text(spellings) ==> r is Ok && r->Ok_0@ == page_view(
                pairs_map(pairs),
                app_ctx@.cache,
            ),
        forall|q: Seq<char>, start: usize|
            request.url@ == #[trigger] page_link(q, start) && request.url@.len() <= PLAIN_TARGET_MAX
                ==> r is Ok && r->Ok_0@ == page_view(link_params(q, start), app_ctx@.cache),
{
    proof {
        assert forall|q: Seq<char>, start: usize|
            request.url@ == #[trigger] page_link(q, start) && request.url@.len()
                <= PLAIN_TARGET_MAX implies resolved(request.url@) is Some && form_of(
            resolved(request.url@)->Some_0,
        ) == form_text(link_spellings(q, start)) && spell_pairs(
            link_spellings(q, start),
            link_pairs(q, start),
        ) && pairs_map(link_pairs(q, start)) == link_params(q, start) by {
            law_page_link_resolves(q, start);
            lemma_link_spelled(q, start);
        }
    }
    let target = match resolve(request.url.as_str()) {
        Ok(target) => target,
        Err(e) => {
            return Err(e);
        },
    };
    let params = get_param_map(&target);
    Ok(admin_page(&params, &app_ctx.req_cache))
}

/// The reply that carries the rendered admin page.
pub fn admin_reply(rendered: &str) -> (r: Reply)
    ensures
        r@ == data_reply(
            200,
            seq![("Content-Type"@, "text/html; charset=UTF-8"@)],
            vstd::utf8::encode_utf8(rendered@),
        ),
        r.status == 200,
        vstd::utf8::decode_utf8(r.body@) == rendered@,
{
    proof {
        vstd::utf8::encode_utf8_decode_utf8(rendered@);
    }
    let mut reply = Reply::from_data(200, rendered.as_bytes_vec());
    reply.add_header("Content-Type", "text/html; charset=UTF-8");
    assert(reply@.headers =~= seq![("Content-Type"@, "text/html; charset=UTF-8"@)]);
    reply
}

/// What is to be done to clear the recorded requests.
pub ghost enum ClearView {
    Answered(ReplyView),
    ClearArchive { path: Seq<char>, cleared: nat },
}

/// What is to be done to clear the recorded requests: send a reply, or clear the
/// archive first.
pub enum ClearStep {
    Answered(Reply),
    ClearArchive { path: String, cleared: usize },
}

impl View for ClearStep {
    type V = ClearView;

    open spec fn view(&self) -> ClearView {
        match self {
            ClearStep::Answered(reply) => ClearView::Answered(reply@),
            ClearStep::ClearArchive { path, cleared } => ClearView::ClearArchive {
                path: path@,
                cleared: *cleared as nat,
            },
        }
    }
}

/// The reply after everything was cleared: it sends the browser to the admin page.
pub open spec fn cleared_reply() -> ReplyView {
    data_reply(303, seq![("Location"@, "/admin"@)], Seq::empty())
}

/// The reply to a request to clear by another method than `POST`.
pub open spec fn refused_reply() -> ReplyView {
    text_reply(405, "Method Not Allowed - use POST to clear the cache"@)
}

fn cleared() -> (r: Reply)
    ensures
        r@ == cleared_reply(),
{
    // 303 rather than 302: the browser must follow up with a GET, not re-POST.
    let mut reply = Reply::from_data(303, Vec::new());
    reply.add_header("Location", "/admin");
    assert(reply@.headers =~= seq![("Location"@, "/admin"@)]);
    reply
}

/// The state after a request to clear, by the given method.
pub open spec fn after_clear(ctx: ContextView, method: Seq<char>) -> ContextView {
    if same_ignoring_ascii_case(method, "POST"@) {
        ContextView { cache: Seq::empty(), ..ctx }
    } else {
        ctx
    }
}

/// What a request to clear leads to, by the given method.
pub open spec fn clear_step(ctx: ContextView, method: Seq<char>) -> ClearView {
    if same_ignoring_ascii_case(method, "POST"@) {
        match ctx.sqlite {
            Some(path) => ClearView::ClearArchive { path, cleared: ctx.cache.len() },
            None => ClearView::Answered(cleared_reply()),
        }
    } else {
        ClearView::Answered(refused_reply())
    }
}

/// Drops every recorded request; what is in the archive is to be dropped after that.
///
/// Only `POST` is accepted so that a crawler or a browser link-prefetch cannot wipe
/// the cache by following a URL.
pub fn handle_admin_clear(request: &IncomingRequest, app_ctx: &mut AppContext) -> (r: ClearStep)
    ensures
        final(app_ctx)@ == after_clear(old(app_ctx)@, request.method@),
        r@ == clear_step(old(app_ctx)@, request.method@),
{
    if !eq_ignore_ascii_case(request.method.as_str(), "POST") {
        return ClearStep::Answered(
            Reply::from_string(405, "Method Not Allowed - use POST to clear the cache"),
        );
    }
    let count: usize = app_ctx.req_cache.len();
    app_ctx.req_cache.clear();
    assert(cache_view(app_ctx.req_cache@) =~= Seq::<StoredView>::empty());
    match &app_ctx.opts.sqlite {
        Some(path) => ClearStep::ClearArchive { path: path.clone(), cleared: count },
        None => ClearStep::Answered(cleared()),
    }
}

/// The reply once the archive was to be cleared.
pub open spec fn archive_cleared_reply(
    cleared: nat,
    path: Seq<char>,
    failure: Option<Seq<char>>,
) -> ReplyView {
    match failure {
        Some(e) => text_reply(
            500,
            "Cleared "@ + decimal(cleared) + " in-memory requests, but clearing "@ + path
                + " failed: "@ + e,
        ),
        None => cleared_reply(),
    }
}

/// The reply once the archive was cleared, or could not be.
pub fn finish_clear(cleared_count: usize, path: &str, outcome: Result<(), String>) -> (r: Reply)
    ensures
        r@ == archive_cleared_reply(
            cleared_count as nat,
            path@,
            match outcome {
                Ok(_) => None,
                Err(e) => Some(e@),
            },
        ),
{
    match outcome {
        Ok(_) => cleared(),
        Err(e) => {
            let mut text = "Cleared ".to_string();
            push_decimal(&mut text, cleared_count);
            text.append(" in-memory requests, but clearing ");
            text.append(path);
            text.append(" failed: ");
            text.append(e.as_str());
            Reply::from_string(500, text.as_str())
        },
    }
}

/// How a request is answered.
pub ghost enum AnswerView {
    Ready(ReplyView),
    Render { template: Seq<char>, request: StoredView, content_type: Seq<char> },
}

/// How a request is answered: with a reply, or with a template that is to be
/// rendered for the request and sent with a content type.
pub enum Answer {
    Ready(Reply),
    Render { template: String, request: StoredRequest, content_type: String },
}

impl View for Answer {
    type V = AnswerView;

    open spec fn view(&self) -> AnswerView {
        match self {
            Answer::Ready(reply) => AnswerView::Ready(reply@),
            Answer::Render { template, request, content_type } => AnswerView::Render {
                template: template@,
                request: request@,
                content_type: content_type@,
            },
        }
    }
}

/// What comes of a request: how it is answered, and what is to be archived.
pub struct Outcome {
    pub answer: Answer,
    pub archive: Option<Archive>,
}

/// How a request is answered: by the user-defined response for its path, if there
/// is one and it is for its method; otherwise by a terse `OK`.
pub open spec fn answer_to(
    templates: Option<Map<Seq<char>, TemplateView>>,
    request: StoredView,
) -> AnswerView {
    match templates {
        Some(templates) => if templates.dom().contains(request.path) && uppercase(request.method)
            == uppercase(templates[request.path].method) {
            let t = templates[request.path];
            AnswerView::Render {
                template: t.template,
                request,
                content_type: match t.content_type {
                    Some(content_type) => content_type,
                    None => "text/html; charset=UTF-8"@,
                },
            }
        } else {
            AnswerView::Ready(text_reply(200, "OK"@))
        },
        None => AnswerView::Ready(text_reply(200, "OK"@)),
    }
}

/// The state with one more request in the cache.
pub open spec fn with_request(ctx: ContextView, request: StoredView) -> ContextView {
    ContextView { cache: ctx.cache.push(request), ..ctx }
}

/// The state after a request: an ignored one leaves it as it is; any other one is
/// recorded, and the cache is pruned if that takes it over its limit.
pub open spec fn after_request(ctx: ContextView, request: StoredView) -> ContextView {
    let next = with_request(ctx, request);
    if ignored(ctx.rules, request.method, request.path) {
        ctx
    } else if next.cache.len() > ctx.limit {
        pruned(next)
    } else {
        next
    }
}

/// What is to be archived after a request.
pub open spec fn archived_by(ctx: ContextView, request: StoredView) -> Option<
    (Seq<char>, Seq<StoredView>),
> {
    let next = with_request(ctx, request);
    if !ignored(ctx.rules, request.method, request.path) && next.cache.len() > ctx.limit {
        prune_archive(next)
    } else {
        None
    }
}

/// Records a request, unless it is ignored, and says what is to be archived.
pub fn record(request: &StoredRequest, app_ctx: &mut AppContext) -> (r: Option<Archive>)
    ensures
        final(app_ctx)@ == after_request(old(app_ctx)@, request@),
        archive_view(r) == archived_by(old(app_ctx)@, request@),
{
    if is_ignored(
        app_ctx.ignore_rules.as_slice(),
        request.method.as_str(),
        request.path.as_str(),
    ) {
        return None;
    }
    app_ctx.req_cache.push(request.clone());
    proof {
        assert(app_ctx@.cache =~= old(app_ctx)@.cache.push(request@));
        assert(app_ctx@ == with_request(old(app_ctx)@, request@));
        law_batch_is_bounded(app_ctx@.limit);
    }
    if app_ctx.req_cache.len() > app_ctx.opts.req_limit {
        prune_requests(app_ctx)
    } else {
        None
    }
}

/// How a recorded request is answered.
pub fn answer(request: StoredRequest, templates: &Option<StringMap<UserTemplate>>) -> (r: Answer)
    ensures
        r@ == answer_to(
            match *templates {
                Some(templates) => Some(templates@),
                None => None,
            },
            request@,
        ),
{
    match templates {
        Some(templates) => match templates.get(request.path.as_str()) {
            Some(ut) => {
                let asked = request.method.as_str().to_uppercase();
                let wanted = ut.method.as_str().to_uppercase();
                if !text_eq(asked.as_str(), wanted.as_str()) {
                    return Answer::Ready(Reply::from_string(200, "OK"));
                }
                let content_type = match &ut.content_type {
                    Some(content_type) => content_type.clone(),
                    None => "text/html; charset=UTF-8".to_string(),
                };
                Answer::Render { template: ut.template.clone(), request, content_type }
            },
            None => Answer::Ready(Reply::from_string(200, "OK")),
        },
        None => Answer::Ready(Reply::from_string(200, "OK")),
    }
}

/// Whether `outcome` and `after` are what comes of a request that came in at the
/// given instant in the state `before`.
pub open spec fn handled(
    request: IncomingRequest,
    epoch_ms: int,
    before: ContextView,
    after: ContextView,
    outcome: Outcome,
) -> bool {
    match resolved(request.url@) {
        Some(target) => {
            let stored = stored_view(request, target, epoch_ms);
            &&& after == after_request(before, stored)
            &&& outcome.answer@ == answer_to(before.templates, stored)
            &&& archive_view(outcome.archive) == archived_by(before, stored)
        },
        None => false,
    }
}

/// Handles a request with the given target that came in at the given instant.
fn handle_target(
    request: &IncomingRequest,
    target: RequestTarget,
    epoch_ms: i64,
    app_ctx: &mut AppContext,
) -> (r: Outcome)
    requires
        EARLIEST_MS <= epoch_ms <= LATEST_MS,
        resolved(request.url@) == Some(target@),
    ensures
        handled(*request, epoch_ms as int, old(app_ctx)@, final(app_ctx)@, r),
{
    let stored = store(request, target, epoch_ms);
    // An ignored request is still answered exactly as it would be otherwise -- with
    // any user-defined template for the route -- it just never enters the cache.
    let archive = record(&stored, app_ctx);
    let answer = answer(stored, &app_ctx.user_templates);
    Outcome { answer, archive }
}

/// Whether `r` and `after` are what comes of a request that came in at the given
/// instant in the state `before`: it fails exactly where its target is not a URL,
/// or else where the instant is not within the years 0 to 9999, and then changes
/// nothing.
pub open spec fn handled_or_failed(
    request: IncomingRequest,
    epoch_ms: int,
    before: ContextView,
    after: ContextView,
    r: Result<Outcome, RequestError>,
) -> bool {
    &&& (resolved(request.url@) is None <==> (r matches Err(RequestError::BadTarget)))
    &&& (resolved(request.url@) is Some && !(EARLIEST_MS <= epoch_ms <= LATEST_MS) <==> (
    r matches Err(RequestError::ClockOutOfRange)))
    &&& match r {
        Ok(outcome) => handled(request, epoch_ms, before, after, outcome),
        Err(e) => (e == RequestError::BadTarget || e == RequestError::ClockOutOfRange) && after
            == before,
    }
}

/// Handles a request that came in at the given instant.
pub fn handle_req_at(request: &IncomingRequest, epoch_ms: i64, app_ctx: &mut AppContext) -> (r:
    Result<Outcome, RequestError>)
    ensures
        handled_or_failed(*request, epoch_ms as int, old(app_ctx)@, final(app_ctx)@, r),
{
    match resolve(request.url.as_str()) {
        Ok(target) => {
            if epoch_ms < EARLIEST_MS || epoch_ms > LATEST_MS {
                return Err(RequestError::ClockOutOfRange);
            }
            Ok(handle_target(request, target, epoch_ms, app_ctx))
        },
        Err(e) => Err(e),
    }
}

/// Handles a request at the instant that the clock gives, which alone decides what
/// that is. On a system clock before 1970 the call that reads it panics.
pub fn handle_req(request: &IncomingRequest, app_ctx: &mut AppContext) -> (r: Result<
    Outcome,
    RequestError,
>)
    ensures
        resolved(request.url@) is None <==> r matches Err(RequestError::BadTarget),
        exists|epoch_ms: i64| #[trigger]
            handled_or_failed(
                *request,
                epoch_ms as int,
                old(app_ctx)@,
                final(app_ctx)@,
                r,
            ),
{
    let now: i64 = now_ms();
    handle_req_at(request, now, app_ctx)
}

/// The reply that carries a rendered user-defined response; `None` where its
/// content type is not ASCII.
pub fn template_reply(rendered: &str, content_type: &str) -> (r: Option<Reply>)
    ensures
        match r {
            Some(reply) => vstd::utf8::is_ascii_chars(content_type@) && reply@ == data_reply(
                200,
                seq![("Content-Type"@, content_type@)],
                vstd::utf8::encode_utf8(rendered@),
            ),
            None => !vstd::utf8::is_ascii_chars(content_type@),
        },
        r matches Some(reply) ==> reply.status == 200 && vstd::utf8::decode_utf8(reply.body@)
            == rendered@,
{
    proof {
        vstd::utf8::encode_utf8_decode_utf8(rendered@);
    }
    if !content_type.is_ascii() {
        return None;
    }
    let mut reply = Reply::from_data(200, rendered.as_bytes_vec());
    reply.add_header("Content-Type", content_type);
    assert(reply@.headers =~= seq![("Content-Type"@, content_type@)]);
    Some(reply)
}

/// How a request is answered, or why it cannot be handled.
pub open spec fn answered(r: Result<Outcome, RequestError>) -> Result<AnswerView, RequestError> {
    match r {
        Ok(outcome) => Ok(outcome.answer@),
        Err(e) => Err(e),
    }
}

/// Whether a request is ignored or recorded never shows in the answer: at one
/// instant and with the same templates, whatever the rules, the cache and its limit
/// are, a request gets one answer, or fails in one way.
pub proof fn law_recording_does_not_show_in_the_answer(
    request: IncomingRequest,
    epoch_ms: int,
    ctx: ContextView,
    after: ContextView,
    r: Result<Outcome, RequestError>,
    other_ctx: ContextView,
    other_after: ContextView,
    other_r: Result<Outcome, RequestError>,
)
    requires
        handled_or_failed(request, epoch_ms, ctx, after, r),
        handled_or_failed(request, epoch_ms, other_ctx, other_after, other_r),
        ctx.templates == other_ctx.templates,
    ensures
        answered(r) == answered(other_r),
{
}

/// Ignoring a request only suppresses recording: it changes nothing in the state,
/// archives nothing, and the request is answered as it would be under any other
/// rules.
pub proof fn law_ignoring_only_suppresses_recording(
    request: IncomingRequest,
    epoch_ms: int,
    ctx: ContextView,
    after: ContextView,
    r: Result<Outcome, RequestError>,
    other_rules: Seq<RuleView>,
    other_after: ContextView,
    other_r: Result<Outcome, RequestError>,
)
    requires
        handled_or_failed(request, epoch_ms, ctx, after, r),
        handled_or_failed(
            request,
            epoch_ms,
            (ContextView { rules: other_rules, ..ctx }),
            other_after,
            other_r,
        ),
        resolved(request.url@) is Some ==> ignored(
            ctx.rules,
            request.method@,
            resolved(request.url@)->Some_0.path,
        ),
    ensures
        answered(r) == answered(other_r),
        after == ctx,
        r matches Ok(outcome) ==> outcome.archive is None,
{
}

/// A request that is not ignored is the newest one in the cache afterwards, if the
/// cache may hold one or held one before.
pub proof fn law_other_requests_are_recorded(ctx: ContextView, request: StoredView)
    requires
        !ignored(ctx.rules, request.method, request.path),
        ctx.limit >= 1 || ctx.cache.len() >= 1,
    ensures
        after_request(ctx, request).cache.len() > 0,
        after_request(ctx, request).cache.last() == request,
{
    law_batch_is_bounded(ctx.limit);
}

/// Recording keeps the order of the cache and loses nothing but the oldest
/// requests: those that leave, followed by those that stay, are the requests from
/// before and the new one. With a database, those that leave are what is archived.
pub proof fn law_recording_keeps_order(ctx: ContextView, request: StoredView)
    requires
        !ignored(ctx.rules, request.method, request.path),
    ensures
        ({
            let all = ctx.cache.push(request);
            let kept = after_request(ctx, request).cache;
            let gone = all.take(all.len() - kept.len());
            &&& kept.len() <= all.len()
            &&& gone + kept == all
            &&& gone.len() == (if all.len() > ctx.limit {
                batch(ctx.limit)
            } else {
                0
            })
            &&& match archived_by(ctx, request) {
                Some((path, requests)) => ctx.sqlite == Some(path) && requests == gone && all.len()
                    > ctx.limit,
                None => ctx.sqlite is None || all.len() <= ctx.limit,
            }
        }),
{
    law_batch_is_bounded(ctx.limit);
    let all = ctx.cache.push(request);
    let kept = after_request(ctx, request).cache;
    assert(all.take(all.len() - kept.len()) + kept =~= all);
}

/// The limit is the maximum number of requests in the cache: a cache within its
/// limit stays within it.
pub proof fn law_cache_stays_within_limit(ctx: ContextView, request: StoredView)
    requires
        ctx.cache.len() <= ctx.limit,
    ensures
        after_request(ctx, request).cache.len() <= ctx.limit,
{
    law_batch_is_bounded(ctx.limit);
}

/// A request changes nothing of how the sink is set up.
pub proof fn law_requests_keep_the_setup(ctx: ContextView, request: StoredView)
    ensures
        ({
            let after = after_request(ctx, request);
            &&& after.templates == ctx.templates
            &&& after.rules == ctx.rules
            &&& after.limit == ctx.limit
            &&& after.sqlite == ctx.sqlite
        }),
{
}

/// Whether the two times of every recorded request are the same instant.
pub open spec fn times_agree(cache: Seq<StoredView>) -> bool {
    forall|i: int|
        0 <= i < cache.len() ==> (#[trigger] cache[i]).time == rfc2822_text(cache[i].time_epoch_ms)
}

/// The two times of every recorded request stay the same instant.
pub proof fn law_recorded_times_agree(
    ctx: ContextView,
    request: IncomingRequest,
    target: TargetView,
    epoch_ms: int,
)
    requires
        times_agree(ctx.cache),
    ensures
        times_agree(after_request(ctx, stored_view(request, target, epoch_ms)).cache),
{
    law_batch_is_bounded(ctx.limit);
}

/// Only `POST`, in any case, clears the cache: it leaves no request to show and
/// keeps the setup; any other method changes nothing and is refused.
pub proof fn law_only_post_clears(
    ctx: ContextView,
    method: Seq<char>,
    params: Map<Seq<char>, Seq<char>>,
)
    ensures
        same_ignoring_ascii_case(method, "POST"@) ==> ({
            let page = page_view(params, after_clear(ctx, method).cache);
            page.req_count == 0 && page.total_matched == 0 && page.reqs.len() == 0
        }),
        !same_ignoring_ascii_case(method, "POST"@) ==> after_clear(ctx, method) == ctx
            && clear_step(ctx, method) == ClearView::Answered(refused_reply()),
        after_clear(after_clear(ctx, method), method) == after_clear(ctx, method),
        after_clear(ctx, method).rules == ctx.rules,
        after_clear(ctx, method).templates == ctx.templates,
{
    reveal(Seq::filter);
}

/// The method of a user-defined response is matched in any case, in ASCII.
pub proof fn law_template_method_case_is_ignored(method: Seq<char>, other: Seq<char>)
    requires
        vstd::utf8::is_ascii_chars(method),
        vstd::utf8::is_ascii_chars(other),
    ensures
        uppercase(method) == uppercase(other) <==> same_ignoring_ascii_case(method, other),
{
    let a = uppercase(method);
    let b = uppercase(other);
    let x = ascii_folded(method);
    let y = ascii_folded(other);
    if a == b {
        assert(method.len() == a.len() && other.len() == b.len());
        assert forall|i: int| 0 <= i < x.len() implies x[i] == y[i] by {
            assert(a[i] == b[i]);
            assert((method[i] as nat) < 128 && (other[i] as nat) < 128);
        }
        assert(x =~= y);
    }
    if x == y {
        assert(method.len() == x.len() && other.len() == y.len());
        assert forall|i: int| 0 <= i < a.len() implies a[i] == b[i] by {
            assert(x[i] == y[i]);
            assert((method[i] as nat) < 128 && (other[i] as nat) < 128);
        }
        assert(a =~= b);
    }
}

/// The last segment of a path is what stands after its last slash; only a path with
/// a leading slash has one.
pub proof fn law_last_segment_stands_after_the_last_slash(
    path: Seq<char>,
    directory: Seq<char>,
    name: Seq<char>,
)
    requires
        path == directory + seq!['/'] + name,
        !name.contains('/'),
    ensures
        path[0] == '/' ==> last_segment(path) == Some(name),
        path[0] != '/' ==> last_segment(path) is None,
    decreases name.len(),
{
    assert(path.len() > 0);
    if name.len() == 0 {
        assert(path.last() == '/');
        assert(after_last_slash(path) =~= name);
    } else {
        assert(name.contains(name.last()));
        assert(path.last() == name.last());
        let head = path.drop_last();
        let short = name.drop_last();
        assert(head =~= directory + seq!['/'] + short);
        assert(!short.contains('/')) by {
            if short.contains('/') {
                let i = choose|i: int| 0 <= i < short.len() && short[i] == '/';
                assert(name[i] == '/');
            }
        }
        law_last_segment_stands_after_the_last_slash(head, directory, short);
        assert(head[0] == path[0]);
        if path[0] == '/' {
            assert(last_segment(head) == Some(after_last_slash(head)));
            assert(short.push(name.last()) =~= name);
        }
    }
}

/// A path without a slash has no last segment.
pub proof fn law_no_slash_no_segment(path: Seq<char>)
    requires
        !path.contains('/'),
    ensures
        last_segment(path) is None,
{
    if path.len() > 0 {
        assert(path.contains(path[0]));
    }
}

/// A request for a static file gets the file by that name, unchanged, with its
/// headers, where it is text; a request for a file that there is not is told so; and
/// it fails where the target is not a URL or names no file.
pub proof fn law_static_files_are_served_unchanged(
    target: TargetView,
    files: Map<Seq<char>, Seq<u8>>,
)
    ensures
        static_outcome(None, files) == Err::<ReplyView, RequestError>(RequestError::BadTarget),
        last_segment(target.path) is None ==> static_outcome(Some(target), files) == Err::<
            ReplyView,
            RequestError,
        >(RequestError::NoSegments),
        last_segment(target.path) matches Some(name) ==> {
            let r = static_outcome(Some(target), files);
            &&& files.dom().contains(name) && vstd::utf8::valid_utf8(files[name]) ==> {
                &&& r is Ok
                &&& r->Ok_0.status == 200
                &&& r->Ok_0.body == files[name]
                &&& r->Ok_0.headers == seq![
                    ("Content-Type"@, "text/javascript; charset=UTF-8"@),
                    ("Cache-Control"@, "public, max-age=604800, immutable"@),
                ]
            }
            &&& files.dom().contains(name) && !vstd::utf8::valid_utf8(files[name]) ==> r == Err::<
                ReplyView,
                RequestError,
            >(RequestError::NotText)
            &&& !files.dom().contains(name) ==> {
                &&& r is Ok
                &&& r->Ok_0.status == 200
                &&& vstd::utf8::decode_utf8(r->Ok_0.body) == "I couldn't find that."@
                &&& r->Ok_0.headers == seq![("Content-Type"@, "text/plain; charset=UTF-8"@)]
            }
        },
{
    vstd::utf8::encode_utf8_decode_utf8("I couldn't find that."@);
}

/// Whether a reply sends the browser to the admin page with a `GET`.
pub open spec fn sends_to_admin(reply: ReplyView) -> bool {
    &&& reply.status == 303
    &&& reply.headers == seq![("Location"@, "/admin"@)]
    &&& reply.body.len() == 0
}

/// Clearing by `POST`, in any case, empties the cache, and nothing else changes; the
/// reply sends the browser to the admin page, after the database, where there is
/// one, was cleared too.
pub proof fn law_clearing_by_post(ctx: ContextView, method: Seq<char>)
    requires
        differ_in_case_only(method, "POST"@),
    ensures
        ({
            let after = after_clear(ctx, method);
            &&& after.cache.len() == 0
            &&& after.templates == ctx.templates && after.rules == ctx.rules
            &&& after.limit == ctx.limit && after.sqlite == ctx.sqlite
        }),
        ctx.sqlite matches Some(path) ==> clear_step(ctx, method) == (ClearView::ClearArchive {
            path,
            cleared: ctx.cache.len(),
        }),
        ctx.sqlite is None ==> (clear_step(ctx, method) matches ClearView::Answered(reply)
            && sends_to_admin(reply)),
{
    law_case_is_compared_place_by_place(method, "POST"@);
}

/// A request to clear by any other method than `POST` changes nothing and is told to
/// use `POST`.
pub proof fn law_other_methods_do_not_clear(ctx: ContextView, method: Seq<char>)
    requires
        !differ_in_case_only(method, "POST"@),
    ensures
        after_clear(ctx, method) == ctx,
        clear_step(ctx, method) matches ClearView::Answered(reply) && reply.status == 405
            && vstd::utf8::decode_utf8(reply.body)
            == "Method Not Allowed - use POST to clear the cache"@,
{
    law_case_is_compared_place_by_place(method, "POST"@);
    vstd::utf8::encode_utf8_decode_utf8("Method Not Allowed - use POST to clear the cache"@);
}

/// Once the database was cleared, the reply sends the browser to the admin page;
/// where it could not be, the reply says how many requests left the cache, which
/// database it is, and why.
pub proof fn law_clearing_the_database_is_reported(
    cleared: nat,
    path: Seq<char>,
    failure: Seq<char>,
)
    ensures
        sends_to_admin(archive_cleared_reply(cleared, path, None)),
        archive_cleared_reply(cleared, path, Some(failure)).status == 500,
        vstd::utf8::decode_utf8(archive_cleared_reply(cleared, path, Some(failure)).body)
            == "Cleared "@ + decimal(cleared) + " in-memory requests, but clearing "@ + path
            + " failed: "@ + failure,
{
    vstd::utf8::encode_utf8_decode_utf8(
        "Cleared "@ + decimal(cleared) + " in-memory requests, but clearing "@ + path
            + " failed: "@ + failure,
    );
}

/// Whether an answer is the terse text `OK`.
pub open spec fn says_ok(answer: AnswerView) -> bool {
    answer matches AnswerView::Ready(reply) && reply.status == 200 && vstd::utf8::decode_utf8(
        reply.body,
    ) == "OK"@
}

/// A request is answered by the user-defined response for its path, rendered for
/// this very request, if the response is for its method, whatever method that is and
/// whatever the case of its letters; in every other case the answer is `OK`. Outside
/// ASCII, the case of letters is that of Unicode.
pub proof fn law_answers_come_from_the_template_of_the_route(
    templates: Option<Map<Seq<char>, TemplateView>>,
    request: StoredView,
)
    ensures
        templates is None ==> says_ok(answer_to(templates, request)),
        templates matches Some(routes) ==> {
            let t = routes[request.path];
            let answer = answer_to(templates, request);
            let rendered = answer matches AnswerView::Render {
                template,
                request: shown,
                content_type,
            } && template == t.template && shown == request && content_type == (
            match t.content_type {
                Some(own) => own,
                None => "text/html; charset=UTF-8"@,
            });
            let ascii = vstd::utf8::is_ascii_chars(request.method)
                && vstd::utf8::is_ascii_chars(t.method);
            &&& !routes.dom().contains(request.path) ==> says_ok(answer)
            &&& routes.dom().contains(request.path) && request.method == t.method ==> rendered
            &&& routes.dom().contains(request.path) && ascii && differ_in_case_only(
                request.method,
                t.method,
            ) ==> rendered
            &&& routes.dom().contains(request.path) && ascii && !differ_in_case_only(
                request.method,
                t.method,
            ) ==> says_ok(answer)
            &&& routes.dom().contains(request.path) && uppercase(request.method) == uppercase(
                t.method,
            ) ==> rendered
            &&& uppercase(request.method) != uppercase(t.method) ==> says_ok(answer)
        },
{
    vstd::utf8::encode_utf8_decode_utf8("OK"@);
    if let Some(routes) = templates {
        let t = routes[request.path];
        law_case_is_compared_place_by_place(request.method, t.method);
        if vstd::utf8::is_ascii_chars(request.method) && vstd::utf8::is_ascii_chars(t.method) {
            law_template_method_case_is_ignored(request.method, t.method);
        }
    }
}

/// A request is handled exactly if its target is a URL and the instant is within the
/// years 0 to 9999; a request that is not leaves the state as it is.
pub proof fn law_when_requests_are_handled(
    request: IncomingRequest,
    epoch_ms: int,
    before: ContextView,
    after: ContextView,
    r: Result<Outcome, RequestError>,
)
    requires
        handled_or_failed(request, epoch_ms, before, after, r),
    ensures
        r is Ok <==> resolved(request.url@) is Some && -62_167_219_200_000 <= epoch_ms
            <= 253_402_300_799_999,
        r is Err ==> after == before,
        r matches Err(e) ==> e == (if resolved(request.url@) is None {
            RequestError::BadTarget
        } else {
            RequestError::ClockOutOfRange
        }),
        r matches Ok(outcome) ==> handled(request, epoch_ms, before, after, outcome),
{
}

/// Whether a record is that of a request that came in at the given instant, with the
/// given target: all that came, as it came.
pub open spec fn is_record_of(
    record: StoredView,
    request: IncomingRequest,
    target: TargetView,
    epoch_ms: int,
) -> bool {
    let gzip = says_gzip(headers_view(request.headers@));
    let bytes = request.body.bytes@;
    &&& record == stored_view(request, target, epoch_ms)
    &&& record.method == request.method@
    &&& record.path == target.path
    &&& record.params == target.query
    &&& record.time_epoch_ms == epoch_ms
    &&& record.header_count == request.headers@.len()
    &&& request.remote_ip matches Some(ip) ==> record.ip_addr == ip
    &&& !gzip && request.body.failure is None && vstd::utf8::valid_utf8(bytes)
        ==> vstd::utf8::encode_utf8(record.body) == bytes
    &&& gzip && gunzipped(bytes) is Ok ==> record.body == gunzipped(bytes)->Ok_0
}

/// A request that no rule is for is recorded as it came, behind those from before,
/// of which only the oldest leave, and only from a full cache; with a database those
/// that leave are what is archived there. Nothing of the setup changes.
pub proof fn law_a_request_is_recorded_as_it_came(
    request: IncomingRequest,
    epoch_ms: int,
    before: ContextView,
    after: ContextView,
    outcome: Outcome,
)
    requires
        handled(request, epoch_ms, before, after, outcome),
        !ignored(before.rules, request.method@, resolved(request.url@)->Some_0.path),
        before.limit >= 1,
    ensures
        after.cache.len() > 0,
        is_record_of(
            after.cache.last(),
            request,
            resolved(request.url@)->Some_0,
            epoch_ms,
        ),
        after.cache.drop_last().is_suffix_of(before.cache),
        before.cache.len() < before.limit ==> after.cache.drop_last() == before.cache
            && outcome.archive is None,
        before.cache.len() >= before.limit ==> after.cache.len() == before.cache.len() + 1 - batch(
            before.limit,
        ),
        before.cache.len() >= before.limit ==> archive_view(outcome.archive) == (
        match before.sqlite {
            Some(path) => Some((path, before.cache.take(batch(before.limit) as int))),
            None => None,
        }),
        after.templates == before.templates,
        after.rules == before.rules,
        after.limit == before.limit,
        after.sqlite == before.sqlite,
{
    let target = resolved(request.url@)->Some_0;
    let record = stored_view(request, target, epoch_ms);
    law_batch_is_bounded(before.limit);
    law_a_record_holds_what_came(request, target, epoch_ms);
    if says_gzip(headers_view(request.headers@)) {
        if gunzipped(request.body.bytes@) is Ok {
            law_packed_text_is_recorded_unpacked(
                request,
                target,
                epoch_ms,
                gunzipped(request.body.bytes@)->Ok_0,
            );
        }
    } else if request.body.failure is None && vstd::utf8::valid_utf8(request.body.bytes@) {
        law_text_is_recorded_as_it_came(request, target, epoch_ms);
    }
    let all = before.cache.push(record);
    let gone = all.len() - after.cache.len();
    assert(after.cache =~= all.skip(gone));
    assert(all.take(batch(before.limit) as int) =~= before.cache.take(batch(before.limit) as int)
        || before.cache.len() < before.limit);
    assert(after.cache.drop_last() =~= before.cache.skip(gone));
    assert(before.cache.skip(gone) =~= before.cache.subrange(gone, before.cache.len() as int));
}

/// A request that some rule is for, by its method in any case and by its path, is
/// not recorded, and changes nothing; that goes for every rule and every method.
pub proof fn law_a_request_that_a_rule_is_for_is_not_recorded(
    request: IncomingRequest,
    epoch_ms: int,
    before: ContextView,
    after: ContextView,
    outcome: Outcome,
    i: int,
    runs: Seq<Seq<char>>,
)
    requires
        handled(request, epoch_ms, before, after, outcome),
        0 <= i < before.rules.len(),
        before.rules[i].method == seq!['*'] || differ_in_case_only(
            before.rules[i].method,
            request.method@,
        ),
        runs.len() == star_count(before.rules[i].path),
        resolved(request.url@)->Some_0.path == filled(before.rules[i].path, runs),
    ensures
        after == before,
        outcome.archive is None,
{
    law_one_rule_is_enough(before.rules, i, request.method@, runs);
}

/// What is rendered is the template of the route in the state from before, for the
/// request as it came, whether it is recorded or not; where the route has none for
/// the method, the answer is `OK`.
pub proof fn law_a_request_is_answered_by_its_route(
    request: IncomingRequest,
    epoch_ms: int,
    before: ContextView,
    after: ContextView,
    outcome: Outcome,
)
    requires
        handled(request, epoch_ms, before, after, outcome),
    ensures
        outcome.answer@ matches AnswerView::Render { template, request: shown, content_type } ==> {
            let target = resolved(request.url@)->Some_0;
            &&& is_record_of(shown, request, target, epoch_ms)
            &&& before.templates is Some
            &&& before.templates->Some_0.dom().contains(target.path)
            &&& before.templates->Some_0[target.path].template == template
            &&& uppercase(before.templates->Some_0[target.path].method) == uppercase(
                request.method@,
            )
        },
        outcome.answer@ is Ready ==> says_ok(outcome.answer@) && (before.templates matches Some(
            routes,
        ) ==> {
            let path = resolved(request.url@)->Some_0.path;
            !routes.dom().contains(path) || (routes[path].method != request.method@ && uppercase(
                routes[path].method,
            ) != uppercase(request.method@))
        }),
{
    let target = resolved(request.url@)->Some_0;
    law_answers_come_from_the_template_of_the_route(
        before.templates,
        stored_view(request, target, epoch_ms),
    );
    law_a_record_holds_what_came(request, target, epoch_ms);
    if says_gzip(headers_view(request.headers@)) {
        if gunzipped(request.body.bytes@) is Ok {
            law_packed_text_is_recorded_unpacked(
                request,
                target,
                epoch_ms,
                gunzipped(request.body.bytes@)->Ok_0,
            );
        }
    } else if request.body.failure is None && vstd::utf8::valid_utf8(request.body.bytes@) {
        law_text_is_recorded_as_it_came(request, target, epoch_ms);
    }
}

} // verus!
