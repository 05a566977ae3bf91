//! The state of the sink: what it has recorded and how it is set up.

use vstd::prelude::*;
use crate::batch::prune_count;
use crate::ignore::IgnoreRule;
use crate::request::StoredRequest;
use crate::string_map::StringMap;
#[allow(unused_imports)]
use crate::batch::batch;
#[allow(unused_imports)]
use crate::ignore::{rules_view, RuleView};
#[allow(unused_imports)]
use crate::request::StoredView;
#[allow(unused_imports)]
use crate::target::option_view;

verus! {

/// What a user-defined response is made of.
pub ghost struct TemplateView {
    pub method: Seq<char>,
    pub template: Seq<char>,
    pub content_type: Option<Seq<char>>,
}

/// A user-defined response: the template to render for requests with a method,
/// and the content type to send it with.
#[derive(Debug)]
pub struct UserTemplate {
    pub method: String,
    pub template: String,
    pub content_type: Option<String>,
}

impl View for UserTemplate {
    type V = TemplateView;

    open spec fn view(&self) -> TemplateView {
        TemplateView {
            method: self.method@,
            template: self.template@,
            content_type: option_view(self.content_type),
        }
    }
}

/// How the sink is set up.
#[derive(Debug)]
pub struct Opts {
    /// Maximum number of requests to keep in memory.
    pub req_limit: usize,
    /// The database that requests leaving the cache go to.
    pub sqlite: Option<String>,
}

/// What the sink has recorded and how it is set up.
pub ghost struct ContextView {
    pub cache: Seq<StoredView>,
    pub templates: Option<Map<Seq<char>, TemplateView>>,
    pub rules: Seq<RuleView>,
    pub limit: nat,
    pub sqlite: Option<Seq<char>>,
}

/// The state of the sink.
pub struct AppContext {
    /// The recorded requests, the oldest first.
    pub req_cache: Vec<StoredRequest>,
    /// User-defined responses by the path that they are for.
    pub user_templates: Option<StringMap<UserTemplate>>,
    pub ignore_rules: Vec<IgnoreRule>,
    pub opts: Opts,
}

/// What several recorded requests hold.
pub open spec fn cache_view(cache: Seq<StoredRequest>) -> Seq<StoredView> {
    cache.map_values(|r: StoredRequest| r@)
}

impl View for AppContext {
    type V = ContextView;

    open spec fn view(&self) -> ContextView {
        ContextView {
            cache: cache_view(self.req_cache@),
            templates: match self.user_templates {
                Some(templates) => Some(templates@),
                None => None,
            },
            rules: rules_view(self.ignore_rules@),
            limit: self.opts.req_limit as nat,
            sqlite: option_view(self.opts.sqlite),
        }
    }
}

/// Requests that left the cache, and the database that they go to.
pub struct Archive {
    pub path: String,
    pub requests: Vec<StoredRequest>,
}

impl View for Archive {
    type V = (Seq<char>, Seq<StoredView>);

    open spec fn view(&self) -> (Seq<char>, Seq<StoredView>) {
        (self.path@, cache_view(self.requests@))
    }
}

/// What there is to archive.
pub open spec fn archive_view(archive: Option<Archive>) -> Option<(Seq<char>, Seq<StoredView>)> {
    match archive {
        Some(archive) => Some(archive@),
        None => None,
    }
}

/// The state after the oldest requests, one batch of them, have left the cache.
pub open spec fn pruned(ctx: ContextView) -> ContextView {
    ContextView { cache: ctx.cache.skip(batch(ctx.limit) as int), ..ctx }
}

/// The requests that leave the cache when it is pruned, if there is a database
/// for them.
pub open spec fn prune_archive(ctx: ContextView) -> Option<(Seq<char>, Seq<StoredView>)> {
    match ctx.sqlite {
        Some(path) => Some((path, ctx.cache.take(batch(ctx.limit) as int))),
        None => None,
    }
}

/// Takes the oldest requests, one batch of them, out of the cache, and hands them
/// back to be archived if there is a database for them.
pub fn prune_requests(app_ctx: &mut AppContext) -> (r: Option<Archive>)
    requires
        batch(old(app_ctx)@.limit) <= old(app_ctx)@.cache.len(),
    ensures
        final(app_ctx)@ == pruned(old(app_ctx)@),
        archive_view(r) == prune_archive(old(app_ctx)@),
{
    let prune: usize = prune_count(app_ctx.opts.req_limit);
    let mut drained: Vec<StoredRequest> = app_ctx.req_cache.split_off(prune);
    std::mem::swap(&mut drained, &mut app_ctx.req_cache);
    proof {
        let before = old(app_ctx)@.cache;
        assert(cache_view(drained@) =~= before.take(prune as int));
        assert(cache_view(app_ctx.req_cache@) =~= before.skip(prune as int));
    }
    match &app_ctx.opts.sqlite {
        Some(path) => Some(Archive { path: path.clone(), requests: drained }),
        None => None,
    }
}

/// Pruning takes the oldest requests, one batch of them, and nothing else: what left
/// and what stays, one after the other, are the cache from before. With a database
/// those that left are what goes there.
pub proof fn law_pruning_takes_the_oldest(ctx: ContextView)
    requires
        batch(ctx.limit) <= ctx.cache.len(),
    ensures
        ({
            let after = pruned(ctx);
            let gone = ctx.cache.take(ctx.cache.len() - after.cache.len());
            &&& gone.len() == batch(ctx.limit)
            &&& gone + after.cache == ctx.cache
            &&& after.templates == ctx.templates && after.rules == ctx.rules
            &&& after.limit == ctx.limit && after.sqlite == ctx.sqlite
            &&& ctx.sqlite is None ==> prune_archive(ctx) is None
            &&& ctx.sqlite matches Some(path) ==> prune_archive(ctx) == Some((path, gone))
        }),
{
    let after = pruned(ctx);
    assert(ctx.cache.take(ctx.cache.len() - after.cache.len()) + after.cache =~= ctx.cache);
}

} // verus!
