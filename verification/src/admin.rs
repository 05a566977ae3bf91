//! The admin page: the recorded requests that match a search, newest first, one
//! page at a time.

use vstd::prelude::*;
use crate::request::StoredRequest;
use crate::string_map::StringMap;
use crate::target::form_encode;
use crate::text::{contains, parse_usize, trim};
#[allow(unused_imports)]
use crate::context::cache_view;
#[allow(unused_imports)]
use crate::request::StoredView;
#[allow(unused_imports)]
use crate::target::{
    alphanumeric, form_encoded, form_literal, form_text, hex_digit, law_plain_target_resolves,
    pairs_map, plain_query, resolved, spell_pairs, target_text, TargetView, PLAIN_TARGET_MAX,
};
#[allow(unused_imports)]
use crate::text::{
    ascii_folded, decimal, differ_in_case_only, is_digit, law_case_is_compared_place_by_place,
    law_decimal_round_trip, law_occurring_is_standing_between, lemma_decimal, lowercase, occurs_in,
    parsed_usize, same_ignoring_ascii_case, trimmed, white_space,
};

verus! {

/// Number of requests shown per page on the admin page.
pub const PAGE_SIZE: usize = 10;

/// What an admin page shows.
pub ghost struct PageView {
    pub reqs: Seq<StoredView>,
    pub req_count: nat,
    pub total_matched: nat,
    pub start: nat,
    pub q: Seq<char>,
    pub q_encoded: Seq<char>,
    pub range_from: nat,
    pub range_to: nat,
    pub prev_page: nat,
    pub next_page: nat,
    pub has_prev: bool,
    pub has_next: bool,
}

/// The values that an admin page is rendered from.
pub struct AdminPage<'a> {
    /// The requests on this page, the newest first.
    pub reqs: Vec<&'a StoredRequest>,
    /// How many requests are recorded.
    pub req_count: usize,
    /// How many of them match the search.
    pub total_matched: usize,
    /// How many matching requests are newer than those on this page.
    pub start: usize,
    /// The search text.
    pub q: String,
    /// The search text, encoded for use in a link.
    pub q_encoded: String,
    /// The place of the first request on this page, from 1; 0 on an empty page.
    pub range_from: usize,
    /// The place of the last request on this page.
    pub range_to: usize,
    /// Where the page before this one starts.
    pub prev_page: usize,
    /// Where the page after this one starts.
    pub next_page: usize,
    pub has_prev: bool,
    pub has_next: bool,
}

/// What several referenced requests hold.
pub open spec fn refs_view(refs: Seq<&StoredRequest>) -> Seq<StoredView> {
    refs.map_values(|r: &StoredRequest| r@)
}

impl<'a> View for AdminPage<'a> {
    type V = PageView;

    open spec fn view(&self) -> PageView {
        PageView {
            reqs: refs_view(self.reqs@),
            req_count: self.req_count as nat,
            total_matched: self.total_matched as nat,
            start: self.start as nat,
            q: self.q@,
            q_encoded: self.q_encoded@,
            range_from: self.range_from as nat,
            range_to: self.range_to as nat,
            prev_page: self.prev_page as nat,
            next_page: self.next_page as nat,
            has_prev: self.has_prev,
            has_next: self.has_next,
        }
    }
}

/// The value of a parameter, or the empty text.
pub open spec fn param(params: Map<Seq<char>, Seq<char>>, name: Seq<char>) -> Seq<char> {
    if params.dom().contains(name) {
        params[name]
    } else {
        Seq::empty()
    }
}

/// Whether a request matches a search: a substring of the path, in any case.
pub open spec fn found(request: StoredView, q: Seq<char>) -> bool {
    occurs_in(lowercase(q), lowercase(request.path))
}

/// The requests that match a search, in the order of the cache.
pub open spec fn matched(cache: Seq<StoredView>, q: Seq<char>) -> Seq<StoredView> {
    cache.filter(|r: StoredView| found(r, q))
}

/// The page that starts after `start` of the given requests, the newest first.
pub open spec fn page_of(requests: Seq<StoredView>, start: int) -> Seq<StoredView> {
    let end = if start + PAGE_SIZE < requests.len() {
        start + PAGE_SIZE
    } else {
        requests.len() as int
    };
    requests.reverse().subrange(start, end)
}

/// Where a page starts: after as many requests as asked for, but not past the end.
pub open spec fn page_start(asked: Seq<char>, total: nat) -> nat {
    match parsed_usize(asked) {
        Some(n) => if n < total {
            n as nat
        } else {
            total
        },
        None => 0,
    }
}

/// What the admin page shows for some parameters.
pub open spec fn page_view(
    params: Map<Seq<char>, Seq<char>>,
    cache: Seq<StoredView>,
) -> PageView {
    let q = trimmed(param(params, "q"@));
    let all = matched(cache, q);
    let start = page_start(param(params, "start"@), all.len());
    let reqs = page_of(all, start as int);
    PageView {
        reqs,
        req_count: cache.len(),
        total_matched: all.len(),
        start,
        q,
        q_encoded: form_encoded(vstd::utf8::encode_utf8(q)),
        range_from: if reqs.len() == 0 {
            0
        } else {
            start + 1
        },
        range_to: start + reqs.len(),
        prev_page: if start < PAGE_SIZE {
            0
        } else {
            (start - PAGE_SIZE) as nat
        },
        next_page: (start + PAGE_SIZE) as nat,
        has_prev: start > 0,
        has_next: start + PAGE_SIZE < all.len(),
    }
}

proof fn lemma_filter_step(s: Seq<StoredView>, i: int, pred: spec_fn(StoredView) -> bool)
    requires
        0 <= i < s.len(),
    ensures
        s.take(i + 1).filter(pred) == (if pred(s[i]) {
            s.take(i).filter(pred).push(s[i])
        } else {
            s.take(i).filter(pred)
        }),
{
    reveal(Seq::filter);
    assert(s.take(i + 1).drop_last() =~= s.take(i));
}

/// The requests whose path holds the search text, in any case.
pub fn matching<'a>(cache: &'a Vec<StoredRequest>, q: &str) -> (r: Vec<&'a StoredRequest>)
    ensures
        refs_view(r@) == matched(cache_view(cache@), q@),
        r@.len() <= cache@.len(),
{
    let needle = q.to_lowercase();
    let ghost pred = |r: StoredView| found(r, q@);
    let ghost all = cache_view(cache@);
    let mut r: Vec<&'a StoredRequest> = Vec::new();
    let mut i: usize = 0;
    proof {
        reveal(Seq::filter);
        assert(refs_view(r@) =~= all.take(0).filter(pred));
    }
    while i < cache.len()
        invariant
            i <= cache@.len(),
            all == cache_view(cache@),
            needle@ == lowercase(q@),
            pred == (|r: StoredView| found(r, q@)),
            r@.len() <= i,
            refs_view(r@) == all.take(i as int).filter(pred),
        decreases cache@.len() - i,
    {
        proof {
            lemma_filter_step(all, i as int, pred);
        }
        let ghost before = r@;
        let path = cache[i].path.as_str().to_lowercase();
        if needle.as_str().is_empty() || contains(path.as_str(), needle.as_str()) {
            proof {
                if needle@.len() == 0 {
                    assert(lowercase(all[i as int].path).subrange(0, 0int + needle@.len()) =~= needle@);
                }
                assert(found(all[i as int], q@));
            }
            r.push(&cache[i]);
            assert(refs_view(r@) =~= refs_view(before).push(all[i as int]));
        } else {
            assert(!found(all[i as int], q@));
        }
        i += 1;
    }
    assert(all.take(all.len() as int) =~= all);
    r
}

/// Computes the admin page for some parameters.
pub fn admin_page<'a>(params: &StringMap<String>, cache: &'a Vec<StoredRequest>) -> (r: AdminPage<
    'a,
>)
    requires
        cache.len() + PAGE_SIZE <= usize::MAX,
    ensures
        r@ == page_view(params@, cache_view(cache@)),
{
    let empty = String::new();
    let asked_q: &str = match params.get("q") {
        Some(q) => q.as_str(),
        None => empty.as_str(),
    };
    assert(asked_q@ == param(params@, "q"@));
    let q: &str = trim(asked_q);
    let all = matching(cache, q);
    let total_matched: usize = all.len();

    // `start` counts backwards from the newest matching request, so that page
    // boundaries stay stable as long as no new requests come in.
    let asked_start: &str = match params.get("start") {
        Some(start) => start.as_str(),
        None => empty.as_str(),
    };
    assert(asked_start@ == param(params@, "start"@));
    let start: usize = match parse_usize(asked_start) {
        Some(n) => if n < total_matched {
            n
        } else {
            total_matched
        },
        None => 0,
    };
    let end: usize = if start + PAGE_SIZE < total_matched {
        start + PAGE_SIZE
    } else {
        total_matched
    };
    let ghost views = refs_view(all@);
    let mut reqs: Vec<&'a StoredRequest> = Vec::new();
    let mut i: usize = start;
    assert(refs_view(reqs@) =~= views.reverse().subrange(start as int, start as int));
    while i < end
        invariant
            start <= i <= end,
            end <= total_matched,
            total_matched == all@.len(),
            views == refs_view(all@),
            reqs@.len() == i - start,
            refs_view(reqs@) == views.reverse().subrange(start as int, i as int),
        decreases end - i,
    {
        let ghost before = reqs@;
        reqs.push(all[total_matched - 1 - i]);
        proof {
            assert(refs_view(reqs@) =~= refs_view(before).push(views.reverse()[i as int]));
            assert(views.reverse().subrange(start as int, i + 1) =~= views.reverse().subrange(
                start as int,
                i as int,
            ).push(views.reverse()[i as int]));
        }
        i += 1;
    }
    let shown: usize = reqs.len();
    AdminPage {
        reqs,
        req_count: cache.len(),
        total_matched,
        start,
        q: q.to_string(),
        q_encoded: form_encode(q),
        range_from: if shown == 0 {
            0
        } else {
            start + 1
        },
        range_to: start + shown,
        prev_page: if start < PAGE_SIZE {
            0
        } else {
            start - PAGE_SIZE
        },
        next_page: start + PAGE_SIZE,
        has_prev: start > 0,
        has_next: start + PAGE_SIZE < total_matched,
    }
}

/// The parameters of a link to a page of the admin page.
pub open spec fn link_spellings(q: Seq<char>, start: usize) -> Seq<(Seq<char>, Seq<char>)> {
    seq![
        ("q"@, form_encoded(vstd::utf8::encode_utf8(q))),
        ("start"@, decimal(start as nat)),
    ]
}

/// The parameters that a link to a page of the admin page stands for, in order.
pub open spec fn link_pairs(q: Seq<char>, start: usize) -> Seq<(Seq<char>, Seq<char>)> {
    seq![("q"@, q), ("start"@, decimal(start as nat))]
}

/// The parameters that a link to a page of the admin page stands for.
pub open spec fn link_params(q: Seq<char>, start: usize) -> Map<Seq<char>, Seq<char>> {
    map!["q"@ => q, "start"@ => decimal(start as nat)]
}

/// A link to a page spells the parameters that it stands for.
pub(crate) proof fn lemma_link_spelled(q: Seq<char>, start: usize)
    ensures
        spell_pairs(link_spellings(q, start), link_pairs(q, start)),
        pairs_map(link_pairs(q, start)) == link_params(q, start),
{
    reveal_strlit("q");
    reveal_strlit("start");
    lemma_decimal(start as nat);
    let pairs = link_pairs(q, start);
    assert(form_literal("q"@));
    assert(form_literal("start"@));
    assert(form_literal(decimal(start as nat))) by {
        assert forall|i: int| 0 <= i < decimal(start as nat).len() implies alphanumeric(
            #[trigger] decimal(start as nat)[i],
        ) by {
            assert(is_digit(decimal(start as nat)[i]));
        }
    }
    reveal_with_fuel(pairs_map, 3);
    assert(pairs.drop_last() =~= seq![("q"@, q)]);
    assert(pairs.drop_last().drop_last() =~= Seq::<(Seq<char>, Seq<char>)>::empty());
    assert(pairs_map(pairs) =~= link_params(q, start));
}

proof fn lemma_form_encoded_is_plain(bytes: Seq<u8>)
    ensures
        plain_query(form_encoded(bytes)),
    decreases bytes.len(),
{
    if bytes.len() > 0 {
        lemma_form_encoded_is_plain(bytes.drop_last());
        let b = bytes.last();
        let head = form_encoded(bytes.drop_last());
        let all = form_encoded(bytes);
        assert(alphanumeric(hex_digit(b / 16)) && alphanumeric(hex_digit(b % 16)));
        assert forall|i: int| 0 <= i < all.len() implies {
            let c = #[trigger] all[i];
            alphanumeric(c) || c == '-' || c == '_' || c == '~' || c == '.' || c == '*' || c == '/'
                || c == '+' || c == '%' || c == '=' || c == '&'
        } by {
            if i < head.len() {
                assert(all[i] == head[i]);
            }
        }
    }
}

/// A link to a page of the admin page leads to the admin page, with the query that
/// the link carries.
pub proof fn law_page_link_resolves(q: Seq<char>, start: usize)
    requires
        page_link(q, start).len() <= PLAIN_TARGET_MAX,
    ensures
        resolved(page_link(q, start)) == Some(
            TargetView {
                path: "/admin"@,
                query: Some(form_text(link_spellings(q, start))),
            },
        ),
{
    reveal_strlit("/admin?");
    reveal_strlit("/admin");
    reveal_strlit("q");
    reveal_strlit("start");
    let link = page_link(q, start);
    let enc = form_encoded(vstd::utf8::encode_utf8(q));
    let digits = decimal(start as nat);
    let sp = link_spellings(q, start);
    let query = form_text(sp);
    lemma_form_encoded_is_plain(vstd::utf8::encode_utf8(q));
    lemma_decimal(start as nat);
    assert(plain_query(query)) by {
        reveal_with_fuel(form_text, 2);
        assert(sp.drop_last() =~= seq![("q"@, enc)]);
        let first = "q"@ + seq!['='] + enc;
        let second = "start"@ + seq!['='] + digits;
        assert(query =~= first + seq!['&'] + second);
        assert forall|i: int| 0 <= i < query.len() implies {
            let c = #[trigger] query[i];
            alphanumeric(c) || c == '-' || c == '_' || c == '~' || c == '.' || c == '*' || c == '/'
                || c == '+' || c == '%' || c == '=' || c == '&'
        } by {
            let n = first.len();
            if i < 2 {
            } else if i < n {
                assert(query[i] == enc[i - 2]);
            } else if i < n + 7 {
            } else {
                assert(query[i] == digits[i - (n + 7)]);
                assert(is_digit(digits[i - (n + 7)]));
            }
        }
    }
    assert(link =~= target_text("/admin"@, Some(query)));
    law_plain_target_resolves("/admin"@, Some(query));
}

/// A link to the page of the admin page that shows the requests found by `q` from
/// `start` on.
pub open spec fn page_link(q: Seq<char>, start: usize) -> Seq<char> {
    "/admin?"@ + form_text(link_spellings(q, start))
}

proof fn lemma_trimmed(s: Seq<char>)
    ensures
        trimmed(trimmed(s)) == trimmed(s),
    decreases s.len(),
{
    if s.len() > 0 && white_space(s[0]) {
        lemma_trimmed(s.skip(1));
    } else if s.len() > 0 && white_space(s.last()) {
        lemma_trimmed(s.drop_last());
    }
}

proof fn lemma_link_page(q: Seq<char>, start: usize, cache: Seq<StoredView>)
    ensures
        page_view(link_params(q, start), cache).q == trimmed(q),
        page_view(link_params(q, start), cache).start == (if start < matched(
            cache,
            trimmed(q),
        ).len() {
            start as nat
        } else {
            matched(cache, trimmed(q)).len()
        }),
{
    reveal_strlit("q");
    reveal_strlit("start");
    assert("q"@.len() != "start"@.len());
    law_decimal_round_trip(start);
}

/// Following the link to the next page keeps the search and continues where the
/// page ends; the link back from there leads to the page that one came from.
pub proof fn law_paging_keeps_the_search(
    params: Map<Seq<char>, Seq<char>>,
    cache: Seq<StoredView>,
)
    requires
        page_view(params, cache).has_next,
        page_view(params, cache).next_page <= usize::MAX,
    ensures
        ({
            let page = page_view(params, cache);
            let next = page_view(link_params(page.q, page.next_page as usize), cache);
            &&& next.q == page.q
            &&& next.total_matched == page.total_matched
            &&& next.start == page.start + PAGE_SIZE
            &&& page.reqs.len() == PAGE_SIZE
            &&& next.reqs.len() > 0
            &&& page.reqs + next.reqs == matched(cache, page.q).reverse().subrange(
                page.start as int,
                next.range_to as int,
            )
            &&& next.has_prev
            &&& page_view(link_params(next.q, next.prev_page as usize), cache) == page
        }),
{
    let page = page_view(params, cache);
    let next = page_view(link_params(page.q, page.next_page as usize), cache);
    lemma_trimmed(param(params, "q"@));
    lemma_link_page(page.q, page.next_page as usize, cache);
    lemma_link_page(next.q, next.prev_page as usize, cache);
    assert(page.reqs + next.reqs =~= matched(cache, page.q).reverse().subrange(
        page.start as int,
        next.range_to as int,
    ));
}

/// Every matching request is on one of the pages that start at a multiple of the
/// page size, in its place counted from the newest.
pub proof fn law_pages_cover_all_matches(requests: Seq<StoredView>, i: int)
    requires
        0 <= i < requests.len(),
    ensures
        ({
            let page = page_of(requests, (i / (PAGE_SIZE as int)) * PAGE_SIZE);
            &&& (i % (PAGE_SIZE as int)) < page.len() <= PAGE_SIZE
            &&& page[i % (PAGE_SIZE as int)] == requests[requests.len() - 1 - i]
        }),
{
}

/// How many pages some requests take; there is a first page even for none.
pub open spec fn page_count(total: nat) -> nat {
    if total == 0 {
        1
    } else {
        ((total + PAGE_SIZE - 1) / (PAGE_SIZE as int)) as nat
    }
}

/// The first `n` pages of some requests, one after the other.
pub open spec fn first_pages(requests: Seq<StoredView>, n: nat) -> Seq<StoredView>
    decreases n,
{
    if n == 0 {
        Seq::empty()
    } else {
        first_pages(requests, (n - 1) as nat) + page_of(requests, (n - 1) * PAGE_SIZE)
    }
}

proof fn lemma_first_pages(requests: Seq<StoredView>, n: nat)
    requires
        n < page_count(requests.len()),
    ensures
        first_pages(requests, n) == requests.reverse().take(n * PAGE_SIZE),
        n * PAGE_SIZE <= requests.len(),
    decreases n,
{
    if n > 0 {
        lemma_first_pages(requests, (n - 1) as nat);
        assert(first_pages(requests, n) =~= requests.reverse().take(n * PAGE_SIZE));
    }
}

/// The pages from the first to the last, one after the other, are all requests, the
/// newest first, each on exactly one page; every page but the last is full.
pub proof fn law_pages_are_all_requests(requests: Seq<StoredView>)
    ensures
        first_pages(requests, page_count(requests.len())) == requests.reverse(),
        forall|k: int|
            0 <= k < page_count(requests.len()) - 1 ==> (#[trigger] page_of(
                requests,
                k * PAGE_SIZE,
            )).len() == PAGE_SIZE,
{
    let last = (page_count(requests.len()) - 1) as nat;
    lemma_first_pages(requests, last);
    assert(first_pages(requests, page_count(requests.len())) =~= requests.reverse());
}

/// The page that one comes to from the first one by following the link to the next
/// page `k` times.
pub open spec fn nth_page(
    params: Map<Seq<char>, Seq<char>>,
    cache: Seq<StoredView>,
    k: nat,
) -> PageView
    decreases k,
{
    if k == 0 {
        page_view(params, cache)
    } else {
        let page = nth_page(params, cache, (k - 1) as nat);
        page_view(link_params(page.q, page.next_page as usize), cache)
    }
}

/// The requests that one sees on the first `n` pages by following the links.
pub open spec fn seen(
    params: Map<Seq<char>, Seq<char>>,
    cache: Seq<StoredView>,
    n: nat,
) -> Seq<StoredView>
    decreases n,
{
    if n == 0 {
        Seq::empty()
    } else {
        seen(params, cache, (n - 1) as nat) + nth_page(params, cache, (n - 1) as nat).reqs
    }
}

proof fn lemma_nth_page(params: Map<Seq<char>, Seq<char>>, cache: Seq<StoredView>, k: nat)
    requires
        page_view(params, cache).start == 0,
        page_view(params, cache).total_matched <= usize::MAX,
        k < page_count(page_view(params, cache).total_matched),
    ensures
        ({
            let q = page_view(params, cache).q;
            let page = nth_page(params, cache, k);
            &&& page.q == q
            &&& page.total_matched == page_view(params, cache).total_matched
            &&& page.start == k * PAGE_SIZE
            &&& page.reqs == page_of(matched(cache, q), k * PAGE_SIZE)
            &&& page.has_next <==> k + 1 < page_count(page.total_matched)
        }),
    decreases k,
{
    if k > 0 {
        let page = nth_page(params, cache, (k - 1) as nat);
        lemma_nth_page(params, cache, (k - 1) as nat);
        lemma_trimmed(param(params, "q"@));
        lemma_link_page(page.q, page.next_page as usize, cache);
    }
}

proof fn lemma_seen(params: Map<Seq<char>, Seq<char>>, cache: Seq<StoredView>, n: nat)
    requires
        page_view(params, cache).start == 0,
        page_view(params, cache).total_matched <= usize::MAX,
        n <= page_count(page_view(params, cache).total_matched),
    ensures
        seen(params, cache, n) == first_pages(matched(cache, page_view(params, cache).q), n),
    decreases n,
{
    if n > 0 {
        lemma_seen(params, cache, (n - 1) as nat);
        lemma_nth_page(params, cache, (n - 1) as nat);
    }
}

/// Following the link to the next page from the first page on, for as long as there
/// is one, shows every match of the search, the newest first, each on exactly one
/// page; the search stays the same, and every page but the last is full.
pub proof fn law_following_the_links_shows_all_matches(
    params: Map<Seq<char>, Seq<char>>,
    cache: Seq<StoredView>,
)
    requires
        page_view(params, cache).start == 0,
        page_view(params, cache).total_matched <= usize::MAX,
    ensures
        ({
            let q = page_view(params, cache).q;
            let n = page_count(page_view(params, cache).total_matched);
            &&& seen(params, cache, n) == matched(cache, q).reverse()
            &&& forall|k: nat|
                k < n ==> {
                    let page = #[trigger] nth_page(params, cache, k);
                    &&& page.q == q
                    &&& page.has_next <==> k + 1 < n
                    &&& page.has_next ==> page.reqs.len() == PAGE_SIZE
                }
        }),
{
    let all = matched(cache, page_view(params, cache).q);
    let n = page_count(all.len());
    lemma_seen(params, cache, n);
    law_pages_are_all_requests(all);
    assert forall|k: nat| k < n implies {
        let page = #[trigger] nth_page(params, cache, k);
        &&& page.q == page_view(params, cache).q
        &&& page.has_next <==> k + 1 < n
        &&& page.has_next ==> page.reqs.len() == PAGE_SIZE
    } by {
        lemma_nth_page(params, cache, k);
        assert(k + 1 < n ==> page_of(all, k * PAGE_SIZE).len() == PAGE_SIZE);
    }
}

/// A page that is asked to start at or past the end is empty and is the last one.
pub proof fn law_start_past_the_end(params: Map<Seq<char>, Seq<char>>, cache: Seq<StoredView>)
    requires
        parsed_usize(param(params, "start"@)) is Some,
        parsed_usize(param(params, "start"@))->Some_0 >= page_view(params, cache).total_matched,
    ensures
        page_view(params, cache).reqs.len() == 0,
        page_view(params, cache).range_from == 0,
        !page_view(params, cache).has_next,
{
}

/// The place of the last request on a page is that of the first one plus the
/// number of requests between them, within the matches.
pub proof fn law_range_is_the_page(params: Map<Seq<char>, Seq<char>>, cache: Seq<StoredView>)
    ensures
        ({
            let page = page_view(params, cache);
            &&& page.reqs.len() <= PAGE_SIZE
            &&& page.start <= page.range_to <= page.total_matched
            &&& page.reqs.len() > 0 ==> page.range_to == page.range_from + page.reqs.len() - 1
            &&& page.has_next <==> page.range_to < page.total_matched
        }),
{
}

/// A search goes through the whole cache: a request is among the matches exactly
/// if it is recorded and its path holds the search text, in any case.
pub proof fn law_search_covers_the_cache(
    cache: Seq<StoredView>,
    q: Seq<char>,
    request: StoredView,
)
    ensures
        matched(cache, q).contains(request) <==> cache.contains(request) && found(request, q),
    decreases cache.len(),
{
    reveal(Seq::filter);
    if cache.len() > 0 {
        let rest = cache.drop_last();
        let last = cache.last();
        law_search_covers_the_cache(rest, q, request);
        lemma_contains_push(rest, last, request);
        lemma_contains_push(matched(rest, q), last, request);
        assert(rest.push(last) =~= cache);
    }
}

proof fn lemma_contains_push(s: Seq<StoredView>, last: StoredView, r: StoredView)
    ensures
        s.push(last).contains(r) <==> s.contains(r) || r == last,
{
    if s.contains(r) {
        let i = choose|i: int| 0 <= i < s.len() && s[i] == r;
        assert(s.push(last)[i] == r);
    }
    assert(s.push(last)[s.len() as int] == last);
    if s.push(last).contains(r) && r != last {
        let i = choose|i: int| 0 <= i < s.push(last).len() && s.push(last)[i] == r;
        assert(s[i] == r);
    }
}

/// An empty search finds every request.
pub proof fn law_empty_search_finds_all(cache: Seq<StoredView>)
    ensures
        matched(cache, Seq::empty()) == cache,
    decreases cache.len(),
{
    reveal(Seq::filter);
    let q = Seq::<char>::empty();
    if cache.len() > 0 {
        law_empty_search_finds_all(cache.drop_last());
        let path = lowercase(cache.last().path);
        assert(lowercase(q) =~= q);
        assert(path.subrange(0, 0int + lowercase(q).len()) =~= lowercase(q));
        assert(found(cache.last(), q));
        assert(cache.drop_last().push(cache.last()) =~= cache);
    }
}

/// Two searches in ASCII that differ only in the case of letters find the same.
pub proof fn law_search_ignores_case(cache: Seq<StoredView>, q: Seq<char>, other: Seq<char>)
    requires
        vstd::utf8::is_ascii_chars(q),
        vstd::utf8::is_ascii_chars(other),
        same_ignoring_ascii_case(q, other),
    ensures
        matched(cache, q) == matched(cache, other),
{
    assert((|r: StoredView| found(r, q)) =~= (|r: StoredView| found(r, other)));
}

/// A search finds a request exactly if the path, in lower case, is some text, then
/// the search text in lower case, then some text.
pub proof fn law_search_is_in_lower_case(request: StoredView, q: Seq<char>)
    ensures
        found(request, q) <==> exists|before: Seq<char>, after: Seq<char>|
            lowercase(request.path) == #[trigger] (before + lowercase(q) + after),
{
    law_occurring_is_standing_between(lowercase(q), lowercase(request.path));
}

/// A recorded request is found by its whole path, whatever that is.
pub proof fn law_search_finds_the_whole_path(cache: Seq<StoredView>, request: StoredView)
    requires
        cache.contains(request),
    ensures
        matched(cache, request.path).contains(request),
{
    let needle = lowercase(request.path);
    assert(needle == Seq::<char>::empty() + needle + Seq::<char>::empty()) by {
        assert(needle =~= Seq::<char>::empty() + needle + Seq::<char>::empty());
    }
    law_search_is_in_lower_case(request, request.path);
    law_search_covers_the_cache(cache, request.path, request);
}

/// A recorded request is found by any part of its path, the first, the last and the
/// whole included, with each letter in either case. Paths are in ASCII.
pub proof fn law_search_finds_any_part_of_the_path(
    cache: Seq<StoredView>,
    request: StoredView,
    before: Seq<char>,
    part: Seq<char>,
    after: Seq<char>,
    q: Seq<char>,
)
    requires
        cache.contains(request),
        request.path == before + part + after,
        vstd::utf8::is_ascii_chars(request.path),
        differ_in_case_only(part, q),
    ensures
        matched(cache, q).contains(request),
{
    law_case_is_compared_place_by_place(part, q);
    let path = request.path;
    let n = before.len() as int;
    assert forall|i: int| 0 <= i < q.len() implies '\0' <= #[trigger] q[i] <= '\u{7f}' by {
        assert(path[n + i] == part[i]);
        assert(part[i] == q[i] || crate::text::two_cases(part[i], q[i]));
    }
    assert(vstd::utf8::is_ascii_chars(q));
    assert(ascii_folded(path) =~= ascii_folded(before) + ascii_folded(part) + ascii_folded(after));
    assert(lowercase(path) == ascii_folded(before) + lowercase(q) + ascii_folded(after));
    law_search_is_in_lower_case(request, q);
    law_search_covers_the_cache(cache, q, request);
}

/// In ASCII, a search finds only recorded requests whose path has a part that
/// differs from the search text in case only.
pub proof fn law_search_finds_nothing_else(
    cache: Seq<StoredView>,
    q: Seq<char>,
    request: StoredView,
)
    requires
        matched(cache, q).contains(request),
        vstd::utf8::is_ascii_chars(request.path),
        vstd::utf8::is_ascii_chars(q),
    ensures
        cache.contains(request),
        exists|before: Seq<char>, part: Seq<char>, after: Seq<char>|
            request.path == #[trigger] (before + part + after) && differ_in_case_only(part, q),
{
    law_search_covers_the_cache(cache, q, request);
    law_search_is_in_lower_case(request, q);
    let path = request.path;
    let (a, b) = choose|a: Seq<char>, b: Seq<char>|
        lowercase(path) == #[trigger] (a + lowercase(q) + b);
    let n = a.len() as int;
    assert(lowercase(path).len() == path.len() && lowercase(q).len() == q.len());
    let before = path.take(n);
    let part = path.subrange(n, n + q.len());
    let after = path.skip(n + q.len());
    assert(path =~= before + part + after);
    assert forall|i: int| 0 <= i < q.len() implies ascii_folded(part)[i] == ascii_folded(q)[i] by {
        assert(lowercase(path)[n + i] == lowercase(q)[i]);
    }
    assert(ascii_folded(part) =~= ascii_folded(q));
    law_case_is_compared_place_by_place(part, q);
}

/// The matches stand in the order of the cache, a request that was recorded twice
/// twice: one more request adds itself behind the others if it is found, and nothing
/// otherwise.
pub proof fn law_matches_keep_the_order(cache: Seq<StoredView>, request: StoredView, q: Seq<char>)
    ensures
        matched(Seq::empty(), q) == Seq::<StoredView>::empty(),
        found(request, q) ==> matched(cache.push(request), q) == matched(cache, q).push(request),
        !found(request, q) ==> matched(cache.push(request), q) == matched(cache, q),
{
    reveal(Seq::filter);
    assert(cache.push(request).drop_last() =~= cache);
}

/// The search text is the parameter `q` without the white space around it, or
/// nothing; the page starts at the parameter `start` where that is a number, but not
/// past the end, and at 0 otherwise.
pub proof fn law_page_follows_its_parameters(
    params: Map<Seq<char>, Seq<char>>,
    cache: Seq<StoredView>,
)
    ensures
        ({
            let page = page_view(params, cache);
            &&& page.q == (if params.dom().contains("q"@) {
                trimmed(params["q"@])
            } else {
                Seq::empty()
            })
            &&& !params.dom().contains("start"@) ==> page.start == 0
            &&& params.dom().contains("start"@) && parsed_usize(params["start"@]) is None
                ==> page.start == 0
            &&& forall|n: usize|
                params.dom().contains("start"@) && parsed_usize(params["start"@]) == Some(n)
                    ==> page.start == (if (n as nat) < page.total_matched {
                    n as nat
                } else {
                    page.total_matched
                })
        }),
{
    assert(parsed_usize(Seq::empty()) is None);
}

/// A page counts all requests and all matches, and shows up to 10 matches one by
/// one from the newest but `start` on.
pub proof fn law_page_shows_its_matches(params: Map<Seq<char>, Seq<char>>, cache: Seq<StoredView>)
    ensures
        ({
            let page = page_view(params, cache);
            let all = matched(cache, page.q);
            let left = page.total_matched - page.start;
            &&& page.req_count == cache.len()
            &&& page.total_matched == all.len()
            &&& left >= 0
            &&& page.reqs.len() == (if left < 10 {
                left
            } else {
                10
            })
            &&& forall|i: int|
                0 <= i < page.reqs.len() ==> #[trigger] page.reqs[i] == all[all.len() - 1
                    - page.start - i]
        }),
{
}

/// A page says which matches it shows, where its neighbours start and whether there
/// are any.
pub proof fn law_page_says_where_it_is(params: Map<Seq<char>, Seq<char>>, cache: Seq<StoredView>)
    ensures
        ({
            let page = page_view(params, cache);
            &&& page.reqs.len() == 0 ==> page.range_from == 0
            &&& page.reqs.len() > 0 ==> page.range_from == page.start + 1
            &&& page.range_to == page.start + page.reqs.len()
            &&& page.prev_page == (if page.start < 10 {
                0
            } else {
                page.start - 10
            })
            &&& page.next_page == page.start + 10
            &&& page.has_prev <==> page.start > 0
            &&& page.has_next <==> page.start + 10 < page.total_matched
        }),
{
}

/// A link to a page is written out of the search text of the page and a start, and
/// what a page offers for it is the encoded search text.
pub proof fn law_page_link_is_written_from_the_page(
    params: Map<Seq<char>, Seq<char>>,
    cache: Seq<StoredView>,
    start: usize,
)
    ensures
        page_view(params, cache).q_encoded == form_encoded(
            vstd::utf8::encode_utf8(page_view(params, cache).q),
        ),
        "/admin?q="@ + page_view(params, cache).q_encoded + "&start="@ + decimal(start as nat)
            == page_link(page_view(params, cache).q, start),
{
    reveal_strlit("/admin?q=");
    reveal_strlit("&start=");
    reveal_strlit("/admin?");
    reveal_strlit("q");
    reveal_strlit("start");
    reveal_with_fuel(form_text, 2);
    let q = page_view(params, cache).q;
    let enc = form_encoded(vstd::utf8::encode_utf8(q));
    let sp = link_spellings(q, start);
    assert(sp.drop_last() =~= seq![("q"@, enc)]);
    assert("/admin?q="@ + enc + "&start="@ + decimal(start as nat) =~= page_link(q, start));
}

} // verus!
