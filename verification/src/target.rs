//! Request targets: the path and the query of the URL that a request names.

use vstd::prelude::*;
use url::form_urlencoded;
use url::Url;
use crate::string_map::StringMap;

verus! {

/// The URL that request targets are resolved against.
pub const BASE_URL: &'static str = "http://reqsink.local/";

/// Why a request cannot be handled.
#[derive(Debug, Clone, Copy, PartialEq, Eq, Structural)]
pub enum RequestError {
    /// The request target is not a URL.
    BadTarget,
    /// The path of the request target has no segments.
    NoSegments,
    /// A static file is not text.
    NotText,
    /// The clock shows a time that has no RFC 2822 form.
    ClockOutOfRange,
}

/// The path and the query of a request target.
pub ghost struct TargetView {
    pub path: Seq<char>,
    pub query: Option<Seq<char>>,
}

/// The path of a request target, percent-encoded, and what stands between `?` and
/// the fragment, if there is a `?`.
#[derive(Debug)]
pub struct RequestTarget {
    pub path: String,
    pub query: Option<String>,
}

/// The text in an option.
pub open spec fn option_view(s: Option<String>) -> Option<Seq<char>> {
    match s {
        Some(s) => Some(s@),
        None => None,
    }
}

impl View for RequestTarget {
    type V = TargetView;

    open spec fn view(&self) -> TargetView {
        TargetView { path: self.path@, query: option_view(self.query) }
    }
}

pub open spec fn alphanumeric(c: char) -> bool {
    ('a' <= c && c <= 'z') || ('A' <= c && c <= 'Z') || ('0' <= c && c <= '9')
}

/// What stands before the first `?`.
pub open spec fn path_part(target: Seq<char>) -> Seq<char>
    decreases target.len(),
{
    if target.len() == 0 || target[0] == '?' {
        Seq::empty()
    } else {
        seq![target[0]] + path_part(target.skip(1))
    }
}

/// What stands after the first `?`, if there is one.
pub open spec fn query_part(target: Seq<char>) -> Option<Seq<char>>
    decreases target.len(),
{
    if target.len() == 0 {
        None
    } else if target[0] == '?' {
        Some(target.skip(1))
    } else {
        query_part(target.skip(1))
    }
}

/// A path that names itself: one leading slash, no character that would be
/// encoded, no segment that starts with a dot.
pub open spec fn plain_path(path: Seq<char>) -> bool {
    &&& path.len() > 0 && path[0] == '/'
    &&& forall|i: int|
        1 <= i < path.len() ==> {
            let c = #[trigger] path[i];
            ||| alphanumeric(c) || c == '-' || c == '_' || c == '~'
            ||| (c == '/' || c == '.') && path[i - 1] != '/'
        }
}

/// A query without a character that would be encoded or end it.
pub open spec fn plain_query(query: Seq<char>) -> bool {
    forall|i: int|
        0 <= i < query.len() ==> {
            let c = #[trigger] query[i];
            alphanumeric(c) || c == '-' || c == '_' || c == '~' || c == '.' || c == '*' || c == '/'
                || c == '+' || c == '%' || c == '=' || c == '&'
        }
}

/// The longest text that counts as a plain target.
pub const PLAIN_TARGET_MAX: u64 = 0xffff_0000;

/// A target that is a plain path, or a plain path and a plain query.
pub open spec fn plain_target(target: Seq<char>) -> bool {
    &&& target.len() <= PLAIN_TARGET_MAX
    &&& plain_path(path_part(target))
    &&& match query_part(target) {
        Some(query) => plain_query(query),
        None => true,
    }
}

/// What `Url::join` makes of a reference, by its path and its query, on a base
/// given as text; `None` where the base or the reference is not a URL.
pub uninterp spec fn url_joined(base: Seq<char>, target: Seq<char>) -> Option<TargetView>;

/// The error of `Url::parse` and `Url::join`, carried but not looked into.
#[verifier::external_type_specification]
#[verifier::external_body]
pub struct ExParseError(url::ParseError);

/// `Url::join` on `Url::parse` of the base, with the path and the query of what
/// comes out. The outcome depends on the two texts alone. A plain target joined
/// to the base of this server gives its own path and its own query.
#[verifier::external_body]
fn join_url(base: &str, target: &str) -> (r: Result<RequestTarget, url::ParseError>)
    ensures
        (match r {
            Ok(t) => Some(t@),
            Err(_) => None,
        }) == (if base@ == BASE_URL@ && plain_target(target@) {
            Some(TargetView { path: path_part(target@), query: query_part(target@) })
        } else {
            url_joined(base@, target@)
        }),
{
    let url = Url::parse(base)?.join(target)?;
    Ok(RequestTarget { path: url.path().to_string(), query: url.query().map(str::to_string) })
}

/// The path and the query of a request target; `None` where it is not a URL.
pub open spec fn resolved(target: Seq<char>) -> Option<TargetView> {
    if plain_target(target) {
        Some(TargetView { path: path_part(target), query: query_part(target) })
    } else {
        url_joined(BASE_URL@, target)
    }
}

/// Resolves a request target.
pub fn resolve(target: &str) -> (r: Result<RequestTarget, RequestError>)
    ensures
        match r {
            Ok(t) => resolved(target@) == Some(t@),
            Err(e) => resolved(target@) is None && e == RequestError::BadTarget,
        },
{
    match join_url(BASE_URL, target) {
        Ok(t) => Ok(t),
        Err(_) => Err(RequestError::BadTarget),
    }
}

/// A path and a query as a request target.
pub open spec fn target_text(path: Seq<char>, query: Option<Seq<char>>) -> Seq<char> {
    match query {
        Some(query) => path + seq!['?'] + query,
        None => path,
    }
}

proof fn lemma_parts(path: Seq<char>, query: Option<Seq<char>>)
    requires
        forall|i: int| 0 <= i < path.len() ==> #[trigger] path[i] != '?',
    ensures
        path_part(target_text(path, query)) == path,
        query_part(target_text(path, query)) == query,
    decreases path.len(),
{
    let all = target_text(path, query);
    if path.len() == 0 {
        assert(path_part(all) =~= path);
        if let Some(q) = query {
            assert(all.skip(1) =~= q);
        }
    } else {
        lemma_parts(path.skip(1), query);
        assert(all.skip(1) =~= target_text(path.skip(1), query));
        assert(seq![path[0]] + path.skip(1) =~= path);
    }
}

/// A plain path, alone or with a plain query, is resolved to itself.
pub proof fn law_plain_target_resolves(path: Seq<char>, query: Option<Seq<char>>)
    requires
        plain_path(path),
        query is Some ==> plain_query(query->Some_0),
        target_text(path, query).len() <= PLAIN_TARGET_MAX,
    ensures
        resolved(target_text(path, query)) == Some(TargetView { path, query }),
{
    lemma_parts(path, query);
}

/// Bytes that the form encoding keeps.
pub open spec fn form_kept(b: u8) -> bool {
    alphanumeric(b as char) || b as char == '*' || b as char == '-' || b as char == '.' || b as char
        == '_'
}

pub open spec fn hex_digit(n: u8) -> char {
    if n < 10 {
        (48 + n) as char
    } else {
        (55 + n) as char
    }
}

/// The `application/x-www-form-urlencoded` form of some bytes: a space becomes
/// `+`, and any other byte that is not kept becomes `%` and two hexadecimal digits.
pub open spec fn form_encoded(bytes: Seq<u8>) -> Seq<char>
    decreases bytes.len(),
{
    if bytes.len() == 0 {
        Seq::empty()
    } else {
        let b = bytes.last();
        form_encoded(bytes.drop_last()) + if form_kept(b) {
            seq![b as char]
        } else if b == 32 {
            seq!['+']
        } else {
            seq!['%', hex_digit(b / 16), hex_digit(b % 16)]
        }
    }
}

/// `form_urlencoded::byte_serialize` on the UTF-8 bytes of a text: their form encoding.
#[verifier::external_body]
pub(crate) fn form_encode(text: &str) -> (r: String)
    ensures
        r@ == form_encoded(vstd::utf8::encode_utf8(text@)),
{
    form_urlencoded::byte_serialize(text.as_bytes()).collect()
}

/// A text that stands for itself in a form: letters, digits and a few signs.
pub open spec fn form_literal(text: Seq<char>) -> bool {
    forall|i: int|
        0 <= i < text.len() ==> {
            let c = #[trigger] text[i];
            alphanumeric(c) || c == '*' || c == '-' || c == '.' || c == '_' || c == '/'
        }
}

/// Whether `spelling` is a way to write `text` in a form: its form encoding, or
/// the text itself where it is literal.
pub open spec fn spells(spelling: Seq<char>, text: Seq<char>) -> bool {
    spelling == form_encoded(vstd::utf8::encode_utf8(text)) || (spelling == text && form_literal(
        text,
    ))
}

/// Whether the spellings are ways to write the names and values of `pairs`.
pub open spec fn spell_pairs(
    spellings: Seq<(Seq<char>, Seq<char>)>,
    pairs: Seq<(Seq<char>, Seq<char>)>,
) -> bool {
    &&& spellings.len() == pairs.len()
    &&& forall|i: int|
        0 <= i < pairs.len() ==> spells((#[trigger] spellings[i]).0, pairs[i].0) && spells(
            spellings[i].1,
            pairs[i].1,
        )
}

/// Spelled names and values as one form: `name=value`, joined by `&`.
pub open spec fn form_text(spellings: Seq<(Seq<char>, Seq<char>)>) -> Seq<char>
    decreases spellings.len(),
{
    if spellings.len() == 0 {
        Seq::empty()
    } else {
        let one = spellings.last().0 + seq!['='] + spellings.last().1;
        if spellings.len() == 1 {
            one
        } else {
            form_text(spellings.drop_last()) + seq!['&'] + one
        }
    }
}

/// The names and values that `form_urlencoded::parse` finds in a text.
pub uninterp spec fn form_pairs(form: Seq<char>) -> Seq<(Seq<char>, Seq<char>)>;

/// The texts in a list of pairs.
pub open spec fn pairs_view(pairs: Seq<(String, String)>) -> Seq<(Seq<char>, Seq<char>)> {
    pairs.map_values(|p: (String, String)| (p.0@, p.1@))
}

/// `form_urlencoded::parse` on the UTF-8 bytes of a text. The pairs depend on the
/// text alone, and a form that was written from some pairs is read back as them.
#[verifier::external_body]
fn parse_form(form: &str) -> (r: Vec<(String, String)>)
    ensures
        pairs_view(r@) == form_pairs(form@),
        forall|spellings: Seq<(Seq<char>, Seq<char>)>, pairs: Seq<(Seq<char>, Seq<char>)>| #[trigger]
            spell_pairs(spellings, pairs) && form@ == form_text(spellings) ==> pairs_view(r@)
                == pairs,
{
    form_urlencoded::parse(form.as_bytes()).into_owned().collect()
}

/// The map that a list of pairs stands for: of two pairs with the same name the
/// later one counts.
pub open spec fn pairs_map(pairs: Seq<(Seq<char>, Seq<char>)>) -> Map<Seq<char>, Seq<char>>
    decreases pairs.len(),
{
    if pairs.len() == 0 {
        Map::empty()
    } else {
        pairs_map(pairs.drop_last()).insert(pairs.last().0, pairs.last().1)
    }
}

/// The text that holds the parameters of a target.
pub open spec fn form_of(target: TargetView) -> Seq<char> {
    match target.query {
        Some(query) => query,
        None => Seq::empty(),
    }
}

/// The parameters of a query, percent-decoded and `+`-unescaped.
pub fn get_param_map(target: &RequestTarget) -> (r: StringMap<String>)
    ensures
        r@ == pairs_map(form_pairs(form_of(target@))),
        forall|spellings: Seq<(Seq<char>, Seq<char>)>, pairs: Seq<(Seq<char>, Seq<char>)>| #[trigger]
            spell_pairs(spellings, pairs) && form_of(target@) == form_text(spellings) ==> r@
                == pairs_map(pairs),
        target.query matches Some(query) ==> r@ == pairs_map(form_pairs(query@)),
        target.query is None ==> r@ == Map::<Seq<char>, Seq<char>>::empty(),
{
    let pairs = match &target.query {
        Some(query) => parse_form(query.as_str()),
        None => {
            let empty = String::new();
            let pairs = parse_form(empty.as_str());
            proof {
                let none = Seq::<(Seq<char>, Seq<char>)>::empty();
                assert(spell_pairs(none, none));
                assert(form_text(none) =~= empty@);
            }
            pairs
        },
    };
    let ghost all = pairs_view(pairs@);
    let mut r: StringMap<String> = StringMap::new();
    let mut i: usize = 0;
    while i < pairs.len()
        invariant
            i <= pairs@.len(),
            all == pairs_view(pairs@),
            r@ == pairs_map(all.take(i as int)),
        decreases pairs@.len() - i,
    {
        proof {
            assert(all.take(i + 1).drop_last() =~= all.take(i as int));
        }
        r.insert(pairs[i].0.clone(), pairs[i].1.clone());
        i += 1;
    }
    assert(all.take(all.len() as int) =~= all);
    r
}

/// Of the pairs with one name, the last one counts.
pub proof fn law_the_last_pair_counts(pairs: Seq<(Seq<char>, Seq<char>)>, i: int)
    requires
        0 <= i < pairs.len(),
        forall|j: int| i < j < pairs.len() ==> (#[trigger] pairs[j]).0 != pairs[i].0,
    ensures
        pairs_map(pairs).dom().contains(pairs[i].0),
        pairs_map(pairs)[pairs[i].0] == pairs[i].1,
    decreases pairs.len(),
{
    let rest = pairs.drop_last();
    if i < rest.len() {
        assert(pairs[rest.len() as int].0 != pairs[i].0);
        assert forall|j: int| i < j < rest.len() implies (#[trigger] rest[j]).0 != rest[i].0 by {
            assert(pairs[j].0 != pairs[i].0);
        }
        law_the_last_pair_counts(rest, i);
    }
}

/// Pairs stand for a map with their names and no others.
pub proof fn law_pairs_name_what_they_name(pairs: Seq<(Seq<char>, Seq<char>)>, name: Seq<char>)
    ensures
        pairs_map(pairs).dom().contains(name) <==> exists|i: int|
            0 <= i < pairs.len() && (#[trigger] pairs[i]).0 == name,
    decreases pairs.len(),
{
    if pairs.len() > 0 {
        let rest = pairs.drop_last();
        law_pairs_name_what_they_name(rest, name);
        if pairs.last().0 == name {
            assert(pairs[pairs.len() - 1].0 == name);
        }
        if exists|i: int| 0 <= i < rest.len() && (#[trigger] rest[i]).0 == name {
            let i = choose|i: int| 0 <= i < rest.len() && (#[trigger] rest[i]).0 == name;
            assert(pairs[i].0 == name);
        }
        if exists|i: int| 0 <= i < pairs.len() && (#[trigger] pairs[i]).0 == name {
            let i = choose|i: int| 0 <= i < pairs.len() && (#[trigger] pairs[i]).0 == name;
            if i < rest.len() {
                assert(rest[i].0 == name);
            }
        }
    }
}

/// Any other target than a plain one is resolved as `Url::join` resolves it against
/// the address of the server.
pub proof fn law_other_targets_are_joined(target: Seq<char>)
    requires
        !plain_target(target),
    ensures
        resolved(target) == url_joined("http://reqsink.local/"@, target),
{
}

/// The parameters of a target are read from its query, and a target without a query
/// has none to read.
pub proof fn law_parameters_are_in_the_query(path: Seq<char>, query: Seq<char>)
    ensures
        form_of(TargetView { path, query: Some(query) }) == query,
        form_of(TargetView { path, query: None }) == Seq::<char>::empty(),
{
}

/// The form encoding goes byte by byte: letters, digits and `*-._` stay, a space
/// becomes `+`, and any other byte becomes `%` and its value in hexadecimal.
pub proof fn law_form_encoding_goes_byte_by_byte(bytes: Seq<u8>, b: u8)
    ensures
        form_encoded(Seq::empty()) == Seq::<char>::empty(),
        ({
            let one = form_encoded(bytes.push(b)).skip(form_encoded(bytes).len() as int);
            let c = b as char;
            let kept = ('a' <= c && c <= 'z') || ('A' <= c && c <= 'Z') || ('0' <= c && c <= '9')
                || c == '*' || c == '-' || c == '.' || c == '_';
            &&& form_encoded(bytes.push(b)) == form_encoded(bytes) + one
            &&& kept ==> one == seq![c]
            &&& c == ' ' ==> one == seq!['+']
            &&& !kept && c != ' ' ==> one.len() == 3 && one[0] == '%' && b == 16 * hex_value(one[1])
                + hex_value(one[2])
        }),
{
    assert(bytes.push(b).drop_last() =~= bytes);
    let one = form_encoded(bytes.push(b)).skip(form_encoded(bytes).len() as int);
    let last = if form_kept(b) {
        seq![b as char]
    } else if b == 32 {
        seq!['+']
    } else {
        seq!['%', hex_digit(b / 16), hex_digit(b % 16)]
    };
    assert(form_encoded(bytes.push(b)) == form_encoded(bytes) + last);
    assert(one =~= last);
    assert(b == 16 * (b / 16) + b % 16);
}

/// The value of an upper-case hexadecimal digit.
pub open spec fn hex_value(c: char) -> int {
    if '0' <= c && c <= '9' {
        c as int - 48
    } else if 'A' <= c && c <= 'F' {
        c as int - 55
    } else {
        -1000
    }
}

} // verus!
