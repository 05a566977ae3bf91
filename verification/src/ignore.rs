//! Rules describing which requests are not recorded in the request cache.
//!
//! Ignoring a request only suppresses recording: the response is produced
//! exactly as it would be otherwise.

use vstd::prelude::*;
use crate::text::{char_vec, eq_ignore_ascii_case, text_eq};
#[allow(unused_imports)]
use crate::text::{
    ascii_folded, differ_in_case_only, law_case_is_compared_place_by_place, same_ignoring_ascii_case,
};

verus! {

/// The method of a rule that names none: it matches any method.
pub fn any_method() -> (r: String)
    ensures
        r@ == "*"@,
{
    "*".to_string()
}

/// What an ignore rule says.
pub ghost struct RuleView {
    pub method: Seq<char>,
    pub path: Seq<char>,
}

/// A single ignore rule.
///
/// `method` is matched case-insensitively and may be `*` to match any HTTP
/// method. `path` is matched against the request path with `*` acting as a
/// wildcard for any sequence of characters, including `/`.
#[derive(Debug, Clone)]
pub struct IgnoreRule {
    pub method: String,
    pub path: String,
}

impl View for IgnoreRule {
    type V = RuleView;

    open spec fn view(&self) -> RuleView {
        RuleView { method: self.method@, path: self.path@ }
    }
}

/// Whether a rule applies to a request. Paths are case-sensitive; methods are not.
pub open spec fn rule_matches(rule: RuleView, method: Seq<char>, path: Seq<char>) -> bool {
    (rule.method == "*"@ || same_ignoring_ascii_case(rule.method, method)) && glob(rule.path, path)
}

impl IgnoreRule {
    pub fn new(method: &str, path: &str) -> (r: Self)
        ensures
            r@ == (RuleView { method: method@, path: path@ }),
            r.method@ == method@,
            r.path@ == path@,
    {
        IgnoreRule { method: method.to_string(), path: path.to_string() }
    }

    pub fn matches(&self, method: &str, path: &str) -> (r: bool)
        ensures
            r == rule_matches(self@, method@, path@),
            self.method@ == seq!['*'] || differ_in_case_only(self.method@, method@) ==> r == fits(
                self.path@,
                path@,
            ),
            self.method@ != seq!['*'] && !differ_in_case_only(self.method@, method@) ==> !r,
    {
        proof {
            law_a_rule_applies_by_method_and_path(self@, method@, path@);
        }
        (text_eq(self.method.as_str(), "*") || eq_ignore_ascii_case(self.method.as_str(), method))
            && glob_match(self.path.as_str(), path)
    }
}

/// What each of several rules says.
pub open spec fn rules_view(rules: Seq<IgnoreRule>) -> Seq<RuleView> {
    rules.map_values(|r: IgnoreRule| r@)
}

/// What the built-in rules say.
pub open spec fn default_rules_view() -> Seq<RuleView> {
    seq![
        RuleView { method: "GET"@, path: "/favicon.ico"@ },
        RuleView { method: "GET"@, path: "/"@ },
    ]
}

/// The rules applied unless the built-in ones are turned off. These are the
/// requests browsers send unprompted and that would otherwise flood the cache.
pub fn default_rules() -> (r: Vec<IgnoreRule>)
    ensures
        rules_view(r@) == default_rules_view(),
{
    let mut r: Vec<IgnoreRule> = Vec::new();
    r.push(IgnoreRule::new("GET", "/favicon.ico"));
    r.push(IgnoreRule::new("GET", "/"));
    assert(rules_view(r@) =~= default_rules_view());
    r
}

/// The active rule set: the built-in rules, if they are in use, followed by the
/// rules read from the rules file, if there is one.
pub fn load_rules(file_rules: Option<Vec<IgnoreRule>>, use_defaults: bool) -> (r: Vec<IgnoreRule>)
    ensures
        rules_view(r@) == (if use_defaults {
            default_rules_view()
        } else {
            Seq::<RuleView>::empty()
        }) + (match file_rules {
            Some(rules) => rules_view(rules@),
            None => Seq::<RuleView>::empty(),
        }),
        r@.len() == (if use_defaults {
            2
        } else {
            0int
        }) + (match file_rules {
            Some(rules) => rules@.len(),
            None => 0,
        }),
        forall|method: Seq<char>, path: Seq<char>| #[trigger]
            ignored(rules_view(r@), method, path) <==> (use_defaults && ignored(
                default_rules_view(),
                method,
                path,
            )) || (file_rules is Some && ignored(
                rules_view(file_rules->Some_0@),
                method,
                path,
            )),
{
    let mut r: Vec<IgnoreRule> = if use_defaults {
        default_rules()
    } else {
        Vec::new()
    };
    let ghost base = rules_view(r@);
    match file_rules {
        Some(rules) => {
            let mut rest = rules;
            r.append(&mut rest);
            assert(rules_view(r@) =~= base + rules_view(rules@));
        },
        None => {
            assert(base =~= base + Seq::<RuleView>::empty());
        },
    }
    assert(!use_defaults ==> base =~= Seq::<RuleView>::empty());
    proof {
        assert forall|method: Seq<char>, path: Seq<char>| #[trigger]
            ignored(rules_view(r@), method, path) <==> (use_defaults && ignored(
                default_rules_view(),
                method,
                path,
            )) || (file_rules is Some && ignored(
                rules_view(file_rules->Some_0@),
                method,
                path,
            )) by {
            law_no_rules(method, path);
            match file_rules {
                Some(rules) => law_appended_rules_add(base, rules_view(rules@), method, path),
                None => {},
            }
        }
    }
    r
}

/// Whether some rule applies to a request.
pub open spec fn ignored(rules: Seq<RuleView>, method: Seq<char>, path: Seq<char>) -> bool {
    exists|i: int| 0 <= i < rules.len() && rule_matches(#[trigger] rules[i], method, path)
}

pub fn is_ignored(rules: &[IgnoreRule], method: &str, path: &str) -> (r: bool)
    ensures
        r == ignored(rules_view(rules@), method@, path@),
{
    let ghost all = rules_view(rules@);
    let mut i: usize = 0;
    while i < rules.len()
        invariant
            i <= rules@.len(),
            all == rules_view(rules@),
            forall|j: int| 0 <= j < i ==> !rule_matches(#[trigger] all[j], method@, path@),
        decreases rules@.len() - i,
    {
        if rules[i].matches(method, path) {
            assert(rule_matches(all[i as int], method@, path@));
            return true;
        }
        assert(all[i as int] == rules@[i as int]@);
        i += 1;
    }
    false
}

/// Whether `text` matches `pattern`, where `*` stands for any run of characters,
/// the empty one included, and any other character stands for itself.
pub open spec fn glob(pattern: Seq<char>, text: Seq<char>) -> bool
    decreases pattern.len(), text.len(),
{
    if pattern.len() == 0 {
        text.len() == 0
    } else if pattern[0] == '*' {
        glob(pattern.skip(1), text) || (text.len() > 0 && glob(pattern, text.skip(1)))
    } else {
        text.len() > 0 && text[0] == pattern[0] && glob(pattern.skip(1), text.skip(1))
    }
}

/// A leading `*` may give up some of the text before what follows it.
proof fn lemma_star_absorbs(pattern: Seq<char>, text: Seq<char>, from: int, to: int)
    requires
        pattern.len() > 0,
        pattern[0] == '*',
        0 <= from <= to <= text.len(),
        glob(pattern, text.skip(to)),
    ensures
        glob(pattern, text.skip(from)),
    decreases to - from,
{
    if from < to {
        lemma_star_absorbs(pattern, text, from + 1, to);
        assert(text.skip(from).skip(1) =~= text.skip(from + 1));
    }
}

/// What a leading `*` stands for: some run of characters, after which the rest matches.
proof fn lemma_star_choice(pattern: Seq<char>, text: Seq<char>, from: int) -> (at: int)
    requires
        pattern.len() > 0,
        pattern[0] == '*',
        0 <= from <= text.len(),
        glob(pattern, text.skip(from)),
    ensures
        from <= at <= text.len(),
        glob(pattern.skip(1), text.skip(at)),
    decreases text.len() - from,
{
    if glob(pattern.skip(1), text.skip(from)) {
        from
    } else {
        assert(text.skip(from).skip(1) =~= text.skip(from + 1));
        lemma_star_choice(pattern, text, from + 1)
    }
}

/// A stretch of the pattern without `*` matches exactly itself.
proof fn lemma_literal(pattern: Seq<char>, text: Seq<char>, pi: int, pj: int, ti: int)
    requires
        0 <= pi <= pj <= pattern.len(),
        0 <= ti <= text.len(),
        forall|k: int| pi <= k < pj ==> pattern[k] != '*',
    ensures
        glob(pattern.skip(pi), text.skip(ti)) <==> (ti + (pj - pi) <= text.len()
            && pattern.subrange(pi, pj) == text.subrange(ti, ti + (pj - pi))
            && glob(pattern.skip(pj), text.skip(ti + (pj - pi)))),
    decreases pj - pi,
{
    let n = pj - pi;
    if n == 0 {
        assert(pattern.subrange(pi, pj) =~= text.subrange(ti, ti + n));
    } else {
        assert(pattern.skip(pi)[0] == pattern[pi]);
        assert(pattern.skip(pi).skip(1) =~= pattern.skip(pi + 1));
        if ti < text.len() {
            assert(text.skip(ti).skip(1) =~= text.skip(ti + 1));
            lemma_literal(pattern, text, pi + 1, pj, ti + 1);
            if ti + n <= text.len() {
                let a = pattern.subrange(pi, pj);
                let b = text.subrange(ti, ti + n);
                assert(a.skip(1) =~= pattern.subrange(pi + 1, pj));
                assert(b.skip(1) =~= text.subrange(ti + 1, ti + n));
                if a.skip(1) == b.skip(1) && a[0] == b[0] {
                    assert forall|k: int| 0 <= k < a.len() implies a[k] == b[k] by {
                        if k > 0 {
                            assert(a.skip(1)[k - 1] == b.skip(1)[k - 1]);
                        }
                    }
                    assert(a =~= b);
                }
            }
        }
    }
}

/// Wildcard match supporting `*` only, with backtracking.
pub fn glob_match(pattern: &str, text: &str) -> (r: bool)
    ensures
        r == glob(pattern@, text@),
{
    let p = char_vec(pattern);
    let t = char_vec(text);

    let mut pi: usize = 0;
    let mut ti: usize = 0;
    // Position of the most recent `*` in the pattern, and how much of the text
    // it was assumed to consume, so we can backtrack and let it consume more.
    let mut star: Option<usize> = None;
    let mut star_ti: usize = 0;
    // Where the literal stretch under comparison starts in the pattern.
    let ghost mut lit: int = 0;

    proof {
        assert(p@.skip(0) =~= p@);
        assert(t@.skip(0) =~= t@);
    }
    while ti < t.len()
        invariant
            p@ == pattern@,
            t@ == text@,
            0 <= lit <= pi <= p@.len(),
            star_ti <= ti <= t@.len(),
            pi - lit == ti - star_ti,
            forall|k: int| lit <= k < pi ==> p@[k] != '*',
            p@.subrange(lit, pi as int) == t@.subrange(star_ti as int, ti as int),
            match star {
                Some(s) => lit == s + 1 && p@[s as int] == '*' && (glob(p@, t@) <==> glob(
                    p@.skip(s as int),
                    t@.skip(star_ti as int),
                )),
                None => lit == 0 && star_ti == 0,
            },
        decreases p@.len() - lit, t@.len() - star_ti, t@.len() - ti,
    {
        let ghost at_pi = p@.skip(pi as int);
        proof {
            lemma_literal(p@, t@, lit, pi as int, star_ti as int);
            assert(star is None ==> (glob(p@, t@) <==> glob(at_pi, t@.skip(ti as int)))) by {
                assert(p@.skip(0) =~= p@);
                assert(t@.skip(0) =~= t@);
            }
        }
        if pi < p.len() && p[pi] == '*' {
            proof {
                if let Some(s) = star {
                    let head = p@.skip(s as int);
                    assert(head[0] == '*');
                    assert(head.skip(1) =~= p@.skip(lit));
                    if glob(head, t@.skip(star_ti as int)) {
                        let k = lemma_star_choice(head, t@, star_ti as int);
                        lemma_literal(p@, t@, lit, pi as int, k);
                        lemma_star_absorbs(at_pi, t@, ti as int, k + (pi - lit));
                    }
                    if glob(at_pi, t@.skip(ti as int)) {
                        assert(glob(head.skip(1), t@.skip(star_ti as int)));
                    }
                }
                lit = pi + 1;
            }
            star = Some(pi);
            star_ti = ti;
            pi += 1;
            proof {
                assert(p@.subrange(lit, pi as int) =~= t@.subrange(star_ti as int, ti as int));
            }
        } else if pi < p.len() && p[pi] == t[ti] {
            proof {
                assert(p@.subrange(lit, pi + 1) =~= p@.subrange(lit, pi as int).push(p@[pi as int]));
                assert(t@.subrange(star_ti as int, ti + 1) =~= t@.subrange(star_ti as int, ti as int).push(
                    t@[ti as int],
                ));
            }
            pi += 1;
            ti += 1;
        } else if let Some(s) = star {
            proof {
                let head = p@.skip(s as int);
                assert(head[0] == '*');
                assert(head.skip(1) =~= p@.skip(lit));
                assert(!glob(at_pi, t@.skip(ti as int)));
                assert(t@.skip(star_ti as int).skip(1) =~= t@.skip(star_ti + 1));
            }
            star_ti += 1;
            ti = star_ti;
            pi = s + 1;
            proof {
                assert(p@.subrange(lit, pi as int) =~= t@.subrange(star_ti as int, ti as int));
            }
        } else {
            return false;
        }
    }
    proof {
        lemma_literal(p@, t@, lit, pi as int, star_ti as int);
        assert(p@.skip(0) =~= p@);
        assert(t@.skip(0) =~= t@);
        if let Some(s) = star {
            let head = p@.skip(s as int);
            assert(head[0] == '*');
            assert(head.skip(1) =~= p@.skip(lit));
            if glob(head, t@.skip(star_ti as int)) {
                let k = lemma_star_choice(head, t@, star_ti as int);
                lemma_literal(p@, t@, lit, pi as int, k);
            }
        }
        assert(t@.skip(ti as int) =~= Seq::<char>::empty());
    }
    while pi < p.len() && p[pi] == '*'
        invariant
            p@ == pattern@,
            pi <= p@.len(),
            glob(pattern@, text@) <==> glob(p@.skip(pi as int), Seq::<char>::empty()),
        decreases p@.len() - pi,
    {
        proof {
            assert(p@.skip(pi as int).skip(1) =~= p@.skip(pi + 1));
        }
        pi += 1;
    }
    pi == p.len()
}

/// The number of wildcards in a pattern.
pub open spec fn star_count(pattern: Seq<char>) -> nat
    decreases pattern.len(),
{
    if pattern.len() == 0 {
        0
    } else if pattern[0] == '*' {
        1 + star_count(pattern.skip(1))
    } else {
        star_count(pattern.skip(1))
    }
}

/// A pattern with its wildcards replaced, from left to right, by the given runs.
pub open spec fn filled(pattern: Seq<char>, runs: Seq<Seq<char>>) -> Seq<char>
    decreases pattern.len(),
{
    if pattern.len() == 0 {
        Seq::empty()
    } else if pattern[0] == '*' {
        runs[0] + filled(pattern.skip(1), runs.skip(1))
    } else {
        seq![pattern[0]] + filled(pattern.skip(1), runs)
    }
}

/// A text matches a pattern exactly if it is the pattern with each `*` replaced
/// by some run of characters.
pub proof fn law_glob_is_substitution(pattern: Seq<char>, text: Seq<char>)
    ensures
        glob(pattern, text) <==> exists|runs: Seq<Seq<char>>|
            runs.len() == star_count(pattern) && #[trigger] filled(pattern, runs) == text,
{
    if glob(pattern, text) {
        let runs = lemma_runs_of(pattern, text);
        assert(filled(pattern, runs) == text);
    }
    if exists|runs: Seq<Seq<char>>|
        runs.len() == star_count(pattern) && #[trigger] filled(pattern, runs) == text {
        let runs = choose|runs: Seq<Seq<char>>|
            runs.len() == star_count(pattern) && #[trigger] filled(pattern, runs) == text;
        lemma_filled_matches(pattern, runs);
    }
}

proof fn lemma_runs_of(pattern: Seq<char>, text: Seq<char>) -> (runs: Seq<Seq<char>>)
    requires
        glob(pattern, text),
    ensures
        runs.len() == star_count(pattern),
        filled(pattern, runs) == text,
    decreases pattern.len(),
{
    if pattern.len() == 0 {
        assert(text =~= Seq::<char>::empty());
        Seq::empty()
    } else if pattern[0] == '*' {
        assert(text.skip(0) =~= text);
        let at = lemma_star_choice(pattern, text, 0);
        let rest = lemma_runs_of(pattern.skip(1), text.skip(at));
        let runs = seq![text.take(at)] + rest;
        assert(runs.skip(1) =~= rest);
        assert(runs[0] + text.skip(at) =~= text);
        runs
    } else {
        let runs = lemma_runs_of(pattern.skip(1), text.skip(1));
        assert(seq![pattern[0]] + text.skip(1) =~= text);
        runs
    }
}

proof fn lemma_filled_matches(pattern: Seq<char>, runs: Seq<Seq<char>>)
    requires
        runs.len() == star_count(pattern),
    ensures
        glob(pattern, filled(pattern, runs)),
    decreases pattern.len(),
{
    let text = filled(pattern, runs);
    if pattern.len() == 0 {
    } else if pattern[0] == '*' {
        lemma_filled_matches(pattern.skip(1), runs.skip(1));
        let n = runs[0].len() as int;
        assert(text.skip(n) =~= filled(pattern.skip(1), runs.skip(1)));
        assert(glob(pattern, text.skip(n)));
        lemma_star_absorbs(pattern, text, 0, n);
        assert(text.skip(0) =~= text);
    } else {
        lemma_filled_matches(pattern.skip(1), runs);
        assert(text.skip(1) =~= filled(pattern.skip(1), runs));
    }
}

/// A pattern without a wildcard matches itself and nothing else, case included.
pub proof fn law_glob_exact(pattern: Seq<char>, text: Seq<char>)
    requires
        !pattern.contains('*'),
    ensures
        glob(pattern, text) <==> pattern == text,
{
    let n = pattern.len() as int;
    lemma_literal(pattern, text, 0, n, 0);
    assert(pattern.skip(0) =~= pattern && text.skip(0) =~= text);
    assert(pattern.subrange(0, n) =~= pattern);
    assert(pattern.skip(n) =~= Seq::<char>::empty());
    if n <= text.len() && pattern == text.subrange(0, n) && text.skip(n).len() == 0 {
        assert(text.subrange(0, n) =~= text);
    }
    if pattern == text {
        assert(text.subrange(0, n) =~= text);
    }
}

/// A lone `*` after a literal prefix matches every text that starts with the
/// prefix; with an empty prefix, it matches every text.
pub proof fn law_glob_prefix(prefix: Seq<char>, text: Seq<char>)
    requires
        !prefix.contains('*'),
    ensures
        glob(prefix.push('*'), text) <==> prefix.is_prefix_of(text),
{
    let pattern = prefix.push('*');
    let n = prefix.len() as int;
    assert(forall|k: int| 0 <= k < n ==> pattern[k] == prefix[k] && prefix.contains(prefix[k]));
    lemma_literal(pattern, text, 0, n, 0);
    assert(pattern.skip(0) =~= pattern && text.skip(0) =~= text);
    assert(pattern.subrange(0, n) =~= prefix);
    assert(pattern.skip(n) =~= seq!['*']);
    if n <= text.len() {
        lemma_star_matches_all(text.skip(n));
        if prefix == text.subrange(0, n) {
            assert(forall|i: int| 0 <= i < n ==> prefix[i] == text.subrange(0, n)[i]);
        }
        if prefix.is_prefix_of(text) {
            assert(prefix =~= text.subrange(0, n));
        }
    }
}

proof fn lemma_star_matches_all(text: Seq<char>)
    ensures
        glob(seq!['*'], text),
    decreases text.len(),
{
    reveal_with_fuel(glob, 2);
    let pattern = seq!['*'];
    assert(pattern[0] == '*');
    assert(pattern.skip(1) =~= Seq::<char>::empty());
    if text.len() > 0 {
        lemma_star_matches_all(text.skip(1));
    }
}

/// A lone `*` before a literal suffix matches every text that ends with the suffix.
pub proof fn law_glob_suffix(suffix: Seq<char>, text: Seq<char>)
    requires
        !suffix.contains('*'),
    ensures
        glob(seq!['*'] + suffix, text) <==> suffix.is_suffix_of(text),
{
    let pattern = seq!['*'] + suffix;
    assert(pattern.skip(1) =~= suffix);
    assert(text.skip(0) =~= text);
    if glob(pattern, text) {
        let at = lemma_star_choice(pattern, text, 0);
        law_glob_exact(suffix, text.skip(at));
        assert(text.skip(at) =~= text.subrange(text.len() - suffix.len(), text.len() as int));
    }
    if suffix.is_suffix_of(text) {
        let at = text.len() - suffix.len();
        assert(text.skip(at) =~= suffix);
        law_glob_exact(suffix, text.skip(at));
        assert(glob(pattern, text.skip(at)));
        lemma_star_absorbs(pattern, text, 0, at);
    }
}

/// The case of the letters of a method, in the request or in the rule, does not
/// change whether a rule applies.
pub proof fn law_method_case_is_ignored(
    rule: RuleView,
    method: Seq<char>,
    other_rule_method: Seq<char>,
    other_method: Seq<char>,
    path: Seq<char>,
)
    requires
        same_ignoring_ascii_case(method, other_method),
        same_ignoring_ascii_case(rule.method, other_rule_method),
    ensures
        rule_matches(rule, method, path) == rule_matches(
            RuleView { method: other_rule_method, path: rule.path },
            other_method,
            path,
        ),
{
    reveal_strlit("*");
    if rule.method == "*"@ {
        lemma_star_folds(rule.method, other_rule_method);
    }
    if other_rule_method == "*"@ {
        lemma_star_folds(other_rule_method, rule.method);
    }
}

proof fn lemma_star_folds(a: Seq<char>, b: Seq<char>)
    requires
        same_ignoring_ascii_case(a, b),
        a == "*"@,
    ensures
        b == "*"@,
{
    reveal_strlit("*");
    assert(ascii_folded(a).len() == ascii_folded(b).len());
    assert(ascii_folded(b)[0] == ascii_folded(a)[0]);
    assert(b =~= "*"@);
}

/// A rule for any method applies to a request whatever its method is.
pub proof fn law_any_method_rule(path_pattern: Seq<char>, method: Seq<char>, path: Seq<char>)
    ensures
        rule_matches(RuleView { method: "*"@, path: path_pattern }, method, path) == glob(
            path_pattern,
            path,
        ),
{
}

/// Appended rules add to what is ignored and take nothing away.
pub proof fn law_appended_rules_add(
    first: Seq<RuleView>,
    second: Seq<RuleView>,
    method: Seq<char>,
    path: Seq<char>,
)
    ensures
        ignored(first + second, method, path) == (ignored(first, method, path) || ignored(
            second,
            method,
            path,
        )),
{
    let both = first + second;
    if ignored(first, method, path) {
        let i = choose|i: int|
            0 <= i < first.len() && rule_matches(#[trigger] first[i], method, path);
        assert(both[i] == first[i]);
    }
    if ignored(second, method, path) {
        let i = choose|i: int|
            0 <= i < second.len() && rule_matches(#[trigger] second[i], method, path);
        assert(both[first.len() + i] == second[i]);
    }
    if ignored(both, method, path) {
        let i = choose|i: int|
            0 <= i < both.len() && rule_matches(#[trigger] both[i], method, path);
        if i < first.len() {
            assert(both[i] == first[i]);
        } else {
            assert(both[i] == second[i - first.len()]);
        }
    }
}

/// The built-in rules cover `GET /favicon.ico` and `GET /`, and nothing else.
pub proof fn law_default_rules(method: Seq<char>, path: Seq<char>)
    ensures
        ignored(default_rules_view(), method, path) <==> same_ignoring_ascii_case("GET"@, method)
            && (path == "/favicon.ico"@ || path == "/"@),
{
    reveal_strlit("GET");
    reveal_strlit("*");
    reveal_strlit("/favicon.ico");
    reveal_strlit("/");
    let rules = default_rules_view();
    law_glob_exact("/favicon.ico"@, path);
    law_glob_exact("/"@, path);
    assert("GET"@.len() != "*"@.len());
    if same_ignoring_ascii_case("GET"@, method) && (path == "/favicon.ico"@ || path == "/"@) {
        assert(rule_matches(rules[0], method, path) || rule_matches(rules[1], method, path));
    }
}

/// With no rule, nothing is ignored.
pub proof fn law_no_rules(method: Seq<char>, path: Seq<char>)
    ensures
        !ignored(Seq::<RuleView>::empty(), method, path),
{
}

/// Whether a text is the pattern with each `*` replaced by some run of characters.
pub open spec fn fits(pattern: Seq<char>, text: Seq<char>) -> bool {
    exists|runs: Seq<Seq<char>>|
        runs.len() == star_count(pattern) && #[trigger] filled(pattern, runs) == text
}

/// A rule whose method is `*`, or is the method of the request up to ASCII case,
/// applies exactly if the path fits its pattern; any other rule does not apply.
pub proof fn law_a_rule_applies_by_method_and_path(
    rule: RuleView,
    method: Seq<char>,
    path: Seq<char>,
)
    ensures
        rule.method == seq!['*'] || differ_in_case_only(rule.method, method) ==> (rule_matches(
            rule,
            method,
            path,
        ) <==> fits(rule.path, path)),
        rule.method != seq!['*'] && !differ_in_case_only(rule.method, method) ==> !rule_matches(
            rule,
            method,
            path,
        ),
{
    reveal_strlit("*");
    assert("*"@ =~= seq!['*']);
    law_case_is_compared_place_by_place(rule.method, method);
    law_glob_is_substitution(rule.path, path);
}

/// One rule, wherever it stands among the others, is enough: a request by its method
/// to a path that fits its pattern is ignored.
pub proof fn law_one_rule_is_enough(
    rules: Seq<RuleView>,
    i: int,
    method: Seq<char>,
    runs: Seq<Seq<char>>,
)
    requires
        0 <= i < rules.len(),
        rules[i].method == seq!['*'] || differ_in_case_only(rules[i].method, method),
        runs.len() == star_count(rules[i].path),
    ensures
        ignored(rules, method, filled(rules[i].path, runs)),
{
    let path = filled(rules[i].path, runs);
    assert(fits(rules[i].path, path));
    law_a_rule_applies_by_method_and_path(rules[i], method, path);
}

/// A request is ignored only because of a rule for its method with a pattern that
/// its path fits.
pub proof fn law_ignored_only_by_a_rule(rules: Seq<RuleView>, method: Seq<char>, path: Seq<char>)
    requires
        ignored(rules, method, path),
    ensures
        exists|i: int|
            0 <= i < rules.len() && ((#[trigger] rules[i]).method == seq!['*']
                || differ_in_case_only(rules[i].method, method)) && fits(rules[i].path, path),
{
    let i = choose|i: int|
        0 <= i < rules.len() && rule_matches(#[trigger] rules[i], method, path);
    law_a_rule_applies_by_method_and_path(rules[i], method, path);
}

} // verus!
