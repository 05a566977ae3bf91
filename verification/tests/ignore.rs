use reqsink::ignore::{any_method, default_rules, glob_match, is_ignored, load_rules, IgnoreRule};

#[test]
fn glob_exact_match() {
    assert!(glob_match("/favicon.ico", "/favicon.ico"));
    assert!(!glob_match("/favicon.ico", "/favicon.icon"));
    assert!(!glob_match("/favicon.ico", "/Favicon.ico"));
    assert!(glob_match("/", "/"));
    assert!(!glob_match("/", "/api"));
}

#[test]
fn glob_wildcards() {
    assert!(glob_match("/health*", "/health"));
    assert!(glob_match("/health*", "/healthz"));
    assert!(glob_match("/health*", "/health/live"));
    assert!(!glob_match("/health*", "/api/health"));

    assert!(glob_match("*", ""));
    assert!(glob_match("*", "/anything/at/all"));
    assert!(glob_match("*.ico", "/static/img/x.ico"));

    assert!(glob_match("/a/*/c", "/a/b/c"));
    assert!(glob_match("/a/*/c", "/a/b/b/c"));
    assert!(!glob_match("/a/*/c", "/a/b/d"));

    // Backtracking: the first `*` must give back characters for the tail to match
    assert!(glob_match("/*/widgets", "/api/v1/widgets"));
    assert!(!glob_match("/*/widgets", "/api/v1/widgets/1"));
}

#[test]
fn method_matching_is_case_insensitive_and_supports_wildcard() {
    let get_only = IgnoreRule::new("GET", "/x");
    assert!(get_only.matches("GET", "/x"));
    assert!(get_only.matches("get", "/x"));
    assert!(!get_only.matches("POST", "/x"));

    let any = IgnoreRule::new("*", "/x");
    assert!(any.matches("GET", "/x"));
    assert!(any.matches("DELETE", "/x"));
}

#[test]
fn default_rules_cover_browser_noise_only() {
    let rules = default_rules();
    assert!(is_ignored(&rules, "GET", "/favicon.ico"));
    assert!(is_ignored(&rules, "GET", "/"));
    assert!(!is_ignored(&rules, "POST", "/"));
    assert!(!is_ignored(&rules, "GET", "/api/widgets"));
}

#[test]
fn method_defaults_to_wildcard_when_omitted() {
    let parsed: Vec<serde_json::Value> =
        serde_json::from_str(r#"[{"path": "/health*"}]"#).unwrap();
    let rules: Vec<IgnoreRule> = parsed
        .iter()
        .map(|entry| IgnoreRule {
            method: match entry.get("method") {
                Some(method) => method.as_str().unwrap().to_string(),
                None => any_method(),
            },
            path: entry["path"].as_str().unwrap().to_string(),
        })
        .collect();
    assert_eq!(rules[0].method, "*");
    assert!(rules[0].matches("POST", "/healthz"));
}

#[test]
fn file_rules_are_appended_to_the_defaults() {
    let both = load_rules(Some(vec![IgnoreRule::new("*", "*.css")]), true);
    assert_eq!(both.len(), 3);
    assert_eq!(both[0].path, "/favicon.ico");
    assert_eq!(both[1].path, "/");
    assert_eq!(both[2].path, "*.css");
    let only_mine = load_rules(Some(vec![IgnoreRule::new("GET", "/robots.txt")]), false);
    assert_eq!(only_mine.len(), 1);
    assert_eq!(only_mine[0].method, "GET");
    assert!(load_rules(None, false).is_empty());
    assert_eq!(load_rules(None, true).len(), 2);
}

#[test]
fn appended_rules_only_add() {
    let rules = load_rules(Some(vec![IgnoreRule::new("*", "/health*")]), true);
    assert!(is_ignored(&rules, "get", "/favicon.ico"));
    assert!(is_ignored(&rules, "DELETE", "/health/live"));
    assert!(!is_ignored(&rules, "DELETE", "/"));
    assert!(!is_ignored(&[], "GET", "/"));
}

#[test]
fn glob_backtracks_over_several_stars() {
    assert!(glob_match("*a*b*c", "xxaYYbZZbc"));
    assert!(!glob_match("*a*b*c", "xxaYYbZZbcd"));
    assert!(glob_match("**", ""));
    assert!(glob_match("a**b", "ab"));
    assert!(glob_match("*aab", "aaaaab"));
    assert!(!glob_match("", "a"));
    assert!(glob_match("", ""));
    assert!(!glob_match("a*", ""));
    assert!(glob_match("/é*ü", "/éßßü"));
}

#[test]
fn rule_paths_are_case_sensitive() {
    let rule = IgnoreRule::new("Get", "/Robots.txt");
    assert!(rule.matches("gET", "/Robots.txt"));
    assert!(!rule.matches("GET", "/robots.txt"));
}
