use vetto::envfilter::{env_entries, merged_env};
use vetto::envfilter::{
    filter_env, filter_env_with_patterns, is_hard_denied, is_hard_denied_upper, is_redacted,
    matches_wildcard_pattern, sanitize_environment, sanitize_path,
};

#[test]
fn hard_deny_catches_lowercase_aws() {
    assert!(is_hard_denied("aws_secret_access_key"));
    assert!(is_hard_denied("GH_TOKEN"));
    assert!(!is_hard_denied("PATH"));
    assert!(!is_hard_denied("HOME"));
}

#[test]
fn wildcard_matching_patterns() {
    assert!(matches_wildcard_pattern("*_KEY", "OPENAI_API_KEY"));
    assert!(matches_wildcard_pattern("*_KEY", "CUSTOM_KEY"));
    assert!(matches_wildcard_pattern("*_KEY", "api_key"));
    assert!(matches_wildcard_pattern("*_TOKEN", "GITHUB_TOKEN"));
    assert!(matches_wildcard_pattern("*_TOKEN", "USER_TOKEN"));
    assert!(matches_wildcard_pattern("*_SECRET", "CLIENT_SECRET"));
    assert!(matches_wildcard_pattern("AWS_*", "AWS_ACCESS_KEY_ID"));
    assert!(matches_wildcard_pattern("AWS_*", "aws_default_region"));
    assert!(matches_wildcard_pattern("GITHUB_*", "GITHUB_SHA"));

    assert!(!matches_wildcard_pattern("*_KEY", "KEYBOARD"));
    assert!(!matches_wildcard_pattern("*_KEY", "key"));
    assert!(!matches_wildcard_pattern("*_KEY", "PATH"));
    assert!(!matches_wildcard_pattern("AWS_*", "NOT_AWS"));
}

#[test]
fn is_hard_denied_catches_wildcard_suffixes() {
    assert!(is_hard_denied("CUSTOM_KEY"));
    assert!(is_hard_denied("APP_TOKEN"));
    assert!(is_hard_denied("CLIENT_SECRET"));
    assert!(is_hard_denied("AWS_DEFAULT_REGION"));
    assert!(is_hard_denied("GITHUB_ACTIONS"));
    assert!(!is_hard_denied("USER"));
    assert!(!is_hard_denied("EDITOR"));
}

#[test]
fn sanitize_environment_scrubs_wildcards() {
    let vars = vec![
        ("CUSTOM_KEY".to_string(), "secret123".to_string()),
        ("APP_TOKEN".to_string(), "tok456".to_string()),
        ("USER".to_string(), "alice".to_string()),
        ("PATH".to_string(), "/bin:/usr/bin".to_string()),
        ("MY_CUSTOM_SECRET".to_string(), "val".to_string()),
    ];
    let cleaned = sanitize_environment(vars, &[]);
    let names: Vec<String> = cleaned.into_iter().map(|(k, _)| k).collect();
    assert_eq!(names, vec!["USER".to_string(), "PATH".to_string()]);
}

#[test]
fn path_sanitizer_cleans() {
    assert_eq!(sanitize_path("/a::.:~/x:/a"), "/a");
    assert_eq!(sanitize_path(""), "/usr/bin:/bin");
    assert_eq!(sanitize_path("/b:/a:/b"), "/b:/a");
    for p in ["/a::.:~/x:/a", "", "/b:/a:/b", ":::", "/usr/bin:/bin"] {
        let once = sanitize_path(p);
        assert_eq!(sanitize_path(&once), once);
    }
}

#[test]
fn filter_env_drops_secrets_and_nul() {
    let vars = vec![
        ("SECRET_FOO".to_string(), "x".to_string()),
        ("PATH".to_string(), "/a::/b".to_string()),
        ("BAD\0NAME".to_string(), "x".to_string()),
        ("OK".to_string(), "a\0b".to_string()),
        ("HOME".to_string(), "/h".to_string()),
    ];
    let got = filter_env(vars, true);
    assert_eq!(
        got,
        vec![
            ("PATH".to_string(), "/a:/b".to_string()),
            ("HOME".to_string(), "/h".to_string()),
        ]
    );
}

#[test]
fn wildcard_question_mark_matches_one_byte() {
    assert!(matches_wildcard_pattern("A?C", "abc"));
    assert!(!matches_wildcard_pattern("A?C", "ac"));
    assert!(!matches_wildcard_pattern("?", "\u{e9}"));
    assert!(matches_wildcard_pattern("??", "\u{e9}"));
}

#[test]
fn wildcard_star_in_text_is_not_a_literal_shortcut() {
    assert!(matches_wildcard_pattern("*A", "*BA"));
    assert!(matches_wildcard_pattern("**", ""));
    assert!(!matches_wildcard_pattern("", "x"));
}

#[test]
fn redacted_patterns_extend_hard_deny() {
    let pats = vec!["MY_*".to_string()];
    assert!(is_redacted("my_var", &pats));
    assert!(!is_redacted("OTHER", &pats));
    assert!(is_redacted("DB_HOST", &[]));
    assert!(is_hard_denied_upper("XPRIVATE_KEYX"));
    assert!(!is_hard_denied_upper("EDITOR"));
}

#[test]
fn filter_env_with_patterns_keeps_order_and_path_case() {
    let vars = vec![
        ("path".to_string(), ".:/x:/x".to_string()),
        ("MY_VAR".to_string(), "1".to_string()),
        ("EMPTY".to_string(), "".to_string()),
        ("".to_string(), "v".to_string()),
        ("A=B".to_string(), "v".to_string()),
    ];
    let got = filter_env_with_patterns(vars, true, &["my_*".to_string()]);
    assert_eq!(
        got,
        vec![
            ("path".to_string(), "/x".to_string()),
            ("EMPTY".to_string(), "".to_string()),
        ]
    );
    let vars = vec![("PATH".to_string(), "a::b".to_string())];
    assert_eq!(filter_env(vars, false), vec![("PATH".to_string(), "a::b".to_string())]);
}

#[test]
fn agent_environment_is_merged_sorted_and_overridden() {
    let s = |a: &str, b: &str| (a.to_string(), b.to_string());
    let base = vec![s("PATH", "/bin"), s("HOME", "/h"), s("LANG", "C"), s("HOME", "/h2")];
    let extra = vec![s("HTTPS_PROXY", "http://127.0.0.1:9"), s("LANG", "en_US.UTF-8")];
    let env = merged_env(&base, &extra);
    assert_eq!(
        env,
        vec![s("HOME", "/h2"), s("HTTPS_PROXY", "http://127.0.0.1:9"), s("LANG", "en_US.UTF-8"), s("PATH", "/bin")]
    );
    assert_eq!(
        env_entries(&env),
        vec!["HOME=/h2", "HTTPS_PROXY=http://127.0.0.1:9", "LANG=en_US.UTF-8", "PATH=/bin"]
    );
    assert!(merged_env(&[], &[]).is_empty());
}
