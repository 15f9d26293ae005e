use uri_pattern_matcher::UriPattern;

#[test]
fn literal_template_matches_itself_only() {
    for text in ["", "/", "a", "/a/b", "a/b/", "//", "/api/v1/users", "{", "}", "{a", "a}"] {
        let pattern = UriPattern::from(text);
        assert!(pattern.is_match(text), "{:?} should match itself", text);
    }
    let pattern = UriPattern::from("/api/v1/users");
    assert!(!pattern.is_match("/api/v1/user"));
    assert!(!pattern.is_match("/api/v1/users/"));
    assert!(!pattern.is_match("/api/v2/users"));
    assert!(!pattern.is_match("/API/v1/users"));
}

#[test]
fn placeholder_takes_any_content() {
    let pattern = UriPattern::from("/api/{resource}/{id}/details");
    assert!(pattern.is_match("/api/resource/id1/details"));
    assert!(pattern.is_match("/api/customer/John/details"));
    assert!(pattern.is_match("/api///details"));
    assert!(pattern.is_match("/api/{resource}/{id}/details"));
    assert!(!pattern.is_match("/api/customer/John/detail"));
    assert!(!pattern.is_match("/app/customer/John/details"));
}

#[test]
fn segment_count_must_agree() {
    let pattern = UriPattern::from("/a/{b}");
    assert!(pattern.is_match("/a/x"));
    assert!(!pattern.is_match("/a"));
    assert!(!pattern.is_match("/a/x/y"));
    assert!(!pattern.is_match("/a/x/"));
    assert!(!pattern.is_match("a/x"));
    assert!(!pattern.is_match(""));
    let wide = UriPattern::from("{a}/{b}/{c}");
    assert!(wide.is_match("//"));
    assert!(wide.is_match("x/y/z"));
    assert!(!wide.is_match("/"));
    assert!(!wide.is_match("///"));
    assert!(!wide.is_match("x/y"));
}

#[test]
fn matching_is_repeatable() {
    let pattern = UriPattern::from("/a/{b}/c");
    for candidate in ["/a/x/c", "/a/x/d", "/a/c", ""] {
        let first = pattern.is_match(candidate);
        for _ in 0..3 {
            assert_eq!(pattern.is_match(candidate), first);
        }
    }
    assert!(pattern.is_match("/a/x/c"));
    assert!(!pattern.is_match("/a/x/d"));
}

#[test]
fn empty_template_is_one_empty_literal() {
    let pattern = UriPattern::from("");
    assert!(pattern.is_match(""));
    assert!(!pattern.is_match("x"));
    assert!(!pattern.is_match("/"));
    assert_eq!(pattern, UriPattern::from("a"));
    assert_ne!(pattern, UriPattern::from("{a}"));
}

#[test]
fn empty_braces_are_a_placeholder() {
    let pattern = UriPattern::from("{}");
    assert!(pattern.is_match(""));
    assert!(pattern.is_match("anything"));
    assert!(pattern.is_match("{}"));
    assert!(!pattern.is_match("a/b"));
    assert_eq!(pattern, UriPattern::from("{name}"));
}

#[test]
fn lone_brace_is_a_literal() {
    let open = UriPattern::from("{");
    assert!(open.is_match("{"));
    assert!(!open.is_match("x"));
    assert!(!open.is_match(""));
    assert!(!open.is_match("{}"));
    let close = UriPattern::from("}");
    assert!(close.is_match("}"));
    assert!(!close.is_match("{"));
    assert_eq!(open, UriPattern::from("x"));
    assert_ne!(open, UriPattern::from("{}"));
}

#[test]
fn unbalanced_or_partial_braces_are_literals() {
    for text in ["{foo", "foo}", "}{", "a{b}", "{a}b", "}foo{", "{ "] {
        let pattern = UriPattern::from(text);
        assert!(pattern.is_match(text));
        assert!(!pattern.is_match("other"), "{:?} should be a literal", text);
    }
    // Only the two ends count: what stands between them is free.
    for text in ["{a}", "{{}}", "{}{}", "{a}{b}", "{ }", "{{", "}}"] {
        let pattern = UriPattern::from(text);
        let expected = text.starts_with('{') && text.ends_with('}');
        assert_eq!(pattern.is_match("other"), expected, "{:?}", text);
    }
}

#[test]
fn empty_segments_are_kept() {
    let pattern = UriPattern::from("/a//b/");
    assert!(pattern.is_match("/a//b/"));
    assert!(!pattern.is_match("/a/b/"));
    assert!(!pattern.is_match("/a//b"));
    assert!(!pattern.is_match("/a/x/b/"));
    let trailing = UriPattern::from("/a/{b}/");
    assert!(trailing.is_match("/a/x/"));
    assert!(!trailing.is_match("/a/x"));
    assert!(!trailing.is_match("/a/x/y"));
}

#[test]
fn text_beyond_ascii() {
    let pattern = UriPattern::from("/caf\u{e9}/{plat}/\u{65e5}\u{672c}");
    assert!(pattern.is_match("/caf\u{e9}/cr\u{ea}pe/\u{65e5}\u{672c}"));
    assert!(pattern.is_match("/caf\u{e9}//\u{65e5}\u{672c}"));
    assert!(!pattern.is_match("/cafe/cr\u{ea}pe/\u{65e5}\u{672c}"));
    assert!(!pattern.is_match("/caf\u{e9}/cr\u{ea}pe/\u{65e5}"));
    assert!(!pattern.is_match("/caf\u{e9}/cr\u{ea}pe/\u{65e5}\u{672c}\u{8a9e}"));
    let named = UriPattern::from("{\u{e9}}/\u{1f600}");
    assert!(named.is_match("x/\u{1f600}"));
    assert!(!named.is_match("x/\u{1f601}"));
    assert_eq!(named, UriPattern::from("{a}/b"));
    // `\u{17b}` and `\u{17d}` end in bytes other than those of the braces.
    let letters = UriPattern::from("\u{17b}a\u{17d}");
    assert!(letters.is_match("\u{17b}a\u{17d}"));
    assert!(!letters.is_match("x"));
}

#[test]
fn template_text_is_kept() {
    let pattern = UriPattern::from("/api/{resource}");
    assert_eq!(pattern.value, "/api/{resource}");
    assert_eq!(pattern.as_str(), "/api/{resource}");
    let copy = pattern.clone();
    assert_eq!(copy.value, "/api/{resource}");
    assert!(copy.is_match("/api/x"));
    assert!(!copy.is_match("/api"));
    assert_eq!(copy, pattern);
}

#[test]
fn trailing_separator_counts() {
    let pattern = UriPattern::from("/users/{id}/posts");
    assert!(pattern.is_match("/users/42/posts"));
    assert!(!pattern.is_match("/users/42/posts/"));
    assert!(!pattern.is_match("users/42/posts"));
}
