use uri_pattern_matcher::UriPattern;

#[test]
fn parsing_works() {
    let pattern: UriPattern = "/a/{b}/{c}/d".into();
    assert!(pattern.is_match("/a/resource/test/d"));
}

#[test]
fn non_equality_works() {
    let pattern: UriPattern = "/a/{b}/{c}/d".into();
    let pattern2: UriPattern = "/a/{b}/c/{d}".into();
    assert_ne!(pattern, pattern2);
}

#[test]
fn equality_works() {
    let pattern: UriPattern = "/a/{b}/{c}/d".into();
    let pattern2: UriPattern = "/api/{resource}/{id}/details".into();
    assert_eq!(pattern, pattern2);
}

#[test]
fn inequality_works() {
    // The patterns first differ in their fourth segment, where the second one holds
    // the literal: the second one is the more specific.
    let pattern: UriPattern = "/a/{b}/{c}/d".into();
    let pattern2: UriPattern = "/a/{b}/c/{d}".into();
    assert!(pattern < pattern2);
}

#[test]
fn best_match_with_ord() {
    let patterns: Vec<UriPattern> = vec![
        "/api/{foo}/bar/{zzz}".into(),
        "/api/{foo}/{bar}/zzz".into(),
        "/{api}/{foo}/foo/{zzz}".into(),
    ];
    let candidate = "/api/resource/bar/zzz";
    let best_match = patterns
        .iter()
        .filter(|p| p.is_match(candidate))
        .max_by(|a, b| a.cmp(b));
    // Two patterns match. They first differ in their fourth segment, `bar` against
    // `{bar}`, and the literal wins.
    assert_eq!(
        best_match.unwrap(),
        &UriPattern::from("/api/{foo}/bar/{zzz}")
    );
}
