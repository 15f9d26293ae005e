use std::cmp::Ordering;
use uri_pattern_matcher::best_match;
use uri_pattern_matcher::UriPattern;

#[test]
fn equality_is_by_shape() {
    assert_eq!(UriPattern::from("/a/{b}/{c}/d"), UriPattern::from("/x/{y}/{z}/w"));
    assert_ne!(UriPattern::from("/a/{b}/{c}/d"), UriPattern::from("/a/{b}/c/{d}"));
    assert_ne!(UriPattern::from("/a/b"), UriPattern::from("/a/b/c"));
    assert_ne!(UriPattern::from("/a/b"), UriPattern::from("/a"));
    assert_eq!(UriPattern::from("/a/b"), UriPattern::from("x/y/z"));
    assert!(UriPattern::from("/a/{b}") == UriPattern::from("/zzz/{b}"));
    assert!(UriPattern::from("/a/{b}") != UriPattern::from("/{a}/b"));
}

#[test]
fn first_difference_decides() {
    let first = UriPattern::from("/a/{b}/{c}/d");
    let second = UriPattern::from("/a/{b}/c/{d}");
    assert!(second > first);
    assert!(first < second);
    assert!(!(first > second));
    assert!(first <= second);
    assert!(second >= first);
    assert_eq!(first.cmp(&second), Ordering::Less);
    assert_eq!(second.cmp(&first), Ordering::Greater);
    assert_eq!(first.partial_cmp(&second), Some(Ordering::Less));
    assert_eq!(second.partial_cmp(&first), Some(Ordering::Greater));
}

#[test]
fn rule_table() {
    // placeholder, literal, literal against literal, placeholder, literal
    assert!(UriPattern::from("{a}/b/c") < UriPattern::from("a/{b}/c"));
    // literal, placeholder, literal against literal, literal, placeholder
    assert!(UriPattern::from("a/{b}/c") < UriPattern::from("a/b/{c}"));
    // literal, literal against literal, literal, literal
    assert!(UriPattern::from("a/b") < UriPattern::from("a/b/c"));
}

#[test]
fn longer_wins_only_on_a_common_beginning() {
    assert!(UriPattern::from("a/{b}") < UriPattern::from("a/{b}/{c}"));
    assert!(UriPattern::from("{a}") < UriPattern::from("{a}/{b}"));
    assert!(UriPattern::from("a") < UriPattern::from("x/{y}"));
    // The first segment differs: the lengths are not looked at.
    assert!(UriPattern::from("{a}/b/c/d") < UriPattern::from("a/{b}"));
    assert!(UriPattern::from("a/{b}") > UriPattern::from("{a}/b/c/d"));
    assert_eq!(
        UriPattern::from("{a}/b/c/d").cmp(&UriPattern::from("a")),
        Ordering::Less
    );
}

#[test]
fn literal_in_place_of_placeholder_ranks_higher() {
    assert!(UriPattern::from("/a/b") > UriPattern::from("/a/{b}"));
    assert!(UriPattern::from("/a/b") > UriPattern::from("/{a}/b"));
    assert!(UriPattern::from("a/{b}/c") > UriPattern::from("{a}/{b}/c"));
    assert!(UriPattern::from("{a}/{b}/c") > UriPattern::from("{a}/{b}/{c}"));
    // An earlier literal outweighs every later one.
    assert!(UriPattern::from("a/{b}/{c}/{d}") > UriPattern::from("{a}/b/c/d"));
    assert!(UriPattern::from("/a/{b}/{c}") > UriPattern::from("/{a}/b/c"));
}

#[test]
fn same_shape_is_equal_in_order() {
    let one = UriPattern::from("/a/{b}/c");
    let other = UriPattern::from("/x/{name}/zzz");
    assert_eq!(one.cmp(&other), Ordering::Equal);
    assert_eq!(other.cmp(&one), Ordering::Equal);
    assert_eq!(one.partial_cmp(&other), Some(Ordering::Equal));
    assert_eq!(one.cmp(&one), Ordering::Equal);
    assert!(one <= other && one >= other);
    assert!(!(one < other) && !(one > other));
}

#[test]
fn order_is_total_and_transitive() {
    let texts = [
        "", "{a}", "a/b", "a/{b}", "{a}/b", "{a}/{b}", "a/b/c", "a/{b}/c", "{a}/b/{c}", "a/b/",
        "{}/{}/{}", "x",
    ];
    let patterns: Vec<UriPattern> = texts.iter().map(|text| UriPattern::from(*text)).collect();
    for a in &patterns {
        for b in &patterns {
            let forth = a.cmp(b);
            let back = b.cmp(a);
            assert_eq!(forth, back.reverse());
            assert_eq!(a.partial_cmp(b), Some(forth));
            assert_eq!(a == b, forth == Ordering::Equal);
            assert_eq!(a < b, forth == Ordering::Less);
            assert_eq!(a > b, forth == Ordering::Greater);
            for c in &patterns {
                if forth != Ordering::Greater && b.cmp(c) != Ordering::Greater {
                    assert_ne!(a.cmp(c), Ordering::Greater);
                }
            }
        }
    }
}

#[test]
fn most_specific_match() {
    let patterns: Vec<UriPattern> = vec![
        "/api/{foo}/bar/{zzz}".into(),
        "/api/{foo}/{bar}/zzz".into(),
        "/{api}/{foo}/foo/{zzz}".into(),
    ];
    let best = best_match(&patterns, "/api/resource/bar/zzz");
    assert_eq!(best.unwrap().value, "/api/{foo}/bar/{zzz}");
    let best = best_match(&patterns, "/api/resource/baz/zzz");
    assert_eq!(best.unwrap().value, "/api/{foo}/{bar}/zzz");
    let best = best_match(&patterns, "/v2/resource/foo/zzz");
    assert_eq!(best.unwrap().value, "/{api}/{foo}/foo/{zzz}");
    assert!(best_match(&patterns, "/v2/resource/bar/zzz").is_none());
    assert!(best_match(&patterns, "/api/resource/bar").is_none());
    assert!(best_match(&patterns, "").is_none());
}

#[test]
fn most_specific_match_agrees_with_maximum() {
    let patterns: Vec<UriPattern> = vec![
        "{a}/{b}".into(),
        "a/{b}".into(),
        "{a}/b".into(),
        "a/b".into(),
        "a/b/c".into(),
    ];
    for candidate in ["a/b", "a/x", "x/b", "x/y", "a/b/c", "a", ""] {
        let by_library = best_match(&patterns, candidate);
        let by_iterator = patterns
            .iter()
            .filter(|p| p.is_match(candidate))
            .max_by(|a, b| a.cmp(b));
        assert_eq!(by_library.is_some(), by_iterator.is_some());
        if let (Some(left), Some(right)) = (by_library, by_iterator) {
            assert_eq!(left, right);
            assert!(left.is_match(candidate));
        }
    }
    assert_eq!(best_match(&patterns, "a/b").unwrap().value, "a/b");
    assert_eq!(best_match(&patterns, "a/x").unwrap().value, "a/{b}");
    assert_eq!(best_match(&patterns, "x/b").unwrap().value, "{a}/b");
    assert_eq!(best_match(&patterns, "x/y").unwrap().value, "{a}/{b}");
    assert_eq!(best_match(&patterns, "a/b/c").unwrap().value, "a/b/c");
}

#[test]
fn most_specific_match_of_none() {
    let empty: Vec<UriPattern> = Vec::new();
    assert!(best_match(&empty, "/a").is_none());
    let tied: Vec<UriPattern> = vec!["/a/{x}".into(), "/a/{y}".into()];
    let best = best_match(&tied, "/a/1").unwrap();
    assert!(best.value == "/a/{x}" || best.value == "/a/{y}");
    assert_eq!(best, &UriPattern::from("/q/{z}"));
}

#[test]
fn general_pattern_ranks_below_specific_one() {
    let patterns = [UriPattern::from("/{kind}/{id}"), UriPattern::from("/users/{id}")];
    assert!(patterns[0] < patterns[1]);
    assert_eq!(best_match(&patterns, "/users/42").unwrap().value, "/users/{id}");
    assert_eq!(best_match(&patterns, "/teams/42").unwrap().value, "/{kind}/{id}");
    assert!(best_match(&patterns, "/users/42/").is_none());
}
