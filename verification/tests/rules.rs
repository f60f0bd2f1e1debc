use staticserve::auth::{TokenAuth, Verdict};
use staticserve::cache::{CacheControl, CacheHeaders};
use staticserve::textmap::TextMap;

fn map(entries: &[(&str, &str)]) -> TextMap {
    let mut m = TextMap::new();
    for (k, v) in entries {
        m.insert(k.to_string(), v.to_string());
    }
    m
}

#[test]
fn text_map_keeps_keys_in_order() {
    let m = map(&[("b", "2"), ("a", "1"), ("c", "3"), ("ab", "12")]);
    assert_eq!(m.len(), 4);
    assert_eq!(m.key(0), "a");
    assert_eq!(m.key(1), "ab");
    assert_eq!(m.key(2), "b");
    assert_eq!(m.key(3), "c");
    assert_eq!(m.value(0), "1");
    assert_eq!(m.value(1), "12");
    assert_eq!(m.value(2), "2");
    assert_eq!(m.value(3), "3");
}

#[test]
fn text_map_orders_as_strings_are_ordered() {
    let mut keys = vec!["z", "a", "", "Z", "\u{e9}", "ab", "a\u{10000}", "a\u{ffff}", "aa"];
    let m = map(&keys.iter().map(|k| (*k, "v")).collect::<Vec<_>>());
    keys.sort();
    assert_eq!(m.len(), keys.len());
    for (i, k) in keys.iter().enumerate() {
        assert_eq!(m.key(i), *k);
    }
}

#[test]
fn text_map_insert_replaces_the_value_of_a_key() {
    let mut m = map(&[("a", "1"), ("b", "2")]);
    m.insert("a".to_string(), "one".to_string());
    assert_eq!(m.len(), 2);
    assert_eq!(m.get("a"), Some("one"));
    assert_eq!(m.get("b"), Some("2"));
}

#[test]
fn text_map_get_finds_what_was_put_in() {
    let m = map(&[("/a", "x"), ("/b", "y")]);
    assert_eq!(m.get("/a"), Some("x"));
    assert_eq!(m.get("/b"), Some("y"));
    assert_eq!(m.get("/c"), None);
    assert_eq!(m.get("/"), None);
    assert_eq!(m.get(""), None);
    assert_eq!(TextMap::new().get("/a"), None);
    assert_eq!(TextMap::new().len(), 0);
}

#[test]
fn no_rules_give_no_value() {
    let rules = CacheControl::default();
    assert!(rules.prefixes.is_none());
    assert!(rules.suffixes.is_none());
    assert_eq!(rules.get_value("/index.html"), None);
}

#[test]
fn prefix_rule_fits_the_beginning_of_a_path() {
    let rules = CacheControl {
        prefixes: Some(map(&[("/static/", "max-age=3600")])),
        suffixes: None,
    };
    assert_eq!(rules.get_value("/static/app.js"), Some("max-age=3600"));
    assert_eq!(rules.get_value("/static/"), Some("max-age=3600"));
    assert_eq!(rules.get_value("/static"), None);
    assert_eq!(rules.get_value("/other/static/app.js"), None);
}

#[test]
fn suffix_rule_fits_the_end_of_a_path() {
    let rules = CacheControl {
        prefixes: None,
        suffixes: Some(map(&[(".css", "max-age=60")])),
    };
    assert_eq!(rules.get_value("/a/b.css"), Some("max-age=60"));
    assert_eq!(rules.get_value(".css"), Some("max-age=60"));
    assert_eq!(rules.get_value("/a/b.css.map"), None);
    assert_eq!(rules.get_value("css"), None);
}

#[test]
fn prefixes_are_tried_before_suffixes() {
    let rules = CacheControl {
        prefixes: Some(map(&[("/static/", "by-prefix")])),
        suffixes: Some(map(&[(".js", "by-suffix")])),
    };
    assert_eq!(rules.get_value("/static/app.js"), Some("by-prefix"));
    assert_eq!(rules.get_value("/app.js"), Some("by-suffix"));
    assert_eq!(rules.get_value("/app.css"), None);
}

#[test]
fn first_rule_in_key_order_wins() {
    let rules = CacheControl {
        prefixes: Some(map(&[("/static/img/", "long"), ("/static/", "short"), ("/", "root")])),
        suffixes: None,
    };
    // "/" comes before "/static/", which comes before "/static/img/"
    assert_eq!(rules.get_value("/static/img/logo.png"), Some("root"));
    let rules = CacheControl {
        prefixes: None,
        suffixes: Some(map(&[(".min.js", "min"), (".js", "js")])),
    };
    assert_eq!(rules.get_value("/app.min.js"), Some("js"));
    let rules = CacheControl {
        prefixes: None,
        suffixes: Some(map(&[("n.js", "n"), (".min.js", "min")])),
    };
    assert_eq!(rules.get_value("/app.min.js"), Some("min"));
}

#[test]
fn empty_key_fits_every_path() {
    let rules = CacheControl { prefixes: Some(map(&[("", "all")])), suffixes: None };
    assert_eq!(rules.get_value("/x"), Some("all"));
    assert_eq!(rules.get_value(""), Some("all"));
}

#[test]
fn middleware_gives_the_value_of_the_rules() {
    let rules = CacheControl {
        prefixes: Some(map(&[("/static/", "max-age=3600")])),
        suffixes: Some(map(&[(".html", "no-cache")])),
    };
    let factory = CacheHeaders::new(rules);
    let middleware = factory.new_transform("inner service");
    assert_eq!(*middleware.service(), "inner service");
    assert_eq!(middleware.call("/static/app.js"), "max-age=3600");
    assert_eq!(middleware.call("/index.html"), "no-cache");
}

#[test]
fn middleware_falls_back_to_private() {
    let rules = CacheControl {
        prefixes: Some(map(&[("/static/", "max-age=3600")])),
        suffixes: None,
    };
    let middleware = CacheHeaders::new(rules).new_transform(());
    assert_eq!(middleware.call("/index.html"), "private,max-age=0");
    let middleware = CacheHeaders::default().new_transform(());
    assert_eq!(middleware.call("/static/app.js"), "private,max-age=0");
}

#[test]
fn middlewares_of_one_factory_share_the_rules() {
    let rules = CacheControl { prefixes: None, suffixes: Some(map(&[(".png", "immutable")])) };
    let factory = CacheHeaders::new(rules);
    let first = factory.new_transform(1u8);
    let second = factory.new_transform(2u8);
    assert_eq!(first.call("/a.png"), "immutable");
    assert_eq!(second.call("/a.png"), "immutable");
    assert_eq!(*first.service(), 1);
    assert_eq!(*second.service(), 2);
}

#[test]
fn matching_token_is_forwarded() {
    let middleware = TokenAuth.new_transform("inner");
    assert_eq!(middleware.call(Some("s3cret"), Some("s3cret")), Verdict::Forward);
    assert_eq!(*middleware.service(), "inner");
}

#[test]
fn wrong_or_missing_token_is_unauthorized() {
    let middleware = TokenAuth.new_transform(());
    assert_eq!(middleware.call(Some("guess"), Some("s3cret")), Verdict::Unauthorized);
    assert_eq!(middleware.call(Some("s3cre"), Some("s3cret")), Verdict::Unauthorized);
    assert_eq!(middleware.call(Some("s3cret!"), Some("s3cret")), Verdict::Unauthorized);
    assert_eq!(middleware.call(None, Some("s3cret")), Verdict::Unauthorized);
    assert_eq!(middleware.call(Some("s3cret"), None), Verdict::Unauthorized);
    assert_eq!(middleware.call(None, None), Verdict::Unauthorized);
}

#[test]
fn empty_token_matches_only_an_empty_token() {
    let middleware = TokenAuth.new_transform(());
    assert_eq!(middleware.call(Some(""), Some("")), Verdict::Forward);
    assert_eq!(middleware.call(Some(""), Some("x")), Verdict::Unauthorized);
}
