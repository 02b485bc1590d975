use jiffs::config::PathValue;
use jiffs::document::Document;
use jiffs::json_path::JsonPathMatcher;

fn text(value: &str) -> Document {
    Document::String(value.to_string())
}

fn number(value: &str) -> Document {
    Document::Number(value.to_string())
}

fn object(members: Vec<(&str, Document)>) -> Document {
    Document::Object(
        members
            .into_iter()
            .map(|(name, value)| (name.to_string(), value))
            .collect(),
    )
}

fn generator(env: &str, revision: &str) -> Document {
    object(vec![
        (
            "selector",
            object(vec![("matchLabels", object(vec![("env", text(env))]))]),
        ),
        ("values", object(vec![("revision", text(revision))])),
    ])
}

fn application_set(generators: Vec<Document>) -> Document {
    object(vec![
        ("kind", text("ApplicationSet")),
        (
            "spec",
            object(vec![("generators", Document::Array(generators))]),
        ),
    ])
}

fn condition(path: &str, value: Document) -> PathValue {
    PathValue { path: path.to_string(), value }
}

#[test]
fn no_conditions_are_met_by_every_document() {
    assert!(JsonPathMatcher::matches_conditions(&Document::Null, &[]));
    assert!(JsonPathMatcher::matches_conditions(&text("x"), &[]));
    assert!(JsonPathMatcher::matches_conditions(
        &application_set(vec![]),
        &[]
    ));
}

#[test]
fn all_conditions_must_be_met() {
    let doc = application_set(vec![generator("development", "main")]);
    let kind = condition("kind", text("ApplicationSet"));
    let env = condition("/spec/generators/*/selector/matchLabels/env", text("development"));
    let other = condition("/spec/generators/*/selector/matchLabels/env", text("production"));
    assert!(JsonPathMatcher::matches_conditions(&doc, &[kind.clone(), env.clone()]));
    assert!(!JsonPathMatcher::matches_conditions(&doc, &[kind.clone(), other.clone()]));
    assert!(!JsonPathMatcher::matches_conditions(&doc, &[other, kind, env]));
}

#[test]
fn a_wildcard_yields_one_value_for_each_item_in_order() {
    let revisions = ["main", "develop", "stable", "next", "old"];
    let doc = application_set(revisions.iter().map(|r| generator("dev", r)).collect());
    let values = JsonPathMatcher::get_values_at_path(&doc, "/spec/generators/*/values/revision");
    let expected: Vec<Document> = revisions.iter().map(|r| text(r)).collect();
    assert_eq!(values, expected);

    let items = JsonPathMatcher::get_values_at_path(&doc, "/spec/generators/*");
    let generators: Vec<Document> = revisions.iter().map(|r| generator("dev", r)).collect();
    assert_eq!(items, generators);
}

#[test]
fn a_wildcard_over_an_empty_array_yields_nothing() {
    let doc = application_set(vec![]);
    assert!(JsonPathMatcher::get_values_at_path(&doc, "/spec/generators/*").is_empty());
    assert!(
        JsonPathMatcher::get_values_at_path(&doc, "/spec/generators/*/values/revision").is_empty()
    );
}

#[test]
fn items_that_lack_the_rest_of_the_path_yield_nothing() {
    let doc = application_set(vec![
        generator("dev", "main"),
        object(vec![("values", object(vec![]))]),
        text("scalar"),
        generator("prod", "stable"),
    ]);
    let values = JsonPathMatcher::get_values_at_path(&doc, "/spec/generators/*/values/revision");
    assert_eq!(values, vec![text("main"), text("stable")]);
}

#[test]
fn nested_wildcards_walk_depth_first() {
    let doc = object(vec![(
        "a",
        Document::Array(vec![
            Document::Array(vec![number("1"), number("2")]),
            Document::Array(vec![]),
            Document::Array(vec![number("3")]),
        ]),
    )]);
    let values = JsonPathMatcher::get_values_at_path(&doc, "/a/*/*");
    assert_eq!(values, vec![number("1"), number("2"), number("3")]);
}

#[test]
fn a_wildcard_steps_into_arrays_only() {
    let doc = application_set(vec![generator("dev", "main")]);
    assert!(JsonPathMatcher::get_values_at_path(&doc, "/spec/*").is_empty());
    assert!(JsonPathMatcher::get_values_at_path(&doc, "/kind/*").is_empty());
    assert!(JsonPathMatcher::get_values_at_path(&doc, "/*").is_empty());
    assert!(JsonPathMatcher::get_values_at_path(&Document::Null, "*").is_empty());
}

#[test]
fn a_wildcard_path_may_name_an_index_or_a_member() {
    let doc = application_set(vec![generator("dev", "main"), generator("prod", "stable")]);
    let values = JsonPathMatcher::get_values_at_path(&doc, "/spec/generators/1/values/*");
    assert!(values.is_empty());
    let doc = object(vec![(
        "a",
        Document::Array(vec![
            Document::Array(vec![number("1"), number("2")]),
            Document::Array(vec![number("3"), number("4")]),
        ]),
    )]);
    assert_eq!(
        JsonPathMatcher::get_values_at_path(&doc, "/a/1/*"),
        vec![number("3"), number("4")]
    );
    assert_eq!(
        JsonPathMatcher::get_values_at_path(&doc, "/a/*/01"),
        vec![number("2"), number("4")]
    );
    assert!(JsonPathMatcher::get_values_at_path(&doc, "/a/*/+1").is_empty());
    assert!(JsonPathMatcher::get_values_at_path(&doc, "/a/*/2").is_empty());
    assert!(JsonPathMatcher::get_values_at_path(&doc, "/a/*/x").is_empty());
    assert!(JsonPathMatcher::get_values_at_path(&doc, "/b/*").is_empty());
}

#[test]
fn a_path_without_wildcard_reaches_one_value_or_none() {
    let doc = application_set(vec![generator("dev", "main"), generator("prod", "stable")]);
    assert_eq!(
        JsonPathMatcher::get_values_at_path(&doc, "/kind"),
        vec![text("ApplicationSet")]
    );
    assert_eq!(
        JsonPathMatcher::get_values_at_path(&doc, "kind"),
        vec![text("ApplicationSet")]
    );
    assert_eq!(
        JsonPathMatcher::get_values_at_path(&doc, "/spec/generators/1/values/revision"),
        vec![text("stable")]
    );
    assert_eq!(
        JsonPathMatcher::get_values_at_path(&doc, "spec/generators/0/values/revision"),
        vec![text("main")]
    );
    assert!(JsonPathMatcher::get_values_at_path(&doc, "/missing").is_empty());
    assert!(JsonPathMatcher::get_values_at_path(&doc, "/kind/deeper").is_empty());
    assert!(JsonPathMatcher::get_values_at_path(&doc, "/spec/generators/2").is_empty());
    assert!(JsonPathMatcher::get_values_at_path(&doc, "/spec/generators/x").is_empty());
    assert!(JsonPathMatcher::get_values_at_path(&doc, "/spec/generators/01").is_empty());
}

#[test]
fn the_empty_path_is_the_pointer_to_the_member_without_name() {
    let doc = object(vec![("", text("unnamed")), ("a", text("named"))]);
    assert_eq!(
        JsonPathMatcher::get_values_at_path(&doc, ""),
        vec![text("unnamed")]
    );
    assert_eq!(
        JsonPathMatcher::get_values_at_path(&doc, "/"),
        vec![text("unnamed")]
    );
}

#[test]
fn a_star_inside_a_name_is_no_wildcard() {
    let doc = object(vec![
        ("a*b", Document::Array(vec![text("x")])),
        ("*x", object(vec![("", text("unnamed")), ("c", text("named"))])),
    ]);
    assert_eq!(
        JsonPathMatcher::get_values_at_path(&doc, "/a*b/0"),
        vec![text("x")]
    );
    assert!(JsonPathMatcher::get_values_at_path(&doc, "/a*b/00").is_empty());
    assert_eq!(
        JsonPathMatcher::get_values_at_path(&doc, "/a*b/*"),
        vec![text("x")]
    );
    assert_eq!(
        JsonPathMatcher::get_values_at_path(&doc, "/*x/"),
        vec![text("unnamed")]
    );
    assert_eq!(
        JsonPathMatcher::get_values_at_path(&doc, "/*x/c"),
        vec![text("named")]
    );
    assert!(JsonPathMatcher::get_values_at_path(&doc, "/*x//c").is_empty());
}

#[test]
fn a_malformed_pointer_reaches_nothing() {
    let doc = object(vec![("a~b", text("x")), ("a/b", text("y")), ("a~", text("z"))]);
    assert!(JsonPathMatcher::get_values_at_path(&doc, "/a~b").is_empty());
    assert!(JsonPathMatcher::get_values_at_path(&doc, "/a~").is_empty());
    assert_eq!(
        JsonPathMatcher::get_values_at_path(&doc, "/a~0b"),
        vec![text("x")]
    );
    assert_eq!(
        JsonPathMatcher::get_values_at_path(&doc, "/a~1b"),
        vec![text("y")]
    );
}

#[test]
fn a_condition_is_met_where_its_value_is_among_the_values() {
    let doc = application_set(vec![generator("dev", "main"), generator("prod", "stable")]);
    let path = "/spec/generators/*/values/revision";
    assert!(JsonPathMatcher::matches_condition(&doc, path, &text("main")));
    assert!(JsonPathMatcher::matches_condition(&doc, path, &text("stable")));
    assert!(!JsonPathMatcher::matches_condition(&doc, path, &text("other")));
    assert!(!JsonPathMatcher::matches_condition(&doc, "/missing", &Document::Null));
    assert!(JsonPathMatcher::matches_condition(
        &doc,
        "/spec/generators/0/values",
        &object(vec![("revision", text("main"))])
    ));
}

#[test]
fn a_pattern_becomes_an_anchored_regex() {
    assert_eq!(
        JsonPathMatcher::regex_for_pattern("/spec/generators/*/values/revision"),
        "^/spec/generators/\\d+/values/revision$"
    );
    assert_eq!(JsonPathMatcher::regex_for_pattern(""), "^$");
    assert_eq!(JsonPathMatcher::regex_for_pattern("**"), "^\\d+\\d+$");
    assert_eq!(JsonPathMatcher::regex_for_pattern("/a/b"), "^/a/b$");
    assert_eq!(JsonPathMatcher::regex_for_pattern("/a.b"), "^/a\\.b$");
    assert_eq!(
        JsonPathMatcher::regex_for_pattern("\\.+?()|[]{}^$#&-~"),
        "^\\\\\\.\\+\\?\\(\\)\\|\\[\\]\\{\\}\\^\\$\\#\\&\\-\\~$"
    );
    assert_eq!(JsonPathMatcher::regex_for_pattern("a b/é_%"), "^a b/é_%$");
}

#[test]
fn the_outcome_of_a_search_decides_the_match() {
    assert!(JsonPathMatcher::match_verdict(Some(true)));
    assert!(!JsonPathMatcher::match_verdict(Some(false)));
    assert!(!JsonPathMatcher::match_verdict(None));
}

#[test]
fn a_wildcard_in_a_pattern_matches_digits_only() {
    let pattern = "/spec/generators/*/values/revision";
    assert!(JsonPathMatcher::path_matches_pattern(
        "/spec/generators/0/values/revision",
        pattern
    ));
    assert!(JsonPathMatcher::path_matches_pattern(
        "/spec/generators/12345/values/revision",
        pattern
    ));
    assert!(!JsonPathMatcher::path_matches_pattern(
        "/spec/generators/abc/values/revision",
        pattern
    ));
    assert!(!JsonPathMatcher::path_matches_pattern(
        "/spec/generators//values/revision",
        pattern
    ));
    assert!(!JsonPathMatcher::path_matches_pattern(
        "/spec/generators/1a/values/revision",
        pattern
    ));
    assert!(!JsonPathMatcher::path_matches_pattern(
        "/spec/generators/-/values/revision",
        pattern
    ));
    assert!(!JsonPathMatcher::path_matches_pattern(
        "/spec/generators/*/values/revision",
        pattern
    ));
}

#[test]
fn a_pattern_matches_the_whole_path_only() {
    let pattern = "/spec/generators/*/values";
    assert!(JsonPathMatcher::path_matches_pattern("/spec/generators/3/values", pattern));
    assert!(!JsonPathMatcher::path_matches_pattern(
        "/spec/generators/3/values/revision",
        pattern
    ));
    assert!(!JsonPathMatcher::path_matches_pattern(
        "/x/spec/generators/3/values",
        pattern
    ));
    assert!(!JsonPathMatcher::path_matches_pattern("/spec/generators/3", pattern));
    assert!(!JsonPathMatcher::path_matches_pattern("", pattern));
}

#[test]
fn outside_the_wildcard_a_pattern_matches_only_its_own_text() {
    assert!(JsonPathMatcher::path_matches_pattern("/a.b", "/a.b"));
    assert!(!JsonPathMatcher::path_matches_pattern("/axb", "/a.b"));
    assert!(!JsonPathMatcher::path_matches_any_pattern("/axb", &["/a.b".to_string()]));
    assert!(JsonPathMatcher::path_matches_pattern("/a(b", "/a(b"));
    assert!(JsonPathMatcher::path_matches_pattern("/a(7", "/a(*"));
    assert!(JsonPathMatcher::path_matches_pattern("/a[", "/a["));
    assert!(JsonPathMatcher::path_matches_pattern("/a+/x|y", "/a+/x|y"));
    assert!(!JsonPathMatcher::path_matches_pattern("/aa/x", "/a+/x|y"));
    assert!(JsonPathMatcher::path_matches_pattern("/metadata/labels/a~1b-c", "/metadata/labels/a~1b-c"));
    assert!(JsonPathMatcher::path_matches_pattern("/^$/\\d/3", "/^$/\\d/*"));
    assert!(!JsonPathMatcher::path_matches_pattern("/^$/5/3", "/^$/\\d/*"));
    assert!(JsonPathMatcher::path_matches_pattern("/a{2}/1", "/a{2}/*"));
    assert!(!JsonPathMatcher::path_matches_pattern("/aa/1", "/a{2}/*"));
}

#[test]
fn every_character_but_the_operators_stands_for_itself() {
    for code in 0x20..0x7fu8 {
        let c = code as char;
        let expected = "\\.+*?()|[]{}^$#&-~".contains(c);
        assert_eq!(JsonPathMatcher::is_operator(c), expected, "{}", c);
        if c != '*' {
            let text = format!("/{}/", c);
            assert!(JsonPathMatcher::path_matches_pattern(&text, &text), "{}", c);
        }
    }
    assert!(!JsonPathMatcher::is_operator('é'));
}

#[test]
fn one_matching_pattern_is_enough() {
    let patterns = vec![
        "/metadata/name".to_string(),
        "/spec/generators/*/values/revision".to_string(),
    ];
    assert!(JsonPathMatcher::path_matches_any_pattern("/metadata/name", &patterns));
    assert!(JsonPathMatcher::path_matches_any_pattern(
        "/spec/generators/7/values/revision",
        &patterns
    ));
    assert!(!JsonPathMatcher::path_matches_any_pattern("/metadata/labels", &patterns));
    assert!(!JsonPathMatcher::path_matches_any_pattern("/metadata/name", &[]));
}

#[test]
fn the_indices_of_a_change_are_read_from_its_path() {
    assert_eq!(
        JsonPathMatcher::extract_indices_from_json_pointer("/spec/generators/0/values/revision"),
        vec![("generators".to_string(), 0)]
    );
    assert_eq!(
        JsonPathMatcher::extract_indices_from_json_pointer("/spec/generators/12/clusters/3/name"),
        vec![("generators".to_string(), 12), ("clusters".to_string(), 3)]
    );
    assert_eq!(
        JsonPathMatcher::extract_indices_from_json_pointer("/a/1/2"),
        vec![("a".to_string(), 1), ("1".to_string(), 2)]
    );
    assert_eq!(
        JsonPathMatcher::extract_indices_from_json_pointer("/a/1"),
        vec![("a".to_string(), 1)]
    );
    assert!(JsonPathMatcher::extract_indices_from_json_pointer("/metadata/name").is_empty());
    assert!(JsonPathMatcher::extract_indices_from_json_pointer("/7").is_empty());
    assert!(JsonPathMatcher::extract_indices_from_json_pointer("").is_empty());
}

#[test]
fn wildcards_take_the_indices_of_the_change() {
    let indices = vec![("generators".to_string(), 1), ("clusters".to_string(), 20)];
    assert_eq!(
        JsonPathMatcher::resolve_wildcard_path_with_indices(
            "/spec/generators/*/selector/matchLabels/env",
            &indices
        ),
        "/spec/generators/1/selector/matchLabels/env"
    );
    assert_eq!(
        JsonPathMatcher::resolve_wildcard_path_with_indices(
            "/spec/generators/*/clusters/*/name",
            &indices
        ),
        "/spec/generators/1/clusters/20/name"
    );
    assert_eq!(
        JsonPathMatcher::resolve_wildcard_path_with_indices("/spec/other/*/name", &indices),
        "/spec/other/*/name"
    );
    assert_eq!(
        JsonPathMatcher::resolve_wildcard_path_with_indices("/spec/generators/*", &[]),
        "/spec/generators/*"
    );
    assert_eq!(
        JsonPathMatcher::resolve_wildcard_path_with_indices(
            "/generators/*/generators/*",
            &[("generators".to_string(), 4)]
        ),
        "/generators/4/generators/4"
    );
}

#[test]
fn a_when_condition_is_read_at_the_index_of_the_change() {
    let doc = application_set(vec![
        generator("development", "0.19.2"),
        generator("production", "0.20.0"),
    ]);
    let development = vec![condition(
        "/spec/generators/*/selector/matchLabels/env",
        text("development"),
    )];
    let production = vec![condition(
        "/spec/generators/*/selector/matchLabels/env",
        text("production"),
    )];
    let at_first = "/spec/generators/0/values/revision";
    let at_second = "/spec/generators/1/values/revision";
    assert!(JsonPathMatcher::when_conditions_met(&doc, at_first, &development));
    assert!(!JsonPathMatcher::when_conditions_met(&doc, at_first, &production));
    assert!(!JsonPathMatcher::when_conditions_met(&doc, at_second, &development));
    assert!(JsonPathMatcher::when_conditions_met(&doc, at_second, &production));
}

#[test]
fn no_when_conditions_hold_everywhere() {
    let doc = application_set(vec![]);
    assert!(JsonPathMatcher::when_conditions_met(&doc, "/spec/generators/0", &[]));
    assert!(JsonPathMatcher::when_conditions_met(&Document::Null, "", &[]));
}

#[test]
fn a_when_condition_that_reaches_nothing_fails() {
    let doc = application_set(vec![generator("development", "0.19.2")]);
    let change = "/spec/generators/0/values/revision";
    let missing = vec![condition("/spec/generators/*/selector/matchLabels/tier", text("x"))];
    assert!(!JsonPathMatcher::when_conditions_met(&doc, change, &missing));
    let beyond = vec![condition(
        "/spec/generators/*/selector/matchLabels/env",
        text("development"),
    )];
    assert!(!JsonPathMatcher::when_conditions_met(
        &doc,
        "/spec/generators/5/values/revision",
        &beyond
    ));
    let unresolved = vec![condition("/spec/other/*/env", text("development"))];
    assert!(!JsonPathMatcher::when_conditions_met(&doc, change, &unresolved));
    let malformed = vec![condition("/kind~", text("ApplicationSet"))];
    assert!(!JsonPathMatcher::when_conditions_met(&doc, change, &malformed));
    let malformed_without_slash = vec![condition("kind~2", text("ApplicationSet"))];
    assert!(!JsonPathMatcher::when_conditions_met(&doc, change, &malformed_without_slash));
    let null_expected = vec![condition("/spec/generators/*/missing", Document::Null)];
    assert!(!JsonPathMatcher::when_conditions_met(&doc, change, &null_expected));
}

#[test]
fn a_when_condition_may_start_without_a_slash() {
    let doc = object(vec![("kind", text("A")), ("g", Document::Array(vec![number("1")]))]);
    assert!(JsonPathMatcher::when_conditions_met(
        &doc,
        "/g/0",
        &[condition("kind", text("A"))]
    ));
    assert!(JsonPathMatcher::when_conditions_met(
        &doc,
        "/g/0",
        &[condition("/kind", text("A"))]
    ));
    assert!(!JsonPathMatcher::when_conditions_met(
        &doc,
        "/g/0",
        &[condition("kind", text("B"))]
    ));
    assert!(JsonPathMatcher::when_conditions_met(
        &doc,
        "/g/0",
        &[condition("g/*", number("1"))]
    ));
    assert!(!JsonPathMatcher::when_conditions_met(
        &doc,
        "/g/1",
        &[condition("g/*", number("1"))]
    ));

    let sets = application_set(vec![
        generator("development", "0.19.2"),
        generator("production", "0.20.0"),
    ]);
    let with_slash = vec![condition(
        "/spec/generators/*/selector/matchLabels/env",
        text("production"),
    )];
    let without_slash = vec![condition(
        "spec/generators/*/selector/matchLabels/env",
        text("production"),
    )];
    for change in [
        "/spec/generators/0/values/revision",
        "/spec/generators/1/values/revision",
        "/spec/generators/2/values/revision",
        "/kind",
    ] {
        assert_eq!(
            JsonPathMatcher::when_conditions_met(&sets, change, &with_slash),
            JsonPathMatcher::when_conditions_met(&sets, change, &without_slash),
            "{}",
            change
        );
    }
    assert!(JsonPathMatcher::when_conditions_met(
        &sets,
        "/spec/generators/1/values/revision",
        &without_slash
    ));
    let empty_name = object(vec![("", text("unnamed"))]);
    assert!(JsonPathMatcher::when_conditions_met(
        &empty_name,
        "/x",
        &[condition("", text("unnamed"))]
    ));
}

#[test]
fn a_path_gets_the_slash_that_leads_it() {
    let lead = |path: &str| -> String { JsonPathMatcher::normalize_path(path).iter().collect() };
    assert_eq!(lead("kind"), "/kind");
    assert_eq!(lead("/kind"), "/kind");
    assert_eq!(lead(""), "/");
    assert_eq!(lead("/"), "/");
    assert_eq!(lead("//a"), "//a");
    assert_eq!(lead("a/*/b"), "/a/*/b");
}

#[test]
fn every_when_condition_must_hold() {
    let doc = application_set(vec![generator("development", "0.19.2")]);
    let change = "/spec/generators/0/values/revision";
    let env = condition("/spec/generators/*/selector/matchLabels/env", text("development"));
    let revision = condition("/spec/generators/*/values/revision", text("0.19.2"));
    let wrong = condition("/spec/generators/*/values/revision", text("other"));
    assert!(JsonPathMatcher::when_conditions_met(
        &doc,
        change,
        &[env.clone(), revision]
    ));
    assert!(!JsonPathMatcher::when_conditions_met(&doc, change, &[env, wrong]));
}
