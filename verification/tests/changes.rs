use jiffs::backend::PatchOp;
use jiffs::document::Document;
use jiffs::json_path::JsonPathMatcher;
use jiffs::validator::Validator;

fn text(value: &str) -> Document {
    Document::String(value.to_string())
}

fn number(value: &str) -> Document {
    Document::Number(value.to_string())
}

fn object(members: Vec<(&str, Document)>) -> Document {
    Document::Object(
        members
            .into_iter()
            .map(|(name, value)| (name.to_string(), value))
            .collect(),
    )
}

fn sample() -> Document {
    object(vec![
        ("kind", text("ApplicationSet")),
        ("count", number("3")),
        ("ratio", number("0.5")),
        ("enabled", Document::Bool(true)),
        ("nothing", Document::Null),
        (
            "spec",
            object(vec![(
                "generators",
                Document::Array(vec![
                    object(vec![("name", text("a"))]),
                    object(vec![("name", text("b"))]),
                ]),
            )]),
        ),
    ])
}

#[test]
fn a_document_does_not_differ_from_itself() {
    for doc in [
        sample(),
        Document::Null,
        text("x"),
        number("1000.0"),
        Document::Array(vec![]),
        object(vec![]),
        Document::Array(vec![sample(), sample()]),
    ] {
        let changes = JsonPathMatcher::get_all_changes(&doc, &doc.clone());
        assert!(changes.is_empty());
        assert_eq!(changes.len(), 0);
    }
}

#[test]
fn the_order_of_members_makes_no_difference() {
    let one = object(vec![("a", number("1")), ("b", number("2"))]);
    let other = object(vec![("b", number("2")), ("a", number("1"))]);
    assert!(JsonPathMatcher::get_all_changes(&one, &other).is_empty());
}

#[test]
fn the_outside_crates_see_the_member_that_counts() {
    let doubled = object(vec![("a", number("1")), ("b", number("2")), ("a", number("3"))]);
    let plain = object(vec![("a", number("3")), ("b", number("2"))]);
    assert_eq!(doubled.get("a"), Some(&number("3")));
    assert_eq!(JsonPathMatcher::get_values_at_path(&doubled, "/a"), vec![number("3")]);
    assert!(JsonPathMatcher::get_all_changes(&doubled, &plain).is_empty());
    assert!(JsonPathMatcher::get_all_changes(&plain, &doubled).is_empty());
    let first = object(vec![("a", number("1")), ("b", number("2"))]);
    let changes = JsonPathMatcher::get_all_changes(&first, &doubled);
    assert_eq!(changes.get("/a"), Some(&(Some(number("1")), Some(number("3")))));
}

#[test]
fn a_replacement_records_both_values() {
    let base = sample();
    let current = object(vec![
        ("kind", text("Application")),
        ("count", number("3")),
        ("ratio", number("0.5")),
        ("enabled", Document::Bool(true)),
        ("nothing", Document::Null),
        (
            "spec",
            object(vec![(
                "generators",
                Document::Array(vec![
                    object(vec![("name", text("a"))]),
                    object(vec![("name", text("c"))]),
                ]),
            )]),
        ),
    ]);
    let changes = JsonPathMatcher::get_all_changes(&base, &current);
    assert_eq!(
        changes.keys(),
        vec![&"/kind".to_string(), &"/spec/generators/1/name".to_string()]
    );
    assert_eq!(
        changes.get("/kind"),
        Some(&(Some(text("ApplicationSet")), Some(text("Application"))))
    );
    assert_eq!(
        changes.get("/spec/generators/1/name"),
        Some(&(Some(text("b")), Some(text("c"))))
    );
}

#[test]
fn an_addition_has_no_old_value_and_a_removal_no_new_one() {
    let base = object(vec![("a", number("1")), ("b", number("2"))]);
    let current = object(vec![("a", number("1")), ("c", number("3"))]);
    let changes = JsonPathMatcher::get_all_changes(&base, &current);
    assert_eq!(changes.len(), 2);
    assert_eq!(changes.get("/c"), Some(&(None, Some(number("3")))));
    assert_eq!(changes.get("/b"), Some(&(Some(number("2")), None)));
    assert_eq!(changes.get("/a"), None);
}

#[test]
fn the_old_value_is_what_the_path_reaches_in_the_base() {
    let base = object(vec![
        ("list", Document::Array(vec![number("1"), number("2"), number("3"), number("4")])),
        ("tree", object(vec![("leaf", text("old")), ("gone", object(vec![("x", text("y"))]))])),
        ("kind", text("a")),
    ]);
    let current = object(vec![
        ("list", Document::Array(vec![number("1"), number("9")])),
        ("tree", object(vec![("leaf", text("new"))])),
        ("kind", Document::Array(vec![text("a")])),
    ]);
    let changes = JsonPathMatcher::get_all_changes(&base, &current);
    assert!(!changes.is_empty());
    let mut with_old_value = 0;
    for path in changes.keys() {
        let record = changes.get(path).unwrap();
        if let Some(old) = &record.0 {
            assert_eq!(
                JsonPathMatcher::get_values_at_path(&base, path),
                vec![old.clone()]
            );
            with_old_value += 1;
        }
    }
    assert_eq!(with_old_value, 6);
    assert_eq!(
        changes.get("/list/1"),
        Some(&(Some(number("2")), Some(number("9"))))
    );
    assert_eq!(changes.get("/list/2"), Some(&(Some(number("3")), None)));
    assert_eq!(changes.get("/list/3"), Some(&(Some(number("4")), None)));
    assert_eq!(
        changes.get("/tree/gone"),
        Some(&(Some(object(vec![("x", text("y"))])), None))
    );
    assert_eq!(
        changes.get("/kind"),
        Some(&(Some(text("a")), Some(Document::Array(vec![text("a")]))))
    );
}

#[test]
fn every_item_that_an_array_lost_is_recorded_at_its_own_index() {
    let base = object(vec![("a", Document::Array(vec![number("1"), number("2"), number("3")]))]);
    let current = object(vec![("a", Document::Array(vec![number("1")]))]);
    let changes = JsonPathMatcher::get_all_changes(&base, &current);
    assert_eq!(changes.len(), 2);
    assert_eq!(changes.keys(), vec![&"/a/1".to_string(), &"/a/2".to_string()]);
    assert_eq!(changes.get("/a/1"), Some(&(Some(number("2")), None)));
    assert_eq!(changes.get("/a/2"), Some(&(Some(number("3")), None)));

    let emptied = object(vec![("a", Document::Array(vec![]))]);
    let changes = JsonPathMatcher::get_all_changes(&base, &emptied);
    assert_eq!(
        changes.keys(),
        vec![&"/a/0".to_string(), &"/a/1".to_string(), &"/a/2".to_string()]
    );
    assert_eq!(changes.get("/a/2"), Some(&(Some(number("3")), None)));
}

#[test]
fn arrays_inside_arrays_lose_their_items_each_at_its_own_index() {
    let row = |items: &[&str]| Document::Array(items.iter().map(|i| number(i)).collect());
    let base = Document::Array(vec![row(&["1", "2", "3"]), row(&["4"]), row(&["5", "6"])]);
    let current = Document::Array(vec![row(&["1"])]);
    let changes = JsonPathMatcher::get_all_changes(&base, &current);
    assert_eq!(
        changes.keys(),
        vec![
            &"/0/1".to_string(),
            &"/0/2".to_string(),
            &"/1".to_string(),
            &"/2".to_string()
        ]
    );
    assert_eq!(changes.get("/0/2"), Some(&(Some(number("3")), None)));
    assert_eq!(changes.get("/1"), Some(&(Some(row(&["4"])), None)));
    assert_eq!(changes.get("/2"), Some(&(Some(row(&["5", "6"])), None)));
}

#[test]
fn the_index_of_a_path_is_raised_in_its_last_segment() {
    assert_eq!(JsonPathMatcher::raise_index("/a/1", 0), "/a/1");
    assert_eq!(JsonPathMatcher::raise_index("/a/1", 1), "/a/2");
    assert_eq!(JsonPathMatcher::raise_index("/a/9", 1), "/a/10");
    assert_eq!(JsonPathMatcher::raise_index("/a/1/b/007", 5), "/a/1/b/12");
    assert_eq!(JsonPathMatcher::raise_index("3", 4), "7");
    assert_eq!(JsonPathMatcher::raise_index("/a/b", 2), "/a/b");
    assert_eq!(JsonPathMatcher::raise_index("/a/1/", 2), "/a/1/");
    assert_eq!(JsonPathMatcher::raise_index("", 2), "");
    assert_eq!(JsonPathMatcher::raise_index("/a/-", 2), "/a/-");
    let last = format!("/a/{}", usize::MAX);
    assert_eq!(JsonPathMatcher::raise_index(&last, 1), last);
    let before_last = format!("/a/{}", usize::MAX - 1);
    assert_eq!(JsonPathMatcher::raise_index(&before_last, 1), last);
}

#[test]
fn repeated_removals_in_a_patch_move_on_by_one_each() {
    let base = object(vec![("b", Document::Array(vec![text("w"), text("x"), text("y"), text("z")]))]);
    let operations = vec![
        PatchOp::Remove { path: "/b/1".to_string() },
        PatchOp::Add { path: "/b/1".to_string(), value: text("n") },
        PatchOp::Remove { path: "/b/1".to_string() },
        PatchOp::Remove { path: "/b/1".to_string() },
        PatchOp::Remove { path: "/b/1".to_string() },
    ];
    let changes = JsonPathMatcher::changes_from_patch(&base, operations);
    assert_eq!(
        changes.keys(),
        vec![&"/b/1".to_string(), &"/b/2".to_string(), &"/b/3".to_string()]
    );
    assert_eq!(changes.get("/b/1"), Some(&(None, Some(text("n")))));
    assert_eq!(changes.get("/b/2"), Some(&(Some(text("y")), None)));
    assert_eq!(changes.get("/b/3"), Some(&(Some(text("z")), None)));
}

#[test]
fn a_change_of_kind_at_the_root_is_one_replacement() {
    let changes = JsonPathMatcher::get_all_changes(&sample(), &Document::Null);
    assert_eq!(changes.len(), 1);
    assert_eq!(changes.get(""), Some(&(Some(sample()), Some(Document::Null))));
}

#[test]
fn names_with_slashes_and_tildes_are_escaped_in_paths() {
    let base = object(vec![("a/b", number("1")), ("c~d", number("2"))]);
    let current = object(vec![("a/b", number("3")), ("c~d", number("4"))]);
    let changes = JsonPathMatcher::get_all_changes(&base, &current);
    assert_eq!(changes.get("/a~1b"), Some(&(Some(number("1")), Some(number("3")))));
    assert_eq!(changes.get("/c~0d"), Some(&(Some(number("2")), Some(number("4")))));
}

#[test]
fn the_steps_of_a_patch_are_recorded_one_after_another() {
    let base = object(vec![("a", number("1")), ("b", Document::Array(vec![text("x"), text("y")]))]);
    let operations = vec![
        PatchOp::Add { path: "/c".to_string(), value: text("new") },
        PatchOp::Replace { path: "/a".to_string(), value: number("2") },
        PatchOp::Remove { path: "/b/1".to_string() },
        PatchOp::Other { path: "/a".to_string() },
        PatchOp::Remove { path: "/missing".to_string() },
        PatchOp::Replace { path: "/b/7".to_string(), value: text("z") },
        PatchOp::Replace { path: "not a pointer".to_string(), value: text("z") },
        PatchOp::Add { path: "/a".to_string(), value: number("5") },
    ];
    let changes = JsonPathMatcher::changes_from_patch(&base, operations);
    assert_eq!(
        changes.keys(),
        vec![&"/c".to_string(), &"/a".to_string(), &"/b/1".to_string()]
    );
    assert_eq!(changes.get("/c"), Some(&(None, Some(text("new")))));
    assert_eq!(changes.get("/a"), Some(&(None, Some(number("5")))));
    assert_eq!(changes.get("/b/1"), Some(&(Some(text("y")), None)));
    assert!(JsonPathMatcher::changes_from_patch(&base, vec![]).is_empty());
}

#[test]
fn changes_are_allowed_where_every_path_matches_a_pattern() {
    let base = object(vec![("a", number("1")), ("b", number("2")), ("c", number("3"))]);
    let current = object(vec![("a", number("9")), ("b", number("8")), ("c", number("3"))]);
    let both = vec!["/a".to_string(), "/b".to_string()];
    let one = vec!["/a".to_string()];
    assert!(JsonPathMatcher::has_allowed_changes_only(&base, &current, &both, None));
    assert!(!JsonPathMatcher::has_allowed_changes_only(&base, &current, &one, None));
    assert!(!JsonPathMatcher::has_allowed_changes_only(&base, &current, &[], None));
    assert!(JsonPathMatcher::has_allowed_changes_only(&base, &base.clone(), &[], None));
}

#[test]
fn numbers_come_back_as_they_went_in() {
    let json = "[0, 1, -1, 18446744073709551615, -9223372036854775808, 0.1, 2.5, 0.0, 1e-7, \
                5e-324, 1.7976931348623157e308, 0.30000000000000004, 123456789.12345679, 1e100, \
                18446744073709551616, 0.1e1, 100e-2, 3.0]";
    let parsed = Validator::parse_yaml_or_json(json).unwrap();
    let items = match &parsed {
        Document::Array(items) => items.clone(),
        _ => panic!("an array was expected"),
    };
    assert_eq!(items.len(), 18);
    assert_eq!(items[0], number("0"));
    assert_eq!(items[3], number("18446744073709551615"));
    assert_eq!(items[4], number("-9223372036854775808"));
    assert_eq!(items[6], number("2.5"));
    assert_eq!(items[7], number("0.0"));
    assert_eq!(items[15], number("1.0"));
    assert_eq!(items[17], number("3.0"));
    let base = object(vec![("n", Document::Array(items.clone()))]);
    let walked = JsonPathMatcher::get_values_at_path(&base, "/n/*");
    assert_eq!(walked, items);
    for (index, item) in items.iter().enumerate() {
        let pointed = JsonPathMatcher::get_values_at_path(&base, &format!("/n/{}", index));
        assert_eq!(pointed, vec![item.clone()]);
    }
    let current = object(vec![("n", Document::Array(vec![])), ("m", Document::Array(items.clone()))]);
    let changes = JsonPathMatcher::get_all_changes(&base, &current);
    assert_eq!(changes.get("/m"), Some(&(None, Some(Document::Array(items.clone())))));
    assert_eq!(changes.get("/n/0"), Some(&(Some(number("0")), None)));
}

