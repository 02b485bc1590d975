use jiffs::document::Document;
use jiffs::json_path::JsonPathMatcher;
use jiffs::validator::Validator;

fn document_from(json: &serde_json::Value) -> Document {
    match json {
        serde_json::Value::Null => Document::Null,
        serde_json::Value::Bool(b) => Document::Bool(*b),
        serde_json::Value::Number(n) => Document::Number(n.to_string()),
        serde_json::Value::String(text) => Document::String(text.clone()),
        serde_json::Value::Array(items) => Document::Array(items.iter().map(document_from).collect()),
        serde_json::Value::Object(map) => Document::Object(
            map.iter()
                .map(|(name, value)| (name.clone(), document_from(value)))
                .collect(),
        ),
    }
}

const BASE: &str = r#"{
    "kind": "ApplicationSet",
    "metadata": {"name": "sets", "labels": {"a/b": "x", "c~d": "y", "": "z"}},
    "spec": {
        "generators": [
            {"clusters": {"values": {"revision": "1.0"}, "selector": {"env": "dev"}}},
            {"clusters": {"values": {"revision": "2.0"}, "selector": {"env": "prod"}}},
            {"list": [1, 2.5, -3, null, true, "x"]}
        ],
        "replicas": 3
    }
}"#;

const CURRENT: &str = r#"{
    "kind": "ApplicationSet",
    "metadata": {"name": "sets", "labels": {"a/b": "changed", "": "z", "new": [1]}},
    "spec": {
        "generators": [
            {"clusters": {"values": {"revision": "1.1"}, "selector": {"env": "dev"}}},
            {"list": [1, 2.5, -3, null, true, "x", "added"]}
        ],
        "replicas": "three"
    }
}"#;

#[test]
fn json_is_read_as_serde_json_reads_it() {
    for text in [BASE, CURRENT, "null", "[]", "{}", "3", "\"x\"", " [1, {\"a\": [true]}] "] {
        let expected = document_from(&serde_json::from_str::<serde_json::Value>(text).unwrap());
        assert_eq!(Validator::parse_yaml_or_json(text).unwrap(), expected);
    }
}

#[test]
fn yaml_is_read_as_serde_norway_reads_it() {
    let texts = [
        "kind: ApplicationSet\nspec:\n  list:\n  - 1\n  - a: b\n    c: [x, y]\n",
        "- 1\n- 2.5\n- ~\n- yes\n- 'quoted'\n- 0x10\n- 1e3\n",
        "a: &anchor\n  b: 1\nc: *anchor\n",
        "plain",
        "",
    ];
    for text in texts {
        let expected = document_from(&serde_norway::from_str::<serde_json::Value>(text).unwrap());
        assert_eq!(Validator::parse_yaml_or_json(text).unwrap(), expected);
    }
}

#[test]
fn json_is_tried_before_yaml() {
    let text = "{\"a\": 1e2}";
    let as_json = document_from(&serde_json::from_str::<serde_json::Value>(text).unwrap());
    assert_eq!(Validator::parse_yaml_or_json(text).unwrap(), as_json);
    let only_yaml = "{a: 1}";
    assert!(serde_json::from_str::<serde_json::Value>(only_yaml).is_err());
    let as_yaml = document_from(&serde_norway::from_str::<serde_json::Value>(only_yaml).unwrap());
    assert_eq!(Validator::parse_yaml_or_json(only_yaml).unwrap(), as_yaml);
}

#[test]
fn pointers_reach_what_jsonptr_reaches() {
    let json = serde_json::from_str::<serde_json::Value>(BASE).unwrap();
    let doc = document_from(&json);
    let pointers = [
        "",
        "/",
        "/kind",
        "/metadata/labels/a~1b",
        "/metadata/labels/c~0d",
        "/metadata/labels/",
        "/metadata/labels/a/b",
        "/spec/generators/0/clusters/values/revision",
        "/spec/generators/2/list/1",
        "/spec/generators/2/list/5",
        "/spec/generators/2/list/6",
        "/spec/generators/2/list/-",
        "/spec/generators/2/list/01",
        "/spec/generators/3",
        "/spec/replicas",
        "/spec/replicas/0",
        "/missing",
        "/bad~2escape",
        "/trailing~",
    ];
    for pointer in pointers {
        let expected: Vec<Document> = match jsonptr::Pointer::parse(pointer) {
            Ok(parsed) => match parsed.resolve(&json) {
                Ok(value) => vec![document_from(value)],
                Err(_) => vec![],
            },
            Err(_) => vec![],
        };
        if !pointer.is_empty() {
            assert_eq!(
                JsonPathMatcher::get_values_at_path(&doc, pointer),
                expected,
                "{}",
                pointer
            );
        }
        if !pointer.is_empty() {
            let condition = vec![jiffs::config::PathValue {
                path: pointer.to_string(),
                value: expected.first().cloned().unwrap_or(Document::Null),
            }];
            assert_eq!(
                JsonPathMatcher::when_conditions_met(&doc, "/kind", &condition),
                !expected.is_empty(),
                "{}",
                pointer
            );
        }
    }
}

#[test]
fn changes_are_what_json_patch_finds() {
    let base_json = serde_json::from_str::<serde_json::Value>(BASE).unwrap();
    let current_json = serde_json::from_str::<serde_json::Value>(CURRENT).unwrap();
    let base = document_from(&base_json);
    let current = document_from(&current_json);
    let changes = JsonPathMatcher::get_all_changes(&base, &current);
    let patch = json_patch::diff(&base_json, &current_json);
    assert!(patch.0.len() >= 8);
    let mut paths: Vec<String> = Vec::new();
    for operation in &patch.0 {
        let path = operation.path().to_string();
        assert!(!paths.contains(&path), "this pair of documents repeats no path");
        paths.push(path.clone());
        let old = jsonptr::Pointer::parse(&path)
            .unwrap()
            .resolve(&base_json)
            .ok()
            .map(document_from);
        let expected = match operation {
            json_patch::PatchOperation::Add(add) => (None, Some(document_from(&add.value))),
            json_patch::PatchOperation::Remove(_) => (old, None),
            json_patch::PatchOperation::Replace(replace) => {
                (old, Some(document_from(&replace.value)))
            }
            _ => panic!("a diff holds additions, removals and replacements only"),
        };
        assert_eq!(changes.get(&path), Some(&expected), "{}", path);
    }
    let recorded: Vec<String> = changes.keys().into_iter().cloned().collect();
    assert_eq!(recorded, paths);
}

#[test]
fn the_patch_repeats_the_path_of_items_that_an_array_lost() {
    let base_json = serde_json::from_str::<serde_json::Value>("[1, 2, 3, 4]").unwrap();
    let current_json = serde_json::from_str::<serde_json::Value>("[1]").unwrap();
    let patch = json_patch::diff(&base_json, &current_json);
    let paths: Vec<String> = patch.0.iter().map(|op| op.path().to_string()).collect();
    assert_eq!(paths, vec!["/1", "/1", "/1"]);
    let changes =
        JsonPathMatcher::get_all_changes(&document_from(&base_json), &document_from(&current_json));
    let recorded: Vec<String> = changes.keys().into_iter().cloned().collect();
    assert_eq!(recorded, vec!["/1", "/2", "/3"]);
}

#[test]
fn patterns_match_what_their_regex_matches() {
    let patterns = [
        "/spec/generators/*/values/revision",
        "/spec/*/*",
        "/a.b/*",
        "/a+/*",
        "/(x|y)/*",
        "/[",
        "*",
        "",
        "/spec/generators/*",
    ];
    let paths = [
        "/spec/generators/0/values/revision",
        "/spec/generators/10/values/revision",
        "/spec/generators/x/values/revision",
        "/spec/1/2",
        "/spec/1/",
        "/a.b/1",
        "/aXb/1",
        "/a+/1",
        "/aaa/7",
        "/x/3",
        "/(x|y)/3",
        "/[",
        "7",
        "٣",
        "",
        "/spec/generators/12",
        "/spec/generators/12\n",
    ];
    for pattern in patterns {
        let pieces: Vec<String> = pattern.split('*').map(regex::escape).collect();
        let regex = regex::Regex::new(&format!("^{}$", pieces.join(r"\d+")));
        assert!(regex.is_ok());
        for path in paths {
            let expected = match &regex {
                Ok(regex) => regex.is_match(path),
                Err(_) => false,
            };
            assert_eq!(
                JsonPathMatcher::path_matches_pattern(path, pattern),
                expected,
                "{} against {}",
                path,
                pattern
            );
        }
    }
}
