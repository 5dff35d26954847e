use progenitor_impl::document::{Info, OpenAPI, Tag};
use progenitor_impl::tags::tag_info;

fn tag(name: &str, description: &str) -> Tag {
    Tag {
        name: name.to_string(),
        description: Some(description.to_string()),
    }
}

fn document(tags: Vec<Tag>) -> OpenAPI {
    OpenAPI {
        openapi: "3.0.3".to_string(),
        info: Info {
            title: "Test".to_string(),
            description: None,
            terms_of_service: None,
            version: "1.0".to_string(),
        },
        paths: Vec::new(),
        components: None,
        tags,
    }
}

fn info(tags: Vec<Tag>) -> Vec<(String, String)> {
    tag_info(&document(tags))
        .into_iter()
        .map(|tag| (tag.name.clone(), tag.description.clone().unwrap()))
        .collect()
}

fn pair(name: &str, description: &str) -> (String, String) {
    (name.to_string(), description.to_string())
}

#[test]
fn no_tags() {
    assert!(info(Vec::new()).is_empty());
}

#[test]
fn last_tag_of_a_name_counts() {
    assert_eq!(
        info(vec![
            tag("b", "first"),
            tag("a", "only"),
            tag("b", "second"),
            tag("b", "third"),
        ]),
        vec![pair("a", "only"), pair("b", "third")],
    );
}

#[test]
fn tags_of_different_names_stay() {
    assert_eq!(
        info(vec![tag("x", "1"), tag("y", "2"), tag("X", "3")]),
        vec![pair("X", "3"), pair("x", "1"), pair("y", "2")],
    );
}

#[test]
fn names_are_in_the_order_of_strings() {
    let names = ["b", "", "ab", "a", "\u{e9}", "aa", "z", "\u{10000}", "\u{ffff}"];
    let mut sorted: Vec<String> = names.iter().map(|name| name.to_string()).collect();
    sorted.sort();
    let listed: Vec<String> = info(names.iter().map(|name| tag(name, "")).collect())
        .into_iter()
        .map(|(name, _)| name)
        .collect();
    assert_eq!(listed, sorted);
}
