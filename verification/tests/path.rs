use tg_admin::path::{is_segment_text, ValuePath};

#[test]
fn test_value_path() {
    let mut level = ValuePath::default();
    let path = ["key1", "key2", "key3"];

    assert!(level.as_str() != "");
    assert!(level.basename() == "");
    assert!(!level.to_vec().contains(&"".to_string()));

    for part in &path {
        level.push(part);
        assert!(level.parent().as_str() != "");
        assert!(!level.to_vec().contains(&"".to_string()));
        assert!(level.basename() == *part);
    }
    assert!(level.to_vec() == path.to_vec());
}

#[test]
fn root_is_a_slash_and_its_own_parent() {
    let root = ValuePath::default();
    assert_eq!(root.as_str(), "/");
    assert!(root.is_top());
    assert_eq!(root.parent(), root);
    assert_eq!(root.basename(), "");
    assert!(root.to_vec().is_empty());
}

#[test]
fn push_puts_one_separator_between_segments() {
    let mut level = ValuePath::default();
    level.push("address");
    assert_eq!(level.as_str(), "/address");
    assert!(!level.is_top());
    level.push("city");
    assert_eq!(level.as_str(), "/address/city");
    assert_eq!(level.clone().into_string(), "/address/city".to_string());
}

#[test]
fn join_leaves_the_address_as_it_was() {
    let level = ValuePath::from("/a");
    let longer = level.join("b");
    assert_eq!(level.as_str(), "/a");
    assert_eq!(longer.as_str(), "/a/b");
    assert_eq!(longer.parent(), level);
    assert_eq!(longer.basename(), "b");
}

#[test]
fn parent_of_a_first_level_address_is_the_root() {
    assert_eq!(ValuePath::from("/tags").parent(), ValuePath::default());
    assert_eq!(ValuePath::from("/a/b/c").parent().as_str(), "/a/b");
}

#[test]
fn segments_round_trip_through_the_text() {
    let segments = vec!["a".to_string(), "b c".to_string(), "d.e".to_string()];
    let level = ValuePath::from(segments.clone());
    assert_eq!(level.as_str(), "/a/b c/d.e");
    assert_eq!(level.to_vec(), segments);
    let back: Vec<String> = level.into();
    assert_eq!(back, segments);
}

#[test]
fn no_segments_encode_to_the_root() {
    let level = ValuePath::from(Vec::<String>::new());
    assert_eq!(level, ValuePath::default());
    assert!(level.to_vec().is_empty());
}

#[test]
fn empty_pieces_are_no_segments() {
    assert_eq!(ValuePath::from("//a///b/").to_vec(), vec!["a".to_string(), "b".to_string()]);
    assert_eq!(
        ValuePath::from(vec!["".to_string(), "a".to_string()]).to_vec(),
        vec!["a".to_string()]
    );
}

#[test]
fn a_text_without_separator_is_one_segment() {
    let level = ValuePath::from("key");
    assert_eq!(level.to_vec(), vec!["key".to_string()]);
    assert_eq!(level.parent(), ValuePath::default());
}

#[test]
fn a_separator_inside_a_segment_splits_it() {
    let level = ValuePath::default().join("a/b");
    assert_eq!(level.to_vec(), vec!["a".to_string(), "b".to_string()]);
}

#[test]
fn segments_may_hold_any_other_character() {
    let level = ValuePath::default().join("clé").join("值");
    assert_eq!(level.as_str(), "/clé/值");
    assert_eq!(level.basename(), "值");
    assert_eq!(level.parent().as_str(), "/clé");
    assert_eq!(level.to_vec(), vec!["clé".to_string(), "值".to_string()]);
}

#[test]
fn new_and_from_take_the_text_as_it_is() {
    assert_eq!(ValuePath::new("/x".to_string()).as_str(), "/x");
    assert_eq!(ValuePath::from("/x".to_string()).as_str(), "/x");
    assert_eq!(ValuePath::from("/x").as_str(), "/x");
}

#[test]
fn a_segment_is_not_empty_and_holds_no_separator() {
    assert!(is_segment_text("key"));
    assert!(is_segment_text("a b.c"));
    assert!(!is_segment_text(""));
    assert!(!is_segment_text("/"));
    assert!(!is_segment_text("a/b"));
    assert!(!is_segment_text("ab/"));
}

#[test]
fn addresses_are_the_same_by_their_text() {
    assert!(ValuePath::from("/a/b").same(&ValuePath::default().join("a").join("b")));
    assert!(!ValuePath::from("/a/b").same(&ValuePath::from("/a")));
    assert!(!ValuePath::from("a").same(&ValuePath::from("/a")));
}
