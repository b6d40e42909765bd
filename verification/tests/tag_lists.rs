use comicinfo::tags::{display_string, filter_and_combine_tags, type_is_listed, Tag};

fn tag(tag_type: &str, name: &str) -> Tag {
    Tag { tag_type: tag_type.to_string(), name: name.to_string() }
}

#[test]
fn keeps_only_listed_types() {
    let tags = vec![tag("artist", "foo"), tag("group", "bar"), tag("artist", "abc")];
    assert_eq!(filter_and_combine_tags(&tags, &["artist"], false), Some("abc,foo".to_string()));
    assert_eq!(filter_and_combine_tags(&tags, &["group"], false), Some("bar".to_string()));
}

#[test]
fn shows_type_where_asked() {
    let tags = vec![tag("tag", "yuri"), tag("tag", "ahegao"), tag("artist", "foo")];
    let types = ["character", "language", "parody", "tag"];
    assert_eq!(
        filter_and_combine_tags(&tags, &types, true),
        Some("tag: ahegao,tag: yuri".to_string())
    );
}

#[test]
fn sorts_by_the_whole_entry() {
    let tags = vec![tag("tag", "a"), tag("parody", "z"), tag("language", "m")];
    let types = ["character", "language", "parody", "tag"];
    assert_eq!(
        filter_and_combine_tags(&tags, &types, true),
        Some("language: m,parody: z,tag: a".to_string())
    );
}

#[test]
fn no_listed_tag_gives_none() {
    let tags = vec![tag("artist", "foo")];
    assert_eq!(filter_and_combine_tags(&tags, &["group"], false), None);
    assert_eq!(filter_and_combine_tags(&[], &["group"], true), None);
    assert_eq!(filter_and_combine_tags(&tags, &[], false), None);
}

#[test]
fn one_tag_with_empty_name_gives_none() {
    let tags = vec![tag("artist", "")];
    assert_eq!(filter_and_combine_tags(&tags, &["artist"], false), None);
    assert_eq!(filter_and_combine_tags(&tags, &["artist"], true), Some("artist: ".to_string()));
}

#[test]
fn two_tags_with_empty_names_give_a_comma() {
    let tags = vec![tag("artist", ""), tag("artist", "")];
    assert_eq!(filter_and_combine_tags(&tags, &["artist"], false), Some(",".to_string()));
}

#[test]
fn order_of_tags_does_not_matter() {
    let a = vec![tag("tag", "b"), tag("tag", "a"), tag("artist", "x"), tag("tag", "c")];
    let b = vec![tag("tag", "c"), tag("artist", "x"), tag("tag", "b"), tag("tag", "a")];
    assert_eq!(
        filter_and_combine_tags(&a, &["tag"], true),
        filter_and_combine_tags(&b, &["tag"], true)
    );
    assert_eq!(filter_and_combine_tags(&a, &["tag"], false), Some("a,b,c".to_string()));
}

#[test]
fn equal_tags_stay_both() {
    let tags = vec![tag("tag", "a"), tag("tag", "a")];
    assert_eq!(filter_and_combine_tags(&tags, &["tag"], false), Some("a,a".to_string()));
}

#[test]
fn sorts_by_bytes() {
    let tags =
        vec![tag("tag", "b"), tag("tag", "B"), tag("tag", "é"), tag("tag", "ab"), tag("tag", "a")];
    assert_eq!(filter_and_combine_tags(&tags, &["tag"], false), Some("B,a,ab,b,é".to_string()));
}

#[test]
fn type_match_is_exact() {
    assert!(type_is_listed("tag", &["character", "tag"]));
    assert!(!type_is_listed("Tag", &["character", "tag"]));
    assert!(!type_is_listed("ta", &["character", "tag"]));
    assert!(!type_is_listed("tag", &[]));
}

#[test]
fn display_string_has_both_forms() {
    let t = tag("parody", "touhou");
    assert_eq!(display_string(&t, false), "touhou");
    assert_eq!(display_string(&t, true), "parody: touhou");
}
