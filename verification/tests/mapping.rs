use comicinfo::comicinfo::{ComicInfo, ConversionError, Hentai};
use comicinfo::date::UploadDate;
use comicinfo::tags::Tag;

fn tag(tag_type: &str, name: &str) -> Tag {
    Tag { tag_type: tag_type.to_string(), name: name.to_string() }
}

fn gallery(id: u32, title: Option<&str>, date: (i32, u32, u32), tags: Vec<Tag>) -> Hentai {
    Hentai {
        id,
        title_pretty: title.map(|t| t.to_string()),
        upload_date: UploadDate::new(date.0, date.1, date.2).unwrap(),
        scanlator: None,
        tags,
    }
}

#[test]
fn maps_gallery_without_matching_tags() {
    let info = ComicInfo::from(gallery(177013, Some("Sample"), (2023, 1, 5), vec![]));
    assert_eq!(
        info,
        ComicInfo {
            Title: "177013 Sample".to_string(),
            Year: 2023,
            Month: 1,
            Day: 5,
            Writer: None,
            Translator: None,
            Publisher: None,
            Genre: None,
            Tags: None,
            Web: "https://nhentai.net/g/177013/".to_string(),
        }
    );
}

#[test]
fn maps_tags_to_writer_and_tags() {
    let tags = vec![tag("tag", "yuri"), tag("tag", "ahegao"), tag("artist", "foo")];
    let info = ComicInfo::from(gallery(1, None, (2020, 2, 29), tags));
    assert_eq!(info.Writer, Some("foo".to_string()));
    assert_eq!(info.Tags, Some("tag: ahegao,tag: yuri".to_string()));
    assert_eq!(info.Publisher, None);
    assert_eq!(info.Genre, None);
    assert_eq!(info.Title, "1 ");
    assert_eq!((info.Year, info.Month, info.Day), (2020, 2, 29));
}

#[test]
fn year_beyond_i16_is_an_error() {
    let converted = ComicInfo::checked_from(gallery(5, None, (40000, 12, 31), vec![]));
    assert_eq!(converted, Err(ConversionError::YearOutOfRange { year: 40000 }));
}

#[test]
fn year_at_the_edge_of_i16_is_mapped() {
    let info = ComicInfo::from(gallery(5, None, (32767, 12, 31), vec![]));
    assert_eq!((info.Year, info.Month, info.Day), (32767, 12, 31));
    let info = ComicInfo::from(gallery(5, None, (-32768, 1, 1), vec![]));
    assert_eq!((info.Year, info.Month, info.Day), (-32768, 1, 1));
    let below = ComicInfo::checked_from(gallery(5, None, (-32769, 1, 1), vec![]));
    assert_eq!(below, Err(ConversionError::YearOutOfRange { year: -32769 }));
    let above = ComicInfo::checked_from(gallery(5, None, (32768, 1, 1), vec![]));
    assert_eq!(above, Err(ConversionError::YearOutOfRange { year: 32768 }));
}

#[test]
fn checked_from_agrees_with_from() {
    let tags = vec![tag("group", "g"), tag("category", "manga"), tag("language", "english")];
    let hentai = gallery(42, Some("T"), (2019, 11, 30), tags);
    assert_eq!(ComicInfo::checked_from(hentai.clone()), Ok(ComicInfo::from(hentai)));
}

#[test]
fn scanlator_is_copied_unchanged() {
    let mut hentai = gallery(9, Some("x"), (2021, 6, 15), vec![]);
    hentai.scanlator = Some(" Some: Group, ".to_string());
    assert_eq!(ComicInfo::from(hentai).Translator, Some(" Some: Group, ".to_string()));
    let mut hentai = gallery(9, Some("x"), (2021, 6, 15), vec![]);
    hentai.scanlator = Some(String::new());
    assert_eq!(ComicInfo::from(hentai).Translator, Some(String::new()));
}

#[test]
fn title_and_web_hold_the_number_without_padding() {
    let info = ComicInfo::from(gallery(0, Some(""), (2021, 6, 15), vec![]));
    assert_eq!(info.Title, "0 ");
    assert_eq!(info.Web, "https://nhentai.net/g/0/");
    let info = ComicInfo::from(gallery(4294967295, Some("a b"), (2021, 6, 15), vec![]));
    assert_eq!(info.Title, "4294967295 a b");
    assert_eq!(info.Web, "https://nhentai.net/g/4294967295/");
}

#[test]
fn every_list_field_takes_its_own_types() {
    let tags = vec![
        tag("artist", "b"),
        tag("artist", "a"),
        tag("group", "circle"),
        tag("category", "doujinshi"),
        tag("character", "c"),
        tag("language", "japanese"),
        tag("parody", "touhou"),
        tag("tag", "full color"),
        tag("other", "ignored"),
    ];
    let info = ComicInfo::from(gallery(3, Some("t"), (2022, 10, 9), tags));
    assert_eq!(info.Writer, Some("a,b".to_string()));
    assert_eq!(info.Publisher, Some("circle".to_string()));
    assert_eq!(info.Genre, Some("doujinshi".to_string()));
    assert_eq!(
        info.Tags,
        Some("character: c,language: japanese,parody: touhou,tag: full color".to_string())
    );
}

#[test]
fn mapping_twice_gives_the_same_record() {
    let tags = vec![tag("tag", "yuri"), tag("artist", "foo"), tag("tag", "ahegao")];
    let hentai = gallery(177013, Some("Sample"), (2023, 1, 5), tags);
    let first = ComicInfo::from(hentai.clone());
    let second = ComicInfo::from(hentai);
    assert_eq!(first, second);
    assert_eq!(first.Title.as_bytes(), second.Title.as_bytes());
    assert_eq!(first.Tags.unwrap().as_bytes(), second.Tags.unwrap().as_bytes());
}

#[test]
fn record_does_not_depend_on_tag_order() {
    let forward =
        vec![tag("tag", "yuri"), tag("artist", "foo"), tag("tag", "ahegao"), tag("group", "g")];
    let mut backward = forward.clone();
    backward.reverse();
    assert_eq!(
        ComicInfo::from(gallery(1, None, (2023, 1, 5), forward)),
        ComicInfo::from(gallery(1, None, (2023, 1, 5), backward))
    );
}

#[test]
fn names_are_not_prefixed_in_writer_publisher_genre() {
    let tags = vec![tag("artist", "x: y"), tag("group", "g"), tag("category", "c")];
    let info = ComicInfo::from(gallery(1, None, (2023, 1, 5), tags));
    assert_eq!(info.Writer, Some("x: y".to_string()));
    assert_eq!(info.Publisher, Some("g".to_string()));
    assert_eq!(info.Genre, Some("c".to_string()));
    assert_eq!(info.Tags, None);
}
