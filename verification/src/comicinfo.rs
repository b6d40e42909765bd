//! The ComicInfo record of a gallery.

use crate::date::{DateView, UploadDate};
use crate::decimal::{decimal, decimal_string, push_decimal};
use crate::tags::{
    combined_tags, display_text, filter_and_combine_tags, lemma_entries_show_listed_tags,
    lemma_no_listed_tag_no_field, lemma_tag_order_is_irrelevant, optional_text, shows_listed_tag,
    tag_entries, tag_views, type_texts, Tag, TagView,
};
use vstd::pervasive::unreached;
use vstd::prelude::*;
use vstd::string::*;

verus! {

/// A gallery as the site describes it.
#[derive(Clone, Debug, PartialEq, Eq)]
pub struct Hentai {
    pub id: u32,
    pub title_pretty: Option<String>,
    pub upload_date: UploadDate,
    pub scanlator: Option<String>,
    pub tags: Vec<Tag>,
}

/// The contents of a [`Hentai`].
pub struct HentaiView {
    pub id: nat,
    pub title_pretty: Option<Seq<char>>,
    pub upload_date: DateView,
    pub scanlator: Option<Seq<char>>,
    pub tags: Seq<TagView>,
}

impl View for Hentai {
    type V = HentaiView;

    open spec fn view(&self) -> HentaiView {
        HentaiView {
            id: self.id as nat,
            title_pretty: optional_text(self.title_pretty),
            upload_date: self.upload_date@,
            scanlator: optional_text(self.scanlator),
            tags: tag_views(self.tags@),
        }
    }
}

/// The fields of a `ComicInfo.xml` file that a gallery fills. The field names are the names of
/// the XML elements.
#[derive(Clone, Debug, PartialEq, Eq)]
pub struct ComicInfo {
    /// Gallery number and title.
    pub Title: String,
    /// Year of upload.
    pub Year: i16,
    /// Month of upload.
    pub Month: u8,
    /// Day of upload.
    pub Day: u8,
    /// Tags of type `artist`.
    pub Writer: Option<String>,
    /// The scanlator.
    pub Translator: Option<String>,
    /// Tags of type `group`.
    pub Publisher: Option<String>,
    /// Tags of type `category`.
    pub Genre: Option<String>,
    /// Tags of the types `character`, `language`, `parody` and `tag`, each with its type.
    pub Tags: Option<String>,
    /// Address of the gallery.
    pub Web: String,
}

/// The contents of a [`ComicInfo`].
pub struct ComicInfoView {
    pub Title: Seq<char>,
    pub Year: int,
    pub Month: int,
    pub Day: int,
    pub Writer: Option<Seq<char>>,
    pub Translator: Option<Seq<char>>,
    pub Publisher: Option<Seq<char>>,
    pub Genre: Option<Seq<char>>,
    pub Tags: Option<Seq<char>>,
    pub Web: Seq<char>,
}

impl View for ComicInfo {
    type V = ComicInfoView;

    open spec fn view(&self) -> ComicInfoView {
        ComicInfoView {
            Title: self.Title@,
            Year: self.Year as int,
            Month: self.Month as int,
            Day: self.Day as int,
            Writer: optional_text(self.Writer),
            Translator: optional_text(self.Translator),
            Publisher: optional_text(self.Publisher),
            Genre: optional_text(self.Genre),
            Tags: optional_text(self.Tags),
            Web: self.Web@,
        }
    }
}

/// Why a gallery has no ComicInfo record.
#[derive(Clone, Copy, Debug, PartialEq, Eq)]
pub enum ConversionError {
    /// The year of upload is more than the `Year` field holds.
    YearOutOfRange { year: i32 },
}

/// The title of a record: the gallery number, a space, and the pretty title where there is one.
pub open spec fn title_text(id: nat, title_pretty: Option<Seq<char>>) -> Seq<char> {
    decimal(id) + seq![' '] + match title_pretty {
        Some(title) => title,
        None => Seq::empty(),
    }
}

/// The address of a gallery: `https://nhentai.net/g/`, the gallery number, and a slash.
pub open spec fn web_text(id: nat) -> Seq<char> {
    "https://nhentai.net/g/"@ + decimal(id) + seq!['/']
}

/// The tag types that `Writer` lists.
pub open spec fn writer_types() -> Seq<Seq<char>> {
    seq!["artist"@]
}

/// The tag types that `Publisher` lists.
pub open spec fn publisher_types() -> Seq<Seq<char>> {
    seq!["group"@]
}

/// The tag types that `Genre` lists.
pub open spec fn genre_types() -> Seq<Seq<char>> {
    seq!["category"@]
}

/// The tag types that `Tags` lists.
pub open spec fn tags_types() -> Seq<Seq<char>> {
    seq!["character"@, "language"@, "parody"@, "tag"@]
}

/// Whether the `Year` field holds the year of upload.
pub open spec fn year_fits(hentai: HentaiView) -> bool {
    i16::MIN <= hentai.upload_date.year <= i16::MAX
}

/// The ComicInfo record of a gallery.
pub open spec fn comic_info_of(hentai: HentaiView) -> ComicInfoView {
    ComicInfoView {
        Title: title_text(hentai.id, hentai.title_pretty),
        Year: hentai.upload_date.year,
        Month: hentai.upload_date.month,
        Day: hentai.upload_date.day,
        Writer: combined_tags(hentai.tags, writer_types(), false),
        Translator: hentai.scanlator,
        Publisher: combined_tags(hentai.tags, publisher_types(), false),
        Genre: combined_tags(hentai.tags, genre_types(), false),
        Tags: combined_tags(hentai.tags, tags_types(), true),
        Web: web_text(hentai.id),
    }
}

/// Two records made of one gallery are the same, field by field and character by character.
pub proof fn lemma_same_gallery_same_record(hentai: Hentai, first: ComicInfo, second: ComicInfo)
    requires
        first@ == comic_info_of(hentai@),
        second@ == comic_info_of(hentai@),
    ensures
        first@ == second@,
        first.Title@ == second.Title@,
        first.Year == second.Year,
        first.Month == second.Month,
        first.Day == second.Day,
        optional_text(first.Writer) == optional_text(second.Writer),
        optional_text(first.Translator) == optional_text(second.Translator),
        optional_text(first.Publisher) == optional_text(second.Publisher),
        optional_text(first.Genre) == optional_text(second.Genre),
        optional_text(first.Tags) == optional_text(second.Tags),
        first.Web@ == second.Web@,
{
}

/// The record does not depend on the order of the tags: two galleries that differ in nothing
/// but the order of their tags have the same record.
pub proof fn lemma_record_ignores_tag_order(first: HentaiView, second: HentaiView)
    requires
        first.tags.to_multiset() == second.tags.to_multiset(),
        first.id == second.id,
        first.title_pretty == second.title_pretty,
        first.upload_date == second.upload_date,
        first.scanlator == second.scanlator,
    ensures
        comic_info_of(first) == comic_info_of(second),
{
    lemma_tag_order_is_irrelevant(first.tags, second.tags, writer_types(), false);
    lemma_tag_order_is_irrelevant(first.tags, second.tags, publisher_types(), false);
    lemma_tag_order_is_irrelevant(first.tags, second.tags, genre_types(), false);
    lemma_tag_order_is_irrelevant(first.tags, second.tags, tags_types(), true);
}

/// A list field is absent where the gallery has no tag of a type that the field lists.
pub proof fn lemma_record_field_absent_without_tags(hentai: HentaiView)
    ensures
        (forall|i: int|
            0 <= i < hentai.tags.len() ==> !writer_types().contains(
                #[trigger] hentai.tags[i].tag_type,
            )) ==> comic_info_of(hentai).Writer is None,
        (forall|i: int|
            0 <= i < hentai.tags.len() ==> !publisher_types().contains(
                #[trigger] hentai.tags[i].tag_type,
            )) ==> comic_info_of(hentai).Publisher is None,
        (forall|i: int|
            0 <= i < hentai.tags.len() ==> !genre_types().contains(
                #[trigger] hentai.tags[i].tag_type,
            )) ==> comic_info_of(hentai).Genre is None,
        (forall|i: int|
            0 <= i < hentai.tags.len() ==> !tags_types().contains(
                #[trigger] hentai.tags[i].tag_type,
            )) ==> comic_info_of(hentai).Tags is None,
{
    if forall|i: int|
        0 <= i < hentai.tags.len() ==> !writer_types().contains(
            #[trigger] hentai.tags[i].tag_type,
        ) {
        lemma_no_listed_tag_no_field(hentai.tags, writer_types(), false);
    }
    if forall|i: int|
        0 <= i < hentai.tags.len() ==> !publisher_types().contains(
            #[trigger] hentai.tags[i].tag_type,
        ) {
        lemma_no_listed_tag_no_field(hentai.tags, publisher_types(), false);
    }
    if forall|i: int|
        0 <= i < hentai.tags.len() ==> !genre_types().contains(
            #[trigger] hentai.tags[i].tag_type,
        ) {
        lemma_no_listed_tag_no_field(hentai.tags, genre_types(), false);
    }
    if forall|i: int|
        0 <= i < hentai.tags.len() ==> !tags_types().contains(
            #[trigger] hentai.tags[i].tag_type,
        ) {
        lemma_no_listed_tag_no_field(hentai.tags, tags_types(), true);
    }
}

/// The entries of `Writer`, `Publisher` and `Genre` each show a tag of the field's type by
/// its name, with nothing in front; the entries of `Tags` each show a tag of one of its four
/// types by the type, a colon, a space and the name.
pub proof fn lemma_record_entries_show_tags(hentai: HentaiView)
    ensures
        forall|i: int|
            0 <= i < tag_entries(hentai.tags, writer_types(), false).len() ==> shows_listed_tag(
                #[trigger] tag_entries(hentai.tags, writer_types(), false)[i],
                hentai.tags,
                writer_types(),
                false,
            ),
        forall|i: int|
            0 <= i < tag_entries(hentai.tags, publisher_types(), false).len() ==> shows_listed_tag(
                #[trigger] tag_entries(hentai.tags, publisher_types(), false)[i],
                hentai.tags,
                publisher_types(),
                false,
            ),
        forall|i: int|
            0 <= i < tag_entries(hentai.tags, genre_types(), false).len() ==> shows_listed_tag(
                #[trigger] tag_entries(hentai.tags, genre_types(), false)[i],
                hentai.tags,
                genre_types(),
                false,
            ),
        forall|i: int|
            0 <= i < tag_entries(hentai.tags, tags_types(), true).len() ==> shows_listed_tag(
                #[trigger] tag_entries(hentai.tags, tags_types(), true)[i],
                hentai.tags,
                tags_types(),
                true,
            ),
        forall|tag: TagView| #[trigger] display_text(tag, false) == tag.name,
        forall|tag: TagView|
            #[trigger] display_text(tag, true) == tag.tag_type + seq![':', ' '] + tag.name,
{
    lemma_entries_show_listed_tags(hentai.tags, writer_types(), false);
    lemma_entries_show_listed_tags(hentai.tags, publisher_types(), false);
    lemma_entries_show_listed_tags(hentai.tags, genre_types(), false);
    lemma_entries_show_listed_tags(hentai.tags, tags_types(), true);
}

impl ComicInfo {
    /// The ComicInfo record of `hentai`, or the reason why it has none: the one reason is a
    /// year of upload that the `Year` field does not hold.
    pub fn checked_from(hentai: Hentai) -> (converted: Result<ComicInfo, ConversionError>)
        ensures
            match converted {
                Ok(info) => {
                    &&& year_fits(hentai@)
                    &&& info@ == comic_info_of(hentai@)
                    &&& info.Title@ == title_text(
                        hentai.id as nat,
                        optional_text(hentai.title_pretty),
                    )
                    &&& info.Web@ == web_text(hentai.id as nat)
                    &&& info.Year == hentai.upload_date@.year
                    &&& info.Month == hentai.upload_date@.month
                    &&& info.Day == hentai.upload_date@.day
                    &&& optional_text(info.Translator) == optional_text(hentai.scanlator)
                },
                Err(error) => !year_fits(hentai@) && error == (ConversionError::YearOutOfRange {
                    year: hentai.upload_date@.year as i32,
                }),
            },
    {
        let year = match hentai.upload_date.year_number() {
            Some(year) => year,
            None => {
                return Err(ConversionError::YearOutOfRange { year: hentai.upload_date.year() });
            },
        };
        let month = hentai.upload_date.month_number();
        let day = hentai.upload_date.day_number();

        let mut title = decimal_string(hentai.id);
        proof {
            reveal_strlit(" ");
        }
        title.append(" ");
        match &hentai.title_pretty {
            Some(pretty) => title.append(pretty.as_str()),
            None => {},
        }

        let mut web = String::from_str("https://nhentai.net/g/");
        push_decimal(&mut web, hentai.id);
        proof {
            reveal_strlit("/");
        }
        web.append("/");

        let tags = hentai.tags.as_slice();
        let artist: [&str; 1] = ["artist"];
        let group: [&str; 1] = ["group"];
        let category: [&str; 1] = ["category"];
        let others: [&str; 4] = ["character", "language", "parody", "tag"];
        proof {
            assert(type_texts(artist@) =~= writer_types());
            assert(type_texts(group@) =~= publisher_types());
            assert(type_texts(category@) =~= genre_types());
            assert(type_texts(others@) =~= tags_types());
        }
        let writer = filter_and_combine_tags(tags, artist.as_slice(), false);
        let publisher = filter_and_combine_tags(tags, group.as_slice(), false);
        let genre = filter_and_combine_tags(tags, category.as_slice(), false);
        let tag_list = filter_and_combine_tags(tags, others.as_slice(), true);
        let info = ComicInfo {
            Title: title,
            Year: year,
            Month: month,
            Day: day,
            Writer: writer,
            Translator: hentai.scanlator,
            Publisher: publisher,
            Genre: genre,
            Tags: tag_list,
            Web: web,
        };
        proof {
            assert(info@.Title =~= title_text(hentai@.id, hentai@.title_pretty));
            assert(info@.Web =~= web_text(hentai@.id));
        }
        Ok(info)
    }

    /// The ComicInfo record of `hentai`, whose year of upload has to be one that the `Year`
    /// field holds.
    pub fn from(hentai: Hentai) -> (info: ComicInfo)
        requires
            year_fits(hentai@),
        ensures
            info@ == comic_info_of(hentai@),
            info.Title@ == title_text(hentai.id as nat, optional_text(hentai.title_pretty)),
            info.Web@ == web_text(hentai.id as nat),
            info.Year == hentai.upload_date@.year,
            info.Month == hentai.upload_date@.month,
            info.Day == hentai.upload_date@.day,
            optional_text(info.Translator) == optional_text(hentai.scanlator),
    {
        match ComicInfo::checked_from(hentai) {
            Ok(info) => info,
            Err(_) => unreached(),
        }
    }
}

} // verus!
