//! Tags of a gallery, and the comma-separated list that a ComicInfo field holds of them.

use crate::sorting::{sort_strings, sorted_texts};
use crate::text::{join, join_strings, lemma_text_order_total, str_eq, text_order, texts};
use vstd::prelude::*;
use vstd::relations::*;
use vstd::seq_lib::*;
use vstd::string::*;

verus! {

/// A label attached to a gallery: a category (`tag_type`, such as "artist" or "parody") and the
/// label's text.
#[derive(Clone, Debug, PartialEq, Eq)]
pub struct Tag {
    pub tag_type: String,
    pub name: String,
}

/// The contents of a [`Tag`].
pub struct TagView {
    pub tag_type: Seq<char>,
    pub name: Seq<char>,
}

impl View for Tag {
    type V = TagView;

    open spec fn view(&self) -> TagView {
        TagView { tag_type: self.tag_type@, name: self.name@ }
    }
}

/// The contents of each tag of a list.
pub open spec fn tag_views(tags: Seq<Tag>) -> Seq<TagView> {
    tags.map_values(|tag: Tag| tag@)
}

/// The characters of each tag type of a list.
pub open spec fn type_texts(types: Seq<&str>) -> Seq<Seq<char>> {
    types.map_values(|t: &str| t@)
}

/// The test that tag filtering applies: the tag's type is one of `types`.
pub open spec fn has_type_in(types: Seq<Seq<char>>) -> spec_fn(TagView) -> bool {
    |tag: TagView| types.contains(tag.tag_type)
}

/// What a list shows of one tag: `type: name` where the type is displayed, else the name alone.
pub open spec fn display_text(tag: TagView, display_type: bool) -> Seq<char> {
    if display_type {
        tag.tag_type + seq![':', ' '] + tag.name
    } else {
        tag.name
    }
}

/// `display_text` for a fixed choice of `display_type`, as a function of the tag.
pub open spec fn displayed(display_type: bool) -> spec_fn(TagView) -> Seq<char> {
    |tag: TagView| display_text(tag, display_type)
}

/// The display texts of the tags whose type is in `types`, in the order of the tags.
pub open spec fn shown_texts(
    tags: Seq<TagView>,
    types: Seq<Seq<char>>,
    display_type: bool,
) -> Seq<Seq<char>> {
    tags.filter(has_type_in(types)).map_values(displayed(display_type))
}

/// The entries of a tag list: the display texts of the tags whose type is in `types`, sorted.
pub open spec fn tag_entries(
    tags: Seq<TagView>,
    types: Seq<Seq<char>>,
    display_type: bool,
) -> Seq<Seq<char>> {
    sorted_texts(shown_texts(tags, types, display_type))
}

/// The tag list as a field holds it: the entries joined by commas, and nothing at all where
/// that string would be empty.
pub open spec fn combined_tags(
    tags: Seq<TagView>,
    types: Seq<Seq<char>>,
    display_type: bool,
) -> Option<Seq<char>> {
    let joined = join(tag_entries(tags, types, display_type), seq![',']);
    if joined.len() == 0 {
        None
    } else {
        Some(joined)
    }
}

/// The characters of an optional string.
pub open spec fn optional_text(text: Option<String>) -> Option<Seq<char>> {
    match text {
        Some(s) => Some(s@),
        None => None,
    }
}

/// The display texts of two lists of tags, one after the other, are those of the two lists
/// put together.
proof fn lemma_shown_texts_of_concat(
    front: Seq<TagView>,
    back: Seq<TagView>,
    types: Seq<Seq<char>>,
    display_type: bool,
)
    ensures
        shown_texts(front + back, types, display_type) == shown_texts(front, types, display_type)
            + shown_texts(back, types, display_type),
{
    Seq::filter_distributes_over_add(front, back, has_type_in(types));
    assert(shown_texts(front + back, types, display_type) =~= shown_texts(
        front,
        types,
        display_type,
    ) + shown_texts(back, types, display_type));
}

/// Two lists that hold the same tags, each as often in one as in the other, show the same
/// texts, each as often in one as in the other.
pub proof fn lemma_shown_texts_of_permutation(
    first: Seq<TagView>,
    second: Seq<TagView>,
    types: Seq<Seq<char>>,
    display_type: bool,
)
    requires
        first.to_multiset() == second.to_multiset(),
    ensures
        shown_texts(first, types, display_type).to_multiset() == shown_texts(
            second,
            types,
            display_type,
        ).to_multiset(),
    decreases first.len(),
{
    broadcast use group_to_multiset_ensures;

    to_multiset_len(first);
    to_multiset_len(second);
    if first.len() == 0 {
        assert(first =~= second);
    } else {
        let tag = first.last();
        assert(first =~= first.drop_last().push(tag));
        assert(first.to_multiset().count(tag) > 0);
        assert(second.contains(tag));
        let at = choose|at: int| 0 <= at < second.len() && second[at] == tag;
        let front = second.take(at);
        let back = second.skip(at + 1);
        assert(second =~= front + seq![tag] + back);
        assert(second.remove(at) =~= front + back);
        assert(first.drop_last().to_multiset() =~= first.to_multiset().remove(tag));
        assert(second.remove(at).to_multiset() =~= second.to_multiset().remove(tag));
        lemma_shown_texts_of_permutation(first.drop_last(), front + back, types, display_type);
        lemma_shown_texts_of_concat(first.drop_last(), seq![tag], types, display_type);
        lemma_shown_texts_of_concat(front, seq![tag], types, display_type);
        lemma_shown_texts_of_concat(front + seq![tag], back, types, display_type);
        lemma_shown_texts_of_concat(front, back, types, display_type);
        let one = shown_texts(seq![tag], types, display_type);
        let shown_front = shown_texts(front, types, display_type);
        let shown_back = shown_texts(back, types, display_type);
        let shown_rest = shown_texts(first.drop_last(), types, display_type);
        lemma_multiset_commutative(shown_rest, one);
        lemma_multiset_commutative(shown_front + one, shown_back);
        lemma_multiset_commutative(shown_front, one);
        lemma_multiset_commutative(shown_front, shown_back);
        assert(first =~= first.drop_last() + seq![tag]);
        assert((shown_front + one + shown_back).to_multiset() =~= (shown_rest
            + one).to_multiset());
    }
}

/// The field does not depend on the order of the tags: two lists that hold the same tags,
/// each as often in one as in the other, give the same entries and the same field.
pub proof fn lemma_tag_order_is_irrelevant(
    first: Seq<TagView>,
    second: Seq<TagView>,
    types: Seq<Seq<char>>,
    display_type: bool,
)
    requires
        first.to_multiset() == second.to_multiset(),
    ensures
        tag_entries(first, types, display_type) == tag_entries(second, types, display_type),
        combined_tags(first, types, display_type) == combined_tags(second, types, display_type),
{
    let shown_first = shown_texts(first, types, display_type);
    let shown_second = shown_texts(second, types, display_type);
    lemma_shown_texts_of_permutation(first, second, types, display_type);
    lemma_text_order_total();
    shown_first.lemma_sort_by_ensures(text_order());
    shown_second.lemma_sort_by_ensures(text_order());
    lemma_sorted_unique(
        shown_first.sort_by(text_order()),
        shown_second.sort_by(text_order()),
        text_order(),
    );
}

/// The entries are sorted, and they are the display texts of the tags whose type is listed,
/// each as often as such tags show it.
pub proof fn lemma_tag_entries_sorted(
    tags: Seq<TagView>,
    types: Seq<Seq<char>>,
    display_type: bool,
)
    ensures
        sorted_by(tag_entries(tags, types, display_type), text_order()),
        tag_entries(tags, types, display_type).to_multiset() == shown_texts(
            tags,
            types,
            display_type,
        ).to_multiset(),
        tag_entries(tags, types, display_type).len() == tags.filter(has_type_in(types)).len(),
{
    broadcast use group_to_multiset_ensures;

    lemma_text_order_total();
    shown_texts(tags, types, display_type).lemma_sort_by_ensures(text_order());
    to_multiset_len(shown_texts(tags, types, display_type));
    to_multiset_len(tag_entries(tags, types, display_type));
}

/// Whether `entry` is the display text of one of `tags` whose type is in `types`.
pub open spec fn shows_listed_tag(
    entry: Seq<char>,
    tags: Seq<TagView>,
    types: Seq<Seq<char>>,
    display_type: bool,
) -> bool {
    exists|j: int|
        0 <= j < tags.len() && types.contains(tags[j].tag_type) && entry == #[trigger] display_text(
            tags[j],
            display_type,
        )
}

/// Every entry shows one tag whose type is listed: the tag's name alone where
/// `display_type` is off, and the tag's type, a colon, a space and the tag's name where it is
/// on. And every such tag has its entry.
pub proof fn lemma_entries_show_listed_tags(
    tags: Seq<TagView>,
    types: Seq<Seq<char>>,
    display_type: bool,
)
    ensures
        forall|i: int|
            0 <= i < tag_entries(tags, types, display_type).len() ==> shows_listed_tag(
                #[trigger] tag_entries(tags, types, display_type)[i],
                tags,
                types,
                display_type,
            ),
        forall|j: int|
            0 <= j < tags.len() && types.contains(tags[j].tag_type) ==> tag_entries(
                tags,
                types,
                display_type,
            ).contains(#[trigger] display_text(tags[j], display_type)),
        forall|tag: TagView| #[trigger] display_text(tag, false) == tag.name,
        forall|tag: TagView|
            #[trigger] display_text(tag, true) == tag.tag_type + seq![':', ' '] + tag.name,
{
    broadcast use group_to_multiset_ensures;

    let kept = tags.filter(has_type_in(types));
    let shown = shown_texts(tags, types, display_type);
    let entries = tag_entries(tags, types, display_type);
    lemma_tag_entries_sorted(tags, types, display_type);
    #[allow(deprecated)]
    tags.filter_lemma(has_type_in(types));
    assert forall|i: int| 0 <= i < entries.len() implies shows_listed_tag(
        #[trigger] entries[i],
        tags,
        types,
        display_type,
    ) by {
        assert(entries.contains(entries[i]));
        assert(shown.to_multiset().count(entries[i]) > 0);
        assert(shown.contains(entries[i]));
        let k = choose|k: int| 0 <= k < shown.len() && shown[k] == entries[i];
        assert(kept.contains(kept[k]));
        tags.lemma_filter_contains_rev(has_type_in(types), kept[k]);
        let j = choose|j: int| 0 <= j < tags.len() && tags[j] == kept[k];
        assert(has_type_in(types)(kept[k]));
        assert(entries[i] == display_text(tags[j], display_type));
    }
    assert forall|j: int|
        0 <= j < tags.len() && types.contains(tags[j].tag_type) implies entries.contains(
        #[trigger] display_text(tags[j], display_type),
    ) by {
        assert(has_type_in(types)(tags[j]));
        assert(kept.contains(tags[j]));
        let k = choose|k: int| 0 <= k < kept.len() && kept[k] == tags[j];
        assert(shown[k] == display_text(tags[j], display_type));
        assert(shown.contains(display_text(tags[j], display_type)));
        assert(entries.to_multiset().count(display_text(tags[j], display_type)) > 0);
    }
}

/// A joined list is at least as long as its last part, and longer where it has two parts or
/// more.
proof fn lemma_join_len(parts: Seq<Seq<char>>, separator: Seq<char>)
    ensures
        parts.len() > 0 ==> join(parts, separator).len() >= parts.last().len(),
        parts.len() > 1 ==> join(parts, separator).len() >= separator.len(),
{
}

/// The field is absent exactly where there is no entry, or one entry that is empty. A field
/// that is present never holds the empty string.
pub proof fn lemma_field_absent_iff(
    tags: Seq<TagView>,
    types: Seq<Seq<char>>,
    display_type: bool,
)
    ensures
        combined_tags(tags, types, display_type) is None <==> {
            let entries = tag_entries(tags, types, display_type);
            entries.len() == 0 || (entries.len() == 1 && entries[0].len() == 0)
        },
        combined_tags(tags, types, display_type) matches Some(text) ==> text.len() > 0,
{
    let entries = tag_entries(tags, types, display_type);
    lemma_join_len(entries, seq![',']);
}

/// Where no tag has a type that is listed, the field is absent.
pub proof fn lemma_no_listed_tag_no_field(
    tags: Seq<TagView>,
    types: Seq<Seq<char>>,
    display_type: bool,
)
    requires
        forall|i: int| 0 <= i < tags.len() ==> !types.contains(#[trigger] tags[i].tag_type),
    ensures
        combined_tags(tags, types, display_type) is None,
{
    let listed = has_type_in(types);
    assert(tags.all(|tag: TagView| !listed(tag)));
    tags.lemma_all_neg_filter_empty(listed);
    lemma_tag_entries_sorted(tags, types, display_type);
}

/// Whether `tag_type` is one of `types`.
pub fn type_is_listed(tag_type: &str, types: &[&str]) -> (listed: bool)
    ensures
        listed == type_texts(types@).contains(tag_type@),
{
    let mut i: usize = 0;
    while i < types.len()
        invariant
            i <= types.len(),
            forall|k: int| 0 <= k < i ==> type_texts(types@)[k] != tag_type@,
        decreases types.len() - i,
    {
        if str_eq(types[i], tag_type) {
            assert(type_texts(types@)[i as int] == tag_type@);
            return true;
        }
        i += 1;
    }
    false
}

/// The text that a list shows of `tag`.
pub fn display_string(tag: &Tag, display_type: bool) -> (shown: String)
    ensures
        shown@ == display_text(tag@, display_type),
{
    if display_type {
        let mut shown = tag.tag_type.clone();
        proof {
            reveal_strlit(": ");
            assert(": "@ =~= seq![':', ' ']);
        }
        shown.append(": ");
        shown.append(tag.name.as_str());
        shown
    } else {
        tag.name.clone()
    }
}

/// Keeps the tags whose type is one of `types`, shows each as its name, or as `type: name`
/// where `display_type` is set, sorts these texts and joins them with commas. Returns `None`
/// where the joined text is empty.
pub fn filter_and_combine_tags(tags: &[Tag], types: &[&str], display_type: bool) -> (combined:
    Option<String>)
    ensures
        optional_text(combined) == combined_tags(
            tag_views(tags@),
            type_texts(types@),
            display_type,
        ),
{
    let ghost allowed = has_type_in(type_texts(types@));
    let ghost show = displayed(display_type);
    let mut shown: Vec<String> = Vec::new();
    let mut i: usize = 0;
    proof {
        reveal(Seq::filter);
        assert(shown_texts(tag_views(tags@).take(0), type_texts(types@), display_type) =~= texts(
            shown@,
        ));
    }
    while i < tags.len()
        invariant
            i <= tags.len(),
            allowed == has_type_in(type_texts(types@)),
            show == displayed(display_type),
            texts(shown@) == tag_views(tags@).take(i as int).filter(allowed).map_values(show),
        decreases tags.len() - i,
    {
        let ghost before = tag_views(tags@).take(i as int);
        let ghost shown_before = texts(shown@);
        proof {
            assert(tag_views(tags@).take(i + 1) =~= before.push(tags@[i as int]@));
            before.lemma_filter_push(tags@[i as int]@, allowed);
        }
        if type_is_listed(tags[i].tag_type.as_str(), types) {
            let text = display_string(&tags[i], display_type);
            shown.push(text);
            proof {
                assert(texts(shown@) =~= shown_before.push(text@));
                assert(before.filter(allowed).push(tags@[i as int]@).map_values(show)
                    =~= before.filter(allowed).map_values(show).push(text@));
            }
        }
        i += 1;
    }
    proof {
        assert(tag_views(tags@).take(i as int) =~= tag_views(tags@));
    }
    let sorted = sort_strings(shown);
    proof {
        reveal_strlit(",");
        assert(","@ =~= seq![',']);
    }
    let joined = join_strings(&sorted, ",");
    if joined.as_str().is_empty() {
        None
    } else {
        Some(joined)
    }
}

} // verus!
