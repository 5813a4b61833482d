//! The listing page: one entry for each post, poured into the listing
//! skeleton where its insertion marker stands.

use crate::date::{list_date, list_date_text, Date};
use crate::metadata::{read_time_text, word_count_text, Metadata, MetadataView};
use crate::text::{
    append, chars_of, find_from, first_match, replace, replace_from, replaced, replaced_from,
    slice_of, string_of,
};
use vstd::prelude::*;

verus! {

/// The marker in the listing skeleton where the entries go.
pub open spec fn posts_marker() -> Seq<char> {
    "<!-- posts -->"@
}

/// The date in a listing entry: empty where the post states none.
pub open spec fn entry_date(date: Option<Date>) -> Seq<char> {
    match date {
        Some(d) => list_date_text(d),
        None => Seq::empty(),
    }
}

/// The entry skeleton filled for one post: the link, the title, the date,
/// the reading time, the word count and the summary, in this order, each
/// wherever its placeholder stands.
pub open spec fn entry_of(item_template: Seq<char>, metadata: MetadataView) -> Seq<char> {
    let linked = replaced(item_template, "~link~"@, metadata.link_path);
    let titled = replaced(linked, "<!-- title -->"@, metadata.title);
    let dated = replaced(titled, "<!-- date -->"@, entry_date(metadata.date));
    let timed = replaced(dated, "<!-- read_time -->"@, read_time_text(metadata.word_count));
    let counted = replaced(timed, "<!-- word_count -->"@, word_count_text(metadata.word_count));
    replaced(counted, "<!-- summary -->"@, metadata.summary)
}

/// The entries of the posts `listed`, one after the other in their order.
pub open spec fn entries_of(item_template: Seq<char>, listed: Seq<MetadataView>) -> Seq<char>
    decreases listed.len(),
{
    if listed.len() == 0 {
        Seq::empty()
    } else {
        entries_of(item_template, listed.drop_last()) + entry_of(item_template, listed.last())
    }
}

/// The listing page: the skeleton up to its first marker, the entries, and
/// the rest of the skeleton without any further marker. A skeleton without
/// a marker makes no page.
pub open spec fn list_page_of(
    list_template: Seq<char>,
    item_template: Seq<char>,
    listed: Seq<MetadataView>,
) -> Option<Seq<char>> {
    match first_match(list_template, posts_marker(), 0) {
        Some(at) => Some(
            list_template.take(at) + entries_of(item_template, listed) + replaced_from(
                list_template,
                posts_marker(),
                Seq::empty(),
                at + posts_marker().len(),
            ),
        ),
        None => None,
    }
}

/// The values of the metadata that `listed` refers to.
pub open spec fn views_of(listed: Seq<&Metadata>) -> Seq<MetadataView> {
    listed.map_values(|m: &Metadata| m@)
}

/// Every metadata of `listed` makes sense.
pub open spec fn all_wf(listed: Seq<&Metadata>) -> bool {
    forall|i: int| 0 <= i < listed.len() ==> (#[trigger] listed[i]).wf()
}

/// Whether the listing skeleton holds the marker where the entries go.
pub fn has_marker(list_template: &str) -> (found: bool)
    ensures
        found == first_match(list_template@, posts_marker(), 0).is_some(),
{
    find_from(&chars_of(list_template), &chars_of("<!-- posts -->"), 0).is_some()
}

/// Fills the entry skeleton for one post.
pub fn entry(item_template: &Vec<char>, metadata: &Metadata) -> (out: Vec<char>)
    requires
        metadata.wf(),
    ensures
        out@ == entry_of(item_template@, metadata@),
{
    let date: Vec<char> = match &metadata.date {
        Some(d) => list_date(d),
        None => Vec::new(),
    };
    let linked = replace(item_template, &chars_of("~link~"), &chars_of(metadata.link_path.as_str()));
    let titled = replace(&linked, &chars_of("<!-- title -->"), &chars_of(metadata.title.as_str()));
    let dated = replace(&titled, &chars_of("<!-- date -->"), &date);
    let timed = replace(
        &dated,
        &chars_of("<!-- read_time -->"),
        &chars_of(metadata.read_time().as_str()),
    );
    let counted = replace(
        &timed,
        &chars_of("<!-- word_count -->"),
        &chars_of(metadata.word_count().as_str()),
    );
    replace(&counted, &chars_of("<!-- summary -->"), &chars_of(metadata.summary.as_str()))
}

/// Makes the listing page for the posts that `listed` refers to, in their
/// order, if the listing skeleton holds the marker.
pub fn page(list_template: &str, item_template: &str, listed: &Vec<&Metadata>) -> (made: Option<
    String,
>)
    requires
        all_wf(listed@),
    ensures
        match made {
            Some(page) => list_page_of(list_template@, item_template@, views_of(listed@)) == Some(
                page@,
            ),
            None => list_page_of(list_template@, item_template@, views_of(listed@)) is None,
        },
{
    let skeleton = chars_of(list_template);
    let item = chars_of(item_template);
    let marker = chars_of("<!-- posts -->");
    let at: usize = match find_from(&skeleton, &marker, 0) {
        Some(at) => at,
        None => {
            return None;
        },
    };
    let mut out = slice_of(&skeleton, 0, at);
    let ghost head = out@;
    let ghost views = views_of(listed@);
    let mut i: usize = 0;
    while i < listed.len()
        invariant
            i <= listed.len(),
            all_wf(listed@),
            views == views_of(listed@),
            out@ == head + entries_of(item@, views.take(i as int)),
        decreases listed.len() - i,
    {
        let ghost before = out@;
        append(&mut out, &entry(&item, listed[i]));
        proof {
            assert(views.take(i + 1).drop_last() == views.take(i as int));
            assert(views.take(i + 1).last() == listed@[i as int]@);
            assert(before + entry_of(item@, listed@[i as int]@) == head + (entries_of(
                item@,
                views.take(i as int),
            ) + entry_of(item@, listed@[i as int]@)));
        }
        i += 1;
    }
    assert(views.take(i as int) == views);
    append(&mut out, &replace_from(&skeleton, &marker, &Vec::new(), at + marker.len()));
    Some(string_of(&out))
}

/// Makes the listing page for the posts of `metadata`, in their order, if
/// the listing skeleton holds the marker.
pub fn build(list_template: &str, item_template: &str, metadata: &[Metadata]) -> (made: Option<
    String,
>)
    requires
        forall|i: int| 0 <= i < metadata@.len() ==> (#[trigger] metadata@[i]).wf(),
    ensures
        match made {
            Some(page) => list_page_of(
                list_template@,
                item_template@,
                metadata@.map_values(|m: Metadata| m@),
            ) == Some(page@),
            None => list_page_of(
                list_template@,
                item_template@,
                metadata@.map_values(|m: Metadata| m@),
            ) is None,
        },
{
    let mut listed: Vec<&Metadata> = Vec::new();
    let mut i: usize = 0;
    while i < metadata.len()
        invariant
            i <= metadata.len(),
            listed@.len() == i,
            forall|j: int| 0 <= j < i ==> *listed@[j] == metadata@[j],
            forall|j: int| 0 <= j < metadata@.len() ==> (#[trigger] metadata@[j]).wf(),
        decreases metadata.len() - i,
    {
        listed.push(&metadata[i]);
        i += 1;
    }
    assert(views_of(listed@) =~= metadata@.map_values(|m: Metadata| m@));
    page(list_template, item_template, &listed)
}

} // verus!
