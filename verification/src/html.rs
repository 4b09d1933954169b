//! HTML documents, as `scraper` parses, queries, edits and writes them.
//!
//! A document is opaque here. What the library needs to know of one has a
//! name, and each function below hands its work to `scraper` and says by
//! those names what came back. None of this is proved.

use vstd::prelude::*;
use scraper::Html;
use scraper::Selector;

verus! {

#[verifier::external_type_specification]
#[verifier::external_body]
pub struct ExHtml(Html);

/// The tree that the text of an HTML document parses to. The parser
/// rejects nothing: for malformed markup it builds what it can.
pub uninterp spec fn html_document(text: Seq<char>) -> Html;

/// For each element of `document` that the selector `tag` matches and that
/// has a parent, in the order in which the elements were made: the value
/// of its attribute `attribute`, or `None` where it has no such attribute.
pub uninterp spec fn html_attribute_values(document: Html, tag: Seq<char>, attribute: Seq<char>) -> Seq<
    Option<Seq<char>>,
>;

/// `document` after the element at `position` among those that the
/// selector `tag` matches is detached from its parent; `document` itself
/// where there are not so many.
pub uninterp spec fn html_without(document: Html, tag: Seq<char>, position: int) -> Html;

/// The markup of `document`, written from its root.
pub uninterp spec fn html_markup(document: Html) -> Seq<char>;

/// A name of letters only, which is a selector for the elements so named.
pub open spec fn is_tag_name(tag: Seq<char>) -> bool {
    &&& tag.len() > 0
    &&& forall|i: int|
        0 <= i < tag.len() ==> ('a' <= #[trigger] tag[i] <= 'z' || 'A' <= tag[i] <= 'Z')
}

/// Trusted: `Html::parse_document`.
#[verifier::external_body]
pub(crate) fn parse_document(text: &str) -> (document: Html)
    ensures
        document == html_document(text@),
{
    Html::parse_document(text)
}

/// Trusted: `Html::select` with the selector that `Selector::parse` makes
/// of `tag`, and `Element::attr` on each element selected.
#[verifier::external_body]
pub(crate) fn attribute_values(document: &Html, tag: &str, attribute: &str) -> (values: Vec<
    Option<String>,
>)
    requires
        is_tag_name(tag@),
    ensures
        values@.len() == html_attribute_values(*document, tag@, attribute@).len(),
        forall|i: int|
            0 <= i < values@.len() ==> match #[trigger] values@[i] {
                Some(value) => html_attribute_values(*document, tag@, attribute@)[i] == Some(
                    value@,
                ),
                None => html_attribute_values(*document, tag@, attribute@)[i] is None,
            },
{
    let selector = Selector::parse(tag).unwrap();
    document.select(&selector).map(|element| element.value().attr(attribute).map(String::from)).collect()
}

/// Trusted: `NodeMut::detach` on the element at `position` of what
/// `Html::select` yields for `tag`.
#[verifier::external_body]
pub(crate) fn detach_selected(document: &mut Html, tag: &str, position: usize)
    requires
        is_tag_name(tag@),
    ensures
        *final(document) == html_without(*old(document), tag@, position as int),
{
    let selector = Selector::parse(tag).unwrap();
    let found = document.select(&selector).nth(position).map(|element| element.id());
    if let Some(mut node) = found.and_then(|id| document.tree.get_mut(id)) {
        node.detach();
    }
}

/// Trusted: `Html::html`.
#[verifier::external_body]
pub(crate) fn markup(document: &Html) -> (text: String)
    ensures
        text@ == html_markup(*document),
{
    document.html()
}

} // verus!
