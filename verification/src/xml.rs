//! XML element trees, as `xmltree` parses, edits and writes them.
//!
//! An element is opaque here. What the library needs to know of one has a
//! name, and each function below hands one call to `xmltree` and says by
//! those names what came back. None of this is proved.

use vstd::prelude::*;
use xmltree::Element;
use xmltree::EmitterConfig;
use xmltree::XMLNode;

verus! {

#[verifier::external_type_specification]
#[verifier::external_body]
pub struct ExElement(Element);

/// The root element of the XML document `content`, where it is well formed.
pub uninterp spec fn xml_root(content: Seq<u8>) -> Option<Element>;

/// The first child element of `parent` whose local name is `name`.
pub uninterp spec fn xml_child(parent: Element, name: Seq<char>) -> Option<Element>;

/// `parent` with `child` in the place of its first child element named `name`.
pub uninterp spec fn xml_with_child(parent: Element, name: Seq<char>, child: Element) -> Element;

/// The text and character data directly inside `element`, joined; `None`
/// where it holds neither.
pub uninterp spec fn xml_text(element: Element) -> Option<Seq<char>>;

/// The value of the attribute of `element` whose local name is `key`.
pub uninterp spec fn xml_attribute(element: Element, key: Seq<char>) -> Option<Seq<char>>;

/// `element` with one text node `text` as its only child.
pub uninterp spec fn xml_with_text(element: Element, text: Seq<char>) -> Element;

/// `parent` with a new last child: an element with the name `name` as it
/// is written, without prefix or namespace of its own, that holds the text
/// `text` and nothing else.
pub uninterp spec fn xml_with_text_child(parent: Element, name: Seq<char>, text: Seq<char>) -> Element;

/// The document that has `element` as its root: an XML declaration, then
/// the tree, written with indentation, attributes in the order in which
/// they were put, and empty elements as a pair of tags. `None` where the
/// writer refuses the tree.
pub uninterp spec fn xml_document(element: Element) -> Option<Seq<u8>>;

/// Trusted: `Element::parse`. The root element of a well-formed document,
/// the same for the same bytes; `None` for what the parser rejects.
#[verifier::external_body]
pub(crate) fn parse(content: &[u8]) -> (root: Option<Element>)
    ensures
        root == xml_root(content@),
{
    Element::parse(content).ok()
}

/// Trusted: `Element::get_child` with a name.
#[verifier::external_body]
pub(crate) fn get_child<'a>(parent: &'a Element, name: &str) -> (child: Option<&'a Element>)
    ensures
        match child {
            Some(found) => xml_child(*parent, name@) == Some(*found),
            None => xml_child(*parent, name@) is None,
        },
{
    parent.get_child(name)
}

/// Trusted: `Element::get_mut_child` with a name. It lends the child that
/// `get_child` finds; what the borrower leaves in it takes its place in
/// `parent`. Without such a child `parent` stays as it is.
#[verifier::external_body]
pub(crate) fn get_mut_child<'a>(parent: &'a mut Element, name: &str) -> (child: Option<
    &'a mut Element,
>)
    ensures
        match child {
            Some(found) => xml_child(*old(parent), name@) == Some(*found) && *final(parent)
                == xml_with_child(*old(parent), name@, *final(found)),
            None => xml_child(*old(parent), name@) is None && *final(parent) == *old(parent),
        },
{
    parent.get_mut_child(name)
}

/// Trusted: `Element::get_text`.
#[verifier::external_body]
pub(crate) fn get_text(element: &Element) -> (text: Option<String>)
    ensures
        match text {
            Some(found) => xml_text(*element) == Some(found@),
            None => xml_text(*element) is None,
        },
{
    element.get_text().map(|text| text.into_owned())
}

/// Trusted: a lookup in the field `attributes` of an element, which maps
/// the local names of its attributes to their values.
#[verifier::external_body]
pub(crate) fn get_attribute(element: &Element, key: &str) -> (value: Option<String>)
    ensures
        match value {
            Some(found) => xml_attribute(*element, key@) == Some(found@),
            None => xml_attribute(*element, key@) is None,
        },
{
    element.attributes.get(key).map(|value| value.to_string())
}

/// Trusted: empties the field `children` of an element and puts one
/// `XMLNode::Text` into it.
#[verifier::external_body]
pub(crate) fn set_text(element: &mut Element, text: &str)
    ensures
        *final(element) == xml_with_text(*old(element), text@),
{
    element.children.clear();
    element.children.push(XMLNode::Text(text.to_string()));
}

/// Trusted: `Element::new`, with one `XMLNode::Text` put into the new
/// element, and the element put last into the field `children` of `parent`.
#[verifier::external_body]
pub(crate) fn append_text_child(parent: &mut Element, name: &str, text: &str)
    ensures
        *final(parent) == xml_with_text_child(*old(parent), name@, text@),
{
    let mut child = Element::new(name);
    child.children.push(XMLNode::Text(text.to_string()));
    parent.children.push(XMLNode::Element(child));
}

/// Trusted: `Element::write_with_config` into a buffer, with a
/// configuration that indents and does not shorten empty elements.
#[verifier::external_body]
pub(crate) fn write_document(element: &Element) -> (document: Option<Vec<u8>>)
    ensures
        match document {
            Some(bytes) => xml_document(*element) == Some(bytes@),
            None => xml_document(*element) is None,
        },
{
    let config = EmitterConfig::new().perform_indent(true).normalize_empty_elements(false);
    let mut buffer = Vec::new();
    match element.write_with_config(&mut buffer, config) {
        Ok(()) => Some(buffer),
        Err(_) => None,
    }
}

} // verus!
