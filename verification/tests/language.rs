use fixepub::language::fix_language;
use fixepub::language::is_allowed_language;
use fixepub::language::simplify_language;
use fixepub::language::ALLOWED_LANGUAGES;
use xmltree::Element;
use xmltree::XMLNode;

#[test]
fn simplify_language_works() {
    assert_eq!(simplify_language("en-US"), "en");
    assert_eq!(simplify_language("fr-CA"), "fr");
}

#[test]
fn fix_language_updates_invalid_language() {
    let mut metadata = Element::new("metadata");
    let mut lang_tag = Element::new("language");
    lang_tag.children.push(XMLNode::Text("invalid".to_string()));
    metadata.children.push(XMLNode::Element(lang_tag));

    let changed = fix_language(&mut metadata);
    assert!(changed);
    assert_eq!(
        metadata.get_child("language").unwrap().get_text().unwrap(),
        "en"
    );
}

#[test]
fn fix_language_does_not_change_valid_language() {
    let mut metadata = Element::new("metadata");
    let mut lang_tag = Element::new("language");
    lang_tag.children.push(XMLNode::Text("en".to_string()));
    metadata.children.push(XMLNode::Element(lang_tag));

    let changed = fix_language(&mut metadata);
    assert!(!changed);
    assert_eq!(
        metadata.get_child("language").unwrap().get_text().unwrap(),
        "en"
    );
}

#[test]
fn language_is_judged_without_region_and_case() {
    assert_eq!(simplify_language(""), "");
    assert_eq!(simplify_language("-US"), "");
    assert_eq!(simplify_language("EN"), "en");
    assert_eq!(simplify_language("zh-Hant-TW"), "zh");
    assert_eq!(simplify_language("pt_BR"), "pt_br");
    assert_eq!(simplify_language(" en"), " en");
    assert_eq!(simplify_language("\u{c9}\u{4e2d}-x"), "\u{e9}\u{4e2d}");
    assert_eq!(simplify_language("\u{212a}W-x"), "kw");
    assert_eq!(simplify_language("\u{130}"), "i\u{307}");
}

#[test]
fn every_listed_code_is_allowed_with_and_without_region() {
    assert_eq!(ALLOWED_LANGUAGES.len(), 85);
    for code in ALLOWED_LANGUAGES {
        assert!(is_allowed_language(code));
        assert_eq!(simplify_language(code), code);
        assert_eq!(simplify_language(&format!("{}-US", code)), code);
        assert_eq!(simplify_language(&code.to_uppercase()), code);
        assert!(!is_allowed_language(&code.to_uppercase()));
        assert!(!is_allowed_language(&format!("{}-US", code)));
    }
}

#[test]
fn other_codes_are_not_allowed() {
    for code in ["", "e", "xx", "enn", "e n", "english", "ru", "ko", "invalid", "en\u{0}"] {
        assert!(!is_allowed_language(code), "{:?}", code);
    }
}

fn metadata_with(children: Vec<XMLNode>) -> Element {
    let mut metadata = Element::new("metadata");
    metadata.children = children;
    metadata
}

fn element_with_text(name: &str, text: &str) -> XMLNode {
    let mut element = Element::new(name);
    element.children.push(XMLNode::Text(text.to_string()));
    XMLNode::Element(element)
}

#[test]
fn valid_language_leaves_the_metadata_as_it_is() {
    for code in ["en", "en-US", "FR-ca", "Zho", "de-x-whatever"] {
        let mut metadata = metadata_with(vec![
            XMLNode::Comment("c".to_string()),
            element_with_text("title", "t"),
            element_with_text("language", code),
        ]);
        let before = metadata.clone();
        assert!(!fix_language(&mut metadata));
        assert_eq!(metadata, before);
    }
}

#[test]
fn invalid_language_gets_the_default_code_in_its_place() {
    let mut tag = Element::new("language");
    tag.prefix = Some("dc".to_string());
    tag.attributes.insert("id".to_string(), "lang".to_string());
    tag.children.push(XMLNode::Text("xx".to_string()));
    tag.children.push(XMLNode::Comment("c".to_string()));
    tag.children.push(XMLNode::CData("-INVALID".to_string()));
    let mut metadata = metadata_with(vec![
        element_with_text("title", "t"),
        XMLNode::Element(tag.clone()),
        element_with_text("language", "en"),
    ]);
    assert!(fix_language(&mut metadata));
    let mut fixed = tag;
    fixed.children = vec![XMLNode::Text("en".to_string())];
    let expected = metadata_with(vec![
        element_with_text("title", "t"),
        XMLNode::Element(fixed),
        element_with_text("language", "en"),
    ]);
    assert_eq!(metadata, expected);
}

#[test]
fn language_without_text_counts_as_invalid() {
    let mut metadata = metadata_with(vec![XMLNode::Element(Element::new("language"))]);
    assert!(fix_language(&mut metadata));
    assert_eq!(metadata, metadata_with(vec![element_with_text("language", "en")]));
}

#[test]
fn missing_language_gets_a_new_element_at_the_end() {
    let mut metadata = metadata_with(vec![
        element_with_text("title", "t"),
        XMLNode::Text("language".to_string()),
    ]);
    assert!(fix_language(&mut metadata));
    let expected = metadata_with(vec![
        element_with_text("title", "t"),
        XMLNode::Text("language".to_string()),
        element_with_text("dc:language", "en"),
    ]);
    assert_eq!(metadata, expected);
}

#[test]
fn language_of_a_grandchild_does_not_count() {
    let mut inner = Element::new("meta");
    inner.children.push(element_with_text("language", "en"));
    let mut metadata = metadata_with(vec![XMLNode::Element(inner.clone())]);
    assert!(fix_language(&mut metadata));
    let expected = metadata_with(vec![
        XMLNode::Element(inner),
        element_with_text("dc:language", "en"),
    ]);
    assert_eq!(metadata, expected);
}
