use fixepub::epub::fix_body_id_link;
use fixepub::epub::fix_book_language;
use fixepub::epub::fix_encoding;
use fixepub::epub::fix_stray_img;
use fixepub::epub::get_opf_filename;
use fixepub::epub::process_file;
use fixepub::error::FixError;
use fixepub::error::ManifestFault;

const DECLARATION: &str = "<?xml version=\"1.0\" encoding=\"utf-8\"?>";

fn text(bytes: &[u8]) -> String {
    String::from_utf8_lossy(bytes).into_owned()
}

#[test]
fn process_file_works() {
    let content = "b";
    let result = process_file("a", content.as_bytes(), &[], "other_path").unwrap();
    assert_eq!(String::from_utf8_lossy(&result), "b");
}

#[test]
fn fix_body_id_link_replaces_links_correctly() {
    let content = b"<html><body><a href='page1#id1'>Link</a></body></html>";
    let body_id_list = vec![("page1#id1".to_string(), "new_page1.xhtml".to_string())];
    let result = fix_body_id_link("file.xhtml", content, &body_id_list);
    assert_eq!(
        String::from_utf8_lossy(&result),
        "<html><body><a href='new_page1.xhtml'>Link</a></body></html>"
    );
}

#[test]
fn fix_encoding_adds_xml_declaration() {
    let content = b"<html><body>Test</body></html>";
    let result = fix_encoding("file.xhtml", content);
    let expected = "<?xml version=\"1.0\" encoding=\"utf-8\"?>\n<html><body>Test</body></html>";
    assert_eq!(String::from_utf8_lossy(&result), expected);
}

#[test]
fn fix_encoding_does_not_duplicate_xml_declaration() {
    let content = b"<?xml version=\"1.0\" encoding=\"utf-8\"?><html><body>Test</body></html>";
    let result = fix_encoding("file.xhtml", content);
    assert_eq!(
        String::from_utf8_lossy(&result),
        String::from_utf8_lossy(content)
    );
}

#[test]
fn fix_stray_img_removes_stray_images() {
    let content = b"<html><body><img/><img src='valid.png'/></body></html>";
    let result = fix_stray_img("file.xhtml", content);

    let result_str = String::from_utf8_lossy(&result);

    let expected = "<html><head></head><body><img src=\"valid.png\"></body></html>";
    assert_eq!(
        result_str, expected,
        "Unexpected output structure after removing stray images."
    );
}

#[test]
fn get_opf_filename_extracts_correct_path() {
    let content =
        b"<container><rootfiles><rootfile full-path='content.opf'/></rootfiles></container>";
    let result = get_opf_filename(content);
    assert_eq!(result, "content.opf");
}

#[test]
fn fix_book_language_updates_language() {
    let content = b"<package xmlns=\"http://www.idpf.org/2007/opf\"><metadata xmlns:dc=\"http://purl.org/dc/elements/1.1/\"><dc:language>invalid</dc:language></metadata></package>";
    let opf_path = "content.opf".to_string();
    let result = fix_book_language("content.opf", content, &opf_path).unwrap();
    assert!(String::from_utf8_lossy(&result).contains("<dc:language>en</dc:language>"));
}

#[test]
fn fix_book_language_adds_language_tag() {
    let content = b"<package><metadata></metadata></package>";
    let opf_path = "content.opf".to_string();
    let result = fix_book_language("content.opf", content, &opf_path).unwrap();
    assert!(String::from_utf8_lossy(&result).contains("<dc:language>en</dc:language>"));
}

#[test]
fn link_rewrite_alters_no_other_byte() {
    let links = vec![("page1#id1".to_string(), "new_page1.xhtml".to_string())];
    let result = fix_body_id_link("a.html", b"<a href='page1#id1'>Link</a>", &links);
    assert_eq!(text(&result), "<a href='new_page1.xhtml'>Link</a>");
}

#[test]
fn link_rewrite_replaces_every_occurrence_of_every_pair_in_order() {
    let links = vec![
        ("a.xhtml#top".to_string(), "a.xhtml".to_string()),
        ("b.xhtml#b".to_string(), "b.xhtml".to_string()),
        ("a.xhtml".to_string(), "c.xhtml".to_string()),
    ];
    let content = "x a.xhtml#top y b.xhtml#b z a.xhtml#top b.xhtml#bb.xhtml#b";
    let result = fix_body_id_link("dir/n.xhtml", content.as_bytes(), &links);
    let expected = content
        .replace("a.xhtml#top", "a.xhtml")
        .replace("b.xhtml#b", "b.xhtml")
        .replace("a.xhtml", "c.xhtml");
    assert_eq!(text(&result), expected);
    assert_eq!(text(&result), "x c.xhtml y b.xhtml z c.xhtml b.xhtmlb.xhtml");
}

#[test]
fn link_rewrite_with_an_empty_link_puts_the_replacement_round_every_character() {
    let links = vec![(String::new(), "-".to_string())];
    let result = fix_body_id_link("a.html", "h\u{e9}\u{4e2d}\u{1f600}!".as_bytes(), &links);
    assert_eq!(text(&result), "h\u{e9}\u{4e2d}\u{1f600}!".replace("", "-"));
    assert_eq!(text(&result), "-h-\u{e9}-\u{4e2d}-\u{1f600}-!-");
    assert_eq!(text(&fix_body_id_link("a.html", b"", &links)), "-");
}

#[test]
fn link_rewrite_leaves_other_entries_alone() {
    let links = vec![("page1#id1".to_string(), "new_page1.xhtml".to_string())];
    let content = b"<a href='page1#id1'>Link</a>\xff";
    assert_eq!(fix_body_id_link("style.css", content, &links), content.to_vec());
    assert_eq!(fix_body_id_link("a.HTML", content, &links), content.to_vec());
}

#[test]
fn markup_that_is_not_utf8_is_read_with_replacement_characters() {
    let result = fix_body_id_link("a.html", b"<p>\xff</p>", &[]);
    assert_eq!(text(&result), "<p>\u{fffd}</p>");
    assert_eq!(result, "<p>\u{fffd}</p>".as_bytes().to_vec());
}

#[test]
fn declaration_is_put_before_the_trimmed_text() {
    let result = fix_encoding("a.html", "\u{3000}\t\r\n \u{a0}<html/> ".as_bytes());
    assert_eq!(text(&result), format!("{}\n<html/> ", DECLARATION));
    let result = fix_encoding("a.html", b"");
    assert_eq!(text(&result), format!("{}\n", DECLARATION));
    let result = fix_encoding("a.html", b"  \xff");
    assert_eq!(text(&result), format!("{}\n\u{fffd}", DECLARATION));
}

#[test]
fn document_with_a_declaration_keeps_its_bytes() {
    let content = b" \n<?XML version='1.1' encoding='ISO-8859-1' standalone='yes'?>\n<html/>";
    assert_eq!(fix_encoding("a.xhtml", content), content.to_vec());
}

#[test]
fn declaration_without_version_gets_another_before_it() {
    let content = b"<?xml encoding=\"utf-8\"?><html/>";
    let result = fix_encoding("a.xhtml", content);
    assert_eq!(text(&result), format!("{}\n{}", DECLARATION, text(content)));
}

#[test]
fn declaration_injection_changes_nothing_the_second_time() {
    let samples: [&[u8]; 6] = [
        b"<html><body>Test</body></html>",
        b"  \n<?xml version=\"1.0\" encoding=\"utf-8\"?><html/>",
        b"<?xml encoding=\"utf-8\"?>",
        b"",
        b"\xff\xfe",
        b"\xc2\xa0 text",
    ];
    for sample in samples {
        let once = fix_encoding("a.xhtml", sample);
        let twice = fix_encoding("a.xhtml", &once);
        assert_eq!(twice, once);
    }
}

#[test]
fn declaration_is_not_given_to_other_entries() {
    let content = b"<html><body>Test</body></html>";
    assert_eq!(fix_encoding("a.opf", content), content.to_vec());
    assert_eq!(fix_encoding("html", content), content.to_vec());
    assert_eq!(fix_encoding(".html", content), content.to_vec());
}

#[test]
fn document_without_stray_images_keeps_its_bytes() {
    let content = b"<html><body><img src=''/><p>x<img src='a.png' alt=\"a\"></body>";
    assert_eq!(fix_stray_img("a.xhtml", content), content.to_vec());
    let content = b"no markup at all \xff";
    assert_eq!(fix_stray_img("a.xhtml", content), content.to_vec());
}

#[test]
fn every_stray_image_is_removed_and_no_other() {
    let content = b"<html><head></head><body><img alt=\"1\"><p>a<img src=\"x.png\"><img></p><div><img id=\"i\"></div><img src=\"\"></body></html>";
    let result = fix_stray_img("a.html", content);
    assert_eq!(
        text(&result),
        "<html><head></head><body><p>a<img src=\"x.png\"></p><div></div><img src=\"\"></body></html>"
    );
}

#[test]
fn stray_images_stay_in_other_entries() {
    let content = b"<html><body><img/></body></html>";
    assert_eq!(fix_stray_img("a.xml", content), content.to_vec());
}

#[test]
fn manifest_path_is_empty_for_a_malformed_descriptor() {
    assert_eq!(get_opf_filename(b""), "");
    assert_eq!(get_opf_filename(b"<container><rootfiles>"), "");
    assert_eq!(get_opf_filename(b"<container><rootfile full-path='a.opf'/></container>"), "");
    assert_eq!(get_opf_filename(b"<container><rootfiles><other/></rootfiles></container>"), "");
    assert_eq!(
        get_opf_filename(b"<container><rootfiles><rootfile path='a.opf'/></rootfiles></container>"),
        ""
    );
}

#[test]
fn manifest_path_is_read_from_the_first_rootfile() {
    let content = b"<?xml version=\"1.0\"?>
<container version=\"1.0\" xmlns=\"urn:oasis:names:tc:opendocument:xmlns:container\">
  <rootfiles>
    <rootfile full-path=\"OEBPS/content.opf\" media-type=\"application/oebps-package+xml\"/>
    <rootfile full-path=\"other.opf\"/>
  </rootfiles>
</container>";
    assert_eq!(get_opf_filename(content), "OEBPS/content.opf");
}

#[test]
fn invalid_language_becomes_en() {
    let content = b"<package>\n  <metadata>\n    <language>xx-INVALID</language>\n  </metadata>\n</package>";
    let result = fix_book_language("content.opf", content, "content.opf").unwrap();
    let expected = "<?xml version=\"1.0\" encoding=\"UTF-8\"?>\n<package>\n  <metadata>\n    <language>en</language>\n  </metadata>\n</package>";
    assert_eq!(text(&result), expected);
}

#[test]
fn missing_language_element_is_created() {
    let content = b"<package><metadata><title>t</title></metadata></package>";
    let result = fix_book_language("content.opf", content, "content.opf").unwrap();
    let expected = "<?xml version=\"1.0\" encoding=\"UTF-8\"?>\n<package>\n  <metadata>\n    <title>t</title>\n    <dc:language>en</dc:language>\n  </metadata>\n</package>";
    assert_eq!(text(&result), expected);
}

#[test]
fn empty_elements_are_written_as_a_pair_of_tags() {
    let content = b"<package><metadata><meta name='a'/><language/></metadata></package>";
    let result = fix_book_language("content.opf", content, "content.opf").unwrap();
    let expected = "<?xml version=\"1.0\" encoding=\"UTF-8\"?>\n<package>\n  <metadata>\n    <meta name=\"a\">\n    </meta>\n    <language>en</language>\n  </metadata>\n</package>";
    assert_eq!(text(&result), expected);
}

#[test]
fn valid_language_keeps_the_manifest_bytes() {
    for code in ["en", "en-US", "EN-gb", "fr-CA", "zho", "DE", "kw-x-y"] {
        let content = format!(
            "<package  ><metadata>\n<dc:language xmlns:dc='d'>{}</dc:language></metadata></package>",
            code
        );
        let result = fix_book_language("OEBPS/content.opf", content.as_bytes(), "OEBPS/content.opf");
        assert_eq!(result, Ok(content.as_bytes().to_vec()));
    }
}

#[test]
fn entries_other_than_the_manifest_keep_their_language() {
    let content = b"<package><metadata><language>xx</language></metadata></package>";
    let result = fix_book_language("other.opf", content, "content.opf");
    assert_eq!(result, Ok(content.to_vec()));
    let result = fix_book_language("content.opf", b"not xml", "");
    assert_eq!(result, Ok(b"not xml".to_vec()));
    let result = fix_book_language("", b"not xml", "");
    assert_eq!(result, Ok(b"not xml".to_vec()));
}

#[test]
fn manifest_that_is_not_xml_is_an_error() {
    let result = fix_book_language("content.opf", b"<package><metadata>", "content.opf");
    assert_eq!(
        result,
        Err(FixError::Manifest("content.opf".to_string(), ManifestFault::Unparseable))
    );
    let result = process_file("content.opf", b"", &[], "content.opf");
    assert_eq!(
        result,
        Err(FixError::Manifest("content.opf".to_string(), ManifestFault::Unparseable))
    );
}

#[test]
fn manifest_without_metadata_is_an_error() {
    let result = fix_book_language("c.opf", b"<package><manifest/></package>", "c.opf");
    assert_eq!(result, Err(FixError::Manifest("c.opf".to_string(), ManifestFault::NoMetadata)));
}

#[test]
fn other_entries_pass_through_every_stage() {
    let links = vec![("page1#id1".to_string(), "new_page1.xhtml".to_string())];
    let samples: [&[u8]; 4] = [
        b"",
        b"\x89PNG\r\n\x1a\n\x00\xff",
        b"  <html><body><img/><a href='page1#id1'>x</a></body></html>",
        b"<package><metadata><language>xx</language></metadata></package>",
    ];
    for path in ["cover.png", "css/style.css", "a.htm", "a.xhtml/..", "a.XHTML", "mimetype", ".html"] {
        for sample in samples {
            assert_eq!(process_file(path, sample, &links, "content.opf"), Ok(sample.to_vec()));
        }
    }
}

#[test]
fn markup_goes_through_links_images_and_declaration() {
    let links = vec![("chapter1.xhtml#chap1".to_string(), "chapter1.xhtml".to_string())];
    let content = b"<html><head></head><body><a href=\"chapter1.xhtml#chap1\">Go</a><img alt=\"c\"></body></html>";
    let result = process_file("nav.xhtml", content, &links, "content.opf").unwrap();
    assert_eq!(
        text(&result),
        format!(
            "{}\n<html><head></head><body><a href=\"chapter1.xhtml\">Go</a></body></html>",
            DECLARATION
        )
    );
}

#[test]
fn manifest_goes_through_the_language_stage_only() {
    let links = vec![("content".to_string(), "changed".to_string())];
    let content = b"<package><metadata><language>xx</language><img/></metadata></package>";
    let result = process_file("content.opf", content, &links, "content.opf").unwrap();
    let expected = "<?xml version=\"1.0\" encoding=\"UTF-8\"?>\n<package>\n  <metadata>\n    <language>en</language>\n    <img>\n    </img>\n  </metadata>\n</package>";
    assert_eq!(text(&result), expected);
}

#[test]
fn manifest_with_a_markup_name_goes_through_every_stage() {
    let content = b"<package><metadata><language>xx</language></metadata></package>";
    let result = process_file("opf.html", content, &[], "opf.html").unwrap();
    let expected = "<?xml version=\"1.0\" encoding=\"UTF-8\"?>\n<package>\n  <metadata>\n    <language>en</language>\n  </metadata>\n</package>";
    assert_eq!(text(&result), expected);
    let content = b"<package><metadata><language>en</language><img/></metadata></package>";
    let result = process_file("opf.html", content, &[], "opf.html").unwrap();
    assert_eq!(
        text(&result),
        format!(
            "{}\n<html><head></head><body><package><metadata><language>en</language></metadata></package></body></html>",
            DECLARATION
        )
    );
}

#[test]
fn rewritten_manifest_keeps_the_order_of_attributes() {
    let content = b"<package z=\"1\" a=\"2\" m=\"3\" b=\"4\" y=\"5\" c=\"6\"><metadata q=\"1\" d=\"2\" p=\"3\" e=\"4\"/></package>";
    let expected = "<?xml version=\"1.0\" encoding=\"UTF-8\"?>\n<package z=\"1\" a=\"2\" m=\"3\" b=\"4\" y=\"5\" c=\"6\">\n  <metadata q=\"1\" d=\"2\" p=\"3\" e=\"4\">\n    <dc:language>en</dc:language>\n  </metadata>\n</package>";
    for _ in 0..20 {
        let result = fix_book_language("c.opf", content, "c.opf").unwrap();
        assert_eq!(text(&result), expected);
    }
}
