//! The repairs of one archive entry, and their order.
//!
//! An entry goes through four stages: links to renamed files, the declared
//! language, images without a source, the XML declaration. The first, third
//! and fourth touch markup documents only, the second the manifest only.

use vstd::prelude::*;
use vstd::slice::slice_to_vec;
use vstd::string::StringSliceAdditionalSpecFns;
use vstd::utf8::*;
use crate::encoding_matcher::attribute_end;
use crate::encoding_matcher::has_declaration;
use crate::encoding_matcher::run_end;
use crate::encoding_matcher::tag_at;
use crate::encoding_matcher::value_end;
use crate::encoding_matcher::Class;
use crate::encoding_matcher::ErrorKind;
use crate::encoding_matcher::ENCODING_NAME;
use crate::encoding_matcher::VERSION_NAME;
use crate::encoding_matcher::XML_OPEN;
use crate::encoding_matcher::recognize;
use crate::error::FixError;
use crate::error::ManifestFault;
use crate::html::attribute_values;
use crate::html::detach_selected;
use crate::html::html_attribute_values;
use crate::html::html_document;
use crate::html::html_markup;
use crate::html::html_without;
use crate::html::is_tag_name;
use crate::html::markup;
use crate::html::parse_document;
use crate::language::declared_language;
use crate::language::fix_language;
use crate::language::lemma_allowed_language_kept;
use crate::language::ALLOWED_LANGUAGES;
use crate::language::language_fixed;
use crate::language::needs_language_fix;
use crate::paths::is_markup;
use crate::paths::is_xhtml;
use crate::text::append;
use crate::text::contains;
use crate::text::decode_lossy;
use crate::text::find;
use crate::text::lemma_ascii_bytes;
use crate::text::lemma_replaced_absent;
use crate::text::lemma_sanitized_valid;
use crate::text::lemma_trimmed_start_valid;
use crate::text::replace_all;
use crate::text::replaced;
use crate::text::sanitized;
use crate::text::str_eq;
use crate::text::trim_start;
use crate::text::trimmed_start;
use crate::text::whitespace_width;
use crate::text::utf8;
use crate::text::utf8_lossy;
use crate::xml::get_attribute;
use crate::xml::get_child;
use crate::xml::get_mut_child;
use crate::xml::parse;
use crate::xml::write_document;
use crate::xml::xml_attribute;
use crate::xml::xml_child;
use crate::xml::xml_document;
use crate::xml::xml_root;
use crate::xml::xml_with_child;

verus! {

/// The declaration that a markup document gets where it has none.
pub const DECLARATION: &'static str = "<?xml version=\"1.0\" encoding=\"utf-8\"?>";

/// The tag of the elements whose `src` is looked at.
pub const IMG: &'static str = "img";

pub const SRC: &'static str = "src";

/// The tag of the element whose `id` other documents link to.
pub const BODY: &'static str = "body";

pub const ID: &'static str = "id";

/// The section of the manifest that declares the language.
pub const METADATA: &'static str = "metadata";

/// The entry that says where the manifest is.
pub const CONTAINER_PATH: &'static str = "META-INF/container.xml";

pub const ROOTFILES: &'static str = "rootfiles";

pub const ROOTFILE: &'static str = "rootfile";

pub const FULL_PATH: &'static str = "full-path";

/// A link table as texts: each pair is a link to replace and what takes
/// its place.
pub open spec fn link_views(links: Seq<(String, String)>) -> Seq<(Seq<char>, Seq<char>)> {
    Seq::new(links.len(), |i: int| (links[i].0@, links[i].1@))
}

/// `text` after each pair of `links` in turn had every occurrence of its
/// first text replaced by its second.
pub open spec fn links_rewritten(text: Seq<u8>, links: Seq<(Seq<char>, Seq<char>)>) -> Seq<u8>
    decreases links.len(),
{
    if links.len() == 0 {
        text
    } else {
        links_rewritten(replaced(text, utf8(links[0].0), utf8(links[0].1)), links.skip(1))
    }
}

/// What the first stage makes of an entry: in a markup document, read as
/// text, every link of the table is rewritten.
pub open spec fn body_id_links_fixed(path: Seq<u8>, content: Seq<u8>, links: Seq<(Seq<char>, Seq<char>)>) -> Seq<
    u8,
> {
    if is_markup(path) {
        links_rewritten(sanitized(content), links)
    } else {
        content
    }
}

/// Rewrites the links of the table in a markup document.
pub fn fix_body_id_link(file_path: &str, content: &[u8], body_id_list: &[(String, String)]) -> (fixed: Vec<u8>)
    ensures
        fixed@ == body_id_links_fixed(file_path.spec_bytes(), content@, link_views(body_id_list@)),
{
    if !is_xhtml(file_path) {
        return slice_to_vec(content);
    }
    let text = decode_lossy(content);
    let mut html: Vec<u8> = slice_to_vec(text.as_str().as_bytes());
    let ghost links = link_views(body_id_list@);
    let mut i: usize = 0;
    assert(links.skip(0) =~= links);
    while i < body_id_list.len()
        invariant
            i <= body_id_list@.len(),
            links == link_views(body_id_list@),
            links_rewritten(sanitized(content@), links) == links_rewritten(html@, links.skip(i as int)),
        decreases body_id_list@.len() - i,
    {
        let source = body_id_list[i].0.as_str().as_bytes();
        let target = body_id_list[i].1.as_str().as_bytes();
        proof {
            let rest = links.skip(i as int);
            assert(rest[0] == links[i as int]);
            assert(rest.skip(1) =~= links.skip(i + 1));
            if !contains(html@, source@) {
                lemma_replaced_absent(html@, source@, target@);
            }
        }
        if find(html.as_slice(), source, 0).is_some() {
            html = replace_all(html.as_slice(), source, target);
        }
        i += 1;
    }
    html
}

/// What the last stage makes of an entry: a markup document that, read as
/// text and without the white space at its start, does not start with an
/// XML declaration becomes that text after the declaration and a line feed.
pub open spec fn with_declaration(path: Seq<u8>, content: Seq<u8>) -> Seq<u8> {
    let text = trimmed_start(sanitized(content));
    if is_markup(path) && !has_declaration(text) {
        utf8(DECLARATION@) + seq![0x0au8] + text
    } else {
        content
    }
}

/// Gives a markup document an XML declaration where it has none.
pub fn fix_encoding(file_path: &str, content: &[u8]) -> (fixed: Vec<u8>)
    ensures
        fixed@ == with_declaration(file_path.spec_bytes(), content@),
{
    if is_xhtml(file_path) {
        let text = decode_lossy(content);
        let trimmed = trim_start(text.as_str().as_bytes());
        if recognize(trimmed).is_err() {
            let mut fixed = slice_to_vec(DECLARATION.as_bytes());
            fixed.push(0x0a);
            append(&mut fixed, trimmed);
            assert(fixed@ =~= utf8(DECLARATION@) + seq![0x0au8] + trimmed@);
            return fixed;
        }
    }
    slice_to_vec(content)
}

/// Whatever follows the declaration that `fix_encoding` writes, the
/// recognizer finds a declaration at its start.
pub proof fn lemma_declaration_recognized(rest: Seq<u8>)
    ensures
        has_declaration(utf8(DECLARATION@) + rest),
        (utf8(DECLARATION@) + rest)[0] == 0x3c,
{
    reveal_strlit("<?xml version=\"1.0\" encoding=\"utf-8\"?>");
    reveal_strlit("<?xml");
    reveal_strlit("version=");
    reveal_strlit("encoding=");
    lemma_ascii_bytes(DECLARATION@);
    lemma_ascii_bytes(XML_OPEN@);
    lemma_ascii_bytes(VERSION_NAME@);
    lemma_ascii_bytes(ENCODING_NAME@);
    let input = utf8(DECLARATION@) + rest;
    assert(forall|i: int| 0 <= i < 38 ==> input[i] == #[trigger] utf8(DECLARATION@)[i]);
    assert(tag_at(input, 0, utf8(XML_OPEN@)));
    reveal_with_fuel(run_end, 8);
    assert(run_end(input, 5, Class::Space) == 6);
    assert(tag_at(input, 6, utf8(VERSION_NAME@)));
    assert(run_end(input, 15, Class::Version) == 18);
    assert(value_end(input, 14, Class::Version) == Ok::<int, (int, ErrorKind)>(19));
    assert(attribute_end(input, 5, utf8(VERSION_NAME@), Class::Version) == Ok::<
        int,
        (int, ErrorKind),
    >(19));
    assert(run_end(input, 19, Class::Space) == 20);
    assert(tag_at(input, 20, utf8(ENCODING_NAME@)));
    assert(run_end(input, 30, Class::Encoding) == 35);
    assert(value_end(input, 29, Class::Encoding) == Ok::<int, (int, ErrorKind)>(36));
    assert(attribute_end(input, 19, utf8(ENCODING_NAME@), Class::Encoding) == Ok::<
        int,
        (int, ErrorKind),
    >(36));
}

/// Giving a document its declaration a second time changes nothing: what
/// `fix_encoding` returns, it returns unchanged.
pub proof fn lemma_declaration_injection_idempotent(path: Seq<u8>, content: Seq<u8>)
    ensures
        with_declaration(path, with_declaration(path, content)) == with_declaration(path, content),
{
    let text = trimmed_start(sanitized(content));
    if is_markup(path) && !has_declaration(text) {
        let once = utf8(DECLARATION@) + seq![0x0au8] + text;
        lemma_sanitized_valid(content);
        lemma_trimmed_start_valid(sanitized(content));
        encode_utf8_valid_utf8(DECLARATION@);
        assert(valid_utf8(seq![0x0au8])) by {
            assert(is_ascii_chars(seq!['\n']));
            lemma_ascii_bytes(seq!['\n']);
            assert(utf8(seq!['\n']) =~= seq![0x0au8]);
            encode_utf8_valid_utf8(seq!['\n']);
        }
        valid_utf8_concat(utf8(DECLARATION@), seq![0x0au8]);
        valid_utf8_concat(utf8(DECLARATION@) + seq![0x0au8], text);
        lemma_sanitized_valid(once);
        assert(once =~= utf8(DECLARATION@) + (seq![0x0au8] + text));
        lemma_declaration_recognized(seq![0x0au8] + text);
        assert(whitespace_width(once) == 0);
        assert(once.skip(0) =~= once);
        assert(trimmed_start(once) == once);
    }
}

/// A document that starts with an XML declaration, once the white space
/// before it is set aside, keeps its bytes.
pub proof fn lemma_declared_document_unchanged(path: Seq<u8>, content: Seq<u8>)
    requires
        has_declaration(trimmed_start(sanitized(content))),
    ensures
        with_declaration(path, content) == content,
{
}

/// Some image has no source.
pub open spec fn has_stray(sources: Seq<Option<Seq<char>>>) -> bool {
    exists|i: int| 0 <= i < sources.len() && (#[trigger] sources[i]) is None
}

/// `document` after each of its first `n` images that has no source was
/// detached, the last of them first. `sources` are the sources of its images.
pub open spec fn without_stray(document: scraper::Html, sources: Seq<Option<Seq<char>>>, n: int) -> scraper::Html
    decreases n,
{
    if n <= 0 {
        document
    } else if sources[n - 1] is None {
        without_stray(html_without(document, IMG@, n - 1), sources, n - 1)
    } else {
        without_stray(document, sources, n - 1)
    }
}

/// What the third stage makes of an entry: a markup document in which some
/// image has no source is written anew without those images.
pub open spec fn images_fixed(path: Seq<u8>, content: Seq<u8>) -> Seq<u8> {
    let document = html_document(utf8_lossy(content));
    let sources = html_attribute_values(document, IMG@, SRC@);
    if is_markup(path) && has_stray(sources) {
        utf8(html_markup(without_stray(document, sources, sources.len() as int)))
    } else {
        content
    }
}

/// The tags that the library selects by are names of letters.
pub proof fn lemma_tag_names()
    ensures
        is_tag_name(IMG@),
        is_tag_name(BODY@),
{
    reveal_strlit("img");
    reveal_strlit("body");
}

/// Removes the images without a source from a markup document.
pub fn fix_stray_img(file_path: &str, content: &[u8]) -> (fixed: Vec<u8>)
    ensures
        fixed@ == images_fixed(file_path.spec_bytes(), content@),
{
    if !is_xhtml(file_path) {
        return slice_to_vec(content);
    }
    let text = decode_lossy(content);
    let mut document = parse_document(text.as_str());
    proof {
        lemma_tag_names();
    }
    let found = attribute_values(&document, IMG, SRC);
    let ghost parsed = document;
    let ghost sources = html_attribute_values(parsed, IMG@, SRC@);
    let mut stray = false;
    let mut n: usize = found.len();
    while n > 0
        invariant
            n <= found@.len() == sources.len(),
            is_tag_name(IMG@),
            forall|i: int|
                0 <= i < found@.len() ==> ((#[trigger] found@[i]) is None <==> sources[i] is None),
            without_stray(parsed, sources, sources.len() as int) == without_stray(
                document,
                sources,
                n as int,
            ),
            stray <==> exists|i: int| n <= i < sources.len() && (#[trigger] sources[i]) is None,
        decreases n,
    {
        n -= 1;
        if found[n].is_none() {
            detach_selected(&mut document, IMG, n);
            stray = true;
        }
    }
    if stray {
        let text = markup(&document);
        return slice_to_vec(text.as_str().as_bytes());
    }
    slice_to_vec(content)
}

/// The path of the manifest that the container descriptor `content` points
/// to: the attribute `full-path` of the element `rootfile` in `rootfiles`.
/// Empty where the descriptor is not well formed or lacks any of these.
pub open spec fn manifest_path(content: Seq<u8>) -> Seq<char> {
    match xml_root(content) {
        Some(container) => match xml_child(container, ROOTFILES@) {
            Some(rootfiles) => match xml_child(rootfiles, ROOTFILE@) {
                Some(rootfile) => match xml_attribute(rootfile, FULL_PATH@) {
                    Some(path) => path,
                    None => Seq::empty(),
                },
                None => Seq::empty(),
            },
            None => Seq::empty(),
        },
        None => Seq::empty(),
    }
}

/// The path of the manifest that a container descriptor points to.
pub fn get_opf_filename(content: &[u8]) -> (path: String)
    ensures
        path@ == manifest_path(content@),
{
    let container = match parse(content) {
        Some(container) => container,
        None => {
            return String::new();
        },
    };
    let rootfiles = match get_child(&container, ROOTFILES) {
        Some(rootfiles) => rootfiles,
        None => {
            return String::new();
        },
    };
    let rootfile = match get_child(rootfiles, ROOTFILE) {
        Some(rootfile) => rootfile,
        None => {
            return String::new();
        },
    };
    match get_attribute(rootfile, FULL_PATH) {
        Some(path) => path,
        None => String::new(),
    }
}

/// The entry at `path` is the manifest, which is at `opf_path`. Without a
/// manifest path no entry is.
pub open spec fn is_manifest(path: Seq<char>, opf_path: Seq<char>) -> bool {
    opf_path.len() > 0 && path == opf_path
}

/// What the second stage makes of an entry: the manifest, where it does
/// not declare an allowed language, is written anew with its metadata
/// section repaired. A manifest that cannot be read, has no metadata
/// section or cannot be written is a fault.
pub open spec fn language_normalized(path: Seq<char>, content: Seq<u8>, opf_path: Seq<char>) -> Result<
    Seq<u8>,
    ManifestFault,
> {
    if !is_manifest(path, opf_path) {
        Ok(content)
    } else {
        match xml_root(content) {
            None => Err(ManifestFault::Unparseable),
            Some(package) => match xml_child(package, METADATA@) {
                None => Err(ManifestFault::NoMetadata),
                Some(metadata) => if !needs_language_fix(metadata) {
                    Ok(content)
                } else {
                    match xml_document(
                        xml_with_child(package, METADATA@, language_fixed(metadata)),
                    ) {
                        Some(document) => Ok(document),
                        None => Err(ManifestFault::Unwritable),
                    }
                },
            },
        }
    }
}

/// `found` is the outcome `expected` of a repair of the entry at `path`.
pub open spec fn repair_is(found: Result<Vec<u8>, FixError>, expected: Result<Seq<u8>, ManifestFault>, path: Seq<char>) -> bool {
    match expected {
        Ok(bytes) => found matches Ok(fixed) && fixed@ == bytes,
        Err(fault) => found matches Err(FixError::Manifest(at, why)) && at@ == path && why == fault,
    }
}

/// Makes the manifest declare an allowed language.
pub fn fix_book_language(file_path: &str, content: &[u8], opf_path: &str) -> (fixed: Result<Vec<u8>, FixError>)
    ensures
        repair_is(fixed, language_normalized(file_path@, content@, opf_path@), file_path@),
{
    if opf_path.is_empty() || !str_eq(file_path, opf_path) {
        return Ok(slice_to_vec(content));
    }
    let mut package = match parse(content) {
        Some(package) => package,
        None => {
            return Err(FixError::Manifest(file_path.to_owned(), ManifestFault::Unparseable));
        },
    };
    let changed = match get_mut_child(&mut package, METADATA) {
        Some(metadata) => fix_language(metadata),
        None => {
            return Err(FixError::Manifest(file_path.to_owned(), ManifestFault::NoMetadata));
        },
    };
    if !changed {
        return Ok(slice_to_vec(content));
    }
    match write_document(&package) {
        Some(document) => Ok(document),
        None => Err(FixError::Manifest(file_path.to_owned(), ManifestFault::Unwritable)),
    }
}

/// What the four stages make of the entry at `path`.
pub open spec fn processed(path: Seq<char>, content: Seq<u8>, links: Seq<(Seq<char>, Seq<char>)>, opf_path: Seq<char>) -> Result<
    Seq<u8>,
    ManifestFault,
> {
    match language_normalized(path, body_id_links_fixed(utf8(path), content, links), opf_path) {
        Ok(normalized) => Ok(with_declaration(utf8(path), images_fixed(utf8(path), normalized))),
        Err(fault) => Err(fault),
    }
}

/// Repairs one entry of an archive: `content`, which the archive holds at
/// `file_path`. `body_id_list` is the link table of the archive and
/// `opf_path` the path of its manifest.
pub fn process_file(file_path: &str, content: &[u8], body_id_list: &[(String, String)], opf_path: &str) -> (fixed: Result<
    Vec<u8>,
    FixError,
>)
    ensures
        repair_is(
            fixed,
            processed(file_path@, content@, link_views(body_id_list@), opf_path@),
            file_path@,
        ),
{
    let linked = fix_body_id_link(file_path, content, body_id_list);
    let normalized = match fix_book_language(file_path, linked.as_slice(), opf_path) {
        Ok(normalized) => normalized,
        Err(error) => {
            return Err(error);
        },
    };
    let cleaned = fix_stray_img(file_path, normalized.as_slice());
    Ok(fix_encoding(file_path, cleaned.as_slice()))
}

/// A manifest that declares an allowed code, alone or with a region,
/// keeps its bytes.
pub proof fn lemma_allowed_language_preserved(
    path: Seq<char>,
    content: Seq<u8>,
    opf_path: Seq<char>,
    package: xmltree::Element,
    metadata: xmltree::Element,
    i: int,
    region: Seq<char>,
)
    requires
        xml_root(content) == Some(package),
        xml_child(package, METADATA@) == Some(metadata),
        0 <= i < ALLOWED_LANGUAGES@.len(),
        declared_language(metadata) == ALLOWED_LANGUAGES@[i]@ || declared_language(metadata)
            == ALLOWED_LANGUAGES@[i]@ + seq!['-'] + region,
    ensures
        language_normalized(path, content, opf_path) == Ok::<Seq<u8>, ManifestFault>(content),
{
    lemma_allowed_language_kept(metadata, i, region);
}

/// A markup document in which every image has a source keeps its bytes in
/// the third stage.
pub proof fn lemma_no_stray_image_unchanged(path: Seq<u8>, content: Seq<u8>)
    requires
        !has_stray(html_attribute_values(html_document(utf8_lossy(content)), IMG@, SRC@)),
    ensures
        images_fixed(path, content) == content,
{
}

/// An entry that is neither a markup document nor the manifest goes
/// through the four stages byte for byte.
pub proof fn lemma_other_entries_pass_through(
    path: Seq<char>,
    content: Seq<u8>,
    links: Seq<(Seq<char>, Seq<char>)>,
    opf_path: Seq<char>,
)
    requires
        !is_markup(utf8(path)),
        !is_manifest(path, opf_path),
    ensures
        processed(path, content, links, opf_path) == Ok::<Seq<u8>, ManifestFault>(content),
{
}

} // verus!
