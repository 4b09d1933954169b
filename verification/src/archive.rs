//! The repair of a whole archive, in two passes over its entries.
//!
//! The first pass gathers what the repair of any one entry depends on: the
//! links that other documents may hold to each markup document, and the
//! path of the manifest. The second pass repairs the entries one by one.
//! Reading and writing the container is left to the caller, who may hold
//! one entry at a time.

use vstd::prelude::*;
use vstd::string::StringExecFns;
use vstd::string::StringSliceAdditionalSpecFns;
use vstd::utf8::*;
use zip::CompressionMethod;
use crate::epub::get_opf_filename;
use crate::epub::lemma_tag_names;
use crate::epub::manifest_path;
use crate::epub::process_file;
use crate::epub::processed;
use crate::epub::link_views;
use crate::epub::BODY;
use crate::epub::CONTAINER_PATH;
use crate::epub::ID;
use crate::error::FixError;
use crate::error::ManifestFault;
use crate::html::attribute_values;
use crate::html::html_attribute_values;
use crate::html::html_document;
use crate::html::parse_document;
use crate::paths::change_file_stem;
use crate::paths::file_name;
use crate::paths::file_name_of;
use crate::paths::file_stem;
use crate::paths::file_stem_of;
use crate::paths::is_markup;
use crate::paths::is_xhtml;
use crate::paths::with_file_stem;
use crate::text::decode_lossy;
use crate::text::lemma_utf8_concat;
use crate::text::str_eq;
use crate::text::utf8;
use crate::text::utf8_lossy;

verus! {

#[verifier::external_type_specification]
#[verifier::external_body]
pub struct ExCompressionMethod(CompressionMethod);

/// The permission bits of an entry that carries none.
pub const DEFAULT_PERMISSIONS: u32 = 0o755;

/// What is added to the stem of an input file's name for its output.
pub const FIXED_SUFFIX: &'static str = "-fixed";

/// What stands between a document's name and the id of its body in a link.
pub const FRAGMENT_MARK: &'static str = "#";

/// An entry as it was read from the source archive.
pub struct ArchiveEntry {
    /// Its path within the archive.
    pub name: String,
    pub content: Vec<u8>,
    pub compression: CompressionMethod,
    /// Its unix permission bits, where it carries any.
    pub unix_mode: Option<u32>,
}

/// An entry as it is to be written to the destination archive.
pub struct RewrittenEntry {
    /// Its path within the archive.
    pub name: String,
    pub content: Vec<u8>,
    pub compression: CompressionMethod,
    pub unix_permissions: u32,
}

/// What the first pass gathers.
pub struct LinkIndex {
    /// For each markup document with a body id: the link to that body, and
    /// the link to the document that takes its place.
    pub links: Vec<(String, String)>,
    /// The path of the manifest within the archive; empty where none is known.
    pub opf_path: String,
}

/// A link index as texts.
pub struct IndexView {
    pub links: Seq<(Seq<char>, Seq<char>)>,
    pub opf_path: Seq<char>,
}

impl View for LinkIndex {
    type V = IndexView;

    open spec fn view(&self) -> IndexView {
        IndexView { links: link_views(self.links@), opf_path: self.opf_path@ }
    }
}

/// The index before any entry was scanned.
pub open spec fn empty_index() -> IndexView {
    IndexView { links: Seq::empty(), opf_path: Seq::empty() }
}

/// The id of the first `body` element of a markup document; empty where it
/// has no such element or the element no id.
pub open spec fn body_id_of(content: Seq<u8>) -> Seq<char> {
    let ids = html_attribute_values(html_document(utf8_lossy(content)), BODY@, ID@);
    if ids.len() > 0 {
        match ids[0] {
            Some(id) => id,
            None => Seq::empty(),
        }
    } else {
        Seq::empty()
    }
}

/// The name of the file at `path`, without its directories; empty where
/// the path leads to no file.
pub open spec fn basename(path: Seq<char>) -> Seq<char> {
    match file_name_of(utf8(path)) {
        Some(name) => decode_utf8(name),
        None => Seq::empty(),
    }
}

/// The links that the index holds once the entry at `name` is scanned: for
/// a markup document whose body has an id, one more.
pub open spec fn scanned_links(links: Seq<(Seq<char>, Seq<char>)>, name: Seq<char>, content: Seq<u8>) -> Seq<
    (Seq<char>, Seq<char>),
> {
    if is_markup(utf8(name)) && body_id_of(content).len() > 0 {
        links.push((basename(name) + FRAGMENT_MARK@ + body_id_of(content), basename(name)))
    } else {
        links
    }
}

/// The manifest path that the index holds once the entry at `name` is
/// scanned: what the container descriptor says, where the entry is one.
pub open spec fn scanned_opf_path(opf_path: Seq<char>, name: Seq<char>, content: Seq<u8>) -> Seq<char> {
    if name == CONTAINER_PATH@ {
        manifest_path(content)
    } else {
        opf_path
    }
}

/// The index once the entry at `name` is scanned.
pub open spec fn scanned(index: IndexView, name: Seq<char>, content: Seq<u8>) -> IndexView {
    IndexView {
        links: scanned_links(index.links, name, content),
        opf_path: scanned_opf_path(index.opf_path, name, content),
    }
}

/// The index once the first `n` of `entries` are scanned, in their order.
pub open spec fn index_of(entries: Seq<ArchiveEntry>, n: int) -> IndexView
    decreases n,
{
    if n <= 0 {
        empty_index()
    } else {
        scanned(index_of(entries, n - 1), entries[n - 1].name@, entries[n - 1].content@)
    }
}

/// `link` is the link that the scan of `entry` adds to the index: `entry`
/// is a markup document whose body has an id.
pub open spec fn link_comes_from(link: (Seq<char>, Seq<char>), entry: ArchiveEntry) -> bool {
    &&& is_markup(utf8(entry.name@))
    &&& body_id_of(entry.content@).len() > 0
    &&& link == (
        basename(entry.name@) + FRAGMENT_MARK@ + body_id_of(entry.content@),
        basename(entry.name@),
    )
}

/// The index holds links to markup documents only: each of its links
/// comes from one of the entries scanned.
pub proof fn lemma_links_come_from_markup(entries: Seq<ArchiveEntry>, n: int, k: int)
    requires
        0 <= n <= entries.len(),
        0 <= k < index_of(entries, n).links.len(),
    ensures
        exists|j: int|
            0 <= j < n && link_comes_from(index_of(entries, n).links[k], #[trigger] entries[j]),
    decreases n,
{
    if n > 0 {
        let before = index_of(entries, n - 1);
        if k < before.links.len() {
            lemma_links_come_from_markup(entries, n - 1, k);
            let j = choose|j: int|
                0 <= j < n - 1 && link_comes_from(before.links[k], #[trigger] entries[j]);
            assert(link_comes_from(index_of(entries, n).links[k], entries[j]));
        } else {
            assert(link_comes_from(index_of(entries, n).links[k], entries[n - 1]));
        }
    }
}

/// What the repair makes of the content of `entry`, given the index of its
/// archive.
pub open spec fn entry_processed(index: IndexView, entry: ArchiveEntry) -> Result<Seq<u8>, ManifestFault> {
    processed(entry.name@, entry.content@, index.links, index.opf_path)
}

/// The permission bits under which `entry` is written.
pub open spec fn permissions_of(entry: ArchiveEntry) -> u32 {
    match entry.unix_mode {
        Some(mode) => mode,
        None => DEFAULT_PERMISSIONS,
    }
}

/// `written` is `entry` repaired: the same path and compression, the
/// permission bits of `entry` or the default ones, the repaired content.
pub open spec fn rewritten_from(written: RewrittenEntry, entry: ArchiveEntry, index: IndexView) -> bool {
    &&& written.name@ == entry.name@
    &&& written.compression == entry.compression
    &&& written.unix_permissions == permissions_of(entry)
    &&& entry_processed(index, entry) == Ok::<Seq<u8>, ManifestFault>(written.content@)
}

/// `error` says that the repair of `entry` met `fault`.
pub open spec fn fault_of(error: FixError, entry: ArchiveEntry, fault: ManifestFault) -> bool {
    error matches FixError::Manifest(path, why) && path@ == entry.name@ && why == fault
}

/// The first pass reads the content of the entry at `path`: it is a markup
/// document or the container descriptor.
pub open spec fn is_scanned(path: Seq<char>) -> bool {
    is_markup(utf8(path)) || path == CONTAINER_PATH@
}

/// An entry whose content the first pass does not read leaves the index
/// as it is.
pub proof fn lemma_unread_entry_leaves_index(index: IndexView, path: Seq<char>, content: Seq<u8>)
    requires
        !is_scanned(path),
    ensures
        scanned(index, path, content) == index,
{
}

impl LinkIndex {
    /// The index before any entry was scanned.
    pub fn new() -> (index: LinkIndex)
        ensures
            index@ == empty_index(),
    {
        let index = LinkIndex { links: Vec::new(), opf_path: String::new() };
        assert(index@.links =~= empty_index().links);
        index
    }

    /// Whether `scan` reads the content of the entry at `file_path`. Of any
    /// other entry the first pass needs the path only.
    pub fn reads(file_path: &str) -> (read: bool)
        ensures
            read == is_scanned(file_path@),
    {
        is_xhtml(file_path) || str_eq(file_path, CONTAINER_PATH)
    }

    /// The step of the first pass: takes from the entry at `file_path` what
    /// the repair of other entries depends on.
    pub fn scan(&mut self, file_path: &str, content: &[u8])
        ensures
            final(self)@ == scanned(old(self)@, file_path@, content@),
    {
        let ghost before = self@;
        if is_xhtml(file_path) {
            let text = decode_lossy(content);
            let document = parse_document(text.as_str());
            proof {
                lemma_tag_names();
            }
            let ids = attribute_values(&document, BODY, ID);
            if ids.len() > 0 {
                match &ids[0] {
                    Some(id) => {
                        if !id.as_str().is_empty() {
                            let base = match file_name(file_path) {
                                Some(base) => base,
                                None => "",
                            };
                            proof {
                                reveal_strlit("");
                                encode_utf8_decode_utf8(base@);
                                assert(utf8(""@) =~= Seq::<u8>::empty());
                            }
                            let mut source = String::from_str(base);
                            source.append(FRAGMENT_MARK);
                            source.append(id.as_str());
                            let ghost links = self.links@;
                            self.links.push((source, String::from_str(base)));
                            assert(link_views(self.links@) =~= link_views(links).push(
                                (base@ + FRAGMENT_MARK@ + id@, base@),
                            ));
                        }
                    },
                    None => {},
                }
            }
        }
        assert(self@.links == scanned_links(before.links, file_path@, content@));
        if str_eq(file_path, CONTAINER_PATH) {
            self.opf_path = get_opf_filename(content);
        }
    }

    /// The step of the second pass: repairs one entry.
    pub fn rewrite(&self, entry: &ArchiveEntry) -> (written: Result<RewrittenEntry, FixError>)
        ensures
            match entry_processed(self@, *entry) {
                Ok(_) => written matches Ok(repaired) && rewritten_from(repaired, *entry, self@),
                Err(fault) => written matches Err(error) && fault_of(error, *entry, fault),
            },
    {
        let content = match process_file(
            entry.name.as_str(),
            entry.content.as_slice(),
            self.links.as_slice(),
            self.opf_path.as_str(),
        ) {
            Ok(content) => content,
            Err(error) => {
                return Err(error);
            },
        };
        let unix_permissions = match entry.unix_mode {
            Some(mode) => mode,
            None => DEFAULT_PERMISSIONS,
        };
        Ok(
            RewrittenEntry {
                name: entry.name.clone(),
                content,
                compression: entry.compression,
                unix_permissions,
            },
        )
    }
}

/// Repairs the entries of an archive. Every entry is scanned before any is
/// repaired, and the repaired entries come in the order of `entries`. The
/// first entry that cannot be repaired ends the repair with its error.
pub fn fix_entries(entries: &[ArchiveEntry]) -> (fixed: Result<Vec<RewrittenEntry>, FixError>)
    ensures
        match fixed {
            Ok(written) => written@.len() == entries@.len() && forall|i: int|
                0 <= i < entries@.len() ==> rewritten_from(
                    #[trigger] written@[i],
                    entries@[i],
                    index_of(entries@, entries@.len() as int),
                ),
            Err(error) => exists|i: int|
                0 <= i < entries@.len() && first_fault_at(entries@, i) && fault_of(
                    error,
                    #[trigger] entries@[i],
                    entry_processed(index_of(entries@, entries@.len() as int), entries@[i])->Err_0,
                ),
        },
{
    let mut index = LinkIndex::new();
    let mut i: usize = 0;
    while i < entries.len()
        invariant
            i <= entries@.len(),
            index@ == index_of(entries@, i as int),
        decreases entries@.len() - i,
    {
        index.scan(entries[i].name.as_str(), entries[i].content.as_slice());
        i += 1;
    }
    let mut written: Vec<RewrittenEntry> = Vec::new();
    let mut i: usize = 0;
    while i < entries.len()
        invariant
            i <= entries@.len(),
            index@ == index_of(entries@, entries@.len() as int),
            written@.len() == i,
            forall|k: int| 0 <= k < i ==> rewritten_from(#[trigger] written@[k], entries@[k], index@),
        decreases entries@.len() - i,
    {
        match index.rewrite(&entries[i]) {
            Ok(repaired) => {
                written.push(repaired);
            },
            Err(error) => {
                assert forall|k: int| 0 <= k < i implies (#[trigger] entry_processed(
                    index@,
                    entries@[k],
                )) is Ok by {
                    assert(rewritten_from(written@[k], entries@[k], index@));
                }
                assert(first_fault_at(entries@, i as int));
                return Err(error);
            },
        }
        i += 1;
    }
    Ok(written)
}

/// The entry at `at` is the first of `entries` that cannot be repaired.
pub open spec fn first_fault_at(entries: Seq<ArchiveEntry>, at: int) -> bool {
    let index = index_of(entries, entries.len() as int);
    &&& 0 <= at < entries.len()
    &&& entry_processed(index, entries[at]) is Err
    &&& forall|k: int| 0 <= k < at ==> (#[trigger] entry_processed(index, entries[k])) is Ok
}

/// The path of the output for the input file at `path`: the same
/// directory and extension, and the stem with `-fixed` added. `None` where
/// the path leads to no file.
pub open spec fn output_path_of(path: Seq<u8>) -> Option<Seq<u8>> {
    match file_stem_of(path) {
        Some(stem) => Some(with_file_stem(path, stem + utf8(FIXED_SUFFIX@))),
        None => None,
    }
}

/// The path to write the repaired copy of the file at `filename` to.
pub fn output_path(filename: &str) -> (path: Result<String, FixError>)
    ensures
        match output_path_of(filename.spec_bytes()) {
            Some(expected) => path matches Ok(found) && utf8(found@) == expected,
            None => path matches Err(FixError::InvalidFileName(name)) && name@ == filename@,
        },
{
    match file_stem(filename) {
        Some(stem) => {
            let mut new_stem = String::from_str(stem);
            new_stem.append(FIXED_SUFFIX);
            proof {
                lemma_utf8_concat(stem@, FIXED_SUFFIX@);
            }
            Ok(change_file_stem(filename, new_stem.as_str()))
        },
        None => Err(FixError::InvalidFileName(filename.to_owned())),
    }
}

} // verus!
