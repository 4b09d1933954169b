//! Paths of archive entries and of input files, as text with `/` between
//! the components.
//!
//! A path is read from its end. Separators at the end are passed over, and
//! so is a component `.` that follows a separator. What stands before that
//! is the last component. A leading `/` is the root and belongs to no
//! component.

use vstd::prelude::*;
use vstd::string::StringExecFns;
use vstd::string::StringSliceAdditionalSpecFns;
use vstd::utf8::*;
use crate::text::lemma_boundary_at_ascii;
use crate::text::lemma_utf8_concat;
use crate::text::str_eq;
use crate::text::str_slice;
use crate::text::utf8;

verus! {

pub open spec fn separator() -> u8 {
    0x2f
}

pub open spec fn dot() -> u8 {
    0x2e
}

/// 1 where `path` starts at the root, else 0.
pub open spec fn root_len(path: Seq<u8>) -> int {
    if path.len() > 0 && path[0] == separator() {
        1
    } else {
        0
    }
}

/// Where the last component within the first `n` bytes of `path` ends.
pub open spec fn body_end(path: Seq<u8>, n: int) -> int
    decreases n,
{
    if n <= root_len(path) || n > path.len() {
        n
    } else if path[n - 1] == separator() {
        body_end(path, n - 1)
    } else if path[n - 1] == dot() && n >= 2 && path[n - 2] == separator() {
        body_end(path, n - 1)
    } else {
        n
    }
}

/// Where the component that ends at `end` starts.
pub open spec fn component_start(path: Seq<u8>, end: int) -> int
    decreases end,
{
    if end <= 0 || end > path.len() {
        0
    } else if path[end - 1] == separator() {
        end
    } else {
        component_start(path, end - 1)
    }
}

/// Where the last component of `path` ends.
pub open spec fn last_end(path: Seq<u8>) -> int {
    body_end(path, path.len() as int)
}

/// Where the last component of `path` starts.
pub open spec fn last_start(path: Seq<u8>) -> int {
    component_start(path, last_end(path))
}

/// `path` has a last component: it is neither empty nor the root alone.
pub open spec fn has_component(path: Seq<u8>) -> bool {
    last_end(path) > root_len(path)
}

/// The last component of `path`.
pub open spec fn last_component(path: Seq<u8>) -> Seq<u8> {
    path.subrange(last_start(path), last_end(path))
}

/// The name of the file that `path` leads to: its last component, unless
/// that is `.` or `..`.
pub open spec fn file_name_of(path: Seq<u8>) -> Option<Seq<u8>> {
    let name = last_component(path);
    if !has_component(path) || name == seq![dot()] || name == seq![dot(), dot()] {
        None
    } else {
        Some(name)
    }
}

/// `path` without its last component and the separators before it.
pub open spec fn parent_of(path: Seq<u8>) -> Option<Seq<u8>> {
    if has_component(path) {
        Some(path.take(body_end(path, last_start(path))))
    } else {
        None
    }
}

/// The offset of the last dot within the first `n` bytes of `name`, or -1.
pub open spec fn last_dot(name: Seq<u8>, n: int) -> int
    decreases n,
{
    if n <= 0 || n > name.len() {
        -1
    } else if name[n - 1] == dot() {
        n - 1
    } else {
        last_dot(name, n - 1)
    }
}

/// The offset of the dot in `name` that an extension follows: the last dot,
/// unless it is the first byte. -1 where there is none.
pub open spec fn extension_dot(name: Seq<u8>) -> int {
    let at = last_dot(name, name.len() as int);
    if at <= 0 {
        -1
    } else {
        at
    }
}

/// What follows the last dot of the file name, where that dot is not the
/// name's first byte.
pub open spec fn extension_of(path: Seq<u8>) -> Option<Seq<u8>> {
    match file_name_of(path) {
        Some(name) => if extension_dot(name) < 0 {
            None
        } else {
            Some(name.skip(extension_dot(name) + 1))
        },
        None => None,
    }
}

/// The file name without its extension and the dot before it.
pub open spec fn file_stem_of(path: Seq<u8>) -> Option<Seq<u8>> {
    match file_name_of(path) {
        Some(name) => if extension_dot(name) < 0 {
            Some(name)
        } else {
            Some(name.take(extension_dot(name)))
        },
        None => None,
    }
}

pub const HTML: &'static str = "html";

pub const XHTML: &'static str = "xhtml";

/// `path` names a markup document: its extension is `html` or `xhtml`.
pub open spec fn is_markup(path: Seq<u8>) -> bool {
    extension_of(path) == Some(utf8(HTML@)) || extension_of(path) == Some(utf8(XHTML@))
}

/// `name` put after the directory `dir`: with a separator between them
/// where `dir` does not end in one; `name` alone where it starts at the root.
pub open spec fn joined(dir: Seq<u8>, name: Seq<u8>) -> Seq<u8> {
    if name.len() > 0 && name[0] == separator() {
        name
    } else if dir.len() == 0 || dir.last() == separator() {
        dir + name
    } else {
        dir + seq![separator()] + name
    }
}

/// `path` with `stem` in place of its file stem: the parent directory, then
/// `stem`, then the extension of `path` where it has one.
pub open spec fn with_file_stem(path: Seq<u8>, stem: Seq<u8>) -> Seq<u8> {
    let name = match extension_of(path) {
        Some(extension) => stem + seq![dot()] + extension,
        None => stem,
    };
    let dir = match parent_of(path) {
        Some(dir) => dir,
        None => Seq::empty(),
    };
    joined(dir, name)
}

/// `found` is the part of a path that `expected` describes.
pub open spec fn part_is(found: Option<&str>, expected: Option<Seq<u8>>) -> bool {
    match expected {
        Some(bytes) => found matches Some(part) && part.spec_bytes() == bytes,
        None => found is None,
    }
}

/// The offsets at which the last component of a path starts and ends.
struct Span {
    start: usize,
    end: usize,
}

fn scan_body_end(path: &[u8], from: usize) -> (end: usize)
    requires
        from <= path@.len(),
    ensures
        end == body_end(path@, from as int),
        end <= from,
        end < from ==> path@[end as int] < 0x80,
        end >= root_len(path@) || end == from,
        end > root_len(path@) ==> path@[end - 1] != separator(),
{
    let root: usize = if path.len() > 0 && path[0] == 0x2f {
        1
    } else {
        0
    };
    let mut n: usize = from;
    while n > root && (path[n - 1] == 0x2f || (path[n - 1] == 0x2e && n >= 2 && path[n - 2]
        == 0x2f))
        invariant
            root == root_len(path@),
            n <= from <= path@.len(),
            body_end(path@, from as int) == body_end(path@, n as int),
            n < from ==> path@[n as int] < 0x80,
            n >= root || n == from,
        decreases n,
    {
        n -= 1;
    }
    n
}

fn scan_component_start(path: &[u8], end: usize) -> (start: usize)
    requires
        end <= path@.len(),
    ensures
        start == component_start(path@, end as int),
        start <= end,
        start == 0 || path@[start - 1] == separator(),
{
    let mut n: usize = end;
    while n > 0 && path[n - 1] != 0x2f
        invariant
            n <= end <= path@.len(),
            component_start(path@, end as int) == component_start(path@, n as int),
        decreases n,
    {
        n -= 1;
    }
    n
}

fn last_span(path: &[u8]) -> (span: Span)
    ensures
        span.start == last_start(path@),
        span.end == last_end(path@),
        span.start <= span.end <= path@.len(),
        span.start == 0 || path@[span.start - 1] < 0x80,
        span.end == path@.len() || path@[span.end as int] < 0x80,
        span.end > root_len(path@) ==> span.start < span.end,
{
    let end = scan_body_end(path, path.len());
    let start = scan_component_start(path, end);
    Span { start, end }
}

fn is_dots(path: &[u8], span: &Span) -> (dots: bool)
    requires
        span.start <= span.end <= path@.len(),
    ensures
        dots == (path@.subrange(span.start as int, span.end as int) == seq![dot()] || path@.subrange(
            span.start as int,
            span.end as int,
        ) == seq![dot(), dot()]),
{
    let ghost name = path@.subrange(span.start as int, span.end as int);
    let len = span.end - span.start;
    assert(name.len() == len);
    assert(seq![dot()].len() == 1 && seq![dot()][0] == dot());
    assert(seq![dot(), dot()].len() == 2 && seq![dot(), dot()][0] == dot() && seq![dot(), dot()][1]
        == dot());
    if len == 1 {
        assert(name[0] == path@[span.start as int]);
        let dots = path[span.start] == 0x2e;
        assert(dots ==> name =~= seq![dot()]);
        dots
    } else if len == 2 {
        assert(name[0] == path@[span.start as int]);
        assert(name[1] == path@[span.start + 1]);
        let dots = path[span.start] == 0x2e && path[span.start + 1] == 0x2e;
        assert(dots ==> name =~= seq![dot(), dot()]);
        dots
    } else {
        false
    }
}

/// The span of the file name of `path`, where it has one.
fn name_span(path: &[u8]) -> (found: Option<Span>)
    ensures
        found is Some <==> file_name_of(path@) is Some,
        found matches Some(span) ==> span.start == last_start(path@) && span.end == last_end(
            path@,
        ) && span.start < span.end <= path@.len() && (span.start == 0 || path@[span.start - 1]
            < 0x80) && (span.end == path@.len() || path@[span.end as int] < 0x80),
{
    let span = last_span(path);
    let root: usize = if path.len() > 0 && path[0] == 0x2f {
        1
    } else {
        0
    };
    if span.end <= root || is_dots(path, &span) {
        None
    } else {
        Some(span)
    }
}

/// The offset of the dot before the extension within `path[start..end]`.
fn scan_extension_dot(path: &[u8], span: &Span) -> (found: Option<usize>)
    requires
        span.start <= span.end <= path@.len(),
    ensures
        match found {
            Some(at) => span.start < at < span.end && at - span.start == extension_dot(
                path@.subrange(span.start as int, span.end as int),
            ) && path@[at as int] == dot(),
            None => extension_dot(path@.subrange(span.start as int, span.end as int)) < 0,
        },
{
    let ghost name = path@.subrange(span.start as int, span.end as int);
    let mut n: usize = span.end;
    while n > span.start && path[n - 1] != 0x2e
        invariant
            span.start <= n <= span.end <= path@.len(),
            name == path@.subrange(span.start as int, span.end as int),
            last_dot(name, name.len() as int) == last_dot(name, n - span.start),
        decreases n,
    {
        assert(name[n - 1 - span.start] == path@[n - 1]);
        n -= 1;
    }
    if n > span.start {
        assert(name[n - 1 - span.start] == path@[n - 1]);
    }
    if n - span.start <= 1 {
        None
    } else {
        Some(n - 1)
    }
}

/// The name of the file that `path` leads to.
pub fn file_name(path: &str) -> (name: Option<&str>)
    ensures
        part_is(name, file_name_of(path.spec_bytes())),
{
    let bytes = path.as_bytes();
    match name_span(bytes) {
        Some(span) => {
            proof {
                encode_utf8_valid_utf8(path@);
                lemma_boundary_at_ascii(bytes@, span.start as int);
                lemma_boundary_at_ascii(bytes@, span.end as int);
            }
            Some(str_slice(path, span.start, span.end))
        },
        None => None,
    }
}

/// The extension of the file that `path` leads to.
pub fn extension(path: &str) -> (found: Option<&str>)
    ensures
        part_is(found, extension_of(path.spec_bytes())),
{
    let bytes = path.as_bytes();
    match name_span(bytes) {
        Some(span) => match scan_extension_dot(bytes, &span) {
            Some(at) => {
                proof {
                    encode_utf8_valid_utf8(path@);
                    lemma_boundary_at_ascii(bytes@, at + 1);
                    lemma_boundary_at_ascii(bytes@, span.end as int);
                    let name = bytes@.subrange(span.start as int, span.end as int);
                    assert(name.skip(at - span.start + 1) =~= bytes@.subrange(
                        at + 1,
                        span.end as int,
                    ));
                }
                Some(str_slice(path, at + 1, span.end))
            },
            None => None,
        },
        None => None,
    }
}

/// The file name of `path` without its extension.
pub fn file_stem(path: &str) -> (stem: Option<&str>)
    ensures
        part_is(stem, file_stem_of(path.spec_bytes())),
{
    let bytes = path.as_bytes();
    match name_span(bytes) {
        Some(span) => {
            let end = match scan_extension_dot(bytes, &span) {
                Some(at) => at,
                None => span.end,
            };
            proof {
                encode_utf8_valid_utf8(path@);
                lemma_boundary_at_ascii(bytes@, span.start as int);
                lemma_boundary_at_ascii(bytes@, end as int);
                let name = bytes@.subrange(span.start as int, span.end as int);
                assert(name.take(end - span.start) =~= bytes@.subrange(
                    span.start as int,
                    end as int,
                ));
                assert(name.take(name.len() as int) =~= name);
            }
            Some(str_slice(path, span.start, end))
        },
        None => None,
    }
}

/// `path` without its last component.
pub fn parent(path: &str) -> (dir: Option<&str>)
    ensures
        part_is(dir, parent_of(path.spec_bytes())),
{
    let bytes = path.as_bytes();
    let span = last_span(bytes);
    let root: usize = if bytes.len() > 0 && bytes[0] == 0x2f {
        1
    } else {
        0
    };
    if span.end <= root {
        return None;
    }
    let end = scan_body_end(bytes, span.start);
    proof {
        encode_utf8_valid_utf8(path@);
        lemma_boundary_at_ascii(bytes@, 0);
        lemma_boundary_at_ascii(bytes@, end as int);
        assert(bytes@.take(end as int) =~= bytes@.subrange(0, end as int));
    }
    Some(str_slice(path, 0, end))
}

/// Whether `file_path` names a markup document.
pub fn is_xhtml(file_path: &str) -> (markup: bool)
    ensures
        markup == is_markup(file_path.spec_bytes()),
{
    match extension(file_path) {
        Some(found) => str_eq(found, HTML) || str_eq(found, XHTML),
        None => false,
    }
}

/// The bytes of the two one-character strings that paths are built with.
pub proof fn lemma_path_marks()
    ensures
        utf8("/"@) == seq![separator()],
        utf8("."@) == seq![dot()],
{
    reveal_strlit("/");
    reveal_strlit(".");
    assert("/"@ =~= seq!['/']);
    assert("."@ =~= seq!['.']);
    assert(is_ascii_chars("/"@));
    assert(is_ascii_chars("."@));
    is_ascii_chars_encode_utf8("/"@);
    is_ascii_chars_encode_utf8("."@);
    assert(utf8("/"@) =~= seq![separator()]);
    assert(utf8("."@) =~= seq![dot()]);
}

/// `original_path` with `new_stem` in place of its file stem.
pub fn change_file_stem(original_path: &str, new_stem: &str) -> (new_path: String)
    ensures
        utf8(new_path@) == with_file_stem(original_path.spec_bytes(), new_stem.spec_bytes()),
{
    let mut name = String::from_str(new_stem);
    match extension(original_path) {
        Some(found) => {
            name.append(".");
            name.append(found);
            proof {
                lemma_path_marks();
                lemma_utf8_concat(new_stem@, "."@);
                lemma_utf8_concat(new_stem@ + "."@, found@);
            }
        },
        None => {},
    }
    let dir = match parent(original_path) {
        Some(dir) => dir,
        None => "",
    };
    proof {
        reveal_strlit("");
        assert(utf8(""@) =~= Seq::<u8>::empty());
    }
    let name_bytes = name.as_str().as_bytes();
    let dir_bytes = dir.as_bytes();
    if name_bytes.len() > 0 && name_bytes[0] == 0x2f {
        return name;
    }
    let mut new_path = String::from_str(dir);
    if dir_bytes.len() > 0 && dir_bytes[dir_bytes.len() - 1] != 0x2f {
        new_path.append("/");
        proof {
            lemma_path_marks();
            lemma_utf8_concat(dir@, "/"@);
        }
    }
    proof {
        lemma_utf8_concat(new_path@, name@);
    }
    new_path.append(name.as_str());
    new_path
}

} // verus!
