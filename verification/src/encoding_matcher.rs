//! Recognizer of the XML declaration at the start of a document.
//!
//! The grammar, on the bytes of the document:
//!
//! ```text
//! declaration = "<?xml" attribute("version=", version) attribute("encoding=", encoding) [ filler "?>" ]
//! attribute(name, class) = space+ name quote class* quote
//! space    = ' ' | '\t' | '\r' | '\n'
//! quote    = '\'' | '"'
//! version  = '0'..'9' | '.'
//! encoding = '0'..'9' | 'a'..'z' | 'A'..'Z' | '-' | '.'
//! filler   = any byte but '?', any number of them
//! ```
//!
//! The literals match whatever the case of their letters. The two quotes
//! round a value need not be the same. The closing part is taken only where
//! the first `?` after the attributes starts `?>`.

use vstd::prelude::*;
use vstd::string::StringSliceAdditionalSpecFns;
use vstd::utf8::*;
use crate::text::lemma_boundary_at_ascii;
use crate::text::str_slice;
use crate::text::utf8;

verus! {

/// What the recognizer looked for where it gave up.
#[derive(Clone, Copy, Debug, PartialEq, Eq, Structural)]
pub enum ErrorKind {
    /// One of the literals `<?xml`, `version=`, `encoding=`.
    Tag,
    /// White space before an attribute.
    MultiSpace,
    /// A quote round an attribute's value.
    Char,
}

/// A document that does not start with an XML declaration: the byte offset
/// at which the recognizer gave up, and what it looked for there.
#[derive(Clone, Copy, Debug, PartialEq, Eq, Structural)]
pub struct DeclarationError {
    pub offset: usize,
    pub code: ErrorKind,
}

/// The classes of bytes that the grammar repeats.
#[derive(Clone, Copy, Debug, PartialEq, Eq, Structural)]
pub enum Class {
    Space,
    Version,
    Encoding,
    Filler,
}

pub const XML_OPEN: &'static str = "<?xml";

pub const VERSION_NAME: &'static str = "version=";

pub const ENCODING_NAME: &'static str = "encoding=";

pub const XML_CLOSE: &'static str = "?>";

pub open spec fn is_digit(b: u8) -> bool {
    0x30 <= b <= 0x39
}

pub open spec fn is_letter(b: u8) -> bool {
    0x41 <= b <= 0x5a || 0x61 <= b <= 0x7a
}

pub open spec fn is_quote(b: u8) -> bool {
    b == 0x22 || b == 0x27
}

pub open spec fn in_class(class: Class, b: u8) -> bool {
    match class {
        Class::Space => b == 0x20 || b == 0x09 || b == 0x0d || b == 0x0a,
        Class::Version => is_digit(b) || b == 0x2e,
        Class::Encoding => is_digit(b) || is_letter(b) || b == 0x2d || b == 0x2e,
        Class::Filler => b != 0x3f,
    }
}

/// An ASCII capital as its small letter, any other byte as itself.
pub open spec fn lower(b: u8) -> u8 {
    if 0x41 <= b <= 0x5a {
        (b + 0x20) as u8
    } else {
        b
    }
}

/// `tag` stands in `input` at `at`, whatever the case of the letters.
pub open spec fn tag_at(input: Seq<u8>, at: int, tag: Seq<u8>) -> bool {
    &&& 0 <= at
    &&& at + tag.len() <= input.len()
    &&& forall|k: int| 0 <= k < tag.len() ==> lower(#[trigger] input[at + k]) == lower(tag[k])
}

/// The end of the longest run of bytes of `class` that starts at `at`.
pub open spec fn run_end(input: Seq<u8>, at: int, class: Class) -> int
    decreases input.len() - at,
{
    if 0 <= at < input.len() && in_class(class, input[at]) {
        run_end(input, at + 1, class)
    } else {
        at
    }
}

pub open spec fn quote_at(input: Seq<u8>, at: int) -> bool {
    0 <= at < input.len() && is_quote(input[at])
}

/// The end of the quoted value that starts at `at`, or where and why none
/// stands there.
pub open spec fn value_end(input: Seq<u8>, at: int, class: Class) -> Result<int, (int, ErrorKind)> {
    let close = run_end(input, at + 1, class);
    if !quote_at(input, at) {
        Err((at, ErrorKind::Char))
    } else if !quote_at(input, close) {
        Err((close, ErrorKind::Char))
    } else {
        Ok(close + 1)
    }
}

/// The end of the attribute `name` that starts at `at` with its white
/// space, or where and why none stands there.
pub open spec fn attribute_end(input: Seq<u8>, at: int, name: Seq<u8>, class: Class) -> Result<
    int,
    (int, ErrorKind),
> {
    let start = run_end(input, at, Class::Space);
    if start == at {
        Err((at, ErrorKind::MultiSpace))
    } else if !tag_at(input, start, name) {
        Err((start, ErrorKind::Tag))
    } else {
        value_end(input, start + name.len(), class)
    }
}

/// The end of the closing part `filler "?>"` after the attributes, which
/// end at `at`; `at` itself where no closing part follows.
pub open spec fn closing_end(input: Seq<u8>, at: int) -> int {
    let mark = run_end(input, at, Class::Filler);
    if tag_at(input, mark, utf8(XML_CLOSE@)) {
        mark + utf8(XML_CLOSE@).len()
    } else {
        at
    }
}

/// The end of the XML declaration at the start of `input`, or where and why
/// `input` does not start with one.
pub open spec fn declaration_end(input: Seq<u8>) -> Result<int, (int, ErrorKind)> {
    if !tag_at(input, 0, utf8(XML_OPEN@)) {
        Err((0, ErrorKind::Tag))
    } else {
        match attribute_end(input, utf8(XML_OPEN@).len() as int, utf8(VERSION_NAME@), Class::Version) {
            Err(e) => Err(e),
            Ok(version_end) => match attribute_end(
                input,
                version_end,
                utf8(ENCODING_NAME@),
                Class::Encoding,
            ) {
                Err(e) => Err(e),
                Ok(encoding_end) => Ok(closing_end(input, encoding_end)),
            },
        }
    }
}

/// `input` starts with an XML declaration.
pub open spec fn has_declaration(input: Seq<u8>) -> bool {
    declaration_end(input) is Ok
}

/// `found` is the outcome `expected`, with its offsets as `usize`.
pub open spec fn outcome_is(found: Result<usize, DeclarationError>, expected: Result<int, (int, ErrorKind)>) -> bool {
    match expected {
        Ok(end) => found == Ok::<usize, DeclarationError>(end as usize) && 0 <= end <= usize::MAX,
        Err((at, code)) => found == Err::<usize, DeclarationError>(
            DeclarationError { offset: at as usize, code },
        ) && 0 <= at <= usize::MAX,
    }
}

fn to_lower(b: u8) -> (small: u8)
    ensures
        small == lower(b),
{
    if 0x41 <= b && b <= 0x5a {
        b + 0x20
    } else {
        b
    }
}

fn byte_in_class(class: Class, b: u8) -> (inside: bool)
    ensures
        inside == in_class(class, b),
{
    let digit = 0x30 <= b && b <= 0x39;
    let letter = (0x41 <= b && b <= 0x5a) || (0x61 <= b && b <= 0x7a);
    match class {
        Class::Space => b == 0x20 || b == 0x09 || b == 0x0d || b == 0x0a,
        Class::Version => digit || b == 0x2e,
        Class::Encoding => digit || letter || b == 0x2d || b == 0x2e,
        Class::Filler => b != 0x3f,
    }
}

fn tag_stands_at(input: &[u8], at: usize, tag: &[u8]) -> (stands: bool)
    ensures
        stands == tag_at(input@, at as int, tag@),
        input@.len() <= usize::MAX,
{
    if at > input.len() || tag.len() > input.len() - at {
        return false;
    }
    let mut k: usize = 0;
    while k < tag.len()
        invariant
            at + tag@.len() <= input@.len() <= usize::MAX,
            k <= tag@.len(),
            forall|j: int| 0 <= j < k ==> lower(#[trigger] input@[at + j]) == lower(tag@[j]),
        decreases tag@.len() - k,
    {
        if to_lower(input[at + k]) != to_lower(tag[k]) {
            return false;
        }
        k += 1;
    }
    true
}

fn skip_class(input: &[u8], at: usize, class: Class) -> (end: usize)
    requires
        at <= input@.len(),
    ensures
        end == run_end(input@, at as int, class),
        at <= end <= input@.len(),
{
    let mut end: usize = at;
    while end < input.len() && byte_in_class(class, input[end])
        invariant
            at <= end <= input@.len(),
            run_end(input@, at as int, class) == run_end(input@, end as int, class),
        decreases input@.len() - end,
    {
        end += 1;
    }
    end
}

fn quote_stands_at(input: &[u8], at: usize) -> (stands: bool)
    ensures
        stands == quote_at(input@, at as int),
        input@.len() <= usize::MAX,
{
    at < input.len() && (input[at] == 0x22 || input[at] == 0x27)
}

fn scan_value(input: &[u8], at: usize, class: Class) -> (found: Result<usize, DeclarationError>)
    requires
        at <= input@.len(),
    ensures
        outcome_is(found, value_end(input@, at as int, class)),
        found matches Ok(end) ==> 0 < end <= input@.len() && input@[end - 1] < 0x80,
{
    if !quote_stands_at(input, at) {
        return Err(DeclarationError { offset: at, code: ErrorKind::Char });
    }
    let close = skip_class(input, at + 1, class);
    if !quote_stands_at(input, close) {
        return Err(DeclarationError { offset: close, code: ErrorKind::Char });
    }
    Ok(close + 1)
}

fn scan_attribute(input: &[u8], at: usize, name: &str, class: Class) -> (found: Result<
    usize,
    DeclarationError,
>)
    requires
        at <= input@.len(),
    ensures
        outcome_is(found, attribute_end(input@, at as int, utf8(name@), class)),
        found matches Ok(end) ==> 0 < end <= input@.len() && input@[end - 1] < 0x80,
{
    let start = skip_class(input, at, Class::Space);
    if start == at {
        return Err(DeclarationError { offset: at, code: ErrorKind::MultiSpace });
    }
    let name_bytes = name.as_bytes();
    if !tag_stands_at(input, start, name_bytes) {
        return Err(DeclarationError { offset: start, code: ErrorKind::Tag });
    }
    scan_value(input, start + name_bytes.len(), class)
}

fn scan_closing(input: &[u8], at: usize) -> (end: usize)
    requires
        at <= input@.len(),
    ensures
        end == closing_end(input@, at as int),
        at <= end <= input@.len(),
        end > at ==> input@[end - 1] < 0x80,
{
    let mark = skip_class(input, at, Class::Filler);
    let close = XML_CLOSE.as_bytes();
    if tag_stands_at(input, mark, close) {
        proof {
            lemma_close_bytes();
            assert(lower(input@[mark + 1]) == lower(utf8(XML_CLOSE@)[1]));
        }
        mark + close.len()
    } else {
        at
    }
}

/// The bytes of the closing literal.
pub proof fn lemma_close_bytes()
    ensures
        utf8(XML_CLOSE@) == seq![0x3fu8, 0x3e],
{
    reveal_strlit("?>");
    let chars = XML_CLOSE@;
    assert(chars =~= seq!['?', '>']);
    assert(is_ascii_chars(chars));
    is_ascii_chars_encode_utf8(chars);
    assert(utf8(chars) =~= seq![0x3fu8, 0x3e]);
}

/// The end of the XML declaration at the start of `input`, or where and why
/// `input` does not start with one.
pub fn recognize(input: &[u8]) -> (found: Result<usize, DeclarationError>)
    ensures
        outcome_is(found, declaration_end(input@)),
        found matches Ok(end) ==> 0 < end <= input@.len() && input@[end - 1] < 0x80,
{
    let open = XML_OPEN.as_bytes();
    if !tag_stands_at(input, 0, open) {
        return Err(DeclarationError { offset: 0, code: ErrorKind::Tag });
    }
    let version_end = match scan_attribute(input, open.len(), VERSION_NAME, Class::Version) {
        Ok(end) => end,
        Err(e) => {
            return Err(e);
        },
    };
    let encoding_end = match scan_attribute(input, version_end, ENCODING_NAME, Class::Encoding) {
        Ok(end) => end,
        Err(e) => {
            return Err(e);
        },
    };
    Ok(scan_closing(input, encoding_end))
}

/// Whether `input` starts with an XML declaration: on success what follows
/// the declaration, and `true`; else where and why the recognizer gave up.
pub fn is_xml_declaration(input: &str) -> (found: Result<(&str, bool), DeclarationError>)
    ensures
        match declaration_end(input.spec_bytes()) {
            Ok(end) => found matches Ok((rest, valid)) && valid && rest.spec_bytes()
                == input.spec_bytes().skip(end),
            Err((at, code)) => found == Err::<(&str, bool), DeclarationError>(
                DeclarationError { offset: at as usize, code },
            ),
        },
{
    let bytes = input.as_bytes();
    match recognize(bytes) {
        Ok(end) => {
            proof {
                encode_utf8_valid_utf8(input@);
                lemma_boundary_at_ascii(bytes@, end as int);
                lemma_boundary_at_ascii(bytes@, bytes@.len() as int);
            }
            let rest = str_slice(input, end, bytes.len());
            assert(bytes@.subrange(end as int, bytes@.len() as int) =~= bytes@.skip(end as int));
            Ok((rest, true))
        },
        Err(e) => Err(e),
    }
}

} // verus!
