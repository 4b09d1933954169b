//! Text as UTF-8 bytes: searching, replacing, trimming and slicing.
//!
//! Every document and every path is handled as the byte sequence of its UTF-8
//! encoding. All delimiters the library looks for are ASCII, and an ASCII byte
//! never occurs inside the encoding of another character, so a search on bytes
//! finds what a search on characters would.

use vstd::prelude::*;
use vstd::slice::slice_subrange;
use vstd::string::StringSliceAdditionalSpecFns;
use vstd::utf8::*;

verus! {

/// The UTF-8 encoding of a text.
pub open spec fn utf8(text: Seq<char>) -> Seq<u8> {
    encode_utf8(text)
}

/// Name of what `String::from_utf8_lossy` makes of bytes that are not valid
/// UTF-8: the text in which each malformed sequence is replaced by U+FFFD.
pub uninterp spec fn lossy_replaced(bytes: Seq<u8>) -> Seq<char>;

/// The text that bytes stand for: their decoding where they are valid UTF-8,
/// the text with replacement characters otherwise.
pub open spec fn utf8_lossy(bytes: Seq<u8>) -> Seq<char> {
    if valid_utf8(bytes) {
        decode_utf8(bytes)
    } else {
        lossy_replaced(bytes)
    }
}

/// Trusted: `String::from_utf8_lossy`. Valid UTF-8 is decoded as it stands;
/// for anything else the contract only names the result.
#[verifier::external_body]
pub(crate) fn decode_lossy(bytes: &[u8]) -> (text: String)
    ensures
        text@ == if valid_utf8(bytes@) {
            decode_utf8(bytes@)
        } else {
            lossy_replaced(bytes@)
        },
{
    String::from_utf8_lossy(bytes).into_owned()
}

/// The bytes of `utf8_lossy`: always valid UTF-8, and the input itself where
/// the input was valid.
pub open spec fn sanitized(bytes: Seq<u8>) -> Seq<u8> {
    utf8(utf8_lossy(bytes))
}

pub proof fn lemma_sanitized_valid(bytes: Seq<u8>)
    ensures
        valid_utf8(sanitized(bytes)),
        valid_utf8(bytes) ==> sanitized(bytes) == bytes,
{
    encode_utf8_valid_utf8(utf8_lossy(bytes));
    if valid_utf8(bytes) {
        decode_utf8_encode_utf8(bytes);
    }
}

/// Encoding distributes over concatenation.
pub proof fn lemma_utf8_concat(a: Seq<char>, b: Seq<char>)
    ensures
        utf8(a + b) == utf8(a) + utf8(b),
    decreases a.len(),
{
    if a.len() == 0 {
        assert(a + b =~= b);
        assert(utf8(a) + utf8(b) =~= utf8(b));
    } else {
        lemma_utf8_concat(a.drop_first(), b);
        assert((a + b).drop_first() =~= a.drop_first() + b);
        assert((a + b)[0] == a[0]);
        assert(utf8(a + b) =~= utf8(a) + utf8(b));
    }
}

/// A text is determined by its encoding.
pub proof fn lemma_utf8_injective(a: Seq<char>, b: Seq<char>)
    requires
        utf8(a) == utf8(b),
    ensures
        a == b,
{
    encode_utf8_decode_utf8(a);
    encode_utf8_decode_utf8(b);
}

/// In valid UTF-8 the start, the end, and every position before or after an
/// ASCII byte lie between two characters.
pub proof fn lemma_boundary_at_ascii(bytes: Seq<u8>, at: int)
    requires
        valid_utf8(bytes),
        0 <= at <= bytes.len(),
        at == 0 || at == bytes.len() || bytes[at] < 0x80 || bytes[at - 1] < 0x80,
    ensures
        is_char_boundary(bytes, at),
{
    is_char_boundary_start_end_of_seq(bytes);
    if 0 < at < bytes.len() {
        if bytes[at] < 0x80 {
            is_char_boundary_iff_not_is_continuation_byte(bytes, at);
        } else {
            is_char_boundary_iff_not_is_continuation_byte(bytes, at - 1);
            valid_utf8_split(bytes, at - 1);
            let tail = bytes.subrange(at - 1, bytes.len() as int);
            assert(tail[0] == bytes[at - 1]);
            assert(length_of_first_scalar(tail) == 1);
            let rest = pop_first_scalar(tail);
            assert(valid_utf8(rest));
            assert(rest.len() > 0);
            assert(rest[0] == bytes[at]);
            assert(valid_first_scalar(rest));
            assert(!is_continuation_byte(rest[0]));
            is_char_boundary_iff_not_is_continuation_byte(bytes, at);
        }
    }
}

/// The part of `text` between two byte offsets that lie between characters.
pub fn str_slice(text: &str, from: usize, to: usize) -> (part: &str)
    requires
        from <= to <= text.spec_bytes().len(),
        is_char_boundary(text.spec_bytes(), from as int),
        is_char_boundary(text.spec_bytes(), to as int),
    ensures
        part.spec_bytes() == text.spec_bytes().subrange(from as int, to as int),
{
    let (head, _) = text.split_at(to);
    proof {
        encode_utf8_valid_utf8(text@);
        encode_utf8_valid_utf8(head@);
        let all = text.spec_bytes();
        if from < to {
            if is_continuation_byte(all[from as int]) {
                is_char_boundary_iff_not_is_continuation_byte(all, from as int);
            }
            assert(head.spec_bytes()[from as int] == all[from as int]);
            is_char_boundary_iff_not_is_continuation_byte(head.spec_bytes(), from as int);
        } else {
            is_char_boundary_start_end_of_seq(head.spec_bytes());
        }
    }
    let (_, part) = head.split_at(from);
    assert(part.spec_bytes() =~= text.spec_bytes().subrange(from as int, to as int));
    part
}

/// Whether two byte strings are the same.
pub fn bytes_eq(a: &[u8], b: &[u8]) -> (same: bool)
    ensures
        same == (a@ == b@),
{
    if a.len() != b.len() {
        return false;
    }
    let mut i: usize = 0;
    while i < a.len()
        invariant
            a@.len() == b@.len(),
            i <= a@.len(),
            forall|k: int| 0 <= k < i ==> a@[k] == b@[k],
        decreases a@.len() - i,
    {
        if a[i] != b[i] {
            return false;
        }
        i += 1;
    }
    assert(a@ =~= b@);
    true
}

/// Whether two strings are the same text.
pub fn str_eq(a: &str, b: &str) -> (same: bool)
    ensures
        same == (a@ == b@),
        same == (a.spec_bytes() == b.spec_bytes()),
{
    let same = bytes_eq(a.as_bytes(), b.as_bytes());
    proof {
        if same {
            lemma_utf8_injective(a@, b@);
        }
    }
    same
}

/// `needle` occurs in `hay` at offset `at`.
pub open spec fn matches_at(hay: Seq<u8>, needle: Seq<u8>, at: int) -> bool {
    &&& 0 <= at
    &&& at + needle.len() <= hay.len()
    &&& hay.subrange(at, at + needle.len()) == needle
}

/// `needle` occurs somewhere in `hay`.
pub open spec fn contains(hay: Seq<u8>, needle: Seq<u8>) -> bool {
    exists|at: int| matches_at(hay, needle, at)
}

/// Whether `needle` occurs in `hay` at offset `at`.
pub fn occurs_at(hay: &[u8], needle: &[u8], at: usize) -> (found: bool)
    ensures
        found == matches_at(hay@, needle@, at as int),
{
    if at > hay.len() || needle.len() > hay.len() - at {
        return false;
    }
    let mut i: usize = 0;
    while i < needle.len()
        invariant
            at + needle@.len() <= hay@.len() <= usize::MAX,
            i <= needle@.len(),
            forall|k: int| 0 <= k < i ==> hay@[at + k] == needle@[k],
        decreases needle@.len() - i,
    {
        if hay[at + i] != needle[i] {
            proof {
                let part = hay@.subrange(at as int, at + needle@.len());
                assert(part[i as int] == hay@[at + i]);
            }
            return false;
        }
        i += 1;
    }
    assert(hay@.subrange(at as int, at + needle@.len()) =~= needle@);
    true
}

/// The first offset at or after `from` at which `needle` occurs in `hay`.
pub fn find(hay: &[u8], needle: &[u8], from: usize) -> (found: Option<usize>)
    ensures
        match found {
            Some(at) => from <= at && matches_at(hay@, needle@, at as int) && forall|k: int|
                from <= k < at ==> !matches_at(hay@, needle@, k),
            None => forall|k: int| from <= k ==> !matches_at(hay@, needle@, k),
        },
{
    if from > hay.len() {
        return None;
    }
    let mut at: usize = from;
    while at < hay.len()
        invariant
            from <= at <= hay@.len() <= usize::MAX,
            forall|k: int| from <= k < at ==> !matches_at(hay@, needle@, k),
        decreases hay@.len() - at,
    {
        if occurs_at(hay, needle, at) {
            return Some(at);
        }
        at += 1;
    }
    if occurs_at(hay, needle, at) {
        Some(at)
    } else {
        None
    }
}

/// `hay` with `piece` after every character: after every byte that is not
/// followed by a continuation byte.
pub open spec fn spread(hay: Seq<u8>, piece: Seq<u8>) -> Seq<u8>
    decreases hay.len(),
{
    if hay.len() == 0 {
        Seq::empty()
    } else if hay.len() == 1 || !is_continuation_byte(hay[1]) {
        hay.take(1) + piece + spread(hay.skip(1), piece)
    } else {
        hay.take(1) + spread(hay.skip(1), piece)
    }
}

/// `hay` with every occurrence of `from` replaced by `to`. Occurrences are
/// taken from the left and do not overlap. The empty string occurs before
/// every character and at the end.
pub open spec fn replaced(hay: Seq<u8>, from: Seq<u8>, to: Seq<u8>) -> Seq<u8>
    decreases hay.len(),
{
    if from.len() == 0 {
        to + spread(hay, to)
    } else if hay.len() < from.len() {
        hay
    } else if matches_at(hay, from, 0) {
        to + replaced(hay.skip(from.len() as int), from, to)
    } else {
        hay.take(1) + replaced(hay.skip(1), from, to)
    }
}

/// Where `from` does not occur at any offset in `start..end`, replacing
/// copies that stretch.
proof fn lemma_replaced_copies(hay: Seq<u8>, from: Seq<u8>, to: Seq<u8>, start: int, end: int)
    requires
        from.len() > 0,
        0 <= start <= end <= hay.len(),
        forall|k: int| start <= k < end ==> !matches_at(hay, from, k),
    ensures
        replaced(hay.skip(start), from, to) == hay.subrange(start, end) + replaced(
            hay.skip(end),
            from,
            to,
        ),
    decreases end - start,
{
    if start == end {
        assert(hay.subrange(start, end) + replaced(hay.skip(end), from, to) =~= replaced(
            hay.skip(end),
            from,
            to,
        ));
    } else {
        let here = hay.skip(start);
        lemma_replaced_copies(hay, from, to, start + 1, end);
        assert(here.skip(1) =~= hay.skip(start + 1));
        assert(here.take(1) =~= hay.subrange(start, start + 1));
        if here.len() < from.len() {
            assert(hay.skip(start + 1).len() < from.len());
            assert(here =~= here.take(1) + here.skip(1));
        } else {
            assert(!matches_at(hay, from, start));
            assert(here.subrange(0, from.len() as int) =~= hay.subrange(
                start,
                start + from.len(),
            ));
            assert(!matches_at(here, from, 0));
        }
        assert(replaced(here, from, to) == hay.subrange(start, start + 1) + replaced(
            hay.skip(start + 1),
            from,
            to,
        ));
        assert(hay.subrange(start, start + 1) + hay.subrange(start + 1, end) =~= hay.subrange(
            start,
            end,
        ));
        assert(replaced(here, from, to) =~= hay.subrange(start, end) + replaced(
            hay.skip(end),
            from,
            to,
        ));
    }
}

/// Appends `piece` to `out`.
pub fn append(out: &mut Vec<u8>, piece: &[u8])
    ensures
        final(out)@ == old(out)@ + piece@,
{
    let mut i: usize = 0;
    while i < piece.len()
        invariant
            i <= piece@.len(),
            out@ == old(out)@ + piece@.take(i as int),
        decreases piece@.len() - i,
    {
        out.push(piece[i]);
        assert(piece@.take(i + 1) =~= piece@.take(i as int).push(piece@[i as int]));
        i += 1;
    }
    assert(piece@.take(piece@.len() as int) =~= piece@);
}

fn spread_into(out: &mut Vec<u8>, hay: &[u8], piece: &[u8])
    ensures
        final(out)@ == old(out)@ + spread(hay@, piece@),
{
    let mut i: usize = 0;
    assert(hay@.skip(0) =~= hay@);
    while i < hay.len()
        invariant
            i <= hay@.len(),
            old(out)@ + spread(hay@, piece@) == out@ + spread(hay@.skip(i as int), piece@),
        decreases hay@.len() - i,
    {
        let ghost before = out@;
        let ghost here = hay@.skip(i as int);
        out.push(hay[i]);
        let ends_character = i + 1 == hay.len() || !(0x80 <= hay[i + 1] && hay[i + 1] <= 0xbf);
        if ends_character {
            append(out, piece);
        }
        proof {
            assert(here.skip(1) =~= hay@.skip(i + 1));
            assert(here.take(1) =~= seq![hay@[i as int]]);
            assert(here.len() == 1 || here[1] == hay@[i + 1]);
            assert(out@ + spread(hay@.skip(i + 1), piece@) =~= before + spread(here, piece@));
        }
        i += 1;
    }
    assert(out@ + spread(hay@.skip(hay@.len() as int), piece@) =~= out@);
}

/// `hay` with every occurrence of `from` replaced by `to`.
pub fn replace_all(hay: &[u8], from: &[u8], to: &[u8]) -> (out: Vec<u8>)
    ensures
        out@ == replaced(hay@, from@, to@),
{
    let mut out: Vec<u8> = Vec::new();
    if from.len() == 0 {
        append(&mut out, to);
        spread_into(&mut out, hay, to);
        return out;
    }
    let total = hay.len();
    let mut pos: usize = 0;
    assert(hay@.skip(0) =~= hay@);
    loop
        invariant
            from@.len() > 0,
            pos <= hay@.len() == total,
            replaced(hay@, from@, to@) == out@ + replaced(hay@.skip(pos as int), from@, to@),
        decreases hay@.len() - pos,
    {
        let ghost before = out@;
        match find(hay, from, pos) {
            Some(at) => {
                append(&mut out, slice_subrange(hay, pos, at));
                append(&mut out, to);
                proof {
                    lemma_replaced_copies(hay@, from@, to@, pos as int, at as int);
                    let here = hay@.skip(at as int);
                    assert(here.subrange(0, from@.len() as int) =~= hay@.subrange(
                        at as int,
                        at + from@.len(),
                    ));
                    assert(matches_at(here, from@, 0));
                    assert(here.skip(from@.len() as int) =~= hay@.skip(at + from@.len()));
                    assert(out@ + replaced(hay@.skip(at + from@.len()), from@, to@) =~= before
                        + replaced(hay@.skip(pos as int), from@, to@));
                }
                pos = at + from.len();
            },
            None => {
                append(&mut out, slice_subrange(hay, pos, total));
                proof {
                    lemma_replaced_copies(hay@, from@, to@, pos as int, hay@.len() as int);
                    assert(hay@.skip(hay@.len() as int).len() < from@.len());
                    assert(out@ =~= before + replaced(hay@.skip(pos as int), from@, to@));
                }
                return out;
            },
        }
    }
}

/// Replacing what does not occur changes nothing.
pub proof fn lemma_replaced_absent(hay: Seq<u8>, from: Seq<u8>, to: Seq<u8>)
    requires
        !contains(hay, from),
    ensures
        replaced(hay, from, to) == hay,
{
    if from.len() == 0 {
        assert(hay.subrange(0, 0) =~= from);
        assert(matches_at(hay, from, 0));
    } else {
        assert forall|k: int| 0 <= k < hay.len() implies !matches_at(hay, from, k) by {}
        lemma_replaced_copies(hay, from, to, 0, hay.len() as int);
        assert(hay.skip(0) =~= hay);
        assert(hay.skip(hay.len() as int).len() < from.len());
        assert(hay.subrange(0, hay.len() as int) + hay.skip(hay.len() as int) =~= hay);
    }
}

/// The length of the encoding of a white-space character at the start of
/// `bytes`, or 0 where none stands there. White space is U+0009 to U+000D,
/// U+0020, U+0085, U+00A0, U+1680, U+2000 to U+200A, U+2028, U+2029, U+202F,
/// U+205F and U+3000.
pub open spec fn whitespace_width(bytes: Seq<u8>) -> int {
    if bytes.len() >= 1 && (bytes[0] == 0x20 || 0x09 <= bytes[0] <= 0x0d) {
        1
    } else if bytes.len() >= 2 && bytes[0] == 0xc2 && (bytes[1] == 0x85 || bytes[1] == 0xa0) {
        2
    } else if bytes.len() >= 3 && bytes[0] == 0xe1 && bytes[1] == 0x9a && bytes[2] == 0x80 {
        3
    } else if bytes.len() >= 3 && bytes[0] == 0xe2 && bytes[1] == 0x80 && (0x80 <= bytes[2] <= 0x8a
        || bytes[2] == 0xa8 || bytes[2] == 0xa9 || bytes[2] == 0xaf) {
        3
    } else if bytes.len() >= 3 && bytes[0] == 0xe2 && bytes[1] == 0x81 && bytes[2] == 0x9f {
        3
    } else if bytes.len() >= 3 && bytes[0] == 0xe3 && bytes[1] == 0x80 && bytes[2] == 0x80 {
        3
    } else {
        0
    }
}

/// The number of bytes that the white space at the start of `bytes` takes.
pub open spec fn leading_whitespace(bytes: Seq<u8>) -> int
    decreases bytes.len(),
{
    let width = whitespace_width(bytes);
    if width == 0 {
        0
    } else {
        width + leading_whitespace(bytes.skip(width))
    }
}

/// `bytes` without the white space at its start.
pub open spec fn trimmed_start(bytes: Seq<u8>) -> Seq<u8> {
    bytes.skip(leading_whitespace(bytes))
}

/// What is left of valid UTF-8 after trimming is valid UTF-8: white space
/// is trimmed by whole characters.
pub proof fn lemma_trimmed_start_valid(bytes: Seq<u8>)
    requires
        valid_utf8(bytes),
    ensures
        valid_utf8(trimmed_start(bytes)),
    decreases bytes.len(),
{
    let width = whitespace_width(bytes);
    if width == 0 {
        assert(bytes.skip(0) =~= bytes);
    } else {
        assert(length_of_first_scalar(bytes) == width);
        assert(pop_first_scalar(bytes) =~= bytes.skip(width));
        lemma_trimmed_start_valid(bytes.skip(width));
        assert(bytes.skip(width).skip(leading_whitespace(bytes.skip(width))) =~= bytes.skip(
            leading_whitespace(bytes),
        )) by {
            lemma_leading_whitespace_bounds(bytes.skip(width));
        }
    }
}

proof fn lemma_leading_whitespace_bounds(bytes: Seq<u8>)
    ensures
        0 <= leading_whitespace(bytes) <= bytes.len(),
    decreases bytes.len(),
{
    let width = whitespace_width(bytes);
    if width != 0 {
        lemma_leading_whitespace_bounds(bytes.skip(width));
    }
}

/// An ASCII text is encoded character by character.
pub proof fn lemma_ascii_bytes(text: Seq<char>)
    requires
        is_ascii_chars(text),
    ensures
        utf8(text).len() == text.len(),
        forall|i: int| 0 <= i < text.len() ==> #[trigger] utf8(text)[i] == text[i] as u8,
{
    is_ascii_chars_encode_utf8(text);
}

fn whitespace_at(bytes: &[u8], at: usize) -> (width: usize)
    requires
        at <= bytes@.len(),
    ensures
        width == whitespace_width(bytes@.skip(at as int)),
        at + width <= bytes@.len(),
{
    let left = bytes.len() - at;
    if left == 0 {
        return 0;
    }
    let b0 = bytes[at];
    if b0 == 0x20 || (0x09 <= b0 && b0 <= 0x0d) {
        return 1;
    }
    if left >= 2 {
        let b1 = bytes[at + 1];
        if b0 == 0xc2 && (b1 == 0x85 || b1 == 0xa0) {
            return 2;
        }
        if left >= 3 {
            let b2 = bytes[at + 2];
            if b0 == 0xe1 && b1 == 0x9a && b2 == 0x80 {
                return 3;
            }
            if b0 == 0xe2 && b1 == 0x80 && ((0x80 <= b2 && b2 <= 0x8a) || b2 == 0xa8 || b2 == 0xa9
                || b2 == 0xaf) {
                return 3;
            }
            if b0 == 0xe2 && b1 == 0x81 && b2 == 0x9f {
                return 3;
            }
            if b0 == 0xe3 && b1 == 0x80 && b2 == 0x80 {
                return 3;
            }
        }
    }
    0
}

/// `bytes` without the white space at its start.
pub fn trim_start(bytes: &[u8]) -> (rest: &[u8])
    ensures
        rest@ == trimmed_start(bytes@),
{
    let total = bytes.len();
    let mut at: usize = 0;
    assert(bytes@.skip(0) =~= bytes@);
    loop
        invariant
            at <= bytes@.len() == total,
            leading_whitespace(bytes@) == at + leading_whitespace(bytes@.skip(at as int)),
        ensures
            at <= bytes@.len(),
            leading_whitespace(bytes@) == at,
        decreases bytes@.len() - at,
    {
        let width = whitespace_at(bytes, at);
        if width == 0 {
            break;
        }
        assert(bytes@.skip(at as int).skip(width as int) =~= bytes@.skip(at + width));
        at += width;
    }
    slice_subrange(bytes, at, total)
}

} // verus!
