//! The language that a package declares, and its repair.

use vstd::prelude::*;
use vstd::string::StringSliceAdditionalSpecFns;
use vstd::utf8::*;
use xmltree::Element;
use crate::text::lemma_ascii_bytes;
use crate::text::lemma_boundary_at_ascii;
use crate::text::lemma_utf8_concat;
use crate::text::str_eq;
use crate::text::str_slice;
use crate::text::utf8;
use crate::xml::append_text_child;
use crate::xml::get_child;
use crate::xml::get_mut_child;
use crate::xml::get_text;
use crate::xml::set_text;
use crate::xml::xml_child;
use crate::xml::xml_text;
use crate::xml::xml_with_child;
use crate::xml::xml_with_text;
use crate::xml::xml_with_text_child;

verus! {

/// The language codes that a package may declare.
pub const ALLOWED_LANGUAGES: [&'static str; 85] = [
    "af", "afr", "ar", "ara", "baq", "br", "bre", "ca", "cat", "chi", "co", "cor", "cos", "cy",
    "cym", "da", "dan", "de", "deu", "dut", "en", "eng", "es", "eu", "eus", "fi", "fin", "fr",
    "fra", "fre", "frr", "fry", "fy", "ga", "gd", "ger", "gla", "gle", "gl", "glg", "glv",
    "gsw", "gu", "guj", "gv", "hi", "hin", "is", "ice", "isl", "it", "ita", "ja", "jpn", "kw",
    "lb", "ltz", "mal", "mar", "ml", "mr", "nb", "nld", "nl", "nn", "nno", "nob", "nor", "oc",
    "oci", "pl", "por", "pt", "rm", "roh", "sco", "spa", "stq", "sv", "swe", "ta", "tam", "wel",
    "zho", "zh",
];

/// The code that takes the place of one that is not allowed.
pub const DEFAULT_LANGUAGE: &'static str = "en";

/// The local name of the element that declares the language.
pub const LANGUAGE_TAG: &'static str = "language";

/// The name under which a missing language element is created.
pub const NEW_LANGUAGE_TAG: &'static str = "dc:language";

/// `code` is one of the allowed language codes.
pub open spec fn is_allowed(code: Seq<char>) -> bool {
    exists|i: int| 0 <= i < ALLOWED_LANGUAGES@.len() && (#[trigger] ALLOWED_LANGUAGES@[i])@ == code
}

/// Whether `code` is one of the allowed language codes.
pub fn is_allowed_language(code: &str) -> (allowed: bool)
    ensures
        allowed == is_allowed(code@),
{
    let mut i: usize = 0;
    while i < ALLOWED_LANGUAGES.len()
        invariant
            i <= ALLOWED_LANGUAGES@.len(),
            forall|k: int| 0 <= k < i ==> (#[trigger] ALLOWED_LANGUAGES@[k])@ != code@,
        decreases ALLOWED_LANGUAGES@.len() - i,
    {
        if str_eq(ALLOWED_LANGUAGES[i], code) {
            return true;
        }
        i += 1;
    }
    false
}

/// Name of what `str::to_lowercase` makes of a text that is not all ASCII.
pub uninterp spec fn unicode_lowercased(text: Seq<char>) -> Seq<char>;

/// `text` with each ASCII capital as its small letter.
pub open spec fn ascii_lowercased(text: Seq<char>) -> Seq<char> {
    Seq::new(
        text.len(),
        |i: int|
            if 'A' <= text[i] <= 'Z' {
                ((text[i] as u8) + 32) as char
            } else {
                text[i]
            },
    )
}

/// `text` in lower case.
pub open spec fn lowercased(text: Seq<char>) -> Seq<char> {
    if is_ascii_chars(text) {
        ascii_lowercased(text)
    } else {
        unicode_lowercased(text)
    }
}

/// Trusted: `str::to_lowercase`. In an ASCII text it changes the capitals
/// `A` to `Z` and nothing else; of any other text the contract only names
/// the result.
#[verifier::external_body]
pub(crate) fn to_lowercase(text: &str) -> (lowered: String)
    ensures
        lowered@ == if is_ascii_chars(text@) {
            ascii_lowercased(text@)
        } else {
            unicode_lowercased(text@)
        },
{
    text.to_lowercase()
}

pub open spec fn dash() -> u8 {
    0x2d
}

/// The offset of the first dash in `tag` at or after `from`; the length of
/// `tag` where there is none.
pub open spec fn subtag_end(tag: Seq<u8>, from: int) -> int
    decreases tag.len() - from,
{
    if from < 0 || from >= tag.len() {
        tag.len() as int
    } else if tag[from] == dash() {
        from
    } else {
        subtag_end(tag, from + 1)
    }
}

/// A language tag without its region: what stands before the first dash.
pub open spec fn primary_subtag(tag: Seq<u8>) -> Seq<u8> {
    tag.take(subtag_end(tag, 0))
}

/// The code by which a declared language is judged: the tag without its
/// region, in lower case.
pub open spec fn simplified(tag: Seq<char>) -> Seq<char> {
    lowercased(decode_utf8(primary_subtag(utf8(tag))))
}

/// The code by which the language tag `lang` is judged.
pub fn simplify_language(lang: &str) -> (code: String)
    ensures
        code@ == simplified(lang@),
{
    let bytes = lang.as_bytes();
    let mut end: usize = 0;
    while end < bytes.len() && bytes[end] != 0x2d
        invariant
            end <= bytes@.len(),
            subtag_end(bytes@, 0) == subtag_end(bytes@, end as int),
        decreases bytes@.len() - end,
    {
        end += 1;
    }
    proof {
        encode_utf8_valid_utf8(lang@);
        lemma_boundary_at_ascii(bytes@, 0);
        lemma_boundary_at_ascii(bytes@, end as int);
    }
    let primary = str_slice(lang, 0, end);
    proof {
        assert(bytes@.subrange(0, end as int) =~= bytes@.take(end as int));
        encode_utf8_decode_utf8(primary@);
    }
    to_lowercase(primary)
}

/// `text` holds small ASCII letters only.
pub open spec fn is_small_letters(text: Seq<char>) -> bool {
    forall|i: int| 0 <= i < text.len() ==> 'a' <= #[trigger] text[i] <= 'z'
}

/// Every allowed code is written in small letters.
pub proof fn lemma_allowed_codes_are_small_letters(i: int)
    requires
        0 <= i < ALLOWED_LANGUAGES@.len(),
    ensures
        is_small_letters(ALLOWED_LANGUAGES@[i]@),
{
    reveal_strlit("af");
    reveal_strlit("afr");
    reveal_strlit("ar");
    reveal_strlit("ara");
    reveal_strlit("baq");
    reveal_strlit("br");
    reveal_strlit("bre");
    reveal_strlit("ca");
    reveal_strlit("cat");
    reveal_strlit("chi");
    reveal_strlit("co");
    reveal_strlit("cor");
    reveal_strlit("cos");
    reveal_strlit("cy");
    reveal_strlit("cym");
    reveal_strlit("da");
    reveal_strlit("dan");
    reveal_strlit("de");
    reveal_strlit("deu");
    reveal_strlit("dut");
    reveal_strlit("en");
    reveal_strlit("eng");
    reveal_strlit("es");
    reveal_strlit("eu");
    reveal_strlit("eus");
    reveal_strlit("fi");
    reveal_strlit("fin");
    reveal_strlit("fr");
    reveal_strlit("fra");
    reveal_strlit("fre");
    reveal_strlit("frr");
    reveal_strlit("fry");
    reveal_strlit("fy");
    reveal_strlit("ga");
    reveal_strlit("gd");
    reveal_strlit("ger");
    reveal_strlit("gla");
    reveal_strlit("gle");
    reveal_strlit("gl");
    reveal_strlit("glg");
    reveal_strlit("glv");
    reveal_strlit("gsw");
    reveal_strlit("gu");
    reveal_strlit("guj");
    reveal_strlit("gv");
    reveal_strlit("hi");
    reveal_strlit("hin");
    reveal_strlit("is");
    reveal_strlit("ice");
    reveal_strlit("isl");
    reveal_strlit("it");
    reveal_strlit("ita");
    reveal_strlit("ja");
    reveal_strlit("jpn");
    reveal_strlit("kw");
    reveal_strlit("lb");
    reveal_strlit("ltz");
    reveal_strlit("mal");
    reveal_strlit("mar");
    reveal_strlit("ml");
    reveal_strlit("mr");
    reveal_strlit("nb");
    reveal_strlit("nld");
    reveal_strlit("nl");
    reveal_strlit("nn");
    reveal_strlit("nno");
    reveal_strlit("nob");
    reveal_strlit("nor");
    reveal_strlit("oc");
    reveal_strlit("oci");
    reveal_strlit("pl");
    reveal_strlit("por");
    reveal_strlit("pt");
    reveal_strlit("rm");
    reveal_strlit("roh");
    reveal_strlit("sco");
    reveal_strlit("spa");
    reveal_strlit("stq");
    reveal_strlit("sv");
    reveal_strlit("swe");
    reveal_strlit("ta");
    reveal_strlit("tam");
    reveal_strlit("wel");
    reveal_strlit("zho");
    reveal_strlit("zh");
}

proof fn lemma_subtag_end(tag: Seq<u8>, from: int, end: int)
    requires
        0 <= from <= end <= tag.len(),
        forall|k: int| from <= k < end ==> tag[k] != dash(),
        end == tag.len() || tag[end] == dash(),
    ensures
        subtag_end(tag, from) == end,
    decreases end - from,
{
    if from < end {
        lemma_subtag_end(tag, from + 1, end);
    }
}

/// A code of small letters is what a tag is judged by, whether the tag is
/// the code alone or the code, a dash and a region.
pub proof fn lemma_small_letters_simplified(code: Seq<char>, region: Seq<char>)
    requires
        is_small_letters(code),
    ensures
        simplified(code) == code,
        simplified(code + seq!['-'] + region) == code,
{
    assert(is_ascii_chars(code));
    lemma_ascii_bytes(code);
    encode_utf8_decode_utf8(code);
    assert(ascii_lowercased(code) =~= code);
    lemma_subtag_end(utf8(code), 0, code.len() as int);
    assert(utf8(code).take(code.len() as int) =~= utf8(code));
    let tag = code + seq!['-'] + region;
    lemma_utf8_concat(code + seq!['-'], region);
    lemma_utf8_concat(code, seq!['-']);
    assert(is_ascii_chars(seq!['-']));
    lemma_ascii_bytes(seq!['-']);
    let bytes = utf8(tag);
    assert(bytes =~= utf8(code) + utf8(seq!['-']) + utf8(region));
    assert(bytes[code.len() as int] == dash());
    assert(forall|k: int| 0 <= k < code.len() ==> bytes[k] == utf8(code)[k]);
    lemma_subtag_end(bytes, 0, code.len() as int);
    assert(bytes.take(code.len() as int) =~= utf8(code));
}

/// Every allowed code is allowed whatever region follows it.
pub proof fn lemma_allowed_code_with_region(i: int, region: Seq<char>)
    requires
        0 <= i < ALLOWED_LANGUAGES@.len(),
    ensures
        is_allowed(simplified(ALLOWED_LANGUAGES@[i]@)),
        is_allowed(simplified(ALLOWED_LANGUAGES@[i]@ + seq!['-'] + region)),
{
    lemma_allowed_codes_are_small_letters(i);
    lemma_small_letters_simplified(ALLOWED_LANGUAGES@[i]@, region);
}

/// The language that the metadata section declares: the text of its
/// `language` element, empty where it has no such element or no text in it.
pub open spec fn declared_language(metadata: Element) -> Seq<char> {
    match xml_child(metadata, LANGUAGE_TAG@) {
        Some(tag) => match xml_text(tag) {
            Some(text) => text,
            None => Seq::empty(),
        },
        None => Seq::empty(),
    }
}

/// The declared language of the metadata section is not an allowed one.
pub open spec fn needs_language_fix(metadata: Element) -> bool {
    !is_allowed(simplified(declared_language(metadata)))
}

/// The metadata section with an allowed language: itself where it declares
/// one; else with the default code as the text of its `language` element,
/// or with a new element for it where it has none.
pub open spec fn language_fixed(metadata: Element) -> Element {
    if !needs_language_fix(metadata) {
        metadata
    } else {
        match xml_child(metadata, LANGUAGE_TAG@) {
            Some(tag) => xml_with_child(
                metadata,
                LANGUAGE_TAG@,
                xml_with_text(tag, DEFAULT_LANGUAGE@),
            ),
            None => xml_with_text_child(metadata, NEW_LANGUAGE_TAG@, DEFAULT_LANGUAGE@),
        }
    }
}

/// Makes the metadata section declare an allowed language, and says
/// whether it had to change for that.
pub fn fix_language(metadata: &mut Element) -> (changed: bool)
    ensures
        changed == needs_language_fix(*old(metadata)),
        *final(metadata) == language_fixed(*old(metadata)),
{
    let language = match get_child(metadata, LANGUAGE_TAG) {
        Some(tag) => match get_text(tag) {
            Some(text) => text,
            None => String::new(),
        },
        None => String::new(),
    };
    let code = simplify_language(language.as_str());
    if is_allowed_language(code.as_str()) {
        return false;
    }
    match get_mut_child(metadata, LANGUAGE_TAG) {
        Some(tag) => {
            set_text(tag, DEFAULT_LANGUAGE);
        },
        None => {
            append_text_child(metadata, NEW_LANGUAGE_TAG, DEFAULT_LANGUAGE);
        },
    }
    true
}

/// A metadata section that declares an allowed code, alone or with a
/// region, is left as it is, and no change is reported.
pub proof fn lemma_allowed_language_kept(metadata: Element, i: int, region: Seq<char>)
    requires
        0 <= i < ALLOWED_LANGUAGES@.len(),
        declared_language(metadata) == ALLOWED_LANGUAGES@[i]@ || declared_language(metadata)
            == ALLOWED_LANGUAGES@[i]@ + seq!['-'] + region,
    ensures
        !needs_language_fix(metadata),
        language_fixed(metadata) == metadata,
{
    lemma_allowed_code_with_region(i, region);
}

/// A metadata section that declares no allowed language gets the default
/// code: as the text of its `language` element, or in a new element
/// `dc:language` where it has none.
pub proof fn lemma_other_language_replaced(metadata: Element)
    requires
        !is_allowed(simplified(declared_language(metadata))),
    ensures
        needs_language_fix(metadata),
        match xml_child(metadata, LANGUAGE_TAG@) {
            Some(tag) => language_fixed(metadata) == xml_with_child(
                metadata,
                LANGUAGE_TAG@,
                xml_with_text(tag, DEFAULT_LANGUAGE@),
            ),
            None => language_fixed(metadata) == xml_with_text_child(
                metadata,
                NEW_LANGUAGE_TAG@,
                DEFAULT_LANGUAGE@,
            ),
        },
{
}

} // verus!
