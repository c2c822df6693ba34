//! Character classification used by the pretokenizer: whitespace, punctuation,
//! CJK characters and combining diacritical marks.

use vstd::prelude::*;

verus! {

/// Whether the character's Unicode general category is one of the
/// punctuation categories (`Pc`, `Pd`, `Ps`, `Pe`, `Pi`, `Pf`, `Po`).
pub uninterp spec fn unicode_punct(c: char) -> bool;

/// Relies on `unicode_properties::UnicodeGeneralCategory::general_category_group`:
/// whether the character's Unicode general category group is `Punctuation`
/// (the categories `Pc`, `Pd`, `Ps`, `Pe`, `Pi`, `Pf` and `Po`), a function
/// of the character alone, looked up in static Unicode tables.
#[verifier::external_body]
fn char_is_category_punctuation(c: char) -> (r: bool)
    ensures
        r == unicode_punct(c),
{
    unicode_properties::UnicodeGeneralCategory::general_category_group(c)
        == unicode_properties::GeneralCategoryGroup::Punctuation
}

/// Unicode characters with the `White_Space` property.
pub open spec fn is_whitespace_char(c: char) -> bool {
    let u = c as u32;
    ||| (0x9 <= u && u <= 0xD)
    ||| u == 0x20
    ||| u == 0x85
    ||| u == 0xA0
    ||| u == 0x1680
    ||| (0x2000 <= u && u <= 0x200A)
    ||| u == 0x2028
    ||| u == 0x2029
    ||| u == 0x202F
    ||| u == 0x205F
    ||| u == 0x3000
}

/// Punctuation: the ASCII ranges `!`..`/`, `:`..`@`, `[`..`` ` `` and
/// `{`..`~` (all treated as punctuation whatever their category, as the
/// reference tokenizers do), and any other character whose Unicode general
/// category is a punctuation category.
pub open spec fn is_punctuation_char(c: char) -> bool {
    let u = c as u32;
    ||| (33 <= u && u <= 47)
    ||| (58 <= u && u <= 64)
    ||| (91 <= u && u <= 96)
    ||| (123 <= u && u <= 126)
    ||| unicode_punct(c)
}

/// Chinese, Japanese and Korean characters: the CJK Unified Ideographs blocks
/// (including extensions and compatibility ideographs), Kana, and Hangul
/// syllables.
pub open spec fn is_cjk_char(c: char) -> bool {
    let u = c as u32;
    ||| (0x3040 <= u && u <= 0x30FF)
    ||| (0x3400 <= u && u <= 0x4DBF)
    ||| (0x4E00 <= u && u <= 0x9FFF)
    ||| (0xAC00 <= u && u <= 0xD7AF)
    ||| (0xF900 <= u && u <= 0xFAFF)
    ||| (0x20000 <= u && u <= 0x2A6DF)
    ||| (0x2A700 <= u && u <= 0x2B73F)
    ||| (0x2B740 <= u && u <= 0x2B81F)
    ||| (0x2B820 <= u && u <= 0x2CEAF)
    ||| (0x2F800 <= u && u <= 0x2FA1F)
}

/// The Combining Diacritical Marks block, discarded by accent stripping.
pub open spec fn is_combining_mark(c: char) -> bool {
    0x300 <= (c as u32) && (c as u32) <= 0x36F
}

/// Runtime check for [`is_whitespace_char`].
pub fn char_is_whitespace(c: char) -> (r: bool)
    ensures
        r == is_whitespace_char(c),
{
    let u = c as u32;
    (0x9 <= u && u <= 0xD) || u == 0x20 || u == 0x85 || u == 0xA0 || u == 0x1680 || (0x2000 <= u
        && u <= 0x200A) || u == 0x2028 || u == 0x2029 || u == 0x202F || u == 0x205F || u == 0x3000
}

/// Runtime check for [`is_punctuation_char`].
pub fn char_is_punctuation(c: char) -> (r: bool)
    ensures
        r == is_punctuation_char(c),
{
    let u = c as u32;
    (33 <= u && u <= 47) || (58 <= u && u <= 64) || (91 <= u && u <= 96) || (123 <= u && u <= 126)
        || char_is_category_punctuation(c)
}

/// Runtime check for [`is_cjk_char`].
pub fn char_is_cjk(c: char) -> (r: bool)
    ensures
        r == is_cjk_char(c),
{
    let u = c as u32;
    (0x3040 <= u && u <= 0x30FF) || (0x3400 <= u && u <= 0x4DBF) || (0x4E00 <= u && u <= 0x9FFF)
        || (0xAC00 <= u && u <= 0xD7AF) || (0xF900 <= u && u <= 0xFAFF) || (0x20000 <= u && u
        <= 0x2A6DF) || (0x2A700 <= u && u <= 0x2B73F) || (0x2B740 <= u && u <= 0x2B81F) || (0x2B820
        <= u && u <= 0x2CEAF) || (0x2F800 <= u && u <= 0x2FA1F)
}

/// Runtime check for [`is_combining_mark`].
pub fn char_is_combining_mark(c: char) -> (r: bool)
    ensures
        r == is_combining_mark(c),
{
    let u = c as u32;
    0x300 <= u && u <= 0x36F
}

} // verus!
