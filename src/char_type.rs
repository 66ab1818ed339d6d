//! Character classes used to decide which characters may carry a ruby gloss.
use vstd::prelude::*;

verus! {

/// The class of a single character.
#[derive(Debug, Clone, Copy, PartialEq, Eq, Hash, Structural)]
pub enum CharType {
    /// Hiragana syllables and the two hiragana iteration marks.
    Hiragana,
    /// Katakana syllables, the long-vowel mark, the two katakana iteration marks and "vu".
    Katakana,
    /// Full-width Latin letters and digits, Greek, Cyrillic and a few full-width symbols.
    Zenkaku,
    /// Half-width Latin letters and digits and a few half-width symbols.
    Hankaku,
    /// CJK unified ideographs and the symbols that are treated as ideographs.
    Kanji,
    /// Half-width punctuation that ends a sentence.
    HankakuTerminate,
    /// Everything else, among it all full-width punctuation.
    Else,
}

/// Hiragana: U+3041..=U+3093, and the iteration marks U+309D, U+309E.
pub open spec fn is_hiragana(u: u32) -> bool {
    (0x3041 <= u && u <= 0x3093) || u == 0x309D || u == 0x309E
}

/// Katakana: U+30A1..=U+30F3, "vu" U+30F4, the long-vowel mark U+30FC and the
/// iteration marks U+30FD, U+30FE.
pub open spec fn is_katakana(u: u32) -> bool {
    (0x30A1 <= u && u <= 0x30F3) || u == 0x30F4 || u == 0x30FC || u == 0x30FD || u == 0x30FE
}

/// Full-width digits and Latin letters, Greek and Cyrillic letters, and the
/// symbols U+2212, U+FF06, U+2019, U+FF0C, U+FF0E.
pub open spec fn is_zenkaku(u: u32) -> bool {
    (0xFF10 <= u && u <= 0xFF19) || (0xFF21 <= u && u <= 0xFF3A) || (0xFF41 <= u && u <= 0xFF5A)
        || (0x0391 <= u && u <= 0x03A9) || (0x03B1 <= u && u <= 0x03C9)
        || (0x0410 <= u && u <= 0x042F) || (0x0430 <= u && u <= 0x044F)
        || u == 0x2212 || u == 0xFF06 || u == 0x2019 || u == 0xFF0C || u == 0xFF0E
}

/// Half-width Latin letters and digits, and `#`, `-`, `&`, `'`, `,`.
pub open spec fn is_hankaku(u: u32) -> bool {
    (0x41 <= u && u <= 0x5A) || (0x61 <= u && u <= 0x7A) || (0x30 <= u && u <= 0x39)
        || u == 0x23 || u == 0x2D || u == 0x26 || u == 0x27 || u == 0x2C
}

/// CJK unified ideographs U+4E00..=U+9FFF (which hold U+4EDD, "same as above"),
/// and U+3005, U+203B, U+3006, U+3007, U+30F6.
pub open spec fn is_kanji(u: u32) -> bool {
    (0x4E00 <= u && u <= 0x9FFF) || u == 0x3005 || u == 0x203B || u == 0x3006 || u == 0x3007
        || u == 0x30F6
}

/// Half-width sentence terminators: `.`, `;`, `"`, `?`, `!`, `)`.
pub open spec fn is_hankaku_terminate(u: u32) -> bool {
    u == 0x2E || u == 0x3B || u == 0x22 || u == 0x3F || u == 0x21 || u == 0x29
}

/// The class of `c`: the first of the class tests, in order, that `c` meets.
pub open spec fn char_type_of(c: char) -> CharType {
    let u = c as u32;
    if is_hiragana(u) {
        CharType::Hiragana
    } else if is_katakana(u) {
        CharType::Katakana
    } else if is_zenkaku(u) {
        CharType::Zenkaku
    } else if is_hankaku(u) {
        CharType::Hankaku
    } else if is_kanji(u) {
        CharType::Kanji
    } else if is_hankaku_terminate(u) {
        CharType::HankakuTerminate
    } else {
        CharType::Else
    }
}

impl CharType {
    /// Classifies one character.
    pub fn classify(c: char) -> (r: CharType)
        ensures
            r == char_type_of(c),
    {
        let u = c as u32;
        if (0x3041 <= u && u <= 0x3093) || u == 0x309D || u == 0x309E {
            return CharType::Hiragana;
        }
        if (0x30A1 <= u && u <= 0x30F3) || u == 0x30F4 || u == 0x30FC || u == 0x30FD
            || u == 0x30FE {
            return CharType::Katakana;
        }
        if (0xFF10 <= u && u <= 0xFF19) || (0xFF21 <= u && u <= 0xFF3A) || (0xFF41 <= u && u
            <= 0xFF5A) || (0x0391 <= u && u <= 0x03A9) || (0x03B1 <= u && u <= 0x03C9) || (0x0410
            <= u && u <= 0x042F) || (0x0430 <= u && u <= 0x044F) || u == 0x2212 || u == 0xFF06
            || u == 0x2019 || u == 0xFF0C || u == 0xFF0E {
            return CharType::Zenkaku;
        }
        if (0x41 <= u && u <= 0x5A) || (0x61 <= u && u <= 0x7A) || (0x30 <= u && u <= 0x39) || u
            == 0x23 || u == 0x2D || u == 0x26 || u == 0x27 || u == 0x2C {
            return CharType::Hankaku;
        }
        if (0x4E00 <= u && u <= 0x9FFF) || u == 0x3005 || u == 0x203B || u == 0x3006 || u
            == 0x3007 || u == 0x30F6 {
            return CharType::Kanji;
        }
        if u == 0x2E || u == 0x3B || u == 0x22 || u == 0x3F || u == 0x21 || u == 0x29 {
            return CharType::HankakuTerminate;
        }
        CharType::Else
    }

    /// Whether a character of this class may carry a ruby gloss: every class but `Else`.
    pub fn can_be_ruby_base(&self) -> (r: bool)
        ensures
            r == (*self != CharType::Else),
    {
        !matches!(self, CharType::Else)
    }
}

/// The class of a character, as a method on the character.
pub trait CharTypeExt {
    /// The class of this character.
    fn char_type(&self) -> CharType;
}

impl CharTypeExt for char {
    fn char_type(&self) -> (r: CharType)
        ensures
            r == char_type_of(*self),
    {
        CharType::classify(*self)
    }
}

/// Classification is total and depends on the character alone: each character
/// lies in exactly one class, the first in order whose test it meets.
pub proof fn lemma_classify_total(c: char)
    ensures
        char_type_of(c) == CharType::Hiragana <==> is_hiragana(c as u32),
        char_type_of(c) == CharType::Katakana <==> (!is_hiragana(c as u32) && is_katakana(
            c as u32,
        )),
        char_type_of(c) == CharType::Zenkaku <==> (!is_hiragana(c as u32) && !is_katakana(
            c as u32,
        ) && is_zenkaku(c as u32)),
        char_type_of(c) == CharType::Hankaku <==> (!is_hiragana(c as u32) && !is_katakana(
            c as u32,
        ) && !is_zenkaku(c as u32) && is_hankaku(c as u32)),
        char_type_of(c) == CharType::Kanji <==> (!is_hiragana(c as u32) && !is_katakana(
            c as u32,
        ) && !is_zenkaku(c as u32) && !is_hankaku(c as u32) && is_kanji(c as u32)),
        char_type_of(c) == CharType::HankakuTerminate <==> (!is_hiragana(c as u32)
            && !is_katakana(c as u32) && !is_zenkaku(c as u32) && !is_hankaku(c as u32)
            && !is_kanji(c as u32) && is_hankaku_terminate(c as u32)),
        char_type_of(c) == CharType::Else <==> (!is_hiragana(c as u32) && !is_katakana(c as u32)
            && !is_zenkaku(c as u32) && !is_hankaku(c as u32) && !is_kanji(c as u32)
            && !is_hankaku_terminate(c as u32)),
{
}

} // verus!
