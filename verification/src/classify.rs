use vstd::prelude::*;

verus! {

/// The class of a single code point. A word token is a maximal run of code
/// points that the merge rules of the word stream allow to join.
#[allow(non_camel_case_types)]
#[derive(PartialEq, Eq, Structural, Debug, Clone, Copy)]
pub enum WordType {
    LATIN,
    CJK,
    HYPHEN,
    NUMBER,
    OPEN_PUNCTUATION,
    CLOSE_PUNCTUATION,
    RETURN,
    NEWLINE,
    SPACE,
    TAB,
    QUOTATION,
    UNKNOWN,
}

pub open spec fn spec_is_latin(c: char) -> bool {
    (0x41 <= c as u32 && c as u32 <= 0x5A) || (0x61 <= c as u32 && c as u32 <= 0x7A)
}

pub open spec fn spec_is_cjk(c: char) -> bool {
    0x4E00 <= c as u32 && c as u32 <= 0x9FFF
}

pub open spec fn spec_is_digit(c: char) -> bool {
    0x30 <= c as u32 && c as u32 <= 0x39
}

/// The opening brackets and opening quotation dashes, ASCII and full-width.
pub open spec fn spec_is_open_punctuation(c: char) -> bool {
    ||| c as u32 == 0x28  // (
    ||| c as u32 == 0x5B  // [
    ||| c as u32 == 0x7B  // {
    ||| c as u32 == 0x3C  // <
    ||| c as u32 == 0xFF08  // fullwidth (
    ||| c as u32 == 0x300C  // corner bracket
    ||| c as u32 == 0x300E  // white corner bracket
    ||| c as u32 == 0x3010  // black lenticular bracket
    ||| c as u32 == 0x3014  // tortoise shell bracket
    ||| c as u32 == 0x3008  // angle bracket
    ||| c as u32 == 0x300A  // double angle bracket
    ||| c as u32 == 0x2997  // left black tortoise shell
    ||| c as u32 == 0x27E8  // mathematical angle bracket
    ||| c as u32 == 0x2018  // left single quotation mark
    ||| c as u32 == 0x201C  // left double quotation mark
}

/// Sentence-ending marks, closing brackets, and a few separator glyphs.
pub open spec fn spec_is_close_punctuation(c: char) -> bool {
    ||| c as u32 == 0x2E  // .
    ||| c as u32 == 0x2C  // ,
    ||| c as u32 == 0x3B  // ;
    ||| c as u32 == 0x3A  // :
    ||| c as u32 == 0x21  // !
    ||| c as u32 == 0x3F  // ?
    ||| c as u32 == 0x3002  // ideographic full stop
    ||| c as u32 == 0xFF0C  // fullwidth comma
    ||| c as u32 == 0x3001  // ideographic comma
    ||| c as u32 == 0xFF1F  // fullwidth question mark
    ||| c as u32 == 0xFF01  // fullwidth exclamation mark
    ||| c as u32 == 0xFF1A  // fullwidth colon
    ||| c as u32 == 0xFF1B  // fullwidth semicolon
    ||| c as u32 == 0x29  // )
    ||| c as u32 == 0x5D  // ]
    ||| c as u32 == 0x7D  // }
    ||| c as u32 == 0x3E  // >
    ||| c as u32 == 0xFF09  // fullwidth )
    ||| c as u32 == 0x300D  // closing corner bracket
    ||| c as u32 == 0x300F  // closing white corner bracket
    ||| c as u32 == 0x3011  // closing black lenticular bracket
    ||| c as u32 == 0x3015  // closing tortoise shell bracket
    ||| c as u32 == 0x3009  // closing angle bracket
    ||| c as u32 == 0x300B  // closing double angle bracket
    ||| c as u32 == 0x2998  // right black tortoise shell
    ||| c as u32 == 0x27E9  // closing mathematical angle bracket
    ||| c as u32 == 0x2019  // right single quotation mark
    ||| c as u32 == 0x201D  // right double quotation mark
    ||| c as u32 == 0x7C  // |
    ||| c as u32 == 0xFF5C  // fullwidth vertical line
    ||| c as u32 == 0xB7  // middle dot
    ||| c as u32 == 0x2F  // /
    ||| c as u32 == 0x2014  // em dash
    ||| c as u32 == 0xFF5E  // fullwidth tilde
}

/// Straight quotes, ornate quotes, and the editorial marks of the range
/// U+2E00..U+2E0B.
pub open spec fn spec_is_quotation(c: char) -> bool {
    ||| c as u32 == 0x22
    ||| c as u32 == 0x27
    ||| c as u32 == 0x275B
    ||| c as u32 == 0x275C
    ||| c as u32 == 0x275D
    ||| c as u32 == 0x275E
    ||| (0x2E00 <= c as u32 && c as u32 <= 0x2E0B)
}

/// Total, deterministic classification of one code point. The tests are made
/// in the same order as the executable classifier, so overlaps (none are
/// intended) would resolve identically.
pub open spec fn class_of(c: char) -> WordType {
    if spec_is_latin(c) {
        WordType::LATIN
    } else if spec_is_cjk(c) {
        WordType::CJK
    } else if c as u32 == 0x2D {
        WordType::HYPHEN
    } else if spec_is_digit(c) {
        WordType::NUMBER
    } else if spec_is_open_punctuation(c) {
        WordType::OPEN_PUNCTUATION
    } else if spec_is_close_punctuation(c) {
        WordType::CLOSE_PUNCTUATION
    } else if c as u32 == 0x0A {
        WordType::NEWLINE
    } else if c as u32 == 0x0D {
        WordType::RETURN
    } else if c as u32 == 0x20 {
        WordType::SPACE
    } else if c as u32 == 0x09 {
        WordType::TAB
    } else if spec_is_quotation(c) {
        WordType::QUOTATION
    } else {
        WordType::UNKNOWN
    }
}

/// The cell width of one code point: ASCII-ish glyphs take one monospaced
/// column, East-Asian wide glyphs two, a tab takes the configured tab width,
/// and control or unknown code points take none.
pub open spec fn char_width(c: char, tab_width: nat) -> nat {
    match class_of(c) {
        WordType::LATIN => 1,
        WordType::CJK => 2,
        WordType::HYPHEN => 1,
        WordType::NUMBER => 1,
        WordType::OPEN_PUNCTUATION => if c as u32 <= 0x7F { 1 } else { 2 },
        WordType::CLOSE_PUNCTUATION => if c as u32 <= 0x7F { 1 } else { 2 },
        WordType::RETURN => 0,
        WordType::NEWLINE => 0,
        WordType::SPACE => 1,
        WordType::TAB => tab_width,
        WordType::QUOTATION => if c as u32 <= 0x7F { 1 } else { 2 },
        WordType::UNKNOWN => 0,
    }
}

pub fn is_latin(ch: char) -> (r: bool)
    ensures
        r == spec_is_latin(ch),
{
    let u = ch as u32;
    (u >= 0x41 && u <= 0x5A) || (u >= 0x61 && u <= 0x7A)
}

pub fn is_cjk(ch: char) -> (r: bool)
    ensures
        r == spec_is_cjk(ch),
{
    let u = ch as u32;
    u >= 0x4E00 && u <= 0x9FFF
}

pub fn is_open_punctuation(ch: char) -> (r: bool)
    ensures
        r == spec_is_open_punctuation(ch),
{
    let u = ch as u32;
    u == 0x28 || u == 0x5B || u == 0x7B || u == 0x3C || u == 0xFF08 || u == 0x300C || u == 0x300E
        || u == 0x3010 || u == 0x3014 || u == 0x3008 || u == 0x300A || u == 0x2997 || u == 0x27E8
        || u == 0x2018 || u == 0x201C
}

pub fn is_close_punctuation(ch: char) -> (r: bool)
    ensures
        r == spec_is_close_punctuation(ch),
{
    let u = ch as u32;
    u == 0x2E || u == 0x2C || u == 0x3B || u == 0x3A || u == 0x21 || u == 0x3F || u == 0x3002
        || u == 0xFF0C || u == 0x3001 || u == 0xFF1F || u == 0xFF01 || u == 0xFF1A || u == 0xFF1B
        || u == 0x29 || u == 0x5D || u == 0x7D || u == 0x3E || u == 0xFF09 || u == 0x300D
        || u == 0x300F || u == 0x3011 || u == 0x3015 || u == 0x3009 || u == 0x300B || u == 0x2998
        || u == 0x27E9 || u == 0x2019 || u == 0x201D || u == 0x7C || u == 0xFF5C || u == 0xB7
        || u == 0x2F || u == 0x2014 || u == 0xFF5E
}

pub fn is_quotation(ch: char) -> (r: bool)
    ensures
        r == spec_is_quotation(ch),
{
    let u = ch as u32;
    u == 0x22 || u == 0x27 || u == 0x275B || u == 0x275C || u == 0x275D || u == 0x275E
        || (u >= 0x2E00 && u <= 0x2E0B)
}

impl WordType {
    /// Classify one code point.
    pub fn from(ch: char) -> (r: WordType)
        ensures
            r == class_of(ch),
    {
        let u = ch as u32;
        if is_latin(ch) {
            WordType::LATIN
        } else if is_cjk(ch) {
            WordType::CJK
        } else if u == 0x2D {
            WordType::HYPHEN
        } else if u >= 0x30 && u <= 0x39 {
            WordType::NUMBER
        } else if is_open_punctuation(ch) {
            WordType::OPEN_PUNCTUATION
        } else if is_close_punctuation(ch) {
            WordType::CLOSE_PUNCTUATION
        } else if u == 0x0A {
            WordType::NEWLINE
        } else if u == 0x0D {
            WordType::RETURN
        } else if u == 0x20 {
            WordType::SPACE
        } else if u == 0x09 {
            WordType::TAB
        } else if is_quotation(ch) {
            WordType::QUOTATION
        } else {
            WordType::UNKNOWN
        }
    }
}

/// The cell width of one code point under the given tab width.
pub fn get_char_width(ch: char, tab_width: usize) -> (r: usize)
    ensures
        r == char_width(ch, tab_width as nat),
{
    let wide: usize = if ch as u32 <= 0x7F {
        1
    } else {
        2
    };
    match WordType::from(ch) {
        WordType::LATIN => 1,
        WordType::CJK => 2,
        WordType::HYPHEN => 1,
        WordType::NUMBER => 1,
        WordType::OPEN_PUNCTUATION => wide,
        WordType::CLOSE_PUNCTUATION => wide,
        WordType::RETURN => 0,
        WordType::NEWLINE => 0,
        WordType::SPACE => 1,
        WordType::TAB => tab_width,
        WordType::QUOTATION => wide,
        WordType::UNKNOWN => 0,
    }
}

} // verus!
