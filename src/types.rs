//! Break decisions, locales, and the script and joining classes that drive them.
use vstd::prelude::*;

verus! {

pub const USCRIPT_LATIN: u8 = 0;
pub const USCRIPT_ARABIC: u8 = 1;
pub const USCRIPT_KANNADA: u8 = 2;
pub const USCRIPT_MALAYALAM: u8 = 3;
pub const USCRIPT_TAMIL: u8 = 4;
pub const USCRIPT_TELUGU: u8 = 5;
pub const USCRIPT_ARMENIAN: u8 = 6;
pub const USCRIPT_CANADIAN_ABORIGINAL: u8 = 7;

pub const U_JT_NON_JOINING: u8 = 0;
pub const U_JT_DUAL_JOINING: u8 = 1;
pub const U_JT_RIGHT_JOINING: u8 = 2;
pub const U_JT_LEFT_JOINING: u8 = 3;
pub const U_JT_JOIN_CAUSING: u8 = 4;
pub const U_JT_TRANSPARENT: u8 = 5;

/// What may happen at a break opportunity. Its byte values, given by
/// [`HyphenationType::to_u8`], are fixed: callers read them from the output buffer.
#[derive(PartialEq, Eq, Structural, Copy, Clone, Debug)]
pub enum HyphenationType {
    /// Do not break (0).
    DontBreak,
    /// Break the line and insert a normal hyphen (1).
    BreakAndInsertHyphen,
    /// Break the line and insert an Armenian hyphen, U+058A (2).
    BreakAndInsertArmenianHyphen,
    /// Break the line and insert a Canadian Syllabics hyphen, U+1400 (4).
    BreakAndInsertUcasHyphen,
    /// Break the line without inserting a hyphen (5): a hyphen is already there, or
    /// the script does not use one.
    BreakAndDontInsertHyphen,
    /// Break and replace the last code unit with a hyphen (6): Catalan "l·l" becomes "l-/l".
    BreakAndReplaceWithHyphen,
    /// Break and repeat the hyphen at the start of the next line (7), as in Polish
    /// "czerwono-/-niebieska" and in Slovenian.
    BreakAndInsertHyphenAtNextLine,
    /// Break, insert ZWJ and a hyphen on the first line and a ZWJ on the next (8), so
    /// that Arabic letters keep their joining forms.
    BreakAndInsertHyphenAndZwj,
}

impl HyphenationType {
    pub open spec fn spec_to_u8(self) -> u8 {
        match self {
            HyphenationType::DontBreak => 0,
            HyphenationType::BreakAndInsertHyphen => 1,
            HyphenationType::BreakAndInsertArmenianHyphen => 2,
            HyphenationType::BreakAndInsertUcasHyphen => 4,
            HyphenationType::BreakAndDontInsertHyphen => 5,
            HyphenationType::BreakAndReplaceWithHyphen => 6,
            HyphenationType::BreakAndInsertHyphenAtNextLine => 7,
            HyphenationType::BreakAndInsertHyphenAndZwj => 8,
        }
    }

    /// The byte that stands for this decision in an output buffer.
    #[verifier::when_used_as_spec(spec_to_u8)]
    pub fn to_u8(self) -> (r: u8)
        ensures
            r == self.spec_to_u8(),
    {
        match self {
            HyphenationType::DontBreak => 0,
            HyphenationType::BreakAndInsertHyphen => 1,
            HyphenationType::BreakAndInsertArmenianHyphen => 2,
            HyphenationType::BreakAndInsertUcasHyphen => 4,
            HyphenationType::BreakAndDontInsertHyphen => 5,
            HyphenationType::BreakAndReplaceWithHyphen => 6,
            HyphenationType::BreakAndInsertHyphenAtNextLine => 7,
            HyphenationType::BreakAndInsertHyphenAndZwj => 8,
        }
    }
}

/// The byte values that [`HyphenationType`] uses.
pub open spec fn is_hyphenation_type(v: u8) -> bool {
    v == 0 || v == 1 || v == 2 || v == 4 || v == 5 || v == 6 || v == 7 || v == 8
}

/// Locales with rules of their own.
#[derive(PartialEq, Eq, Structural, Copy, Clone, Debug)]
pub enum HyphenationLocale {
    Other,
    Catalan,
    Polish,
    Slovenian,
    Portuguese,
}

/// The break type that a character's script asks for.
pub open spec fn type_for_script(script: u8) -> HyphenationType {
    if script == USCRIPT_KANNADA || script == USCRIPT_MALAYALAM || script == USCRIPT_TAMIL
        || script == USCRIPT_TELUGU {
        HyphenationType::BreakAndDontInsertHyphen
    } else if script == USCRIPT_ARMENIAN {
        HyphenationType::BreakAndInsertArmenianHyphen
    } else if script == USCRIPT_CANADIAN_ABORIGINAL {
        HyphenationType::BreakAndInsertUcasHyphen
    } else {
        HyphenationType::BreakAndInsertHyphen
    }
}

/// Characters like U+2010 HYPHEN: a line may break right after one, and a word that
/// holds one is not hyphenated by patterns.
pub open spec fn spec_is_line_breaking_hyphen(c: u16) -> bool {
    c == 0x002D || c == 0x058A || c == 0x05BE || c == 0x1400 || c == 0x2010 || c == 0x2013
        || c == 0x2027 || c == 0x2E17 || c == 0x2E40
}

} // verus!
