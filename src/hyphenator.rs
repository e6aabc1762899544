//! The hyphenator: Knuth–Liang scoring over the trie, then the script and locale
//! rules that turn scores into break decisions, and the rules for words that the
//! patterns do not cover.
use vstd::prelude::*;
use crate::blob::{
    alphabet_get, alphabet_known, entry_len, entry_shift, entry_value, pattern_entry, shift_right,
    shr, trie_char_mask, trie_entry, trie_link_mask, trie_link_shift, trie_pattern_shift,
    AlphabetLookup, Header,
};
use crate::blob::word_hyphen_type;
use crate::types::{
    spec_is_line_breaking_hyphen, type_for_script, HyphenationLocale, HyphenationType,
    USCRIPT_ARABIC, USCRIPT_ARMENIAN, USCRIPT_CANADIAN_ABORIGINAL, USCRIPT_KANNADA, USCRIPT_LATIN,
    USCRIPT_MALAYALAM, USCRIPT_TAMIL, USCRIPT_TELUGU, U_JT_DUAL_JOINING, U_JT_JOIN_CAUSING, U_JT_LEFT_JOINING,
    U_JT_NON_JOINING, U_JT_RIGHT_JOINING, U_JT_TRANSPARENT,
};

verus! {

/// The largest padded word that the pattern path handles: the word and two sentinels.
pub const MAX_HYPHEN_SIZE: usize = 64;

/// `word`'s alphabet codes between two zero sentinels.
pub open spec fn padded_codes(d: Seq<u8>, word: Seq<u16>) -> Seq<u16> {
    Seq::new(
        (word.len() + 2) as nat,
        |j: int|
            if 1 <= j <= word.len() {
                match alphabet_get(d, word[j - 1] as u32) {
                    Some(c) => c,
                    None => 0u16,
                }
            } else {
                0u16
            },
    )
}

/// The child of `node` for code `c`, if the trie has one.
pub open spec fn trie_step(d: Seq<u8>, node: u32, c: u16) -> Option<u32> {
    let e = trie_entry(d, node as int + c as int);
    if e & trie_char_mask(d) == c as u32 {
        Some(shr(e & trie_link_mask(d), trie_link_shift(d)))
    } else {
        None
    }
}

/// The node that the codes `s` lead to from the root.
pub open spec fn trie_walk(d: Seq<u8>, s: Seq<u16>) -> Option<u32>
    decreases s.len(),
{
    if s.len() == 0 {
        Some(0u32)
    } else {
        match trie_walk(d, s.drop_last()) {
            Some(n) => trie_step(d, n, s.last()),
            None => None,
        }
    }
}

/// The pattern stored for the subword with codes `s`: its scores, and how many zero
/// scores follow them.
pub open spec fn pattern_of(d: Seq<u8>, s: Seq<u16>) -> Option<(Seq<u8>, int)> {
    match trie_walk(d, s) {
        None => None,
        Some(node) => {
            let ix = shr(trie_entry(d, node as int), trie_pattern_shift(d));
            if ix == 0 {
                None
            } else {
                let e = pattern_entry(d, ix as int);
                Some((Seq::new(entry_len(e) as nat, |k: int| entry_value(d, e, k)), entry_shift(e) as int))
            }
        }
    }
}

pub open spec fn max_u8(a: u8, b: u8) -> u8 {
    if a >= b {
        a
    } else {
        b
    }
}

/// Combines by pointwise maximum the pattern `p`, matched on a subword that ends at
/// padded position `j`, into `out`, at the positions in `[lo, hi)`. Its last score
/// lines up with `j + 1` minus its shift; a pattern that would begin before the word
/// adds nothing.
pub open spec fn add_pattern(out: Seq<u8>, p: Option<(Seq<u8>, int)>, j: int, lo: int, hi: int) -> Seq<u8> {
    match p {
        None => out,
        Some((v, sh)) => {
            let off = j + 1 - (v.len() + sh);
            if off < 0 {
                out
            } else {
                Seq::new(
                    out.len(),
                    |x: int|
                        if lo <= x < hi && off <= x < off + v.len() {
                            max_u8(out[x], v[x - off])
                        } else {
                            out[x]
                        },
                )
            }
        }
    }
}

/// The patterns of the subwords `codes[i..=j']`, `j' ≥ j`, added to `out`.
pub open spec fn row(d: Seq<u8>, codes: Seq<u16>, i: int, j: int, out: Seq<u8>, lo: int, hi: int) -> Seq<u8>
    decreases codes.len() - j,
{
    if j >= codes.len() {
        out
    } else {
        row(d, codes, i, j + 1, add_pattern(out, pattern_of(d, codes.subrange(i, j + 1)), j, lo, hi), lo, hi)
    }
}

/// The patterns of all subwords that start at `i` or later, added to `out`.
pub open spec fn rows(d: Seq<u8>, codes: Seq<u16>, i: int, out: Seq<u8>, lo: int, hi: int) -> Seq<u8>
    decreases codes.len() - i,
{
    if i >= codes.len() - 1 {
        out
    } else {
        rows(d, codes, i + 1, row(d, codes, i, i, out, lo, hi), lo, hi)
    }
}

/// The Knuth–Liang scores of a word of `len` characters with padded codes `codes`:
/// the maximum, at each position in `[lo, hi)`, of the scores of all patterns that
/// match a subword; zero elsewhere.
pub open spec fn raw_scores(d: Seq<u8>, codes: Seq<u16>, len: int, lo: int, hi: int) -> Seq<u8> {
    rows(d, codes, 0, Seq::new(len as nat, |x: int| 0u8), lo, hi)
}

pub proof fn lemma_row_len(d: Seq<u8>, codes: Seq<u16>, i: int, j: int, out: Seq<u8>, lo: int, hi: int)
    ensures
        row(d, codes, i, j, out, lo, hi).len() == out.len(),
    decreases codes.len() - j,
{
    if j < codes.len() {
        lemma_row_len(d, codes, i, j + 1, add_pattern(out, pattern_of(d, codes.subrange(i, j + 1)), j, lo, hi), lo, hi);
    }
}

pub proof fn lemma_rows_len(d: Seq<u8>, codes: Seq<u16>, i: int, out: Seq<u8>, lo: int, hi: int)
    ensures
        rows(d, codes, i, out, lo, hi).len() == out.len(),
    decreases codes.len() - i,
{
    if i < codes.len() - 1 {
        lemma_row_len(d, codes, i, i, out, lo, hi);
        lemma_rows_len(d, codes, i + 1, row(d, codes, i, i, out, lo, hi), lo, hi);
    }
}

pub proof fn lemma_walk_fails_on(d: Seq<u8>, codes: Seq<u16>, i: int, j: int, k: int)
    requires
        0 <= i <= j < k <= codes.len(),
        trie_walk(d, codes.subrange(i, j)) is None,
    ensures
        trie_walk(d, codes.subrange(i, k)) is None,
    decreases k - j,
{
    if k > j + 1 {
        lemma_walk_fails_on(d, codes, i, j, k - 1);
    }
    assert(codes.subrange(i, k).drop_last() =~= codes.subrange(i, k - 1));
}

/// Once the walk from `i` has failed at `j`, the rest of the row adds nothing.
pub proof fn lemma_row_idle(d: Seq<u8>, codes: Seq<u16>, i: int, j: int, out: Seq<u8>, lo: int, hi: int)
    requires
        0 <= i <= j < codes.len(),
        trie_walk(d, codes.subrange(i, j + 1)) is None,
    ensures
        row(d, codes, i, j, out, lo, hi) == out,
    decreases codes.len() - j,
{
    if j + 1 < codes.len() {
        lemma_walk_fails_on(d, codes, i, j + 1, j + 2);
        lemma_row_idle(d, codes, i, j + 1, out, lo, hi);
    }
    assert(row(d, codes, i, j + 1, out, lo, hi) == out);
}

/// Whether the Portuguese rule acts at position `i`: an odd score right after a hyphen,
/// with the preference on.
pub open spec fn after_hyphen_break(raw: Seq<u8>, word: Seq<u16>, pref: bool, lo: int, hi: int, i: int) -> bool {
    &&& lo <= i < hi
    &&& raw[i] % 2 == 1
    &&& pref
    &&& i > 0
    &&& spec_is_line_breaking_hyphen(word[i - 1])
}

/// The break decisions for the positions in `[lo, hi)` of raw scores `raw`: an even
/// score does not break, an odd one breaks with `hv`, but an odd score right after a
/// hyphen (with the preference on) breaks without a hyphen after it, or in Portuguese
/// before the hyphen instead.
pub open spec fn rewritten(
    raw: Seq<u8>,
    word: Seq<u16>,
    hv: u8,
    portuguese: bool,
    pref: bool,
    lo: int,
    hi: int,
) -> Seq<u8> {
    Seq::new(
        raw.len(),
        |x: int|
            if after_hyphen_break(raw, word, pref, lo, hi, x + 1) {
                if portuguese {
                    5u8
                } else {
                    0u8
                }
            } else if lo <= x < hi {
                if raw[x] % 2 == 0 {
                    0u8
                } else if after_hyphen_break(raw, word, pref, lo, hi, x) {
                    if portuguese {
                        0u8
                    } else {
                        5u8
                    }
                } else {
                    hv
                }
            } else {
                raw[x]
            },
    )
}

/// The first joining type at or after `i` that is not transparent.
pub open spec fn next_joining(joins: Seq<u8>, i: int) -> u8
    decreases joins.len() - i,
{
    if i < 0 || i >= joins.len() {
        U_JT_NON_JOINING
    } else if joins[i] != U_JT_TRANSPARENT {
        joins[i]
    } else {
        next_joining(joins, i + 1)
    }
}

/// The last joining type at or before `i` that is not transparent.
pub open spec fn prev_joining(joins: Seq<u8>, i: int) -> u8
    decreases i + 1,
{
    if i < 0 || i >= joins.len() {
        U_JT_NON_JOINING
    } else if joins[i] != U_JT_TRANSPARENT {
        joins[i]
    } else {
        prev_joining(joins, i - 1)
    }
}

/// The break type at a soft hyphen before position `loc` in Arabic script: ZWJ and a
/// hyphen when the letters on both sides join across it, a plain hyphen otherwise.
pub open spec fn arabic_type(joins: Seq<u8>, loc: int) -> HyphenationType {
    let next = next_joining(joins, loc);
    let prev = prev_joining(joins, loc - 2);
    if (next == U_JT_DUAL_JOINING || next == U_JT_RIGHT_JOINING || next == U_JT_JOIN_CAUSING) && (
    prev == U_JT_DUAL_JOINING || prev == U_JT_LEFT_JOINING || prev == U_JT_JOIN_CAUSING) {
        HyphenationType::BreakAndInsertHyphenAndZwj
    } else {
        HyphenationType::BreakAndInsertHyphen
    }
}

/// Whether the Catalan "l·l" rule breaks at `i`.
pub open spec fn catalan_break(h: Hyphenator, word: Seq<u16>, i: int) -> bool {
    &&& word[i - 1] == 0x00B7
    &&& i > 1
    &&& h.min_prefix < i
    &&& i + h.min_suffix <= word.len()
    &&& ((word[i - 2] == 0x6C && word[i] == 0x6C) || (word[i - 2] == 0x4C && word[i] == 0x4C))
    &&& h.locale == HyphenationLocale::Catalan
}

/// The decision at `i` for a word that the patterns do not cover.
pub open spec fn no_pattern_at(h: Hyphenator, word: Seq<u16>, scripts: Seq<u8>, joins: Seq<u8>, i: int) -> u8 {
    if i == 0 {
        0
    } else if i > 1 && spec_is_line_breaking_hyphen(word[i - 1]) {
        if (word[i - 1] == 0x002D || word[i - 1] == 0x2010) && (h.locale == HyphenationLocale::Polish
            || h.locale == HyphenationLocale::Slovenian) && scripts[i] == USCRIPT_LATIN {
            HyphenationType::BreakAndInsertHyphenAtNextLine.spec_to_u8()
        } else {
            HyphenationType::BreakAndDontInsertHyphen.spec_to_u8()
        }
    } else if i > 1 && word[i - 1] == 0x00AD {
        if scripts[i] == USCRIPT_ARABIC {
            arabic_type(joins, i).spec_to_u8()
        } else {
            type_for_script(scripts[i]).spec_to_u8()
        }
    } else if catalan_break(h, word, i) {
        HyphenationType::BreakAndReplaceWithHyphen.spec_to_u8()
    } else {
        0
    }
}

/// The decisions for a word that the patterns do not cover.
pub open spec fn no_pattern(h: Hyphenator, word: Seq<u16>, scripts: Seq<u8>, joins: Seq<u8>) -> Seq<u8> {
    Seq::new(word.len(), |i: int| no_pattern_at(h, word, scripts, joins, i))
}

/// Whether the patterns decide for `word`: the table is there, the word is long
/// enough and short enough, and the alphabet holds every character.
pub open spec fn uses_patterns(h: Hyphenator, word: Seq<u16>) -> bool {
    let d = h.data@;
    &&& d.len() > 0
    &&& word.len() >= h.min_prefix + h.min_suffix
    &&& word.len() + 2 <= MAX_HYPHEN_SIZE
    &&& alphabet_known(d)
    &&& forall|i: int| 0 <= i < word.len() ==> (#[trigger] alphabet_get(d, word[i] as u32)) is Some
}

/// The raw scores of `word` under `h`'s patterns.
pub open spec fn word_scores(h: Hyphenator, word: Seq<u16>) -> Seq<u8> {
    raw_scores(
        h.data@,
        padded_codes(h.data@, word),
        word.len() as int,
        h.min_prefix as int,
        word.len() - h.min_suffix,
    )
}

/// The decisions for `word` when the patterns decide.
pub open spec fn pattern_decisions(h: Hyphenator, word: Seq<u16>, scripts: Seq<u8>) -> Seq<u8> {
    rewritten(
        word_scores(h, word),
        word,
        word_hyphen_type(scripts, word.len() as int).spec_to_u8(),
        h.locale == HyphenationLocale::Portuguese,
        h.portuguese_preference,
        h.min_prefix as int,
        word.len() - h.min_suffix,
    )
}

/// The decision at each position of `word`, given the script and the joining type
/// of each of its characters.
pub open spec fn hyphenation(h: Hyphenator, word: Seq<u16>, scripts: Seq<u8>, joins: Seq<u8>) -> Seq<u8> {
    if uses_patterns(h, word) {
        pattern_decisions(h, word, scripts)
    } else {
        no_pattern(h, word, scripts, joins)
    }
}

/// The locale that a tag names: "ca", "pl", "sl", "pt", or any other.
pub open spec fn locale_of(tag: Seq<char>) -> HyphenationLocale {
    if tag == seq!['p', 'l'] {
        HyphenationLocale::Polish
    } else if tag == seq!['c', 'a'] {
        HyphenationLocale::Catalan
    } else if tag == seq!['s', 'l'] {
        HyphenationLocale::Slovenian
    } else if tag == seq!['p', 't'] {
        HyphenationLocale::Portuguese
    } else {
        HyphenationLocale::Other
    }
}

/// Whether breaks right after a hyphen move by default.
pub fn portuguese_hyphenator() -> (r: bool)
    ensures
        r,
{
    true
}

/// Whether `tag` is the two characters `a`, `b`.
fn tag_is(tag: &str, a: char, b: char) -> (r: bool)
    ensures
        r == (tag@ == seq![a, b]),
{
    if tag.unicode_len() != 2 {
        return false;
    }
    let r = tag.get_char(0) == a && tag.get_char(1) == b;
    proof {
        if r {
            assert(tag@ =~= seq![a, b]);
        }
    }
    r
}

/// Performs hyphenation with a pattern table.
pub struct Hyphenator {
    /// The binary pattern table; empty when there is none.
    pub data: &'static [u8],
    /// The fewest characters that may stand before a pattern break.
    pub min_prefix: u32,
    /// The fewest characters that may stand after a pattern break.
    pub min_suffix: u32,
    pub locale: HyphenationLocale,
    /// In a word that holds a hyphen, whether a pattern break right after the hyphen
    /// moves to the hyphen itself.
    pub portuguese_preference: bool,
}

impl Hyphenator {
    /// Whether `c` is a hyphen after which a line may break, and which keeps a word from
    /// pattern hyphenation.
    pub fn is_line_breaking_hyphen(c: u16) -> (r: bool)
        ensures
            r == spec_is_line_breaking_hyphen(c),
    {
        c == 0x002D || c == 0x058A || c == 0x05BE || c == 0x1400 || c == 0x2010 || c == 0x2013
            || c == 0x2027 || c == 0x2E17 || c == 0x2E40
    }

    /// The break type at a soft hyphen just before `location` in Arabic script.
    pub fn get_hyph_type_for_arabic(joining_types: &[u8], location: usize) -> (r: HyphenationType)
        requires
            2 <= location,
        ensures
            r == arabic_type(joining_types@, location as int),
    {
        let n = joining_types.len();
        let mut i = location;
        let mut next = U_JT_NON_JOINING;
        while i < n
            invariant_except_break
                n == joining_types@.len(),
                location <= i,
                next_joining(joining_types@, location as int) == next_joining(joining_types@, i as int),
                next == U_JT_NON_JOINING,
            ensures
                next == next_joining(joining_types@, location as int),
            decreases n - i,
        {
            if joining_types[i] != U_JT_TRANSPARENT {
                next = joining_types[i];
                break;
            }
            i += 1;
        }
        if next == U_JT_DUAL_JOINING || next == U_JT_RIGHT_JOINING || next == U_JT_JOIN_CAUSING {
            let mut prev = U_JT_NON_JOINING;
            let mut k = location - 2;
            if k < n {
                loop
                    invariant_except_break
                        n == joining_types@.len(),
                        k < n,
                        prev_joining(joining_types@, location - 2) == prev_joining(joining_types@, k as int),
                        prev == U_JT_NON_JOINING,
                    ensures
                        prev_joining(joining_types@, location - 2) == prev,
                    decreases k,
                {
                    if joining_types[k] != U_JT_TRANSPARENT {
                        prev = joining_types[k];
                        break;
                    }
                    if k == 0 {
                        assert(prev_joining(joining_types@, -1) == U_JT_NON_JOINING);
                        break;
                    }
                    k -= 1;
                }
            }
            if prev == U_JT_DUAL_JOINING || prev == U_JT_LEFT_JOINING || prev == U_JT_JOIN_CAUSING {
                return HyphenationType::BreakAndInsertHyphenAndZwj;
            }
        }
        HyphenationType::BreakAndInsertHyphen
    }

    /// The break type that the script of a character asks for.
    pub fn hyphenation_type_based_on_script(script: u8) -> (r: HyphenationType)
        ensures
            r == type_for_script(script),
    {
        if script == USCRIPT_KANNADA || script == USCRIPT_MALAYALAM || script == USCRIPT_TAMIL
            || script == USCRIPT_TELUGU {
            HyphenationType::BreakAndDontInsertHyphen
        } else if script == USCRIPT_ARMENIAN {
            HyphenationType::BreakAndInsertArmenianHyphen
        } else if script == USCRIPT_CANADIAN_ABORIGINAL {
            HyphenationType::BreakAndInsertUcasHyphen
        } else {
            HyphenationType::BreakAndInsertHyphen
        }
    }

    /// A hyphenator over the pattern table `data` (possibly empty) that leaves at
    /// least `min_prefix` characters before a break and `min_suffix` after one, with
    /// the rules of the locale that `locale` names.
    pub fn new(data: &'static [u8], min_prefix: u32, min_suffix: u32, locale: &str) -> (r: Self)
        ensures
            r.data == data,
            r.min_prefix == min_prefix,
            r.min_suffix == min_suffix,
            r.locale == locale_of(locale@),
            r.portuguese_preference,
    {
        let locale = if tag_is(locale, 'p', 'l') {
            HyphenationLocale::Polish
        } else if tag_is(locale, 'c', 'a') {
            HyphenationLocale::Catalan
        } else if tag_is(locale, 's', 'l') {
            HyphenationLocale::Slovenian
        } else if tag_is(locale, 'p', 't') {
            HyphenationLocale::Portuguese
        } else {
            HyphenationLocale::Other
        };
        Hyphenator {
            data,
            min_prefix,
            min_suffix,
            locale,
            portuguese_preference: portuguese_hyphenator(),
        }
    }

    /// Fills `out` with a break decision for each position of `word`: `out[i]` says
    /// whether and how a line may break just before `word[i]`. `scripts[i]` and
    /// `joining_types[i]` are the script and the joining type of `word[i]`.
    pub fn hyphenate(&self, word: &[u16], scripts: &[u8], joining_types: &[u8], out: &mut [u8])
        requires
            old(out)@.len() == word@.len(),
            scripts@.len() == word@.len(),
            joining_types@.len() == word@.len(),
        ensures
            final(out)@ == hyphenation(*self, word@, scripts@, joining_types@),
    {
        broadcast use vstd::array::group_array_axioms;

        let len = word.len();
        let ghost d = self.data@;
        if !self.data.is_empty() && len <= MAX_HYPHEN_SIZE - 2 && len as u64 >= self.min_prefix as u64
            + self.min_suffix as u64 {
            let header = Header::new(self.data);
            let mut alpha_codes: [u16; 64] = [0; 64];
            let hyphen_value = match header.alphabet_table() {
                Some(alphabet) => {
                    let r = alphabet.lookup(&mut alpha_codes, word, scripts);
                    proof {
                        if r != HyphenationType::DontBreak {
                            assert forall|i: int| 0 <= i < word@.len() implies (#[trigger] alphabet_get(
                                d,
                                word@[i] as u32,
                            )) is Some by {
                                assert(alphabet.spec_get(word@[i] as u32) is Some);
                            }
                            assert forall|j: int| 0 <= j < len + 2 implies alpha_codes@[j]
                                == padded_codes(d, word@)[j] by {
                                if 1 <= j <= len {
                                    assert(alphabet.spec_get(word@[j - 1] as u32) == Some(
                                        alpha_codes@[(j - 1) + 1],
                                    ));
                                }
                            }
                        } else {
                            let i = choose|i: int|
                                0 <= i < word@.len() && !((#[trigger] alphabet.spec_get(
                                    word@[i] as u32,
                                )) is Some);
                            assert(alphabet_get(d, word@[i] as u32) is None);
                        }
                    }
                    r
                },
                None => HyphenationType::DontBreak,
            };
            if hyphen_value != HyphenationType::DontBreak {
                self.hyphenate_from_codes(&alpha_codes, len, hyphen_value, word, out);
                return;
            }
        }
        // A word that holds a hyphen or a soft hyphen always comes here: the alphabet
        // is not meant to hold those characters.
        self.hyphenate_with_no_pattern(word, scripts, joining_types, out);
    }

    /// Break decisions from the characters alone, for words that the patterns do not cover.
    fn hyphenate_with_no_pattern(&self, word: &[u16], scripts: &[u8], joining_types: &[u8], out: &mut [u8])
        requires
            old(out)@.len() == word@.len(),
            scripts@.len() == word@.len(),
            joining_types@.len() == word@.len(),
        ensures
            final(out)@ == no_pattern(*self, word@, scripts@, joining_types@),
    {
        let word_len = word.len();
        if word_len == 0 {
            assert(out@ =~= no_pattern(*self, word@, scripts@, joining_types@));
            return;
        }
        out[0] = HyphenationType::DontBreak.to_u8();
        let mut i: usize = 1;
        while i < word_len
            invariant
                word_len == word@.len(),
                out@.len() == word_len,
                scripts@.len() == word_len,
                joining_types@.len() == word_len,
                1 <= i <= word_len,
                forall|x: int|
                    0 <= x < i ==> out@[x] == no_pattern_at(*self, word@, scripts@, joining_types@, x),
            decreases word_len - i,
        {
            let prev_char = word[i - 1];
            if i > 1 && Self::is_line_breaking_hyphen(prev_char) {
                if (prev_char == 0x002D || prev_char == 0x2010) && (self.locale
                    == HyphenationLocale::Polish || self.locale == HyphenationLocale::Slovenian)
                    && scripts[i] == USCRIPT_LATIN {
                    // In Polish and Slovenian the hyphen is repeated on the next line; only
                    // before a Latin letter, to be safe.
                    out[i] = HyphenationType::BreakAndInsertHyphenAtNextLine.to_u8();
                } else {
                    out[i] = HyphenationType::BreakAndDontInsertHyphen.to_u8();
                }
            } else if i > 1 && prev_char == 0x00AD {
                // A soft hyphen that starts the word gives no useful break.
                if scripts[i] == USCRIPT_ARABIC {
                    out[i] = Self::get_hyph_type_for_arabic(joining_types, i).to_u8();
                } else {
                    out[i] = Self::hyphenation_type_based_on_script(scripts[i]).to_u8();
                }
            } else if prev_char == 0x00B7 && i > 1 && (self.min_prefix as u64) < i as u64 && self.min_suffix as u64 <= (word_len - i) as u64 && ((word[i - 2] == 0x6C && word[i]
                == 0x6C) || (word[i - 2] == 0x4C && word[i] == 0x4C)) && self.locale
                == HyphenationLocale::Catalan {
                // Catalan "l·l" breaks as "l-" and "l".
                out[i] = HyphenationType::BreakAndReplaceWithHyphen.to_u8();
            } else {
                out[i] = HyphenationType::DontBreak.to_u8();
            }
            i += 1;
        }
        assert(out@ =~= no_pattern(*self, word@, scripts@, joining_types@));
    }

    /// Scores the word whose padded codes are `codes[..len + 2]`, then turns the
    /// scores into break decisions.
    fn hyphenate_from_codes(
        &self,
        codes: &[u16; 64],
        len: usize,
        hyphen_value: HyphenationType,
        word: &[u16],
        out: &mut [u8],
    )
        requires
            len == word@.len(),
            len + 2 <= 64,
            old(out)@.len() == len,
            len >= self.min_prefix + self.min_suffix,
            forall|j: int| 0 <= j < len + 2 ==> codes@[j] == padded_codes(self.data@, word@)[j],
        ensures
            final(out)@ == rewritten(
                raw_scores(self.data@, padded_codes(self.data@, word@), len as int, self.min_prefix as int, len - self.min_suffix),
                word@,
                hyphen_value.spec_to_u8(),
                self.locale == HyphenationLocale::Portuguese,
                self.portuguese_preference,
                self.min_prefix as int,
                len - self.min_suffix,
            ),
    {
        broadcast use vstd::array::group_array_axioms;

        assert(codes@.subrange(0, len + 2) =~= padded_codes(self.data@, word@));
        self.score(codes, len, out);
        let ghost raw = out@;
        proof {
            lemma_rows_len(self.data@, padded_codes(self.data@, word@), 0, Seq::new(len as nat, |x: int| 0u8), self.min_prefix as int, len - self.min_suffix);
        }
        let ghost lo = self.min_prefix as int;
        let ghost hi = len - self.min_suffix;
        let ghost pt = self.locale == HyphenationLocale::Portuguese;
        let ghost hv = hyphen_value.spec_to_u8();
        let max_offset: usize = len - self.min_suffix as usize;
        let hyphen_byte = hyphen_value.to_u8();
        let mut i: usize = self.min_prefix as usize;
        assert(out@ =~= rewritten(raw, word@, hv, pt, self.portuguese_preference, lo, i as int));
        // The scores outside [min_prefix, len - min_suffix) were never touched and stay
        // zero, which is DontBreak.
        while i < max_offset
            invariant
                len == word@.len(),
                raw.len() == len,
                max_offset == hi,
                max_offset <= len,
                lo <= i <= max_offset,
                hyphen_byte == hv,
                pt == (self.locale == HyphenationLocale::Portuguese),
                out@ == rewritten(raw, word@, hv, pt, self.portuguese_preference, lo, i as int),
            decreases max_offset - i,
        {
            assert(out@[i as int] == raw[i as int]);
            if out[i] % 2 == 0 {
                out[i] = HyphenationType::DontBreak.to_u8();
            } else if i > 0 && Self::is_line_breaking_hyphen(word[i - 1]) && self.portuguese_preference {
                if self.locale == HyphenationLocale::Portuguese {
                    // In Portuguese the line prefers to start with the hyphen: break
                    // before it rather than after it.
                    out[i - 1] = HyphenationType::BreakAndDontInsertHyphen.to_u8();
                    out[i] = HyphenationType::DontBreak.to_u8();
                } else {
                    // Break after the hyphen, and add no hyphen of our own.
                    out[i - 1] = HyphenationType::DontBreak.to_u8();
                    out[i] = HyphenationType::BreakAndDontInsertHyphen.to_u8();
                }
            } else {
                out[i] = hyphen_byte;
            }
            i += 1;
            assert(out@ =~= rewritten(raw, word@, hv, pt, self.portuguese_preference, lo, i as int));
        }
    }
    /// Fills `out` with the raw scores of the word whose padded codes are
    /// `codes[..len + 2]`, over the positions in `[min_prefix, len - min_suffix)`.
    fn score(&self, codes: &[u16; 64], len: usize, out: &mut [u8])
        requires
            len + 2 <= 64,
            old(out)@.len() == len,
            len >= self.min_prefix + self.min_suffix,
        ensures
            final(out)@ == raw_scores(
                self.data@,
                codes@.subrange(0, len + 2),
                len as int,
                self.min_prefix as int,
                len - self.min_suffix,
            ),
    {
        broadcast use vstd::array::group_array_axioms;

        let ghost d = self.data@;
        let ghost cs = codes@.subrange(0, len + 2);
        let ghost lo = self.min_prefix as int;
        let ghost hi = len - self.min_suffix;
        let header = Header::new(self.data);
        let trie = header.trie_table();
        let pattern = header.pattern_table();
        let char_mask = trie.char_mask();
        let link_shift = trie.link_shift();
        let link_mask = trie.link_mask();
        let pattern_shift = trie.pattern_shift();
        let padded_len = len + 2;
        let max_offset: usize = len - self.min_suffix as usize;
        let min_prefix = self.min_prefix as usize;
        proof {
            crate::blob::lemma_tail_u32(d, crate::blob::u32_at(d, 12) as int, 4);
        }
        let mut x: usize = 0;
        while x < len
            invariant
                out@.len() == len,
                0 <= x <= len,
                forall|y: int| 0 <= y < x ==> out@[y] == 0,
            decreases len - x,
        {
            out[x] = 0;
            x += 1;
        }
        assert(out@ =~= Seq::new(len as nat, |y: int| 0u8));
        let mut i: usize = 0;
        assert(codes@.len() == 64);
        while i + 1 < padded_len
            invariant
                padded_len == len + 2 <= 64,
                trie.data.bytes@ == crate::blob::trie_part(d),
                pattern.data.bytes@ == crate::blob::pattern_part(d),
                pattern.pattern_offset == crate::blob::u32_at(crate::blob::pattern_part(d), 8),
                char_mask == trie_char_mask(d),
                link_shift == trie_link_shift(d),
                link_mask == trie_link_mask(d),
                pattern_shift == trie_pattern_shift(d),
                cs.len() == padded_len,
                forall|y: int| 0 <= y < padded_len ==> cs[y] == codes@[y],
                out@.len() == len,
                max_offset == hi,
                max_offset <= len,
                min_prefix == lo,
                0 <= i < padded_len,
                rows(d, cs, i as int, out@, lo, hi) == raw_scores(d, cs, len as int, lo, hi),
            decreases padded_len - i,
        {
            let mut node: u32 = 0;
            let mut j: usize = i;
            assert(cs.subrange(i as int, i as int) =~= Seq::<u16>::empty());
            while j < padded_len
                invariant
                    padded_len == len + 2 <= 64,
                    trie.data.bytes@ == crate::blob::trie_part(d),
                    pattern.data.bytes@ == crate::blob::pattern_part(d),
                    pattern.pattern_offset == crate::blob::u32_at(crate::blob::pattern_part(d), 8),
                    char_mask == trie_char_mask(d),
                    link_shift == trie_link_shift(d),
                    link_mask == trie_link_mask(d),
                    pattern_shift == trie_pattern_shift(d),
                    cs.len() == padded_len,
                    forall|y: int| 0 <= y < padded_len ==> cs[y] == codes@[y],
                    out@.len() == len,
                    max_offset == hi,
                max_offset <= len,
                    max_offset <= len,
                    min_prefix == lo,
                    i + 1 < padded_len,
                    i <= j <= padded_len,
                    trie_walk(d, cs.subrange(i as int, j as int)) == Some(node),
                    rows(d, cs, i + 1, row(d, cs, i as int, j as int, out@, lo, hi), lo, hi)
                        == raw_scores(d, cs, len as int, lo, hi),
                ensures
                    out@.len() == len,
                    rows(d, cs, i + 1, out@, lo, hi) == raw_scores(d, cs, len as int, lo, hi),
                decreases padded_len - j,
            {
                let c: u32 = codes[j] as u32;
                let ghost s = cs.subrange(i as int, j + 1);
                assert(s.drop_last() =~= cs.subrange(i as int, j as int));
                assert(s.last() == codes@[j as int]);
                assert(trie_walk(d, s) == trie_step(d, node, codes@[j as int]));
                let entry = trie.get_at(node as u64 + c as u64);
                if (entry & char_mask) == c {
                    node = shift_right(entry & link_mask, link_shift);
                } else {
                    proof {
                        lemma_row_idle(d, cs, i as int, j as int, out@, lo, hi);
                    }
                    break;
                }
                assert(trie_walk(d, s) == Some(node));
                let pat_ix = shift_right(trie.get_at(node as u64), pattern_shift);
                if pat_ix != 0 {
                    let pat_entry = pattern.entry_at(pat_ix);
                    let pat_len = pat_entry.len() as usize;
                    let pat_shift = pat_entry.shift() as usize;
                    let ghost v = Seq::new(pat_len as nat, |k: int| entry_value(d, pat_entry.entry, k));
                    assert(pattern_of(d, s) == Some((v, pat_shift as int)));
                    if pat_len + pat_shift <= j + 1 {
                        let offset = j + 1 - (pat_len + pat_shift);
                        if offset <= max_offset {
                            let start = if min_prefix < offset {
                                0
                            } else {
                                min_prefix - offset
                            };
                            let end = if pat_len < max_offset - offset {
                                pat_len
                            } else {
                                max_offset - offset
                            };
                            let ghost out0 = out@;
                            let mut k: usize = start;
                            while k < end
                                invariant
                                    out@.len() == len,
                                    offset + end <= len,
                                    end <= pat_len,
                                    pat_len < 64,
                                    v.len() == pat_len,
                                    out0.len() == len,
                                    pat_entry.data.bytes@ == crate::blob::pattern_part(d),
                                    pat_entry.pattern_offset == crate::blob::u32_at(crate::blob::pattern_part(d), 8),
                                    forall|q: int| 0 <= q < pat_len ==> v[q] == entry_value(d, pat_entry.entry, q),
                                    start <= end || k == start,
                                    start <= k,
                                    k <= end || k == start,
                                    forall|y: int|
                                        #![trigger out@[y]]
                                        0 <= y < len ==> out@[y] == if offset + start <= y < offset + k {
                                            max_u8(out0[y], v[y - offset])
                                        } else {
                                            out0[y]
                                        },
                                decreases end - k,
                            {
                                let val = pat_entry.value_at(k as u32);
                                if val > out[offset + k] {
                                    out[offset + k] = val;
                                }
                                k += 1;
                            }
                            assert(out@ =~= add_pattern(out0, pattern_of(d, s), j as int, lo, hi));
                        } else {
                            assert(out@ =~= add_pattern(out@, pattern_of(d, s), j as int, lo, hi));
                        }
                    }
                } else {
                    assert(pattern_of(d, s) is None);
                }
                j += 1;
            }
            i += 1;
            assert(rows(d, cs, i as int, out@, lo, hi) == raw_scores(d, cs, len as int, lo, hi));
        }
    }
}

} // verus!
