//! Laws of the hyphenator, proved over the models of `hyphenator`.
use vstd::prelude::*;
use crate::blob::{alphabet_get, alphabet_known, word_hyphen_type, lemma_word_hyphen_type_breaks};
use crate::hyphenator::{
    add_pattern, after_hyphen_break, arabic_type, hyphenation, no_pattern, padded_codes,
    pattern_of, raw_scores, rewritten, row, rows, uses_patterns, word_scores, Hyphenator,
};
use crate::types::{is_hyphenation_type, spec_is_line_breaking_hyphen, type_for_script, HyphenationLocale};

verus! {

/// Zero outside `[lo, hi)`.
pub open spec fn quiet_outside(out: Seq<u8>, lo: int, hi: int) -> bool {
    forall|x: int| 0 <= x < out.len() && !(lo <= x < hi) ==> #[trigger] out[x] == 0
}

proof fn lemma_row_quiet(d: Seq<u8>, codes: Seq<u16>, i: int, j: int, out: Seq<u8>, lo: int, hi: int)
    requires
        quiet_outside(out, lo, hi),
    ensures
        quiet_outside(row(d, codes, i, j, out, lo, hi), lo, hi),
        row(d, codes, i, j, out, lo, hi).len() == out.len(),
    decreases codes.len() - j,
{
    if j < codes.len() {
        let next = add_pattern(out, pattern_of(d, codes.subrange(i, j + 1)), j, lo, hi);
        assert(quiet_outside(next, lo, hi));
        lemma_row_quiet(d, codes, i, j + 1, next, lo, hi);
    }
}

proof fn lemma_rows_quiet(d: Seq<u8>, codes: Seq<u16>, i: int, out: Seq<u8>, lo: int, hi: int)
    requires
        quiet_outside(out, lo, hi),
    ensures
        quiet_outside(rows(d, codes, i, out, lo, hi), lo, hi),
        rows(d, codes, i, out, lo, hi).len() == out.len(),
    decreases codes.len() - i,
{
    if i < codes.len() - 1 {
        lemma_row_quiet(d, codes, i, i, out, lo, hi);
        lemma_rows_quiet(d, codes, i + 1, row(d, codes, i, i, out, lo, hi), lo, hi);
    }
}

/// Scoring writes only inside `[lo, hi)`: every score outside stays zero.
pub proof fn lemma_scores_quiet_outside(d: Seq<u8>, codes: Seq<u16>, len: int, lo: int, hi: int)
    requires
        0 <= len,
    ensures
        quiet_outside(raw_scores(d, codes, len, lo, hi), lo, hi),
        raw_scores(d, codes, len, lo, hi).len() == len,
{
    lemma_rows_quiet(d, codes, 0, Seq::new(len as nat, |x: int| 0u8), lo, hi);
}

/// Every byte that `hyphenate` writes is a [`crate::types::HyphenationType`]; and when
/// at least one character must precede a break, and the Portuguese rule cannot move a
/// break onto a leading hyphen, the first position never breaks.
pub proof fn law_decisions_are_types(h: Hyphenator, word: Seq<u16>, scripts: Seq<u8>, joins: Seq<u8>)
    requires
        scripts.len() == word.len(),
        joins.len() == word.len(),
    ensures
        hyphenation(h, word, scripts, joins).len() == word.len(),
        forall|i: int|
            0 <= i < word.len() ==> is_hyphenation_type(
                #[trigger] hyphenation(h, word, scripts, joins)[i],
            ),
        word.len() > 0 && h.min_prefix >= 1 && !(h.locale == HyphenationLocale::Portuguese
            && h.portuguese_preference && spec_is_line_breaking_hyphen(word[0])) ==> hyphenation(
            h,
            word,
            scripts,
            joins,
        )[0] == 0,
{
    let out = hyphenation(h, word, scripts, joins);
    if uses_patterns(h, word) {
        let lo = h.min_prefix as int;
        let hi = word.len() - h.min_suffix;
        let d = h.data@;
        lemma_scores_quiet_outside(d, padded_codes(d, word), word.len() as int, lo, hi);
        lemma_word_hyphen_type_breaks(scripts, word.len() as int);
        let hv = word_hyphen_type(scripts, word.len() as int);
        assert(is_hyphenation_type(hv.spec_to_u8()));
    } else {
        assert forall|i: int| 0 <= i < word.len() implies is_hyphenation_type(
            #[trigger] out[i],
        ) by {
            if i > 1 {
                lemma_word_hyphen_type_breaks(scripts, i);
                let a = arabic_type(joins, i);
                let t = type_for_script(scripts[i]);
                assert(is_hyphenation_type(a.spec_to_u8()));
                assert(is_hyphenation_type(t.spec_to_u8()));
            }
        }
    }
}

/// The characters at which a word without patterns may break: line-breaking hyphens,
/// the soft hyphen, and the middle dot.
pub open spec fn holds_break_mark(word: Seq<u16>) -> bool {
    exists|i: int|
        0 <= i < word.len() && (spec_is_line_breaking_hyphen(#[trigger] word[i]) || word[i]
            == 0x00AD || word[i] == 0x00B7)
}

/// Fewer than `min_prefix` characters never stand before a break, and fewer than
/// `min_suffix` never after one, in a word without hyphens, soft hyphens or middle
/// dots (those break where they stand, whatever the two minimums say).
pub proof fn law_breaks_respect_minimums(h: Hyphenator, word: Seq<u16>, scripts: Seq<u8>, joins: Seq<u8>, i: int)
    requires
        scripts.len() == word.len(),
        joins.len() == word.len(),
        !holds_break_mark(word),
        0 <= i < word.len(),
        i < h.min_prefix || i >= word.len() - h.min_suffix,
    ensures
        hyphenation(h, word, scripts, joins)[i] == 0,
{
    if uses_patterns(h, word) {
        let lo = h.min_prefix as int;
        let hi = word.len() - h.min_suffix;
        let d = h.data@;
        lemma_scores_quiet_outside(d, padded_codes(d, word), word.len() as int, lo, hi);
        assert(!spec_is_line_breaking_hyphen(word[i]));
    } else if i > 0 {
        assert(!spec_is_line_breaking_hyphen(word[i - 1]) && word[i - 1] != 0x00AD && word[i - 1] != 0x00B7);
    }
}

/// Two tables that agree on what the hyphenator reads of them: whether they are
/// empty, whether their alphabet format is known, the code of every character, and
/// the pattern of every subword.
pub open spec fn same_meaning(d1: Seq<u8>, d2: Seq<u8>) -> bool {
    &&& (d1.len() > 0 <==> d2.len() > 0)
    &&& alphabet_known(d1) == alphabet_known(d2)
    &&& forall|c: u32| #[trigger] alphabet_get(d1, c) == alphabet_get(d2, c)
    &&& forall|s: Seq<u16>| #[trigger] pattern_of(d1, s) == pattern_of(d2, s)
}

/// `d2` holds every pattern of `d1`, and perhaps more, and the same alphabet.
pub open spec fn extends_patterns(d1: Seq<u8>, d2: Seq<u8>) -> bool {
    &&& forall|c: u32| #[trigger] alphabet_get(d1, c) == alphabet_get(d2, c)
    &&& forall|s: Seq<u16>| (#[trigger] pattern_of(d1, s)) is Some ==> pattern_of(d2, s) == pattern_of(d1, s)
}

/// The same hyphenator settings over another table.
pub open spec fn same_settings(h1: Hyphenator, h2: Hyphenator) -> bool {
    &&& h1.min_prefix == h2.min_prefix
    &&& h1.min_suffix == h2.min_suffix
    &&& h1.locale == h2.locale
    &&& h1.portuguese_preference == h2.portuguese_preference
}

proof fn lemma_row_same(d1: Seq<u8>, d2: Seq<u8>, codes: Seq<u16>, i: int, j: int, out: Seq<u8>, lo: int, hi: int)
    requires
        forall|s: Seq<u16>| #[trigger] pattern_of(d1, s) == pattern_of(d2, s),
    ensures
        row(d1, codes, i, j, out, lo, hi) == row(d2, codes, i, j, out, lo, hi),
    decreases codes.len() - j,
{
    if j < codes.len() {
        assert(pattern_of(d1, codes.subrange(i, j + 1)) == pattern_of(d2, codes.subrange(i, j + 1)));
        lemma_row_same(d1, d2, codes, i, j + 1, add_pattern(out, pattern_of(d1, codes.subrange(i, j + 1)), j, lo, hi), lo, hi);
    }
}

proof fn lemma_rows_same(d1: Seq<u8>, d2: Seq<u8>, codes: Seq<u16>, i: int, out: Seq<u8>, lo: int, hi: int)
    requires
        forall|s: Seq<u16>| #[trigger] pattern_of(d1, s) == pattern_of(d2, s),
    ensures
        rows(d1, codes, i, out, lo, hi) == rows(d2, codes, i, out, lo, hi),
    decreases codes.len() - i,
{
    if i < codes.len() - 1 {
        lemma_row_same(d1, d2, codes, i, i, out, lo, hi);
        lemma_rows_same(d1, d2, codes, i + 1, row(d1, codes, i, i, out, lo, hi), lo, hi);
    }
}

/// How the patterns are laid out in a table does not matter: two tables with the same
/// characters and the same subword patterns, in whatever order or place, give the same
/// decisions.
pub proof fn law_layout_does_not_matter(
    h1: Hyphenator,
    h2: Hyphenator,
    word: Seq<u16>,
    scripts: Seq<u8>,
    joins: Seq<u8>,
)
    requires
        same_settings(h1, h2),
        same_meaning(h1.data@, h2.data@),
    ensures
        word_scores(h1, word) == word_scores(h2, word),
        hyphenation(h1, word, scripts, joins) == hyphenation(h2, word, scripts, joins),
{
    let d1 = h1.data@;
    let d2 = h2.data@;
    assert(padded_codes(d1, word) =~= padded_codes(d2, word));
    lemma_rows_same(
        d1,
        d2,
        padded_codes(d1, word),
        0,
        Seq::new(word.len(), |x: int| 0u8),
        h1.min_prefix as int,
        word.len() - h1.min_suffix,
    );
    assert forall|i: int| 0 <= i < word.len() implies alphabet_get(d1, word[i] as u32) == alphabet_get(
        d2,
        word[i] as u32,
    ) by {}
    assert(uses_patterns(h1, word) == uses_patterns(h2, word));
    assert(no_pattern(h1, word, scripts, joins) =~= no_pattern(h2, word, scripts, joins));
}

/// Pointwise not below.
pub open spec fn dominated(a: Seq<u8>, b: Seq<u8>) -> bool {
    &&& a.len() == b.len()
    &&& forall|x: int| 0 <= x < a.len() ==> #[trigger] a[x] <= b[x]
}

proof fn lemma_add_grows(out: Seq<u8>, p: Option<(Seq<u8>, int)>, j: int, lo: int, hi: int)
    ensures
        dominated(out, add_pattern(out, p, j, lo, hi)),
{
}

proof fn lemma_add_monotone(a: Seq<u8>, b: Seq<u8>, p: Option<(Seq<u8>, int)>, j: int, lo: int, hi: int)
    requires
        dominated(a, b),
    ensures
        dominated(add_pattern(a, p, j, lo, hi), add_pattern(b, p, j, lo, hi)),
{
}

proof fn lemma_row_monotone(
    d1: Seq<u8>,
    d2: Seq<u8>,
    codes: Seq<u16>,
    i: int,
    j: int,
    a: Seq<u8>,
    b: Seq<u8>,
    lo: int,
    hi: int,
)
    requires
        forall|s: Seq<u16>| (#[trigger] pattern_of(d1, s)) is Some ==> pattern_of(d2, s) == pattern_of(d1, s),
        dominated(a, b),
    ensures
        dominated(row(d1, codes, i, j, a, lo, hi), row(d2, codes, i, j, b, lo, hi)),
    decreases codes.len() - j,
{
    if j < codes.len() {
        let s = codes.subrange(i, j + 1);
        let a2 = add_pattern(a, pattern_of(d1, s), j, lo, hi);
        let b2 = add_pattern(b, pattern_of(d2, s), j, lo, hi);
        if pattern_of(d1, s) is Some {
            lemma_add_monotone(a, b, pattern_of(d1, s), j, lo, hi);
        } else {
            lemma_add_grows(b, pattern_of(d2, s), j, lo, hi);
        }
        assert(dominated(a2, b2));
        lemma_row_monotone(d1, d2, codes, i, j + 1, a2, b2, lo, hi);
    }
}

proof fn lemma_rows_monotone(
    d1: Seq<u8>,
    d2: Seq<u8>,
    codes: Seq<u16>,
    i: int,
    a: Seq<u8>,
    b: Seq<u8>,
    lo: int,
    hi: int,
)
    requires
        forall|s: Seq<u16>| (#[trigger] pattern_of(d1, s)) is Some ==> pattern_of(d2, s) == pattern_of(d1, s),
        dominated(a, b),
    ensures
        dominated(rows(d1, codes, i, a, lo, hi), rows(d2, codes, i, b, lo, hi)),
    decreases codes.len() - i,
{
    if i < codes.len() - 1 {
        lemma_row_monotone(d1, d2, codes, i, i, a, b, lo, hi);
        lemma_rows_monotone(
            d1,
            d2,
            codes,
            i + 1,
            row(d1, codes, i, i, a, lo, hi),
            row(d2, codes, i, i, b, lo, hi),
            lo,
            hi,
        );
    }
}

/// Adding patterns to a table never lowers a score: the scores under `h2`, whose table
/// holds all the patterns of `h1`'s and the same alphabet, are pointwise at least those
/// under `h1`.
pub proof fn law_more_patterns_never_lower_scores(h1: Hyphenator, h2: Hyphenator, word: Seq<u16>)
    requires
        same_settings(h1, h2),
        extends_patterns(h1.data@, h2.data@),
    ensures
        dominated(word_scores(h1, word), word_scores(h2, word)),
{
    let d1 = h1.data@;
    let d2 = h2.data@;
    assert(padded_codes(d1, word) =~= padded_codes(d2, word));
    let zero = Seq::new(word.len(), |x: int| 0u8);
    lemma_rows_monotone(
        d1,
        d2,
        padded_codes(d1, word),
        0,
        zero,
        zero,
        h1.min_prefix as int,
        word.len() - h1.min_suffix,
    );
}

/// Turning scores into decisions a second time changes nothing, when the word's
/// default break type is odd (a plain hyphen, or no hyphen) and the Portuguese rule is
/// not in force.
pub proof fn law_rewrite_is_idempotent(
    raw: Seq<u8>,
    word: Seq<u16>,
    hv: u8,
    portuguese: bool,
    pref: bool,
    lo: int,
    hi: int,
)
    requires
        raw.len() == word.len(),
        0 <= lo,
        hi <= raw.len(),
        hv % 2 == 1,
        !(portuguese && pref),
    ensures
        rewritten(rewritten(raw, word, hv, portuguese, pref, lo, hi), word, hv, portuguese, pref, lo, hi)
            == rewritten(raw, word, hv, portuguese, pref, lo, hi),
{
    let once = rewritten(raw, word, hv, portuguese, pref, lo, hi);
    let twice = rewritten(once, word, hv, portuguese, pref, lo, hi);
    assert forall|x: int| 0 <= x < raw.len() implies twice[x] == once[x] by {
        if 0 <= x + 1 < raw.len() {
            assert(after_hyphen_break(once, word, pref, lo, hi, x + 1) == (after_hyphen_break(raw, word, pref, lo, hi, x + 1)
                && !after_hyphen_break(raw, word, pref, lo, hi, x + 2)));
        }
        if lo <= x < hi {
            assert(after_hyphen_break(once, word, pref, lo, hi, x) == (after_hyphen_break(raw, word, pref, lo, hi, x)
                && !after_hyphen_break(raw, word, pref, lo, hi, x + 1)));
        }
    }
    assert(twice =~= once);
}

/// A word that holds a line-breaking hyphen which the alphabet does not hold is never
/// hyphenated by patterns.
pub proof fn law_hyphenated_words_skip_patterns(
    h: Hyphenator,
    word: Seq<u16>,
    scripts: Seq<u8>,
    joins: Seq<u8>,
    i: int,
)
    requires
        0 <= i < word.len(),
        spec_is_line_breaking_hyphen(word[i]),
        alphabet_get(h.data@, word[i] as u32) is None,
    ensures
        !uses_patterns(h, word),
        hyphenation(h, word, scripts, joins) == no_pattern(h, word, scripts, joins),
{
}

} // verus!
