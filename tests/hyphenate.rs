use minikin::blob::{AlphabetLookup, AlphabetTable, AlphabetTable1Entry, HyphenationData, Header, PatternEntry};
use minikin::hyphenator::portuguese_hyphenator;
use minikin::{hyphenate, load_hyphenator, HyphenationLocale, HyphenationType, Hyphenator};

const LATIN: u8 = 0;
const ARABIC: u8 = 1;
const KANNADA: u8 = 2;
const ARMENIAN: u8 = 6;
const CANADIAN_ABORIGINAL: u8 = 7;
const DUAL: u8 = 1;
const RIGHT: u8 = 2;
const NON_JOINING: u8 = 0;
const TRANSPARENT: u8 = 5;

const DONT: u8 = 0;
const HYPHEN: u8 = 1;
const NO_HYPHEN: u8 = 5;

fn push_u32(v: &mut Vec<u8>, x: u32) {
    v.extend_from_slice(&x.to_le_bytes());
}

/// Builds a pattern table for `patterns` (TeX notation, `.` for a word edge) over the
/// alphabet `letters`, whose codes are 1, 2, ... in order.
fn build_table(patterns: &[&str], letters: &[char], sparse: bool) -> Vec<u8> {
    let ncodes = letters.len() + 1;
    assert!(ncodes < 31);
    let code = |c: char| -> usize {
        if c == '.' {
            0
        } else {
            letters.iter().position(|&l| l == c).unwrap() + 1
        }
    };
    // Trie nodes: children by code, and pattern index.
    let mut children: Vec<Vec<Option<usize>>> = vec![vec![None; ncodes]];
    let mut node_pattern: Vec<u32> = vec![0];
    let mut pattern_entries: Vec<u32> = vec![0];
    let mut pattern_data: Vec<u8> = Vec::new();
    for p in patterns {
        let mut chars = Vec::new();
        let mut values = vec![0u8];
        for ch in p.chars() {
            if let Some(d) = ch.to_digit(10) {
                *values.last_mut().unwrap() = d as u8;
            } else {
                chars.push(ch);
                values.push(0);
            }
        }
        let mut shift = 0u32;
        while values.len() > 1 && *values.last().unwrap() == 0 {
            values.pop();
            shift += 1;
        }
        let mut node = 0usize;
        for &ch in &chars {
            let c = code(ch);
            node = match children[node][c] {
                Some(n) => n,
                None => {
                    children.push(vec![None; ncodes]);
                    node_pattern.push(0);
                    let n = children.len() - 1;
                    children[node][c] = Some(n);
                    n
                }
            };
        }
        let entry = ((values.len() as u32) << 26) | (shift << 20) | pattern_data.len() as u32;
        pattern_data.extend_from_slice(&values);
        pattern_entries.push(entry);
        node_pattern[node] = (pattern_entries.len() - 1) as u32;
    }
    let mut trie: Vec<u32> = vec![0x1f; children.len() * ncodes];
    for (k, kids) in children.iter().enumerate() {
        let base = k * ncodes;
        trie[base] = (node_pattern[k] << 21) | 0x1f;
        for (c, kid) in kids.iter().enumerate() {
            if let Some(n) = kid {
                let link = ((n * ncodes) as u32) << 5;
                let high = if c == 0 { trie[base] & !0x1f } else { 0 };
                trie[base + c] = high | link | c as u32;
            }
        }
    }

    let mut alphabet = Vec::new();
    if sparse {
        push_u32(&mut alphabet, 1);
        push_u32(&mut alphabet, letters.len() as u32);
        let mut entries: Vec<u32> =
            letters.iter().enumerate().map(|(i, &l)| ((l as u32) << 11) | (i as u32 + 1)).collect();
        entries.sort();
        for e in entries {
            push_u32(&mut alphabet, e);
        }
    } else {
        let min = letters.iter().map(|&c| c as u32).min().unwrap();
        let max = letters.iter().map(|&c| c as u32).max().unwrap() + 1;
        push_u32(&mut alphabet, 0);
        push_u32(&mut alphabet, min);
        push_u32(&mut alphabet, max);
        let mut bytes = vec![0u8; (max - min) as usize];
        for (i, &l) in letters.iter().enumerate() {
            bytes[(l as u32 - min) as usize] = (i + 1) as u8;
        }
        alphabet.extend_from_slice(&bytes);
    }

    let mut trie_part = Vec::new();
    push_u32(&mut trie_part, 0);
    push_u32(&mut trie_part, 0x1f);
    push_u32(&mut trie_part, 5);
    push_u32(&mut trie_part, 0xffff << 5);
    push_u32(&mut trie_part, 21);
    push_u32(&mut trie_part, trie.len() as u32);
    for e in &trie {
        push_u32(&mut trie_part, *e);
    }

    let mut pattern_part = Vec::new();
    push_u32(&mut pattern_part, 0);
    push_u32(&mut pattern_part, pattern_entries.len() as u32);
    push_u32(&mut pattern_part, 16 + 4 * pattern_entries.len() as u32);
    push_u32(&mut pattern_part, pattern_data.len() as u32);
    for e in &pattern_entries {
        push_u32(&mut pattern_part, *e);
    }
    pattern_part.extend_from_slice(&pattern_data);

    let alphabet_offset = 24u32;
    let trie_offset = alphabet_offset + alphabet.len() as u32;
    let pattern_offset = trie_offset + trie_part.len() as u32;
    let size = pattern_offset + pattern_part.len() as u32;
    let mut out = Vec::new();
    push_u32(&mut out, 0x62ad7968);
    push_u32(&mut out, 0);
    push_u32(&mut out, alphabet_offset);
    push_u32(&mut out, trie_offset);
    push_u32(&mut out, pattern_offset);
    push_u32(&mut out, size);
    out.extend_from_slice(&alphabet);
    out.extend_from_slice(&trie_part);
    out.extend_from_slice(&pattern_part);
    out
}

fn leak(v: Vec<u8>) -> &'static [u8] {
    Box::leak(v.into_boxed_slice())
}

fn lowercase() -> Vec<char> {
    ('a'..='z').collect()
}

fn english() -> &'static [u8] {
    leak(build_table(
        &["hy3ph", "he2n", "hena4", "hen5at", "1na", "n2at", "1tio", "2io", "o2n"],
        &lowercase(),
        false,
    ))
}

fn utf16(s: &str) -> Vec<u16> {
    s.encode_utf16().collect()
}

fn run(h: &Hyphenator, word: &[u16], scripts: &[u8], joins: &[u8]) -> Vec<u8> {
    let mut out = vec![0xEEu8; word.len()];
    h.hyphenate(word, scripts, joins, &mut out);
    out
}

fn run_latin(h: &Hyphenator, word: &[u16]) -> Vec<u8> {
    let scripts = vec![LATIN; word.len()];
    let joins = vec![NON_JOINING; word.len()];
    run(h, word, &scripts, &joins)
}

#[test]
fn hyphenation_breaks_as_hy_phen_ation() {
    let h = Hyphenator::new(english(), 2, 2, "en");
    let out = run_latin(&h, &utf16("hyphenation"));
    assert_eq!(out, vec![DONT, DONT, HYPHEN, DONT, DONT, DONT, HYPHEN, DONT, DONT, DONT, DONT]);
}

#[test]
fn hello_has_no_break() {
    let h = Hyphenator::new(english(), 2, 2, "en");
    let out = run_latin(&h, &utf16("hello"));
    assert_eq!(out, vec![DONT; 5]);
}

#[test]
fn polish_repeats_hyphen_on_next_line() {
    let h = Hyphenator::new(english(), 2, 2, "pl");
    let word = utf16("czerwono-niebieska");
    assert_eq!(word[8], 0x2D);
    let out = run_latin(&h, &word);
    let mut expected = vec![DONT; word.len()];
    expected[9] = HyphenationType::BreakAndInsertHyphenAtNextLine.to_u8();
    assert_eq!(out, expected);
}

#[test]
fn slovenian_repeats_hyphen_too_but_other_locales_do_not() {
    let word = utf16("ab-cd");
    let sl = Hyphenator::new(english(), 2, 2, "sl");
    assert_eq!(run_latin(&sl, &word), vec![DONT, DONT, DONT, 7, DONT]);
    let other = Hyphenator::new(english(), 2, 2, "en");
    assert_eq!(run_latin(&other, &word), vec![DONT, DONT, DONT, NO_HYPHEN, DONT]);
    // Before a non-Latin character the hyphen is not repeated.
    let scripts = vec![LATIN, LATIN, LATIN, ARMENIAN, LATIN];
    let joins = vec![NON_JOINING; 5];
    assert_eq!(run(&sl, &word, &scripts, &joins), vec![DONT, DONT, DONT, NO_HYPHEN, DONT]);
}

#[test]
fn hyphen_at_word_start_gives_no_break() {
    let h = Hyphenator::new(english(), 1, 1, "en");
    assert_eq!(run_latin(&h, &utf16("-ab")), vec![DONT, DONT, DONT]);
}

#[test]
fn catalan_middle_dot() {
    let h = Hyphenator::new(&[], 1, 1, "ca");
    let word: Vec<u16> = vec![0x6C, 0xB7, 0x6C];
    let out = run_latin(&h, &word);
    assert_eq!(out, vec![DONT, DONT, HyphenationType::BreakAndReplaceWithHyphen.to_u8()]);
    let upper: Vec<u16> = vec![0x4C, 0xB7, 0x4C];
    assert_eq!(run_latin(&h, &upper)[2], 6);
    let mixed: Vec<u16> = vec![0x6C, 0xB7, 0x4C];
    assert_eq!(run_latin(&h, &mixed)[2], DONT);
    let not_catalan = Hyphenator::new(&[], 1, 1, "en");
    assert_eq!(run_latin(&not_catalan, &word)[2], DONT);
    // The suffix minimum applies.
    let strict = Hyphenator::new(&[], 1, 2, "ca");
    assert_eq!(run_latin(&strict, &word)[2], DONT);
}

#[test]
fn arabic_soft_hyphen_between_joining_letters() {
    let h = Hyphenator::new(&[], 2, 2, "ar");
    let word: Vec<u16> = vec![0x0628, 0x00AD, 0x0628];
    let scripts = vec![ARABIC, ARABIC, ARABIC];
    let joins = vec![DUAL, TRANSPARENT, DUAL];
    let out = run(&h, &word, &scripts, &joins);
    assert_eq!(out, vec![DONT, DONT, HyphenationType::BreakAndInsertHyphenAndZwj.to_u8()]);
}

#[test]
fn arabic_soft_hyphen_without_joining() {
    let h = Hyphenator::new(&[], 2, 2, "ar");
    let word: Vec<u16> = vec![0x0627, 0x00AD, 0x0628];
    let scripts = vec![ARABIC, ARABIC, ARABIC];
    // The letter before does not join to the left.
    let joins = vec![RIGHT, TRANSPARENT, DUAL];
    assert_eq!(run(&h, &word, &scripts, &joins), vec![DONT, DONT, HYPHEN]);
    // Transparent marks are skipped on both sides.
    let word: Vec<u16> = vec![0x0628, 0x064E, 0x00AD, 0x064E, 0x0628];
    let scripts = vec![ARABIC; 5];
    let joins = vec![DUAL, TRANSPARENT, TRANSPARENT, TRANSPARENT, DUAL];
    assert_eq!(run(&h, &word, &scripts, &joins)[3], 8);
}

#[test]
fn arabic_resolver_directly() {
    let joins = vec![DUAL, TRANSPARENT, RIGHT];
    assert!(Hyphenator::get_hyph_type_for_arabic(&joins, 2) == HyphenationType::BreakAndInsertHyphenAndZwj);
    let joins = vec![DUAL, TRANSPARENT, NON_JOINING];
    assert!(Hyphenator::get_hyph_type_for_arabic(&joins, 2) == HyphenationType::BreakAndInsertHyphen);
    let joins = vec![TRANSPARENT, TRANSPARENT, TRANSPARENT];
    assert!(Hyphenator::get_hyph_type_for_arabic(&joins, 2) == HyphenationType::BreakAndInsertHyphen);
}

#[test]
fn soft_hyphen_uses_script_of_next_character() {
    let h = Hyphenator::new(&[], 2, 2, "en");
    let word: Vec<u16> = vec![0x61, 0x62, 0xAD, 0x63, 0x64];
    let joins = vec![NON_JOINING; 5];
    assert_eq!(run(&h, &word, &[LATIN; 5], &joins)[3], HYPHEN);
    assert_eq!(run(&h, &word, &[ARMENIAN; 5], &joins)[3], 2);
    assert_eq!(run(&h, &word, &[CANADIAN_ABORIGINAL; 5], &joins)[3], 4);
    assert_eq!(run(&h, &word, &[KANNADA; 5], &joins)[3], NO_HYPHEN);
    // A soft hyphen that starts the word gives nothing.
    let lead: Vec<u16> = vec![0xAD, 0x61, 0x62];
    assert_eq!(run(&h, &lead, &[LATIN; 3], &[NON_JOINING; 3]), vec![DONT; 3]);
}

fn hyphen_table() -> &'static [u8] {
    leak(build_table(&["-1b"], &['-', 'a', 'b'], true))
}

#[test]
fn portuguese_breaks_before_hyphen() {
    let h = Hyphenator::new(hyphen_table(), 1, 1, "pt");
    let out = run_latin(&h, &utf16("aa-bb"));
    assert_eq!(out, vec![DONT, DONT, NO_HYPHEN, DONT, DONT]);
}

#[test]
fn other_locales_break_after_hyphen() {
    let h = Hyphenator::new(hyphen_table(), 1, 1, "en");
    let out = run_latin(&h, &utf16("aa-bb"));
    assert_eq!(out, vec![DONT, DONT, DONT, NO_HYPHEN, DONT]);
}

#[test]
fn without_preference_a_break_after_hyphen_is_plain() {
    let mut h = Hyphenator::new(hyphen_table(), 1, 1, "pt");
    h.portuguese_preference = false;
    let out = run_latin(&h, &utf16("aa-bb"));
    assert_eq!(out, vec![DONT, DONT, DONT, HYPHEN, DONT]);
}

#[test]
fn script_sets_default_break_type() {
    let table = leak(build_table(&["a1b"], &['a', 'b'], false));
    let h = Hyphenator::new(table, 1, 0, "en");
    let word = utf16("aab");
    let joins = vec![NON_JOINING; 3];
    assert_eq!(run(&h, &word, &[LATIN; 3], &joins), vec![DONT, DONT, HYPHEN]);
    assert_eq!(run(&h, &word, &[KANNADA; 3], &joins), vec![DONT, DONT, NO_HYPHEN]);
    assert_eq!(run(&h, &word, &[ARMENIAN; 3], &joins), vec![DONT, DONT, 2]);
    // The first character whose script asks for something else decides.
    assert_eq!(run(&h, &word, &[LATIN, CANADIAN_ABORIGINAL, ARMENIAN], &joins), vec![DONT, DONT, 4]);
}

#[test]
fn minimums_bound_pattern_breaks() {
    let table = leak(build_table(&["a1b", "b1a"], &['a', 'b'], false));
    let word = utf16("ababab");
    let loose = Hyphenator::new(table, 1, 1, "en");
    assert_eq!(run_latin(&loose, &word), vec![DONT, 1, 1, 1, 1, DONT]);
    let tight = Hyphenator::new(table, 2, 3, "en");
    assert_eq!(run_latin(&tight, &word), vec![DONT, DONT, 1, DONT, DONT, DONT]);
    // Too short for both minimums: no pattern breaks at all.
    let too_tight = Hyphenator::new(table, 3, 4, "en");
    assert_eq!(run_latin(&too_tight, &word), vec![DONT; 6]);
}

#[test]
fn sparse_alphabet_gives_same_result() {
    let patterns = ["hy3ph", "he2n", "hena4", "hen5at", "1na", "n2at", "1tio", "2io", "o2n"];
    let dense = Hyphenator::new(leak(build_table(&patterns, &lowercase(), false)), 2, 2, "en");
    let sparse = Hyphenator::new(leak(build_table(&patterns, &lowercase(), true)), 2, 2, "en");
    let word = utf16("hyphenation");
    assert_eq!(run_latin(&dense, &word), run_latin(&sparse, &word));
    // Reordered patterns give the same result too.
    let mut reversed = patterns.to_vec();
    reversed.reverse();
    let other = Hyphenator::new(leak(build_table(&reversed, &lowercase(), false)), 2, 2, "en");
    assert_eq!(run_latin(&dense, &word), run_latin(&other, &word));
}

#[test]
fn adding_a_pattern_keeps_existing_breaks() {
    let base = Hyphenator::new(leak(build_table(&["hy3ph"], &lowercase(), false)), 2, 2, "en");
    let more = Hyphenator::new(leak(build_table(&["hy3ph", "hen5at"], &lowercase(), false)), 2, 2, "en");
    let word = utf16("hyphenation");
    let a = run_latin(&base, &word);
    let b = run_latin(&more, &word);
    assert_eq!(a[2], HYPHEN);
    assert_eq!(b[2], HYPHEN);
    assert_eq!(a[6], DONT);
    assert_eq!(b[6], HYPHEN);
}

#[test]
fn unknown_character_takes_no_pattern_path() {
    let h = Hyphenator::new(english(), 2, 2, "en");
    assert_eq!(run_latin(&h, &utf16("hyphenatioN")), vec![DONT; 11]);
}

#[test]
fn long_words_take_no_pattern_path() {
    let h = Hyphenator::new(leak(build_table(&["a1b"], &['a', 'b'], false)), 1, 1, "en");
    let mut word = Vec::new();
    for _ in 0..31 {
        word.push(0x61);
        word.push(0x62);
    }
    let out = run_latin(&h, &word);
    assert_eq!(out[1], 1);
    word.push(0x61);
    let out = run_latin(&h, &word);
    assert_eq!(out, vec![DONT; 63]);
}

#[test]
fn empty_word_and_empty_table() {
    let h = Hyphenator::new(english(), 0, 0, "en");
    let mut out: Vec<u8> = Vec::new();
    h.hyphenate(&[], &[], &[], &mut out);
    assert!(out.is_empty());
    let none = Hyphenator::new(&[], 2, 2, "en");
    assert_eq!(run_latin(&none, &utf16("hyphenation")), vec![DONT; 11]);
}

#[test]
fn unknown_alphabet_version_takes_no_pattern_path() {
    let mut table = build_table(&["a1b"], &['a', 'b'], false);
    table[24] = 7;
    let h = Hyphenator::new(leak(table), 1, 1, "en");
    assert_eq!(run_latin(&h, &utf16("ab")), vec![DONT, DONT]);
    assert!(Header::new(h.data).alphabet_table().is_none());
}

#[test]
fn output_is_overwritten_everywhere() {
    let h = Hyphenator::new(english(), 2, 2, "en");
    let word = utf16("hyphenation");
    let mut out = vec![0xFFu8; word.len()];
    h.hyphenate(&word, &[LATIN; 11], &[NON_JOINING; 11], &mut out);
    assert!(out.iter().all(|&v| v == 0 || v == 1));
}

#[test]
fn locales_are_parsed_exactly() {
    assert!(Hyphenator::new(&[], 2, 2, "ca").locale == HyphenationLocale::Catalan);
    assert!(Hyphenator::new(&[], 2, 2, "pl").locale == HyphenationLocale::Polish);
    assert!(Hyphenator::new(&[], 2, 2, "sl").locale == HyphenationLocale::Slovenian);
    assert!(Hyphenator::new(&[], 2, 2, "pt").locale == HyphenationLocale::Portuguese);
    assert!(Hyphenator::new(&[], 2, 2, "pt-BR").locale == HyphenationLocale::Other);
    assert!(Hyphenator::new(&[], 2, 2, "").locale == HyphenationLocale::Other);
    assert!(Hyphenator::new(&[], 2, 2, "PL").locale == HyphenationLocale::Other);
    assert!(portuguese_hyphenator());
    assert!(Hyphenator::new(&[], 2, 2, "en").portuguese_preference);
}

#[test]
fn loader_and_free_function() {
    let h = load_hyphenator(english(), 2, 2, String::from("pl"));
    assert!(h.locale == HyphenationLocale::Polish);
    assert_eq!(h.min_prefix, 2);
    assert_eq!(h.min_suffix, 2);
    let word = utf16("hyphenation");
    let mut out = vec![0u8; word.len()];
    hyphenate(&h, &word, &[LATIN; 11], &[NON_JOINING; 11], &mut out);
    assert_eq!(out[2], HYPHEN);
    assert_eq!(out[6], HYPHEN);
}

#[test]
fn script_classes() {
    let t = |s: u8| Hyphenator::hyphenation_type_based_on_script(s);
    assert!(t(0) == HyphenationType::BreakAndInsertHyphen);
    assert!(t(1) == HyphenationType::BreakAndInsertHyphen);
    for s in [2u8, 3, 4, 5] {
        assert!(t(s) == HyphenationType::BreakAndDontInsertHyphen);
    }
    assert!(t(6) == HyphenationType::BreakAndInsertArmenianHyphen);
    assert!(t(7) == HyphenationType::BreakAndInsertUcasHyphen);
    assert!(t(200) == HyphenationType::BreakAndInsertHyphen);
}

#[test]
fn type_bytes() {
    let all = [
        (HyphenationType::DontBreak, 0),
        (HyphenationType::BreakAndInsertHyphen, 1),
        (HyphenationType::BreakAndInsertArmenianHyphen, 2),
        (HyphenationType::BreakAndInsertUcasHyphen, 4),
        (HyphenationType::BreakAndDontInsertHyphen, 5),
        (HyphenationType::BreakAndReplaceWithHyphen, 6),
        (HyphenationType::BreakAndInsertHyphenAtNextLine, 7),
        (HyphenationType::BreakAndInsertHyphenAndZwj, 8),
    ];
    for (t, b) in all {
        assert_eq!(t.to_u8(), b);
    }
}

#[test]
fn line_breaking_hyphens() {
    for c in [0x2Du16, 0x58A, 0x5BE, 0x1400, 0x2010, 0x2013, 0x2027, 0x2E17, 0x2E40] {
        assert!(Hyphenator::is_line_breaking_hyphen(c));
    }
    for c in [0xADu16, 0xB7, 0x2011, 0x2014, 0x61] {
        assert!(!Hyphenator::is_line_breaking_hyphen(c));
    }
}

#[test]
fn reader_reads_little_endian_and_zero_past_end() {
    let bytes = [0x78u8, 0x56, 0x34, 0x12, 0xAA];
    let d = HyphenationData::new(&bytes);
    assert_eq!(d.read_u32(0), 0x12345678);
    assert_eq!(d.read_u32(1), 0x00AA1234 << 8 | 0x56);
    assert_eq!(d.read_u32(3), 0x0000AA12);
    assert_eq!(d.read_u32(100), 0);
    assert_eq!(d.read_u8(4), 0xAA);
    assert_eq!(d.read_u8(5), 0);
    assert_eq!(d.slice_from(3), &[0x12, 0xAA]);
    assert!(d.slice_from(9).is_empty());
}

#[test]
fn table_readers() {
    let table = build_table(&["a1b"], &['a', 'b'], false);
    let header = Header::new(&table);
    let trie = header.trie_table();
    assert_eq!(trie.char_mask(), 0x1f);
    assert_eq!(trie.link_shift(), 5);
    assert_eq!(trie.link_mask(), 0xffff << 5);
    assert_eq!(trie.pattern_shift(), 21);
    // The root's child for 'a' (code 1).
    assert_eq!(trie.get_at(1) & 0x1f, 1);
    let pattern = header.pattern_table();
    let entry = pattern.entry_at(1);
    assert_eq!(entry.len(), 2);
    assert_eq!(entry.shift(), 1);
    assert_eq!(entry.value_at(0), 0);
    assert_eq!(entry.value_at(1), 1);
    match header.alphabet_table() {
        Some(AlphabetTable::Dense(t)) => {
            assert_eq!(t.min_codepoint, 0x61);
            assert_eq!(t.max_codepoint, 0x63);
            assert_eq!(t.get_at(0x61), Some(1));
            assert_eq!(t.get_at(0x62), Some(2));
            assert_eq!(t.get_at(0x60), None);
            assert_eq!(t.get_at(0x63), None);
        }
        _ => panic!("expected the dense alphabet"),
    }
    let raw = PatternEntry::new(&table, 0, (3 << 26) | (2 << 20) | 5);
    assert_eq!(raw.len(), 3);
    assert_eq!(raw.shift(), 2);
}

#[test]
fn sparse_alphabet_lookup() {
    let table = build_table(&["a1a"], &['\u{3042}', 'a', '\u{0561}'], true);
    let header = Header::new(&table);
    match header.alphabet_table() {
        Some(AlphabetTable::Sparse(t)) => {
            assert_eq!(t.num_entries, 3);
            assert_eq!(t.get_at(0x3042), Some(1));
            assert_eq!(t.get_at(0x61), Some(2));
            assert_eq!(t.get_at(0x561), Some(3));
            assert_eq!(t.get_at(0x62), None);
            assert_eq!(t.get_at(0x10), None);
            assert_eq!(t.get_at(0x4000), None);
        }
        _ => panic!("expected the sparse alphabet"),
    }
    let e = AlphabetTable1Entry::new((0x3042 << 11) | 0x7ff);
    assert_eq!(e.codepoint(), 0x3042);
    assert_eq!(e.value(), 0x7ff);
}
