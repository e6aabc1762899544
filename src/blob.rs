//! Readers for the binary pattern table: header, alphabet, trie and patterns.
//!
//! Every multi-byte integer is a little-endian `u32`. A read that reaches past the
//! end of the table sees zero bytes, so every read is total.
use vstd::prelude::*;
use crate::types::{type_for_script, HyphenationType};

verus! {

/// The byte at `k`, or zero outside the table.
pub open spec fn byte_at(d: Seq<u8>, k: int) -> u8 {
    if 0 <= k < d.len() {
        d[k]
    } else {
        0
    }
}

/// The little-endian `u32` whose first byte is at `k`.
pub open spec fn u32_at(d: Seq<u8>, k: int) -> u32 {
    (byte_at(d, k) as int + byte_at(d, k + 1) as int * 256 + byte_at(d, k + 2) as int * 65536
        + byte_at(d, k + 3) as int * 16777216) as u32
}

/// The table seen from byte `off` on; empty when `off` lies past its end.
pub open spec fn tail(d: Seq<u8>, off: int) -> Seq<u8> {
    if 0 <= off <= d.len() {
        d.subrange(off, d.len() as int)
    } else {
        Seq::empty()
    }
}

pub proof fn lemma_tail_byte(d: Seq<u8>, off: int, k: int)
    requires
        0 <= off,
        0 <= k,
    ensures
        byte_at(tail(d, off), k) == byte_at(d, off + k),
{
}

pub proof fn lemma_tail_u32(d: Seq<u8>, off: int, k: int)
    requires
        0 <= off,
        0 <= k,
    ensures
        u32_at(tail(d, off), k) == u32_at(d, off + k),
{
    lemma_tail_byte(d, off, k);
    lemma_tail_byte(d, off, k + 1);
    lemma_tail_byte(d, off, k + 2);
    lemma_tail_byte(d, off, k + 3);
}

/// A borrowed view of the bytes of a pattern table, or of a part of one.
pub struct HyphenationData<'a> {
    pub bytes: &'a [u8],
}

impl<'a> HyphenationData<'a> {
    pub fn new(bytes: &'a [u8]) -> (r: Self)
        ensures
            r.bytes@ == bytes@,
    {
        HyphenationData { bytes }
    }

    /// The byte at `offset`, or zero past the end.
    pub fn read_u8(&self, offset: u64) -> (r: u8)
        ensures
            r == byte_at(self.bytes@, offset as int),
    {
        if offset < self.bytes.len() as u64 {
            self.bytes[offset as usize]
        } else {
            0
        }
    }

    /// The little-endian `u32` at `offset`; bytes past the end read as zero.
    pub fn read_u32(&self, offset: u64) -> (r: u32)
        requires
            offset <= u64::MAX - 3,
        ensures
            r == u32_at(self.bytes@, offset as int),
    {
        let b0 = self.read_u8(offset) as u32;
        let b1 = self.read_u8(offset + 1) as u32;
        let b2 = self.read_u8(offset + 2) as u32;
        let b3 = self.read_u8(offset + 3) as u32;
        assert(b0 + b1 * 256 + b2 * 65536 + b3 * 16777216 <= u32::MAX) by (nonlinear_arith)
            requires
                b0 < 256,
                b1 < 256,
                b2 < 256,
                b3 < 256,
        ;
        b0 + b1 * 256 + b2 * 65536 + b3 * 16777216
    }

    /// The bytes from `offset` to the end; empty when `offset` lies past the end.
    pub fn slice_from(&self, offset: u64) -> (r: &'a [u8])
        ensures
            r@ == tail(self.bytes@, offset as int),
    {
        let n = self.bytes.len();
        if offset <= n as u64 {
            vstd::slice::slice_subrange(self.bytes, offset as usize, n)
        } else {
            vstd::slice::slice_subrange(self.bytes, 0, 0)
        }
    }
}

/// Where the header says that the alphabet, trie and pattern parts begin.
pub open spec fn alphabet_part(d: Seq<u8>) -> Seq<u8> {
    tail(d, u32_at(d, 8) as int)
}

pub open spec fn trie_part(d: Seq<u8>) -> Seq<u8> {
    tail(d, u32_at(d, 12) as int)
}

pub open spec fn pattern_part(d: Seq<u8>) -> Seq<u8> {
    tail(d, u32_at(d, 16) as int)
}

/// The dense alphabet: `min`, `max`, then one byte per code point in `[min, max)`.
pub open spec fn dense_get(a: Seq<u8>, c: u32) -> Option<u16> {
    if c < u32_at(a, 4) || c >= u32_at(a, 8) {
        None
    } else {
        let b = byte_at(a, 12 + (c - u32_at(a, 4)));
        if b == 0 {
            None
        } else {
            Some(b as u16)
        }
    }
}

/// Entry `m` of the sparse alphabet.
pub open spec fn sparse_entry(a: Seq<u8>, m: int) -> u32 {
    u32_at(a, 8 + 4 * m)
}

/// The binary search for `value` among the sparse entries in `[b, e)`: the first index
/// whose entry is at least `value` when the entries ascend.
pub open spec fn sparse_lower_bound(a: Seq<u8>, value: u32, b: int, e: int) -> int
    decreases e - b,
{
    if b >= e {
        b
    } else {
        let m = b + (e - b) / 2;
        if sparse_entry(a, m) >= value {
            sparse_lower_bound(a, value, b, m)
        } else {
            sparse_lower_bound(a, value, m + 1, e)
        }
    }
}

/// The sparse entries ascend over `[b, e)`.
pub open spec fn sparse_sorted(a: Seq<u8>, b: int, e: int) -> bool {
    forall|m1: int, m2: int| b <= m1 <= m2 < e ==> sparse_entry(a, m1) <= sparse_entry(a, m2)
}

/// On ascending entries the binary search finds the lower bound: every entry before
/// the result is below `value`, and every entry from it on is not.
pub proof fn lemma_sparse_lower_bound(a: Seq<u8>, value: u32, b: int, e: int)
    requires
        b <= e,
        sparse_sorted(a, b, e),
    ensures
        b <= sparse_lower_bound(a, value, b, e) <= e,
        forall|m: int| b <= m < sparse_lower_bound(a, value, b, e) ==> sparse_entry(a, m) < value,
        forall|m: int| sparse_lower_bound(a, value, b, e) <= m < e ==> sparse_entry(a, m) >= value,
    decreases e - b,
{
    if b < e {
        let m = b + (e - b) / 2;
        if sparse_entry(a, m) >= value {
            lemma_sparse_lower_bound(a, value, b, m);
        } else {
            lemma_sparse_lower_bound(a, value, m + 1, e);
        }
    }
}

/// The sparse alphabet: entries `(codepoint << 11) | code`, in ascending order.
pub open spec fn sparse_get(a: Seq<u8>, c: u32) -> Option<u16> {
    let n = u32_at(a, 4) as int;
    let r = sparse_lower_bound(a, c << 11u32, 0, n);
    if r == n {
        None
    } else if sparse_entry(a, r) >> 11u32 == c {
        Some((sparse_entry(a, r) & 0x7ff) as u16)
    } else {
        None
    }
}

/// The alphabet's format is one of the two known ones.
pub open spec fn alphabet_known(d: Seq<u8>) -> bool {
    u32_at(alphabet_part(d), 0) == 0 || u32_at(alphabet_part(d), 0) == 1
}

/// The alphabet code of code point `c`, if the table's alphabet holds it.
pub open spec fn alphabet_get(d: Seq<u8>, c: u32) -> Option<u16> {
    let a = alphabet_part(d);
    if u32_at(a, 0) == 0 {
        dense_get(a, c)
    } else if u32_at(a, 0) == 1 {
        sparse_get(a, c)
    } else {
        None
    }
}

/// A right shift that gives zero for shift amounts of 32 or more.
pub open spec fn shr(x: u32, s: u32) -> u32 {
    if s < 32 {
        x >> s
    } else {
        0
    }
}

pub fn shift_right(x: u32, s: u32) -> (r: u32)
    ensures
        r == shr(x, s),
{
    if s < 32 {
        x >> s
    } else {
        0
    }
}

/// Trie entry `idx` of a table.
pub open spec fn trie_entry(d: Seq<u8>, idx: int) -> u32 {
    u32_at(trie_part(d), 24 + 4 * idx)
}

pub open spec fn trie_char_mask(d: Seq<u8>) -> u32 {
    u32_at(trie_part(d), 4)
}

pub open spec fn trie_link_shift(d: Seq<u8>) -> u32 {
    u32_at(trie_part(d), 8)
}

pub open spec fn trie_link_mask(d: Seq<u8>) -> u32 {
    u32_at(trie_part(d), 12)
}

pub open spec fn trie_pattern_shift(d: Seq<u8>) -> u32 {
    u32_at(trie_part(d), 16)
}

/// Packed pattern entry `ix`: length, shift and data offset.
pub open spec fn pattern_entry(d: Seq<u8>, ix: int) -> u32 {
    u32_at(pattern_part(d), 16 + 4 * ix)
}

pub open spec fn entry_len(e: u32) -> u32 {
    e >> 26u32
}

pub open spec fn entry_shift(e: u32) -> u32 {
    (e >> 20u32) & 0x3f
}

/// Score `k` of the pattern with packed entry `e`.
pub open spec fn entry_value(d: Seq<u8>, e: u32, k: int) -> u8 {
    let p = pattern_part(d);
    byte_at(p, u32_at(p, 8) + (e & 0xfffff) + k)
}

/// A reader of the header: magic, version, and where the three parts begin.
pub struct Header<'a> {
    pub data: HyphenationData<'a>,
}

impl<'a> Header<'a> {
    pub fn new(bytes: &'a [u8]) -> (r: Self)
        ensures
            r.data.bytes@ == bytes@,
    {
        Header { data: HyphenationData::new(bytes) }
    }

    /// The alphabet, or `None` when its format is unknown.
    pub fn alphabet_table(&self) -> (r: Option<AlphabetTable<'a>>)
        ensures
            r is Some <==> alphabet_known(self.data.bytes@),
            r matches Some(t) ==> forall|c: u32| #[trigger]
                t.spec_get(c) == alphabet_get(self.data.bytes@, c),
    {
        let offset = self.data.read_u32(8);
        let version = self.data.read_u32(offset as u64);
        proof {
            lemma_tail_u32(self.data.bytes@, offset as int, 0);
        }
        if version == 0 {
            Some(AlphabetTable::Dense(AlphabetTable0::new(self.read_offset_and_slice(8))))
        } else if version == 1 {
            Some(AlphabetTable::Sparse(AlphabetTable1::new(self.read_offset_and_slice(8))))
        } else {
            None
        }
    }

    pub fn trie_table(&self) -> (r: Trie<'a>)
        ensures
            r.data.bytes@ == trie_part(self.data.bytes@),
    {
        Trie::new(self.read_offset_and_slice(12))
    }

    pub fn pattern_table(&self) -> (r: Pattern<'a>)
        ensures
            r.data.bytes@ == pattern_part(self.data.bytes@),
            r.pattern_offset == u32_at(pattern_part(self.data.bytes@), 8),
    {
        Pattern::new(self.read_offset_and_slice(16))
    }

    /// The part of the table that begins where the header field at `offset` says.
    fn read_offset_and_slice(&self, offset: u64) -> (r: &'a [u8])
        requires
            offset <= 16,
        ensures
            r@ == tail(self.data.bytes@, u32_at(self.data.bytes@, offset as int) as int),
    {
        let start = self.data.read_u32(offset);
        self.data.slice_from(start as u64)
    }
}

/// Maps a code point to its alphabet code.
pub trait AlphabetLookup {
    spec fn spec_get(&self, c: u32) -> Option<u16>;

    /// The alphabet code of `c`, if the alphabet holds it.
    fn get_at(&self, c: u32) -> (r: Option<u16>)
        ensures
            r == self.spec_get(c),
    ;

    /// Writes the alphabet codes of `word` into `alpha_codes[1..=len]`, between zero
    /// sentinels, and returns the word's default break type; `DontBreak` as soon as a
    /// character is missing from the alphabet.
    fn lookup(&self, alpha_codes: &mut [u16; 64], word: &[u16], scripts: &[u8]) -> (r:
        HyphenationType)
        requires
            word.len() + 2 <= 64,
            scripts.len() == word.len(),
        ensures
            (r != HyphenationType::DontBreak) <==> (forall|i: int|
                0 <= i < word.len() ==> (#[trigger] self.spec_get(word@[i] as u32)) is Some),
            r != HyphenationType::DontBreak ==> {
                &&& r == word_hyphen_type(scripts@, word.len() as int)
                &&& final(alpha_codes)@[0] == 0
                &&& final(alpha_codes)@[word.len() + 1] == 0
                &&& forall|i: int|
                    0 <= i < word.len() ==> self.spec_get(word@[i] as u32) == Some(
                        #[trigger] final(alpha_codes)@[i + 1],
                    )
            },
    {
        let mut result = HyphenationType::BreakAndInsertHyphen;
        alpha_codes[0] = 0;
        let n = word.len();
        let mut i: usize = 0;
        while i < n
            invariant
                n == word.len(),
                n + 2 <= 64,
                scripts.len() == n,
                0 <= i <= n,
                alpha_codes@[0] == 0,
                result == word_hyphen_type(scripts@, i as int),
                forall|k: int|
                    0 <= k < i ==> self.spec_get(word@[k] as u32) == Some(
                        #[trigger] alpha_codes@[k + 1],
                    ),
            decreases n - i,
        {
            let c = word[i] as u32;
            if let Some(code) = self.get_at(c) {
                alpha_codes[i + 1] = code;
            } else {
                proof {
                    lemma_word_hyphen_type_breaks(scripts@, word.len() as int);
                }
                return HyphenationType::DontBreak;
            }
            if result == HyphenationType::BreakAndInsertHyphen {
                result = crate::hyphenator::Hyphenator::hyphenation_type_based_on_script(scripts[i]);
            }
            i += 1;
        }
        alpha_codes[n + 1] = 0;
        proof {
            lemma_word_hyphen_type_breaks(scripts@, n as int);
            assert forall|k: int| 0 <= k < word.len() implies (#[trigger] self.spec_get(
                word@[k] as u32,
            )) is Some by {
                assert(self.spec_get(word@[k] as u32) == Some(alpha_codes@[k + 1]));
            }
        }
        result
    }
}

/// The break type of the first character in `scripts[..n]` whose script asks for
/// something other than a plain hyphen; a plain hyphen if none does.
pub open spec fn word_hyphen_type(scripts: Seq<u8>, n: int) -> HyphenationType
    decreases n,
{
    if n <= 0 {
        HyphenationType::BreakAndInsertHyphen
    } else if word_hyphen_type(scripts, n - 1) == HyphenationType::BreakAndInsertHyphen {
        type_for_script(scripts[n - 1])
    } else {
        word_hyphen_type(scripts, n - 1)
    }
}

pub proof fn lemma_word_hyphen_type_breaks(scripts: Seq<u8>, n: int)
    ensures
        word_hyphen_type(scripts, n) != HyphenationType::DontBreak,
        type_for_script(scripts[n]) != HyphenationType::DontBreak,
    decreases n,
{
    if n > 0 {
        lemma_word_hyphen_type_breaks(scripts, n - 1);
    }
}

/// The dense alphabet, for alphabets whose code points span fewer than 1024 values.
pub struct AlphabetTable0<'a> {
    pub data: HyphenationData<'a>,
    pub min_codepoint: u32,
    pub max_codepoint: u32,
}

impl<'a> AlphabetTable0<'a> {
    pub fn new(bytes: &'a [u8]) -> (r: Self)
        ensures
            r.data.bytes@ == bytes@,
            r.min_codepoint == u32_at(bytes@, 4),
            r.max_codepoint == u32_at(bytes@, 8),
    {
        let data = HyphenationData::new(bytes);
        let min_codepoint = data.read_u32(4);
        let max_codepoint = data.read_u32(8);
        AlphabetTable0 { data, min_codepoint, max_codepoint }
    }
}

impl<'a> AlphabetLookup for AlphabetTable0<'a> {
    open spec fn spec_get(&self, c: u32) -> Option<u16> {
        if c < self.min_codepoint || c >= self.max_codepoint {
            None
        } else {
            let b = byte_at(self.data.bytes@, 12 + (c - self.min_codepoint));
            if b == 0 {
                None
            } else {
                Some(b as u16)
            }
        }
    }

    fn get_at(&self, c: u32) -> (r: Option<u16>) {
        if c < self.min_codepoint || c >= self.max_codepoint {
            None
        } else {
            let code = self.data.read_u8((c - self.min_codepoint) as u64 + 12) as u16;
            if code == 0 {
                None
            } else {
                Some(code)
            }
        }
    }
}

/// The sparse alphabet: a sorted list of packed entries.
pub struct AlphabetTable1<'a> {
    pub data: HyphenationData<'a>,
    pub num_entries: u32,
}

impl<'a> AlphabetTable1<'a> {
    pub fn new(bytes: &'a [u8]) -> (r: Self)
        ensures
            r.data.bytes@ == bytes@,
            r.num_entries == u32_at(bytes@, 4),
    {
        let data = HyphenationData::new(bytes);
        let num_entries = data.read_u32(4);
        AlphabetTable1 { data, num_entries }
    }

    /// Binary search: the first entry not below `value` when the entries ascend, or
    /// `None` when the search ends past the last entry.
    fn lower_bounds(&self, value: u32) -> (r: Option<u32>)
        ensures
            ({
                let n = self.num_entries as int;
                let p = sparse_lower_bound(self.data.bytes@, value, 0, n);
                &&& r is None <==> p == n
                &&& r matches Some(i) ==> i == p
            }),
    {
        let mut b: u32 = 0;
        let mut e: u32 = self.num_entries;
        while b != e
            invariant
                b <= e <= self.num_entries,
                sparse_lower_bound(self.data.bytes@, value, b as int, e as int)
                    == sparse_lower_bound(self.data.bytes@, value, 0, self.num_entries as int),
            decreases e - b,
        {
            let m = b + (e - b) / 2;
            let c = self.data.read_u32(8 + m as u64 * 4);
            if c >= value {
                e = m;
            } else {
                b = m + 1;
            }
        }
        if b == self.num_entries {
            None
        } else {
            Some(b)
        }
    }
}

impl<'a> AlphabetLookup for AlphabetTable1<'a> {
    open spec fn spec_get(&self, c: u32) -> Option<u16> {
        let n = self.num_entries as int;
        let a = self.data.bytes@;
        let r = sparse_lower_bound(a, c << 11u32, 0, n);
        if r == n {
            None
        } else if sparse_entry(a, r) >> 11u32 == c {
            Some((sparse_entry(a, r) & 0x7ff) as u16)
        } else {
            None
        }
    }

    fn get_at(&self, c: u32) -> (r: Option<u16>) {
        if let Some(r) = self.lower_bounds(c << 11) {
            let entry = AlphabetTable1Entry::new(self.data.read_u32(8 + r as u64 * 4));
            if entry.codepoint() == c {
                Some(entry.value())
            } else {
                None
            }
        } else {
            None
        }
    }
}

/// A packed sparse-alphabet entry: code point in the high 21 bits, code in the low 11.
pub struct AlphabetTable1Entry {
    pub entry: u32,
}

impl AlphabetTable1Entry {
    pub fn new(entry_value: u32) -> (r: Self)
        ensures
            r.entry == entry_value,
    {
        AlphabetTable1Entry { entry: entry_value }
    }

    pub fn codepoint(&self) -> (r: u32)
        ensures
            r == self.entry >> 11u32,
    {
        self.entry >> 11
    }

    pub fn value(&self) -> (r: u16)
        ensures
            r == (self.entry & 0x7ff) as u16,
            r < 2048,
    {
        let e = self.entry;
        let v = e & 0x7ff;
        assert(e & 0x7ff <= 0x7ff) by (bit_vector);
        v as u16
    }
}

/// One of the two alphabet formats.
pub enum AlphabetTable<'a> {
    Dense(AlphabetTable0<'a>),
    Sparse(AlphabetTable1<'a>),
}

impl<'a> AlphabetLookup for AlphabetTable<'a> {
    open spec fn spec_get(&self, c: u32) -> Option<u16> {
        match self {
            AlphabetTable::Dense(t) => t.spec_get(c),
            AlphabetTable::Sparse(t) => t.spec_get(c),
        }
    }

    fn get_at(&self, c: u32) -> (r: Option<u16>) {
        match self {
            AlphabetTable::Dense(t) => t.get_at(c),
            AlphabetTable::Sparse(t) => t.get_at(c),
        }
    }
}

/// A reader of the trie: masks and shifts that unpack its entries, then the entries.
pub struct Trie<'a> {
    pub data: HyphenationData<'a>,
}

impl<'a> Trie<'a> {
    pub fn new(bytes: &'a [u8]) -> (r: Self)
        ensures
            r.data.bytes@ == bytes@,
    {
        Trie { data: HyphenationData::new(bytes) }
    }

    /// Entry `offset`; the child of `node` for code `c` is at `node + c`.
    pub fn get_at(&self, offset: u64) -> (r: u32)
        requires
            offset <= 0x1_0000_0000_0000,
        ensures
            r == u32_at(self.data.bytes@, 24 + 4 * offset),
    {
        self.data.read_u32(24 + offset * 4)
    }

    /// Mask of the code of an entry: `entry & char_mask`.
    pub fn char_mask(&self) -> (r: u32)
        ensures
            r == u32_at(self.data.bytes@, 4),
    {
        self.data.read_u32(4)
    }

    /// Next node of an entry: `(entry & link_mask) >> link_shift`.
    pub fn link_shift(&self) -> (r: u32)
        ensures
            r == u32_at(self.data.bytes@, 8),
    {
        self.data.read_u32(8)
    }

    pub fn link_mask(&self) -> (r: u32)
        ensures
            r == u32_at(self.data.bytes@, 12),
    {
        self.data.read_u32(12)
    }

    /// Pattern index of a node: `entry >> pattern_shift`.
    pub fn pattern_shift(&self) -> (r: u32)
        ensures
            r == u32_at(self.data.bytes@, 16),
    {
        self.data.read_u32(16)
    }
}

/// A reader of the patterns: packed entries and the score bytes they point to.
pub struct Pattern<'a> {
    pub data: HyphenationData<'a>,
    pub pattern_offset: u32,
}

impl<'a> Pattern<'a> {
    pub fn new(bytes: &'a [u8]) -> (r: Self)
        ensures
            r.data.bytes@ == bytes@,
            r.pattern_offset == u32_at(bytes@, 8),
    {
        let data = HyphenationData::new(bytes);
        let pattern_offset = data.read_u32(8);
        Pattern { data, pattern_offset }
    }

    pub fn entry_at(&self, offset: u32) -> (r: PatternEntry<'a>)
        ensures
            r.data.bytes@ == self.data.bytes@,
            r.pattern_offset == self.pattern_offset,
            r.entry == u32_at(self.data.bytes@, 16 + 4 * offset),
    {
        let entry = self.data.read_u32(16 + offset as u64 * 4);
        PatternEntry::new(self.data.bytes, self.pattern_offset, entry)
    }
}

/// One pattern: length in the top 6 bits, shift in the next 6, data offset in the low 20.
pub struct PatternEntry<'a> {
    pub data: HyphenationData<'a>,
    pub pattern_offset: u32,
    pub entry: u32,
}

impl<'a> PatternEntry<'a> {
    pub fn new(bytes: &'a [u8], pattern_offset: u32, entry: u32) -> (r: Self)
        ensures
            r.data.bytes@ == bytes@,
            r.pattern_offset == pattern_offset,
            r.entry == entry,
    {
        PatternEntry { data: HyphenationData::new(bytes), pattern_offset, entry }
    }

    /// The number of scores.
    pub fn len(&self) -> (r: u32)
        ensures
            r == entry_len(self.entry),
            r < 64,
    {
        let e = self.entry;
        assert(e >> 26u32 < 64) by (bit_vector);
        e >> 26
    }

    /// How many zero scores follow the stored ones.
    pub fn shift(&self) -> (r: u32)
        ensures
            r == entry_shift(self.entry),
            r < 64,
    {
        let e = self.entry;
        assert((e >> 20u32) & 0x3f < 64) by (bit_vector);
        (e >> 20) & 0x3f
    }

    /// Score `offset` of this pattern.
    pub fn value_at(&self, offset: u32) -> (r: u8)
        ensures
            r == byte_at(
                self.data.bytes@,
                self.pattern_offset + (self.entry & 0xfffff) + offset,
            ),
    {
        self.data.read_u8(self.pattern_offset as u64 + (self.entry & 0xfffff) as u64 + offset as u64)
    }
}

} // verus!
