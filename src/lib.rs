//! Knuth–Liang hyphenation over a precompiled binary pattern table, with the script
//! and locale rules that decide how each break is rendered.
//!
//! The caller supplies, for each code unit of a word, its script and its joining type;
//! [`Hyphenator::hyphenate`] then fills one [`HyphenationType`] byte per position.
use vstd::prelude::*;

pub mod blob;
pub mod hyphenator;
pub mod laws;
pub mod types;

pub use crate::hyphenator::Hyphenator;
pub use crate::types::{HyphenationLocale, HyphenationType};

verus! {

/// A hyphenator on the heap, for callers that need to own one through a pointer.
pub fn load_hyphenator(data: &'static [u8], min_prefix: u32, min_suffix: u32, locale: String) -> (r:
    Box<Hyphenator>)
    ensures
        r.data == data,
        r.min_prefix == min_prefix,
        r.min_suffix == min_suffix,
        r.locale == hyphenator::locale_of(locale@),
        r.portuguese_preference,
{
    Box::new(Hyphenator::new(data, min_prefix, min_suffix, locale.as_str()))
}

/// [`Hyphenator::hyphenate`] as a free function.
pub fn hyphenate(hyphenator: &Hyphenator, word: &[u16], scripts: &[u8], joining_types: &[u8], out: &mut [u8])
    requires
        old(out)@.len() == word@.len(),
        scripts@.len() == word@.len(),
        joining_types@.len() == word@.len(),
    ensures
        final(out)@ == hyphenator::hyphenation(*hyphenator, word@, scripts@, joining_types@),
{
    hyphenator.hyphenate(word, scripts, joining_types, out);
}

} // verus!
