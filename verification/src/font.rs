//! Glyph lookup in the fixed 8x8 bitmap font table.

use vstd::prelude::*;

verus! {

/// The 8x8 bitmap that the basic font table assigns to a character, where it
/// has one: row-major, one byte per row; bit `k` of a row byte is column `k`.
pub uninterp spec fn glyph_of(c: char) -> Option<Seq<u8>>;

/// Relies on `font8x8::BASIC_FONTS.get`: a binary search in a fixed,
/// 128-entry table that covers exactly the Basic Latin characters
/// U+0000 through U+007F; the result depends on the character alone.
#[verifier::external_body]
pub(crate) fn glyph_lookup(c: char) -> (r: Option<[u8; 8]>)
    ensures
        r is Some <==> glyph_of(c) is Some,
        r is Some <==> (c as u32) < 128,
        r matches Some(g) ==> glyph_of(c) == Some(g@),
{
    font8x8::UnicodeFonts::get(&font8x8::BASIC_FONTS, c)
}

} // verus!
