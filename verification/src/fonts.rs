use vstd::prelude::*;

verus! {

/// A parsed font of the fontdue crate.
#[verifier::external_type_specification]
#[verifier::external_body]
pub struct ExFont(fontdue::Font);

/// Whether fontdue parses `bytes` as a font with its default settings.
pub uninterp spec fn font_parses(bytes: Seq<u8>) -> bool;

/// Parses `bytes` with `fontdue::Font::from_bytes` and the default font
/// settings. The contract claims that whether a font comes back depends on
/// the bytes alone, as the name [`font_parses`] says; nothing is claimed of
/// the font itself.
#[verifier::external_body]
pub(crate) fn parse_font(bytes: &[u8]) -> (r: Option<fontdue::Font>)
    ensures
        r is Some == font_parses(bytes@),
{
    fontdue::Font::from_bytes(bytes, fontdue::FontSettings::default()).ok()
}

} // verus!
