//! Calls into the font parser and the system font resolver.

use vstd::prelude::*;

verus! {

#[verifier::external_type_specification]
#[verifier::external_body]
pub struct ExFont<'a>(rusttype::Font<'a>);

/// Whether the bytes are a font that the parser accepts.
pub uninterp spec fn font_parses(data: Seq<u8>) -> bool;

/// Relies on rusttype::Font::try_from_vec: `Some` exactly for data it can parse,
/// which depends on the bytes alone.
#[verifier::external_body]
pub(crate) fn parse_font(data: Vec<u8>) -> (r: Option<rusttype::Font<'static>>)
    ensures
        r.is_some() == font_parses(data@),
{
    rusttype::Font::try_from_vec(data)
}

/// Relies on fontconfig's Fontconfig::new and Fontconfig::find: the path of the
/// file that the system configuration matches to a family name, if any. What
/// comes back depends on the machine, so nothing is stated of it.
#[verifier::external_body]
pub(crate) fn system_font_path(name: &str) -> (r: Option<String>) {
    let fc = fontconfig::Fontconfig::new()?;
    let font = fc.find(name, None).ok()?;
    font.path.to_str().map(|p| p.to_string())
}

} // verus!
