//! Which font face draws a character.
//!
//! The faces are `fontdue` fonts. Their metrics and coverages are floating-point, so rasterising
//! is left to the caller, who fills a [`GlyphSheet`](crate::glyphs::GlyphSheet).

use fontdue::Font;
use vstd::prelude::*;

use crate::glyphs::FontStyle;

verus! {

/// A parsed font; only its character map is spoken of here.
#[verifier::external_type_specification]
#[verifier::external_body]
pub struct ExFont(fontdue::Font);

/// The characters a font has glyphs for, with their glyph indices.
pub uninterp spec fn font_glyphs(font: fontdue::Font) -> Map<char, u16>;

/// `fontdue::Font::lookup_glyph_index` looks the character up in the font's character map, which
/// holds no index 0, and returns 0 for a character that is not in it.
pub assume_specification[ fontdue::Font::lookup_glyph_index ](
    font: &fontdue::Font,
    character: char,
) -> (index: u16)
    ensures
        font_glyphs(*font).dom().contains(character) ==> index == font_glyphs(*font)[character]
            && index != 0,
        !font_glyphs(*font).dom().contains(character) ==> index == 0,
;

/// Whether the font has a glyph for `ch`.
pub open spec fn has_glyph(font: Font, ch: char) -> bool {
    font_glyphs(font).dom().contains(ch)
}

/// The faces a text is drawn with: one per style, and a fallback for characters they lack.
pub struct Faces {
    pub regular: Font,
    pub bold: Font,
    pub italic: Font,
    /// A single CJK face for all styles, if there is one.
    pub cjk: Option<Font>,
}

impl Faces {
    /// The face of a style.
    pub open spec fn of(self, style: FontStyle) -> Font {
        match style {
            FontStyle::Regular => self.regular,
            FontStyle::Bold => self.bold,
            FontStyle::Italic => self.italic,
        }
    }

    /// The face that draws `ch`: the style's own where it has the glyph, else the fallback where
    /// that has it, else the style's own with its box for a missing glyph.
    pub open spec fn drawing(self, ch: char, style: FontStyle) -> Font {
        match self.cjk {
            Some(cjk) => if !has_glyph(self.of(style), ch) && has_glyph(cjk, ch) {
                cjk
            } else {
                self.of(style)
            },
            None => self.of(style),
        }
    }

    /// The face of a style. Line metrics come from it, even where the fallback draws the glyph.
    pub fn font_for(&self, style: FontStyle) -> (r: &Font)
        ensures
            *r == self.of(style),
    {
        match style {
            FontStyle::Regular => &self.regular,
            FontStyle::Bold => &self.bold,
            FontStyle::Italic => &self.italic,
        }
    }

    /// The face that actually draws `ch`; glyph metrics have to come from it too.
    pub fn face_for(&self, ch: char, style: FontStyle) -> (r: &Font)
        ensures
            *r == self.drawing(ch, style),
    {
        let latin = self.font_for(style);
        if latin.lookup_glyph_index(ch) != 0 {
            return latin;
        }
        match &self.cjk {
            Some(cjk) => if cjk.lookup_glyph_index(ch) != 0 {
                cjk
            } else {
                latin
            },
            None => latin,
        }
    }
}

/// A character that a style's face has is drawn by that face, whatever the fallback holds.
pub proof fn law_own_glyph_wins(faces: Faces, ch: char, style: FontStyle)
    requires
        has_glyph(faces.of(style), ch),
    ensures
        faces.drawing(ch, style) == faces.of(style),
{
}

/// Fallback text looks the same in every style: there is one fallback face.
pub proof fn law_fallback_ignores_style(faces: Faces, ch: char, a: FontStyle, b: FontStyle)
    requires
        faces.cjk is Some,
        has_glyph(faces.cjk->0, ch),
        !has_glyph(faces.of(a), ch),
        !has_glyph(faces.of(b), ch),
    ensures
        faces.drawing(ch, a) == faces.drawing(ch, b),
{
}

/// Regular, bold and italic text is drawn by the regular, the bold and the italic face, except for
/// the characters that the face lacks and the fallback has: the fallback draws those.
pub proof fn law_faces_of_text(faces: Faces, ch: char)
    ensures
        ({
            let fallen = |own: Font| faces.cjk is Some && !has_glyph(own, ch) && has_glyph(
                faces.cjk->0,
                ch,
            );
            let regular = faces.drawing(ch, FontStyle::Regular);
            let bold = faces.drawing(ch, FontStyle::Bold);
            let italic = faces.drawing(ch, FontStyle::Italic);
            &&& faces.of(FontStyle::Regular) == faces.regular
            &&& faces.of(FontStyle::Bold) == faces.bold
            &&& faces.of(FontStyle::Italic) == faces.italic
            &&& !fallen(faces.regular) ==> regular == faces.regular
            &&& !fallen(faces.bold) ==> bold == faces.bold
            &&& !fallen(faces.italic) ==> italic == faces.italic
            &&& fallen(faces.regular) ==> regular == faces.cjk->0
            &&& fallen(faces.bold) ==> bold == faces.cjk->0
            &&& fallen(faces.italic) ==> italic == faces.cjk->0
        }),
{
}


} // verus!
