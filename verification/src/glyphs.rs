//! Fonts as plain values: styles, and sheets of rasterised glyphs.
//!
//! Lengths along a line are counted in ten-thousandths of a pixel, font sizes in hundredths, so
//! that 0.6 em advances, 1.3 em lines and 0.35 em strike heights are whole numbers.

use vstd::prelude::*;

verus! {

/// Which face to set text in.
#[derive(Debug, Clone, Copy, PartialEq, Eq, Structural)]
pub enum FontStyle {
    Regular,
    Bold,
    Italic,
}

/// Font face and size of a span of text.
#[derive(Debug, Clone, Copy, PartialEq, Eq, Structural)]
pub struct Style {
    pub font: FontStyle,
    /// Size in hundredths of a pixel.
    pub size: u32,
    /// Draw a 2 px strikethrough line across the span.
    pub strike: bool,
}

impl Style {
    /// A plain (non-struck) style with the given face and size.
    pub fn new(font: FontStyle, size: u32) -> (r: Style)
        ensures
            r == plain_style(font, size),
    {
        Style { font, size, strike: false }
    }
}

/// A style without a strikethrough line.
pub open spec fn plain_style(font: FontStyle, size: u32) -> Style {
    Style { font, size, strike: false }
}

impl Default for Style {
    /// Regular face, 24 px, no strikethrough.
    fn default() -> (r: Style)
        ensures
            r == plain_style(FontStyle::Regular, 2400),
    {
        Style { font: FontStyle::Regular, size: 2400, strike: false }
    }
}

/// A rasterised glyph.
#[derive(Debug)]
pub struct Glyph {
    /// How far the pen moves, in ten-thousandths of a pixel.
    pub advance: u32,
    /// Pixels from the pen to the bitmap's left edge.
    pub xmin: i32,
    /// Pixels from the baseline up to the bitmap's bottom edge.
    pub ymin: i32,
    /// Width of the bitmap.
    pub width: u32,
    /// Height of the bitmap.
    pub height: u32,
    /// How much of each pixel the glyph covers (of 255), row by row.
    pub coverage: Vec<u8>,
}

/// What a sheet holds: glyphs by character, face and size, and ascents by face and size.
pub struct SheetView {
    pub glyphs: Map<(char, FontStyle, u32), Glyph>,
    pub ascents: Map<(FontStyle, u32), u32>,
}

impl SheetView {
    /// The glyph that draws `ch` in `style`, if the sheet has one.
    pub open spec fn glyph(self, ch: char, style: Style) -> Option<Glyph> {
        let key = (ch, style.font, style.size);
        if self.glyphs.dom().contains(key) {
            Some(self.glyphs[key])
        } else {
            None
        }
    }

    /// How far the pen moves for `ch`; a glyph that the sheet lacks takes no room.
    pub open spec fn advance(self, ch: char, style: Style) -> nat {
        match self.glyph(ch, style) {
            Some(glyph) => glyph.advance as nat,
            None => 0,
        }
    }

    /// The height of a face above the baseline; a face that the sheet lacks is as high as its size.
    pub open spec fn ascent(self, style: Style) -> nat {
        let key = (style.font, style.size);
        if self.ascents.dom().contains(key) {
            self.ascents[key] as nat
        } else {
            (100 * style.size) as nat
        }
    }
}

struct GlyphEntry {
    ch: char,
    font: FontStyle,
    size: u32,
    glyph: Glyph,
}

struct AscentEntry {
    font: FontStyle,
    size: u32,
    ascent: u32,
}

spec fn glyph_map(entries: Seq<GlyphEntry>) -> Map<(char, FontStyle, u32), Glyph>
    decreases entries.len(),
{
    if entries.len() == 0 {
        Map::empty()
    } else {
        let e = entries.last();
        glyph_map(entries.drop_last()).insert((e.ch, e.font, e.size), e.glyph)
    }
}

spec fn ascent_map(entries: Seq<AscentEntry>) -> Map<(FontStyle, u32), u32>
    decreases entries.len(),
{
    if entries.len() == 0 {
        Map::empty()
    } else {
        let e = entries.last();
        ascent_map(entries.drop_last()).insert((e.font, e.size), e.ascent)
    }
}

/// The glyphs and ascents a text is set with.
pub struct GlyphSheet {
    glyphs: Vec<GlyphEntry>,
    ascents: Vec<AscentEntry>,
}

impl View for GlyphSheet {
    type V = SheetView;

    closed spec fn view(&self) -> SheetView {
        SheetView { glyphs: glyph_map(self.glyphs@), ascents: ascent_map(self.ascents@) }
    }
}

impl GlyphSheet {
    /// A sheet without glyphs.
    pub fn new() -> (r: GlyphSheet)
        ensures
            r@.glyphs == Map::<(char, FontStyle, u32), Glyph>::empty(),
            r@.ascents == Map::<(FontStyle, u32), u32>::empty(),
    {
        GlyphSheet { glyphs: Vec::new(), ascents: Vec::new() }
    }

    /// Adds a glyph, in place of an earlier one for the same character, face and size.
    pub fn insert(&mut self, ch: char, font: FontStyle, size: u32, glyph: Glyph)
        ensures
            final(self)@.glyphs == old(self)@.glyphs.insert((ch, font, size), glyph),
            final(self)@.ascents == old(self)@.ascents,
    {
        let ghost before = self.glyphs@;
        self.glyphs.push(GlyphEntry { ch, font, size, glyph });
        assert(self.glyphs@.drop_last() =~= before);
    }

    /// Sets the ascent of a face, in ten-thousandths of a pixel.
    pub fn set_ascent(&mut self, font: FontStyle, size: u32, ascent: u32)
        ensures
            final(self)@.ascents == old(self)@.ascents.insert((font, size), ascent),
            final(self)@.glyphs == old(self)@.glyphs,
    {
        let ghost before = self.ascents@;
        self.ascents.push(AscentEntry { font, size, ascent });
        assert(self.ascents@.drop_last() =~= before);
    }

    /// The glyph that draws `ch` in `style`, if the sheet has one.
    pub fn glyph(&self, ch: char, style: Style) -> (r: Option<&Glyph>)
        ensures
            match r {
                Some(glyph) => self@.glyph(ch, style) == Some(*glyph),
                None => self@.glyph(ch, style) is None,
            },
    {
        let mut i: usize = self.glyphs.len();
        assert(self.glyphs@.take(i as int) =~= self.glyphs@);
        while i > 0
            invariant
                i <= self.glyphs@.len(),
                self@.glyph(ch, style) == (SheetView {
                    glyphs: glyph_map(self.glyphs@.take(i as int)),
                    ascents: self@.ascents,
                }).glyph(ch, style),
            decreases i,
        {
            i -= 1;
            assert(self.glyphs@.take(i + 1).drop_last() =~= self.glyphs@.take(i as int));
            let entry = &self.glyphs[i];
            if entry.ch == ch && entry.font == style.font && entry.size == style.size {
                return Some(&entry.glyph);
            }
        }
        None
    }

    /// How far the pen moves for `ch`.
    pub fn advance(&self, ch: char, style: Style) -> (r: u32)
        ensures
            r == self@.advance(ch, style),
    {
        match self.glyph(ch, style) {
            Some(glyph) => glyph.advance,
            None => 0,
        }
    }

    /// The height of a face above the baseline.
    pub fn ascent(&self, style: Style) -> (r: u64)
        ensures
            r == self@.ascent(style),
    {
        let mut i: usize = self.ascents.len();
        assert(self.ascents@.take(i as int) =~= self.ascents@);
        while i > 0
            invariant
                i <= self.ascents@.len(),
                self@.ascent(style) == (SheetView {
                    glyphs: self@.glyphs,
                    ascents: ascent_map(self.ascents@.take(i as int)),
                }).ascent(style),
            decreases i,
        {
            i -= 1;
            assert(self.ascents@.take(i + 1).drop_last() =~= self.ascents@.take(i as int));
            let entry = &self.ascents[i];
            if entry.font == style.font && entry.size == style.size {
                return entry.ascent as u64;
            }
        }
        100 * style.size as u64
    }
}

/// A glyph is found under its character, face and size, and nothing else is changed by adding it;
/// whether text is struck makes no difference. Its advance is what it says.
pub proof fn law_glyphs_are_found(
    sheet: SheetView,
    ch: char,
    style: Style,
    glyph: Glyph,
    other: char,
    style2: Style,
)
    ensures
        ({
            let more = SheetView {
                glyphs: sheet.glyphs.insert((ch, style.font, style.size), glyph),
                ..sheet
            };
            &&& more.glyph(ch, style) == Some(glyph)
            &&& more.advance(ch, style) == glyph.advance
            &&& (other, style2.font, style2.size) != (ch, style.font, style.size) ==> more.glyph(
                other,
                style2,
            ) == sheet.glyph(other, style2)
            &&& sheet.glyph(other, style2) is None ==> sheet.advance(other, style2) == 0
        }),
{
}

/// A face's ascent is found under its face and size, and is the size itself where there is none.
pub proof fn law_ascents_are_found(sheet: SheetView, style: Style, ascent: u32, other: Style)
    ensures
        ({
            let more = SheetView {
                ascents: sheet.ascents.insert((style.font, style.size), ascent),
                ..sheet
            };
            &&& more.ascent(style) == ascent
            &&& (other.font, other.size) != (style.font, style.size) ==> more.ascent(other)
                == sheet.ascent(other)
            &&& !sheet.ascents.dom().contains((other.font, other.size)) ==> sheet.ascent(other)
                == 100 * other.size
        }),
{
}

} // verus!
