//! Styled text to 1-bit bitmap: mixed faces and sizes per line, wrapped and aligned.

use vstd::prelude::*;

use crate::bitmap::{blank_rows, ink, painted, pixel, rectangular, Bitmap, WIDTH};
use crate::glyphs::{plain_style, FontStyle, Glyph, GlyphSheet, SheetView, Style};
use crate::layout::{
    advances, blank_line, laid_out, law_characters_are_set_as_they_come, law_normalized_text,
    law_runs_keep_their_style, law_text_stays_within_the_room, law_text_that_fits_is_not_wrapped,
    law_wrapped_lines_keep_the_indent, law_wrapping_keeps_what_is_placed, lay_out, line_views,
    normalized, normalized_chars, room, styled, styled_chars, LaidLine, Layout, LineView, Page,
    RichLine, Span, SpanView,
};
use crate::text::{char_views, split, split_on, split_runs, text_of};

verus! {

/// Horizontal placement within the line's available width after wrapping.
#[derive(Debug, Clone, Copy, PartialEq, Eq, Structural)]
pub enum Alignment {
    Left,
    Center,
    Right,
}

impl Default for Alignment {
    /// Text is left-aligned unless told otherwise.
    fn default() -> (r: Alignment)
        ensures
            r == Alignment::Left,
    {
        Alignment::Left
    }
}

/// The height of a rendered line: 1.3 times the largest size on it.
pub open spec fn line_height(line: LaidLine) -> nat {
    if line.max_size == 0 {
        (130 * line.default_size) as nat
    } else {
        (130 * line.max_size) as nat
    }
}

/// Where rendered line `k` begins.
pub open spec fn line_top(lines: Seq<LaidLine>, k: int) -> nat
    decreases k,
{
    if k <= 0 {
        0
    } else {
        line_top(lines, k - 1) + line_height(lines[k - 1])
    }
}

/// The height of the page in pixels, rounded up.
pub open spec fn page_height(lines: Seq<LaidLine>) -> nat {
    ((line_top(lines, lines.len() as int) + 9999) / 10000) as nat
}

/// A length in pixels, rounded to the nearest, halves away from zero.
pub open spec fn rounded(u: int) -> int {
    if u >= 0 {
        (u + 5000) / 10000
    } else {
        -((5000 - u) / 10000)
    }
}

/// How many pixels a line moves right to be aligned: half the spare room or all of it, rounded
/// down.
pub open spec fn shift(line: LaidLine, alignment: Alignment) -> int {
    let spare = room(line.indent) - line.width;
    if spare <= 0 {
        0
    } else {
        match alignment {
            Alignment::Left => 0,
            Alignment::Center => spare / 20000,
            Alignment::Right => spare / 10000,
        }
    }
}

/// Whether the glyph's bitmap is black in column `col` of row `row`: at least half covered.
pub open spec fn covers(glyph: Glyph, col: int, row: int) -> bool {
    &&& 0 <= col < glyph.width
    &&& 0 <= row < glyph.height
    &&& row * glyph.width + col < glyph.coverage@.len()
    &&& glyph.coverage@[row * glyph.width + col] >= 128
}

/// Whether glyph `k` of a page blackens the pixel `(x, y)`: by its bitmap, or by the bar that a
/// struck style draws across its advance, 0.35 times the size above the baseline.
pub open spec fn glyph_inks(
    page: Layout,
    sheet: SheetView,
    alignment: Alignment,
    k: int,
    x: int,
    y: int,
) -> bool {
    let g = page.glyphs[k];
    let line = page.lines[g.line as int];
    let baseline = line_top(page.lines, g.line as int) + line.ascent;
    let origin = g.pen + 10000 * shift(line, alignment);
    ||| match sheet.glyph(g.ch, g.style) {
        Some(glyph) => covers(
            glyph,
            x - (line.indent + rounded(origin + 10000 * glyph.xmin)),
            y - (rounded(baseline - 10000 * glyph.ymin) - glyph.height),
        ),
        None => false,
    }
    ||| {
        let top = rounded(baseline - 35 * g.style.size);
        &&& g.style.strike
        &&& top <= y < top + 2
        &&& line.indent + rounded(origin) <= x
        &&& x < line.indent + rounded(origin + sheet.advance(g.ch, g.style))
    }
}

/// Whether any glyph of a page blackens the pixel `(x, y)`.
pub open spec fn page_inks(
    page: Layout,
    sheet: SheetView,
    alignment: Alignment,
    x: int,
    y: int,
) -> bool {
    exists|k: int|
        0 <= k < page.glyphs.len() && #[trigger] glyph_inks(page, sheet, alignment, k, x, y)
}

/// The rows that styled lines render to.
pub open spec fn rich_rows(
    lines: Seq<LineView>,
    sheet: SheetView,
    alignment: Alignment,
) -> Seq<Seq<bool>> {
    let page = laid_out(lines, sheet);
    painted(
        page_height(page.lines),
        |x: int, y: int| page_inks(page, sheet, alignment, x, y),
    )
}

/// Blits a glyph with its bitmap's top left corner at `(x0, y0)`.
fn stamp(bitmap: &mut Bitmap, glyph: &Glyph, x0: i128, y0: i128)
    requires
        rectangular(old(bitmap)@),
        -0x1_0000_0000_0000_0000_0000_0000_0000 < x0 < 0x1_0000_0000_0000_0000_0000_0000_0000,
        -0x1_0000_0000_0000_0000_0000_0000_0000 < y0 < 0x1_0000_0000_0000_0000_0000_0000_0000,
    ensures
        rectangular(final(bitmap)@),
        final(bitmap)@.len() == old(bitmap)@.len(),
        forall|i: int, j: int|
            0 <= i < WIDTH && 0 <= j < old(bitmap)@.len() ==> #[trigger] pixel(final(bitmap)@, i, j)
                == (pixel(old(bitmap)@, i, j) || covers(*glyph, i - x0, j - y0)),
{
    let ghost rows = bitmap@;
    let mut row: u32 = 0;
    while row < glyph.height
        invariant
            row <= glyph.height,
            -0x1_0000_0000_0000_0000_0000_0000_0000 < x0 < 0x1_0000_0000_0000_0000_0000_0000_0000,
            -0x1_0000_0000_0000_0000_0000_0000_0000 < y0 < 0x1_0000_0000_0000_0000_0000_0000_0000,
            rectangular(bitmap@),
            bitmap@.len() == rows.len(),
            forall|i: int, j: int|
                0 <= i < WIDTH && 0 <= j < rows.len() ==> #[trigger] pixel(bitmap@, i, j) == (pixel(
                    rows,
                    i,
                    j,
                ) || (covers(*glyph, i - x0, j - y0) && j - y0 < row)),
        decreases glyph.height - row,
    {
        let mut col: u32 = 0;
        while col < glyph.width
            invariant
                row < glyph.height,
                col <= glyph.width,
                -0x1_0000_0000_0000_0000_0000_0000_0000 < x0
                    < 0x1_0000_0000_0000_0000_0000_0000_0000,
                -0x1_0000_0000_0000_0000_0000_0000_0000 < y0
                    < 0x1_0000_0000_0000_0000_0000_0000_0000,
                rectangular(bitmap@),
                bitmap@.len() == rows.len(),
                forall|i: int, j: int|
                    0 <= i < WIDTH && 0 <= j < rows.len() ==> #[trigger] pixel(bitmap@, i, j) == (
                    pixel(rows, i, j) || (covers(*glyph, i - x0, j - y0) && (j - y0 < row || (j - y0
                        == row && i - x0 < col)))),
            decreases glyph.width - col,
        {
            assert(row * glyph.width <= 0xffff_ffff * 0xffff_ffff) by (nonlinear_arith)
                requires
                    0 <= row <= 0xffff_ffff,
                    0 <= glyph.width <= 0xffff_ffff,
            ;
            let index: u128 = row as u128 * glyph.width as u128 + col as u128;
            if index < glyph.coverage.len() as u128 && glyph.coverage[index as usize] >= 128 {
                ink(bitmap, x0 + col as i128, y0 + row as i128);
            }
            col += 1;
        }
        row += 1;
    }
}

/// Draws a 2 px bar from `x_start` up to `x_end`, its top at `top`.
fn strike(bitmap: &mut Bitmap, x_start: i128, x_end: i128, top: i128)
    requires
        rectangular(old(bitmap)@),
        top < 0x1_0000_0000_0000_0000_0000_0000_0000,
    ensures
        rectangular(final(bitmap)@),
        final(bitmap)@.len() == old(bitmap)@.len(),
        forall|i: int, j: int|
            0 <= i < WIDTH && 0 <= j < old(bitmap)@.len() ==> #[trigger] pixel(final(bitmap)@, i, j)
                == (pixel(old(bitmap)@, i, j) || (top <= j < top + 2 && x_start <= i < x_end)),
{
    let ghost rows = bitmap@;
    let mut x: i128 = if x_start < 0 {
        0
    } else {
        x_start
    };
    while x < x_end && x < WIDTH as i128
        invariant
            x >= 0,
            x >= x_start,
            x_start < 0 || x_start <= x,
            top < 0x1_0000_0000_0000_0000_0000_0000_0000,
            rectangular(bitmap@),
            bitmap@.len() == rows.len(),
            forall|i: int, j: int|
                0 <= i < WIDTH && 0 <= j < rows.len() ==> #[trigger] pixel(bitmap@, i, j) == (pixel(
                    rows,
                    i,
                    j,
                ) || (top <= j < top + 2 && x_start <= i < x_end && i < x)),
        decreases WIDTH - x,
    {
        ink(bitmap, x, top);
        ink(bitmap, x, top + 1);
        x += 1;
    }
}

/// A length in pixels, rounded to the nearest, halves away from zero.
fn round(u: i128) -> (r: i128)
    requires
        -0x100_0000_0000_0000_0000_0000_0000_0000 < u < 0x100_0000_0000_0000_0000_0000_0000_0000,
    ensures
        r == rounded(u as int),
        u >= 0 ==> 0 <= r <= u,
        u < 0 ==> u <= r <= 0,
{
    if u >= 0 {
        (u + 5000) / 10000
    } else {
        -((5000 - u) / 10000)
    }
}

/// Where each rendered line begins, and where the page ends.
fn line_tops(page: &Page) -> (r: Vec<u128>)
    ensures
        r@.len() == page@.lines.len() + 1,
        forall|k: int|
            0 <= k < r@.len() ==> #[trigger] r@[k] == line_top(page@.lines, k) && r@[k] <= k
                * 558345748350,
{
    let mut tops: Vec<u128> = Vec::new();
    let mut y: u128 = 0;
    tops.push(y);
    let mut i: usize = 0;
    while i < page.lines.len()
        invariant
            i <= page.lines.len(),
            tops@.len() == i + 1,
            y == tops@[i as int],
            y <= i * 558345748350,
            forall|k: int|
                0 <= k <= i ==> #[trigger] tops@[k] == line_top(page@.lines, k) && tops@[k] <= k
                    * 558345748350,
        decreases page.lines.len() - i,
    {
        let line = &page.lines[i];
        let size: u32 = if line.max_size == 0 {
            line.default_size
        } else {
            line.max_size
        };
        assert(page@.lines[i as int] == line@);
        y = y + 130 * size as u128;
        tops.push(y);
        i += 1;
    }
    tops
}

/// How many pixels a line moves right to be aligned.
fn line_shift(indent: u32, width: u64, alignment: Alignment) -> (r: i64)
    requires
        width <= 0xffff_ffff,
    ensures
        forall|line: LaidLine|
            line.indent == indent && line.width == width ==> r == #[trigger] shift(line, alignment),
        0 <= r <= WIDTH,
{
    let spare: i64 = (WIDTH as i64 - indent as i64) * 10000 - width as i64;
    if spare <= 0 {
        0
    } else {
        match alignment {
            Alignment::Left => 0,
            Alignment::Center => spare / 20000,
            Alignment::Right => spare / 10000,
        }
    }
}

/// Draws one glyph of the page.
fn paint_glyph(
    bitmap: &mut Bitmap,
    page: &Page,
    tops: &Vec<u128>,
    sheet: &GlyphSheet,
    alignment: Alignment,
    k: usize,
)
    requires
        rectangular(old(bitmap)@),
        page.wf(),
        k < page.glyphs@.len(),
        tops@.len() == page@.lines.len() + 1,
        forall|n: int|
            0 <= n < tops@.len() ==> #[trigger] tops@[n] == line_top(page@.lines, n) && tops@[n]
                <= n * 558345748350,
    ensures
        rectangular(final(bitmap)@),
        final(bitmap)@.len() == old(bitmap)@.len(),
        forall|i: int, j: int|
            0 <= i < WIDTH && 0 <= j < old(bitmap)@.len() ==> #[trigger] pixel(final(bitmap)@, i, j)
                == (pixel(old(bitmap)@, i, j) || glyph_inks(
                page@,
                sheet@,
                alignment,
                k as int,
                i,
                j,
            )),
{
    let g = &page.glyphs[k];
    let style = g.style;
    let line = &page.lines[g.line];
    assert(page@.glyphs[k as int] == g@);
    assert(page@.lines[g.line as int] == line@);
    let indent: i128 = line.indent as i128;
    let baseline: i128 = tops[g.line] as i128 + line.ascent as i128;
    let origin: i128 = g.pen as i128 + 10000 * line_shift(
        line.indent,
        line.width,
        alignment,
    ) as i128;
    if let Some(glyph) = sheet.glyph(g.ch, style) {
        let x0 = indent + round(origin + 10000 * glyph.xmin as i128);
        let y0 = round(baseline - 10000 * glyph.ymin as i128) - glyph.height as i128;
        stamp(bitmap, glyph, x0, y0);
    }
    if style.strike {
        let top = round(baseline - 35 * style.size as i128);
        let x_start = indent + round(origin);
        let x_end = indent + round(origin + sheet.advance(g.ch, style) as i128);
        strike(bitmap, x_start, x_end, top);
    }
}

/// Renders styled lines to a 1-bit bitmap, each rendered line aligned on its own.
///
/// A logical line wraps greedily at 384 px less its indent, and its continuation lines keep the
/// indent. A rendered line is 1.3 times its largest size high, and all its glyphs share one
/// baseline, at the largest ascent on it. A word too long for a line breaks mid-word. No lines
/// render to a bitmap without height; a line without spans is blank.
pub fn render_rich_aligned(lines: &[RichLine], alignment: Alignment, sheet: &GlyphSheet) -> (r:
    Bitmap)
    ensures
        r@ == rich_rows(line_views(lines@), sheet@, alignment),
{
    let page = lay_out(lines, sheet);
    let tops = line_tops(&page);
    let height: u128 = (tops[page.lines.len()] + 9999) / 10000;
    let mut bitmap = Bitmap::new(0);
    let mut y: u128 = 0;
    while y < height
        invariant
            y <= height,
            bitmap@ == blank_rows(y as nat),
        decreases height - y,
    {
        bitmap.push_blank(1);
        y += 1;
        assert(bitmap@ =~= blank_rows(y as nat));
    }
    let mut k: usize = 0;
    while k < page.glyphs.len()
        invariant
            k <= page.glyphs@.len(),
            page.wf(),
            tops@.len() == page@.lines.len() + 1,
            forall|n: int|
                0 <= n < tops@.len() ==> #[trigger] tops@[n] == line_top(page@.lines, n) && tops@[n]
                    <= n * 558345748350,
            rectangular(bitmap@),
            bitmap@.len() == height,
            forall|i: int, j: int|
                0 <= i < WIDTH && 0 <= j < bitmap@.len() ==> #[trigger] pixel(bitmap@, i, j) == (
                exists|n: int|
                    0 <= n < k && #[trigger] glyph_inks(page@, sheet@, alignment, n, i, j)),
        decreases page.glyphs.len() - k,
    {
        let ghost before = bitmap@;
        paint_glyph(&mut bitmap, &page, &tops, sheet, alignment, k);
        assert forall|i: int, j: int| 0 <= i < WIDTH && 0 <= j < bitmap@.len() implies #[trigger] pixel(
            bitmap@,
            i,
            j,
        ) == (exists|n: int|
            0 <= n < k + 1 && #[trigger] glyph_inks(page@, sheet@, alignment, n, i, j)) by {
            assert(pixel(bitmap@, i, j) == (pixel(before, i, j) || glyph_inks(
                page@,
                sheet@,
                alignment,
                k as int,
                i,
                j,
            )));
        }
        k += 1;
    }
    proof {
        let wanted = rich_rows(line_views(lines@), sheet@, alignment);
        assert(page@.glyphs.len() == page.glyphs@.len());
        assert forall|j: int| 0 <= j < wanted.len() implies bitmap@[j] == wanted[j] by {
            assert forall|i: int| 0 <= i < WIDTH implies bitmap@[j][i] == wanted[j][i] by {
                assert(pixel(bitmap@, i, j) == page_inks(page@, sheet@, alignment, i, j));
            }
            assert(bitmap@[j] =~= wanted[j]);
        }
        assert(bitmap@ =~= wanted);
    }
    bitmap
}

/// Renders styled lines to a 1-bit bitmap, left-aligned.
pub fn render_rich(lines: &[RichLine], sheet: &GlyphSheet) -> (r: Bitmap)
    ensures
        r@ == rich_rows(line_views(lines@), sheet@, Alignment::Left),
{
    render_rich_aligned(lines, Alignment::Left, sheet)
}

/// The text with `\r\n` and `\r` turned into `\n`, and each tab into four spaces.
pub fn normalize(text: &str) -> (r: String)
    ensures
        r@ == normalized(text@),
{
    text_of(normalized_chars(text).as_slice())
}

/// One run of regular text on a line of its own.
pub open spec fn text_line(text: Seq<char>, size: u32) -> LineView {
    LineView {
        spans: seq![SpanView { text, style: plain_style(FontStyle::Regular, size) }],
        indent: 0,
    }
}

/// The logical lines of a plain text: a line feed forces a break.
pub open spec fn text_lines(text: Seq<char>, size: u32) -> Seq<LineView> {
    split(normalized(text), '\n').map_values(|piece: Seq<char>| text_line(piece, size))
}

/// Renders plain text in the regular face; `size` is in hundredths of a pixel.
pub fn render_text(text: &str, size: u32, sheet: &GlyphSheet) -> (r: Bitmap)
    ensures
        r@ == rich_rows(text_lines(text@, size), sheet@, Alignment::Left),
{
    let chars = normalized_chars(text);
    let pieces = split_on(chars.as_slice(), '\n');
    let ghost wanted = text_lines(text@, size);
    let mut lines: Vec<RichLine> = Vec::new();
    let mut i: usize = 0;
    while i < pieces.len()
        invariant
            i <= pieces.len(),
            char_views(pieces@) == split(normalized(text@), '\n'),
            wanted == text_lines(text@, size),
            line_views(lines@) == wanted.take(i as int),
        decreases pieces.len() - i,
    {
        let ghost before = lines@;
        let mut spans: Vec<Span> = Vec::new();
        let text = text_of(pieces[i].as_slice());
        spans.push(Span { text, style: Style::new(FontStyle::Regular, size) });
        let line = RichLine { spans, indent: 0 };
        assert(char_views(pieces@)[i as int] == text@);
        assert(line@.spans =~= wanted[i as int].spans);
        lines.push(line);
        i += 1;
        assert(line_views(lines@) =~= line_views(before).push(line@));
        assert(line_views(lines@) =~= wanted.take(i as int));
    }
    assert(line_views(lines@) =~= wanted);
    render_rich(lines.as_slice(), sheet)
}

/// No lines, no paper.
pub proof fn law_no_lines_render_to_nothing(sheet: SheetView, alignment: Alignment)
    ensures
        rich_rows(Seq::empty(), sheet, alignment).len() == 0,
{
}

/// A line without spans is 32 px of white: 1.3 times 24 px, rounded up.
pub proof fn law_blank_line_is_white(sheet: SheetView, alignment: Alignment)
    ensures
        rich_rows(seq![blank_line()], sheet, alignment) == blank_rows(32),
{
    let lines = seq![blank_line()];
    assert(lines.drop_last() =~= Seq::empty());
    let start = laid_out(Seq::empty(), sheet);
    let page = laid_out(lines, sheet);
    assert(page == start.newline(0, 2400));
    assert(line_top(page.lines, 1) == 312000) by {
        reveal_with_fuel(line_top, 2);
    }
    assert(rich_rows(lines, sheet, alignment) =~~= blank_rows(32));
}

/// Alignment never changes how much paper a text takes.
pub proof fn law_alignment_keeps_height(
    lines: Seq<LineView>,
    sheet: SheetView,
    a: Alignment,
    b: Alignment,
)
    ensures
        rich_rows(lines, sheet, a).len() == rich_rows(lines, sheet, b).len(),
{
}

proof fn lemma_rounded_shift(u: int, n: int)
    requires
        n >= 0,
        u >= 0 || u % 10000 != 5000,
    ensures
        rounded(u + 10000 * n) == rounded(u) + n,
{
}

/// Alignment moves a rendered line as a whole: with any alignment, a glyph blackens the pixels
/// that it blackens left-aligned, moved right by the line's shift. Left out is a glyph whose
/// bitmap begins left of the line's start at exactly half a pixel, where rounding away from zero
/// changes direction.
pub proof fn law_alignment_moves_lines(
    page: Layout,
    sheet: SheetView,
    alignment: Alignment,
    k: int,
    x: int,
    y: int,
)
    requires
        0 <= k < page.glyphs.len(),
        match sheet.glyph(page.glyphs[k].ch, page.glyphs[k].style) {
            Some(glyph) => page.glyphs[k].pen + 10000 * glyph.xmin >= 0 || (page.glyphs[k].pen
                + 10000 * glyph.xmin) % 10000 != 5000,
            None => true,
        },
    ensures
        glyph_inks(
            page,
            sheet,
            alignment,
            k,
            x + shift(page.lines[page.glyphs[k].line as int], alignment),
            y,
        ) == glyph_inks(page, sheet, Alignment::Left, k, x, y),
{
    let g = page.glyphs[k];
    let n = shift(page.lines[g.line as int], alignment);
    assert(n >= 0);
    lemma_rounded_shift(g.pen as int, n);
    lemma_rounded_shift((g.pen + sheet.advance(g.ch, g.style)) as int, n);
    match sheet.glyph(g.ch, g.style) {
        Some(glyph) => lemma_rounded_shift(g.pen + 10000 * glyph.xmin, n),
        None => {},
    }
}

/// Whether no glyph of a page begins left of its line's start at exactly half a pixel.
pub open spec fn steady(page: Layout, sheet: SheetView) -> bool {
    forall|k: int|
        0 <= k < page.glyphs.len() ==> match sheet.glyph(
            (#[trigger] page.glyphs[k]).ch,
            page.glyphs[k].style,
        ) {
            Some(glyph) => page.glyphs[k].pen + 10000 * glyph.xmin >= 0 || (page.glyphs[k].pen
                + 10000 * glyph.xmin) % 10000 != 5000,
            None => true,
        }
}

/// Whether a glyph of rendered line `l` blackens the pixel `(x, y)`.
pub open spec fn line_inks(
    page: Layout,
    sheet: SheetView,
    alignment: Alignment,
    l: int,
    x: int,
    y: int,
) -> bool {
    exists|k: int|
        0 <= k < page.glyphs.len() && page.glyphs[k].line == l && #[trigger] glyph_inks(
            page,
            sheet,
            alignment,
            k,
            x,
            y,
        )
}

/// Each rendered line moves by one amount: its black pixels are those of the left-aligned line,
/// all moved right by the line's shift. Centring moves a line no further than aligning it right.
pub proof fn law_lines_move_as_a_whole(
    page: Layout,
    sheet: SheetView,
    alignment: Alignment,
    l: int,
    x: int,
    y: int,
)
    requires
        steady(page, sheet),
        0 <= l < page.lines.len(),
    ensures
        line_inks(page, sheet, alignment, l, x + shift(page.lines[l], alignment), y) == line_inks(
            page,
            sheet,
            Alignment::Left,
            l,
            x,
            y,
        ),
        shift(page.lines[l], Alignment::Left) == 0,
        0 <= shift(page.lines[l], Alignment::Center) <= shift(page.lines[l], Alignment::Right),
{
    let n = shift(page.lines[l], alignment);
    assert forall|k: int|
        0 <= k < page.glyphs.len() && page.glyphs[k].line == l implies #[trigger] glyph_inks(
        page,
        sheet,
        alignment,
        k,
        x + n,
        y,
    ) == glyph_inks(page, sheet, Alignment::Left, k, x, y) by {
        law_alignment_moves_lines(page, sheet, alignment, k, x, y);
    }
    if line_inks(page, sheet, Alignment::Left, l, x, y) {
        let k = choose|k: int|
            0 <= k < page.glyphs.len() && page.glyphs[k].line == l && #[trigger] glyph_inks(
                page,
                sheet,
                Alignment::Left,
                k,
                x,
                y,
            );
        assert(glyph_inks(page, sheet, alignment, k, x + n, y));
    }
}

/// Alignment moves the black pixels of a page row by row: in a row that only one rendered line
/// reaches, and whose ink stays on the paper, they are those of the left-aligned page, all moved
/// right by that line's shift.
pub proof fn law_alignment_moves_pixels(
    lines: Seq<LineView>,
    sheet: SheetView,
    alignment: Alignment,
    l: int,
    x: int,
    y: int,
)
    requires
        steady(laid_out(lines, sheet), sheet),
        0 <= l < laid_out(lines, sheet).lines.len(),
        0 <= x < WIDTH,
        0 <= y < page_height(laid_out(lines, sheet).lines),
        forall|m: int, i: int|
            m != l ==> !#[trigger] line_inks(
                laid_out(lines, sheet),
                sheet,
                Alignment::Left,
                m,
                i,
                y,
            ),
        forall|i: int|
            #[trigger] line_inks(laid_out(lines, sheet), sheet, Alignment::Left, l, i, y) ==> 0 <= i
                < WIDTH - shift(laid_out(lines, sheet).lines[l], alignment),
    ensures
        ({
            let n = shift(laid_out(lines, sheet).lines[l], alignment);
            rich_rows(lines, sheet, alignment)[y][x] == (x >= n && rich_rows(
                lines,
                sheet,
                Alignment::Left,
            )[y][x - n])
        }),
{
    let page = laid_out(lines, sheet);
    let n = shift(page.lines[l], alignment);
    law_text_stays_within_the_room(lines, sheet);
    lemma_only_line(page, sheet, alignment, l, x, y);
    lemma_only_line(page, sheet, Alignment::Left, l, x - n, y);
    law_lines_move_as_a_whole(page, sheet, alignment, l, x - n, y);
    law_lines_move_as_a_whole(page, sheet, Alignment::Left, l, x - n, y);
    if x < n {
        assert(!line_inks(page, sheet, Alignment::Left, l, x - n, y));
    }
}

proof fn lemma_only_line(
    page: Layout,
    sheet: SheetView,
    alignment: Alignment,
    l: int,
    x: int,
    y: int,
)
    requires
        steady(page, sheet),
        0 <= l < page.lines.len(),
        forall|m: int, i: int|
            m != l ==> !#[trigger] line_inks(page, sheet, Alignment::Left, m, i, y),
        forall|k: int|
            0 <= k < page.glyphs.len() ==> (#[trigger] page.glyphs[k]).line < page.lines.len(),
    ensures
        page_inks(page, sheet, alignment, x, y) == line_inks(page, sheet, alignment, l, x, y),
{
    if page_inks(page, sheet, alignment, x, y) {
        let k = choose|k: int|
            0 <= k < page.glyphs.len() && #[trigger] glyph_inks(page, sheet, alignment, k, x, y);
        let m = page.glyphs[k].line as int;
        assert(line_inks(page, sheet, alignment, m, x, y));
        if m != l {
            let n = shift(page.lines[m], alignment);
            law_lines_move_as_a_whole(page, sheet, alignment, m, x - n, y);
        }
    }
}

/// Where alignment puts a line that fits the paper: left-aligned it does not move; right-aligned it
/// ends less than a pixel from the paper's right edge; centred, the white on its two sides differs
/// by less than two pixels. A line that leaves no room does not move.
pub proof fn law_alignment_of_a_line(line: LaidLine)
    ensures
        ({
            let spare = (384 - line.indent) * 10000 - line.width;
            let right = 10000 * shift(line, Alignment::Right);
            let center = 10000 * shift(line, Alignment::Center);
            &&& shift(line, Alignment::Left) == 0
            &&& spare >= 0 ==> 0 <= spare - right < 10000
            &&& spare >= 0 ==> 0 <= center && 0 <= (spare - center) - center < 20000
            &&& spare < 0 ==> right == 0 && center == 0
        }),
{
}

/// A rendered line is 1.3 times its largest size high, and where nothing is set on it, 1.3 times
/// the size its text would have had. Lines follow each other without gaps, and the page is as high
/// as all of them, the last pixel begun.
pub proof fn law_heights(lines: Seq<LaidLine>, k: int)
    ensures
        line_top(lines, 0) == 0,
        0 <= k < lines.len() ==> line_top(lines, k + 1) - line_top(lines, k) == if lines[k].max_size
            > 0 {
            130 * lines[k].max_size
        } else {
            130 * lines[k].default_size
        },
        10000 * page_height(lines) >= line_top(lines, lines.len() as int),
        10000 * page_height(lines) < line_top(lines, lines.len() as int) + 10000,
{
}

/// A length in pixels is the nearest whole number of them.
pub proof fn law_rounding(u: int)
    ensures
        -5000 <= 10000 * rounded(u) - u <= 5000,
{
}

/// A glyph is drawn where its metrics put it: its bitmap's left edge as many pixels from the pen as
/// it says, its bottom edge as many above the baseline, to the nearest pixel, and the pen as far
/// right of the indent as the line has moved. The baseline lies below the line's top by the line's
/// ascent. A pixel is black where the glyph covers at least half of it.
pub proof fn law_glyphs_stand_where_their_metrics_say(
    page: Layout,
    sheet: SheetView,
    alignment: Alignment,
    k: int,
) -> (corner: (int, int))
    requires
        0 <= k < page.glyphs.len(),
        sheet.glyph(page.glyphs[k].ch, page.glyphs[k].style) is Some,
        !page.glyphs[k].style.strike,
    ensures
        ({
            let g = page.glyphs[k];
            let glyph = sheet.glyph(g.ch, g.style)->0;
            let line = page.lines[g.line as int];
            let (x0, y0) = corner;
            let left = 10000 * (line.indent + glyph.xmin) + g.pen + 10000 * shift(line, alignment);
            let bottom = line_top(page.lines, g.line as int) + line.ascent - 10000 * glyph.ymin;
            &&& -5000 <= 10000 * x0 - left <= 5000
            &&& -5000 <= 10000 * (y0 + glyph.height) - bottom <= 5000
            &&& forall|col: int, row: int|
                #![trigger glyph.coverage@[row * glyph.width + col]]
                0 <= col < glyph.width && 0 <= row < glyph.height && row * glyph.width + col
                    < glyph.coverage@.len() ==> glyph_inks(
                    page,
                    sheet,
                    alignment,
                    k,
                    x0 + col,
                    y0 + row,
                ) == (glyph.coverage@[row * glyph.width + col] >= 128)
            &&& forall|x: int, y: int| #[trigger]
                glyph_inks(page, sheet, alignment, k, x, y) ==> x0 <= x < x0 + glyph.width && y0
                    <= y < y0 + glyph.height
        }),
{
    let g = page.glyphs[k];
    let glyph = sheet.glyph(g.ch, g.style)->0;
    let line = page.lines[g.line as int];
    let baseline = line_top(page.lines, g.line as int) + line.ascent;
    let origin = g.pen + 10000 * shift(line, alignment);
    law_rounding(origin + 10000 * glyph.xmin);
    law_rounding(baseline - 10000 * glyph.ymin);
    (
        line.indent + rounded(origin + 10000 * glyph.xmin),
        rounded(baseline - 10000 * glyph.ymin) - glyph.height,
    )
}

/// A struck character has a bar two pixels high across all of its advance, 0.35 times its size
/// above the baseline, to the nearest pixel.
pub proof fn law_struck_text_has_a_bar(
    page: Layout,
    sheet: SheetView,
    alignment: Alignment,
    k: int,
) -> (bar: (int, int, int))
    requires
        0 <= k < page.glyphs.len(),
        page.glyphs[k].style.strike,
    ensures
        ({
            let g = page.glyphs[k];
            let line = page.lines[g.line as int];
            let (x0, x1, y0) = bar;
            let left = 10000 * line.indent + g.pen + 10000 * shift(line, alignment);
            let height = line_top(page.lines, g.line as int) + line.ascent - 35 * g.style.size;
            &&& -5000 <= 10000 * x0 - left <= 5000
            &&& -5000 <= 10000 * x1 - (left + sheet.advance(g.ch, g.style)) <= 5000
            &&& -5000 <= 10000 * y0 - height <= 5000
            &&& forall|x: int, y: int|
                x0 <= x < x1 && y0 <= y < y0 + 2 ==> #[trigger] glyph_inks(
                    page,
                    sheet,
                    alignment,
                    k,
                    x,
                    y,
                )
            &&& sheet.glyph(g.ch, g.style) is None ==> forall|x: int, y: int| #[trigger]
                glyph_inks(page, sheet, alignment, k, x, y) ==> x0 <= x < x1 && y0 <= y < y0 + 2
        }),
{
    let g = page.glyphs[k];
    let line = page.lines[g.line as int];
    let baseline = line_top(page.lines, g.line as int) + line.ascent;
    let origin = g.pen + 10000 * shift(line, alignment);
    law_rounding(origin);
    law_rounding((origin + sheet.advance(g.ch, g.style)) as int);
    law_rounding(baseline - 35 * g.style.size);
    (
        line.indent + rounded(origin as int),
        line.indent + rounded((origin + sheet.advance(g.ch, g.style)) as int),
        rounded(baseline - 35 * g.style.size),
    )
}

/// A pixel of a rendered text is black exactly where one of its glyphs blackens it.
pub proof fn law_pages_hold_their_glyphs(
    lines: Seq<LineView>,
    sheet: SheetView,
    alignment: Alignment,
    x: int,
    y: int,
)
    requires
        0 <= x < 384,
        0 <= y < page_height(laid_out(lines, sheet).lines),
    ensures
        rich_rows(lines, sheet, alignment).len() == page_height(laid_out(lines, sheet).lines),
        rich_rows(lines, sheet, alignment)[y].len() == 384,
        rich_rows(lines, sheet, alignment)[y][x] <==> exists|k: int|
            0 <= k < laid_out(lines, sheet).glyphs.len() && #[trigger] glyph_inks(
                laid_out(lines, sheet),
                sheet,
                alignment,
                k,
                x,
                y,
            ),
{
}

proof fn lemma_text_page(text: Seq<char>, size: u32, sheet: SheetView, n: int)
    requires
        0 <= n <= text_lines(text, size).len(),
    ensures
        ({
            let page = laid_out(text_lines(text, size).take(n), sheet);
            &&& page.lines.len() >= n
            &&& forall|k: int|
                0 <= k < page.glyphs.len() ==> (#[trigger] page.glyphs[k]).style == plain_style(
                    FontStyle::Regular,
                    size,
                )
            &&& forall|l: int|
                0 <= l < page.lines.len() ==> {
                    let line = #[trigger] page.lines[l];
                    line.indent == 0 && line.default_size == size && (line.max_size == 0
                        || line.max_size == size)
                }
        }),
    decreases n,
{
    let all = text_lines(text, size);
    if n > 0 {
        lemma_text_page(text, size, sheet, n - 1);
        let before = laid_out(all.take(n - 1), sheet);
        let line = all[n - 1];
        assert(all.take(n).drop_last() =~= all.take(n - 1));
        assert(all.take(n).last() == line);
        let piece = split(normalized(text), '\n')[n - 1];
        let style = plain_style(FontStyle::Regular, size);
        law_text_stays_within_the_room(all.take(n - 1), sheet);
        law_wrapped_lines_keep_the_indent(before, line, sheet);
        law_runs_keep_their_style(before, piece, style, 0, sheet);
        law_wrapping_keeps_what_is_placed(before, line, sheet);
    }
}

proof fn lemma_tops_of_one_size(lines: Seq<LaidLine>, size: u32, k: int)
    requires
        0 <= k <= lines.len(),
        forall|l: int|
            0 <= l < lines.len() ==> (#[trigger] lines[l]).default_size == size && (
            lines[l].max_size == 0 || lines[l].max_size == size),
    ensures
        line_top(lines, k) == k * (130 * size),
    decreases k,
{
    if k > 0 {
        lemma_tops_of_one_size(lines, size, k - 1);
        assert(line_height(lines[k - 1]) == 130 * size);
        assert(k * (130 * size) == (k - 1) * (130 * size) + 130 * size) by (nonlinear_arith);
    } else {
        assert(k * (130 * size) == 0) by (nonlinear_arith)
            requires
                k == 0,
        ;
    }
}

/// A plain text is set in the regular face at the size it was given, glyph by glyph, and takes 1.3
/// times that size of paper for every rendered line, of which it has at least one for each line of
/// its own.
pub proof fn law_plain_text_is_set_at_its_size(text: Seq<char>, size: u32, sheet: SheetView)
    ensures
        ({
            let page = laid_out(text_lines(text, size), sheet);
            let rows = rich_rows(text_lines(text, size), sheet, Alignment::Left);
            &&& page.lines.len() >= split(normalized(text), '\n').len()
            &&& forall|k: int|
                0 <= k < page.glyphs.len() ==> (#[trigger] page.glyphs[k]).style.size == size
                    && page.glyphs[k].style.font == FontStyle::Regular
                    && !page.glyphs[k].style.strike
            &&& 10000 * rows.len() >= page.lines.len() * (130 * size)
            &&& 10000 * rows.len() < page.lines.len() * (130 * size) + 10000
        }),
{
    let all = text_lines(text, size);
    assert(all.take(all.len() as int) =~= all);
    lemma_text_page(text, size, sheet, all.len() as int);
    let page = laid_out(all, sheet);
    lemma_tops_of_one_size(page.lines, size, page.lines.len() as int);
    law_heights(page.lines, 0);
}

proof fn lemma_split_once(s: Seq<char>, sep: char)
    requires
        !s.contains(sep),
    ensures
        split_runs(s, sep).0 == Seq::<Seq<char>>::empty(),
        split_runs(s, sep).1 == s,
    decreases s.len(),
{
    if s.len() > 0 {
        let front = s.drop_last();
        assert(s.contains(s.last()));
        if front.contains(sep) {
            let i = choose|i: int| 0 <= i < front.len() && front[i] == sep;
            assert(s[i] == sep);
        }
        lemma_split_once(front, sep);
        assert(split_runs(s, sep).1 =~= s);
    } else {
        assert(split_runs(s, sep).1 =~= s);
    }
}

/// A text without line breaks that fits the paper takes one line: 1.3 times its size, the last
/// pixel begun.
pub proof fn law_one_line_of_text(text: Seq<char>, size: u32, sheet: SheetView)
    requires
        !text.contains('\n'),
        !text.contains('\r'),
        !text.contains('\t'),
        advances(
            styled(text, plain_style(FontStyle::Regular, size)),
            sheet,
            0,
            text.len() as int,
        ) <= 3840000,
    ensures
        ({
            let rows = rich_rows(text_lines(text, size), sheet, Alignment::Left);
            130 * size <= 10000 * rows.len() < 130 * size + 10000
        }),
{
    let style = plain_style(FontStyle::Regular, size);
    let all = text_lines(text, size);
    law_normalized_text(text);
    lemma_split_once(text, '\n');
    assert(split(text, '\n') =~= seq![text]);
    assert(all =~= seq![text_line(text, size)]);
    assert(all.drop_last() =~= Seq::empty());
    let start = laid_out(Seq::empty(), sheet);
    law_characters_are_set_as_they_come(text, ' ', style);
    let chars = styled_chars(all[0].spans);
    assert(chars =~= styled(text, style));
    law_text_that_fits_is_not_wrapped(start, all[0], sheet, 0);
    law_plain_text_is_set_at_its_size(text, size, sheet);
    assert(laid_out(all, sheet).lines.len() == 1);
    assert(1 * (130 * size) == 130 * size);
}

} // verus!
