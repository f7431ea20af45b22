//! The layout pass: where each glyph of a styled text goes.
//!
//! A logical line wraps greedily at the paper's width less its indent. All positions are in
//! ten-thousandths of a pixel.

use vstd::prelude::*;

use crate::bitmap::WIDTH;
use crate::glyphs::{GlyphSheet, SheetView, Style};
use crate::text::chars_of;

verus! {

/// A run of text set in a single style.
#[derive(Debug)]
pub struct Span {
    pub text: String,
    pub style: Style,
}

/// One logical line (may wrap to several rendered lines).
#[derive(Debug)]
pub struct RichLine {
    pub spans: Vec<Span>,
    /// Left indent in pixels (lists, blockquotes, code).
    pub indent: u32,
}

impl Default for RichLine {
    /// A blank line without an indent.
    fn default() -> (r: RichLine)
        ensures
            r@ == blank_line(),
    {
        let r = RichLine { spans: Vec::new(), indent: 0 };
        assert(span_views(r.spans@) =~= Seq::empty());
        r
    }
}

impl Clone for Span {
    fn clone(&self) -> (r: Span)
        ensures
            r@ == self@,
    {
        Span { text: self.text.clone(), style: self.style }
    }
}

impl Clone for RichLine {
    fn clone(&self) -> (r: RichLine)
        ensures
            r@ == self@,
    {
        let mut spans: Vec<Span> = Vec::new();
        let mut i: usize = 0;
        while i < self.spans.len()
            invariant
                i <= self.spans.len(),
                span_views(spans@) == span_views(self.spans@).take(i as int),
            decreases self.spans.len() - i,
        {
            let ghost before = spans@;
            let span = self.spans[i].clone();
            spans.push(span);
            i += 1;
            assert(span_views(spans@) =~= span_views(before).push(span@));
            assert(span_views(spans@) =~= span_views(self.spans@).take(i as int));
        }
        assert(span_views(spans@) =~= span_views(self.spans@));
        RichLine { spans, indent: self.indent }
    }
}

/// What a [`Span`] holds.
pub struct SpanView {
    pub text: Seq<char>,
    pub style: Style,
}

/// What a [`RichLine`] holds.
pub struct LineView {
    pub spans: Seq<SpanView>,
    pub indent: u32,
}

impl View for Span {
    type V = SpanView;

    open spec fn view(&self) -> SpanView {
        SpanView { text: self.text@, style: self.style }
    }
}

/// The spans' views.
pub open spec fn span_views(spans: Seq<Span>) -> Seq<SpanView> {
    spans.map_values(|s: Span| s@)
}

impl View for RichLine {
    type V = LineView;

    open spec fn view(&self) -> LineView {
        LineView { spans: span_views(self.spans@), indent: self.indent }
    }
}

/// The lines' views.
pub open spec fn line_views(lines: Seq<RichLine>) -> Seq<LineView> {
    lines.map_values(|l: RichLine| l@)
}

/// A line without text or indent.
pub open spec fn blank_line() -> LineView {
    LineView { spans: Seq::empty(), indent: 0 }
}

/// The text with `\r\n` and `\r` turned into `\n`, and each tab into four spaces.
pub open spec fn normalized(s: Seq<char>) -> Seq<char>
    decreases s.len(),
{
    if s.len() == 0 {
        s
    } else {
        let before = normalized(s.drop_last());
        let c = s.last();
        if c == '\t' {
            before + seq![' ', ' ', ' ', ' ']
        } else if c == '\r' {
            before.push('\n')
        } else if c == '\n' && s.len() > 1 && s[s.len() - 2] == '\r' {
            before
        } else {
            before.push(c)
        }
    }
}

/// The characters of `text`, normalized for rendering.
pub fn normalized_chars(text: &str) -> (r: Vec<char>)
    ensures
        r@ == normalized(text@),
{
    let chars = chars_of(text);
    let mut out: Vec<char> = Vec::new();
    let mut i: usize = 0;
    while i < chars.len()
        invariant
            i <= chars.len(),
            chars@ == text@,
            out@ == normalized(text@.take(i as int)),
        decreases chars.len() - i,
    {
        assert(text@.take(i + 1).drop_last() =~= text@.take(i as int));
        let ghost before = out@;
        let c = chars[i];
        if c == '\t' {
            out.push(' ');
            out.push(' ');
            out.push(' ');
            out.push(' ');
            assert(out@ =~= before + seq![' ', ' ', ' ', ' ']);
        } else if c == '\r' {
            out.push('\n');
        } else if c == '\n' && i > 0 && chars[i - 1] == '\r' {
        } else {
            out.push(c);
        }
        i += 1;
    }
    assert(text@.take(i as int) =~= text@);
    out
}

/// The characters of a run, each with the run's style.
pub open spec fn styled(text: Seq<char>, style: Style) -> Seq<(char, Style)> {
    text.map_values(|c: char| (c, style))
}

/// The characters of a line's spans, normalized, each with its style.
pub open spec fn styled_chars(spans: Seq<SpanView>) -> Seq<(char, Style)>
    decreases spans.len(),
{
    if spans.len() == 0 {
        Seq::empty()
    } else {
        styled_chars(spans.drop_last()) + styled(normalized(spans.last().text), spans.last().style)
    }
}

/// The larger of two sizes.
pub open spec fn larger(a: u32, b: u32) -> u32 {
    if a < b {
        b
    } else {
        a
    }
}

/// The largest size of a line's spans; 24 px for a line without any.
pub open spec fn largest_size(spans: Seq<SpanView>) -> u32
    decreases spans.len(),
{
    if spans.len() == 0 {
        2400
    } else if spans.len() == 1 {
        spans[0].style.size
    } else {
        larger(largest_size(spans.drop_last()), spans.last().style.size)
    }
}

/// A rendered line: a logical line, or a part of one that wrapped.
pub struct LaidLine {
    pub indent: u32,
    /// Where its last glyph ends; trailing spaces do not count.
    pub width: nat,
    /// The largest size placed on it, 0 until a glyph lands here.
    pub max_size: u32,
    /// The size that counts when no glyph lands here.
    pub default_size: u32,
    /// The largest ascent placed on it.
    pub ascent: nat,
}

/// A glyph and where it goes.
pub struct LaidGlyph {
    pub ch: char,
    pub style: Style,
    /// The pen's position, from the line's indent.
    pub pen: nat,
    /// The index of its rendered line.
    pub line: nat,
}

/// A text laid out so far.
#[verifier::ext_equal]
pub struct Layout {
    pub lines: Seq<LaidLine>,
    pub glyphs: Seq<LaidGlyph>,
    /// Where the next glyph goes on the last line.
    pub pen: nat,
}

impl Layout {
    /// Starts a new rendered line.
    pub open spec fn newline(self, indent: u32, default_size: u32) -> Layout {
        Layout {
            lines: self.lines.push(
                LaidLine { indent, width: 0, max_size: 0, default_size, ascent: 0 },
            ),
            glyphs: self.glyphs,
            pen: 0,
        }
    }

    /// Puts a character at the pen and moves the pen, leaving the line's measures as they are.
    pub open spec fn place(self, ch: char, style: Style, advance: nat) -> Layout {
        Layout {
            lines: self.lines,
            glyphs: self.glyphs.push(
                LaidGlyph { ch, style, pen: self.pen, line: (self.lines.len() - 1) as nat },
            ),
            pen: self.pen + advance,
        }
    }

    /// Widens the last line to the pen and raises it to the style's size and ascent.
    pub open spec fn measure(self, style: Style, ascent: nat) -> Layout {
        let last = self.lines.last();
        Layout {
            lines: self.lines.update(
                self.lines.len() - 1,
                LaidLine {
                    indent: last.indent,
                    width: self.pen,
                    max_size: larger(last.max_size, style.size),
                    default_size: last.default_size,
                    ascent: if last.ascent < ascent {
                        ascent
                    } else {
                        last.ascent
                    },
                },
            ),
            glyphs: self.glyphs,
            pen: self.pen,
        }
    }
}

/// The room on a line, in ten-thousandths of a pixel; negative where the indent leaves the paper.
pub open spec fn room(indent: u32) -> int {
    (WIDTH - indent) * 10000
}

/// The width of the word that starts at `i`: the advances up to the next space.
pub open spec fn word_width(chars: Seq<(char, Style)>, sheet: SheetView, i: int) -> nat
    decreases chars.len() - i,
{
    if i < 0 || i >= chars.len() || chars[i].0 == ' ' {
        0
    } else {
        sheet.advance(chars[i].0, chars[i].1) + word_width(chars, sheet, i + 1)
    }
}

/// One more character. A space is swallowed by a line break where the word after it does not fit;
/// any other character that does not fit starts a new line in the middle of its word. Nothing
/// breaks at the start of a line.
pub open spec fn lay_char(
    st: Layout,
    chars: Seq<(char, Style)>,
    i: int,
    sheet: SheetView,
    indent: u32,
    default_size: u32,
) -> Layout {
    let (ch, style) = chars[i];
    let advance = sheet.advance(ch, style);
    if ch == ' ' {
        if st.pen + advance + word_width(chars, sheet, i + 1) > room(indent) && st.pen > 0 {
            st.newline(indent, default_size)
        } else {
            st.place(ch, style, advance)
        }
    } else {
        let line = if st.pen + advance > room(indent) && st.pen > 0 {
            st.newline(indent, default_size)
        } else {
            st
        };
        line.place(ch, style, advance).measure(style, sheet.ascent(style))
    }
}

/// The first `n` characters of a logical line.
pub open spec fn lay_chars(
    st: Layout,
    chars: Seq<(char, Style)>,
    n: nat,
    sheet: SheetView,
    indent: u32,
    default_size: u32,
) -> Layout
    decreases n,
{
    if n == 0 {
        st
    } else {
        lay_char(
            lay_chars(st, chars, (n - 1) as nat, sheet, indent, default_size),
            chars,
            n - 1,
            sheet,
            indent,
            default_size,
        )
    }
}

/// One more logical line.
pub open spec fn lay_line(st: Layout, line: LineView, sheet: SheetView) -> Layout {
    let chars = styled_chars(line.spans);
    let size = largest_size(line.spans);
    lay_chars(st.newline(line.indent, size), chars, chars.len(), sheet, line.indent, size)
}

/// The logical lines, one below the other.
pub open spec fn laid_out(lines: Seq<LineView>, sheet: SheetView) -> Layout
    decreases lines.len(),
{
    if lines.len() == 0 {
        Layout { lines: Seq::empty(), glyphs: Seq::empty(), pen: 0 }
    } else {
        lay_line(laid_out(lines.drop_last(), sheet), lines.last(), sheet)
    }
}

/// A rendered line, as [`LaidLine`].
pub struct RenderedLine {
    pub indent: u32,
    pub width: u64,
    pub max_size: u32,
    pub default_size: u32,
    pub ascent: u64,
}

/// A glyph and where it goes, as [`LaidGlyph`].
pub struct PlacedGlyph {
    pub ch: char,
    pub style: Style,
    pub pen: u64,
    pub line: usize,
}

impl View for RenderedLine {
    type V = LaidLine;

    open spec fn view(&self) -> LaidLine {
        LaidLine {
            indent: self.indent,
            width: self.width as nat,
            max_size: self.max_size,
            default_size: self.default_size,
            ascent: self.ascent as nat,
        }
    }
}

impl View for PlacedGlyph {
    type V = LaidGlyph;

    open spec fn view(&self) -> LaidGlyph {
        LaidGlyph { ch: self.ch, style: self.style, pen: self.pen as nat, line: self.line as nat }
    }
}

/// A text laid out so far, as [`Layout`].
pub struct Page {
    pub lines: Vec<RenderedLine>,
    pub glyphs: Vec<PlacedGlyph>,
    pub pen: u64,
}

impl View for Page {
    type V = Layout;

    open spec fn view(&self) -> Layout {
        Layout {
            lines: self.lines@.map_values(|l: RenderedLine| l@),
            glyphs: self.glyphs@.map_values(|g: PlacedGlyph| g@),
            pen: self.pen as nat,
        }
    }
}

impl Page {
    /// The pen never moves further than one glyph past the paper, and every glyph is on a line.
    pub open spec fn wf(&self) -> bool {
        &&& self.pen <= 0xffff_ffff
        &&& forall|i: int|
            0 <= i < self.glyphs@.len() ==> (#[trigger] self.glyphs@[i]).pen <= 0xffff_ffff
                && self.glyphs@[i].line < self.lines@.len()
        &&& forall|i: int|
            0 <= i < self.lines@.len() ==> (#[trigger] self.lines@[i]).width <= 0xffff_ffff
                && self.lines@[i].ascent <= 0xffff_ffff * 100
    }

    fn newline(&mut self, indent: u32, default_size: u32)
        requires
            old(self).wf(),
        ensures
            final(self).wf(),
            final(self)@ == old(self)@.newline(indent, default_size),
            final(self).pen == 0,
            final(self).lines@.len() > 0,
    {
        self.lines.push(RenderedLine { indent, width: 0, max_size: 0, default_size, ascent: 0 });
        self.pen = 0;
        assert(self@.lines =~= old(self)@.newline(indent, default_size).lines);
        assert(self@ =~= old(self)@.newline(indent, default_size));
    }

    fn place(&mut self, ch: char, style: Style, advance: u32)
        requires
            old(self).wf(),
            old(self).lines@.len() > 0,
            old(self).pen + advance <= 0xffff_ffff,
        ensures
            final(self).wf(),
            final(self)@ == old(self)@.place(ch, style, advance as nat),
            final(self).lines == old(self).lines,
    {
        let line: usize = self.lines.len() - 1;
        self.glyphs.push(PlacedGlyph { ch, style, pen: self.pen, line });
        self.pen = self.pen + advance as u64;
        assert(self@.glyphs =~= old(self)@.place(ch, style, advance as nat).glyphs);
        assert(self@ =~= old(self)@.place(ch, style, advance as nat));
    }

    fn measure(&mut self, style: Style, ascent: u64)
        requires
            old(self).wf(),
            old(self).lines@.len() > 0,
            ascent <= 0xffff_ffff * 100,
        ensures
            final(self).wf(),
            final(self)@ == old(self)@.measure(style, ascent as nat),
            final(self).lines@.len() == old(self).lines@.len(),
    {
        let i: usize = self.lines.len() - 1;
        let last = &self.lines[i];
        let raised = RenderedLine {
            indent: last.indent,
            width: self.pen,
            max_size: if last.max_size < style.size {
                style.size
            } else {
                last.max_size
            },
            default_size: last.default_size,
            ascent: if last.ascent < ascent {
                ascent
            } else {
                last.ascent
            },
        };
        self.lines.set(i, raised);
        assert(self@.lines =~= old(self)@.measure(style, ascent as nat).lines);
        assert(self@ =~= old(self)@.measure(style, ascent as nat));
    }
}

/// Whether the word that starts at `i` is wider than `budget`.
fn word_exceeds(
    chars: &Vec<(char, Style)>,
    sheet: &GlyphSheet,
    start: usize,
    budget: i64,
) -> (r: bool)
    requires
        start <= chars@.len(),
    ensures
        r == (word_width(chars@, sheet@, start as int) > budget),
{
    let mut left: i64 = budget;
    let mut i: usize = start;
    while left >= 0 && i < chars.len() && chars[i].0 != ' '
        invariant
            start <= i <= chars.len(),
            left <= budget,
            left >= -0xffff_ffff || left == budget,
            budget - left + word_width(chars@, sheet@, i as int) == word_width(
                chars@,
                sheet@,
                start as int,
            ),
        decreases chars.len() - i,
    {
        left = left - sheet.advance(chars[i].0, chars[i].1) as i64;
        i += 1;
    }
    left < 0
}

impl Page {
    fn lay_char(
        &mut self,
        chars: &Vec<(char, Style)>,
        i: usize,
        sheet: &GlyphSheet,
        indent: u32,
        default_size: u32,
    )
        requires
            old(self).wf(),
            old(self).lines@.len() > 0,
            i < chars.len(),
        ensures
            final(self).wf(),
            final(self).lines@.len() > 0,
            final(self)@ == lay_char(old(self)@, chars@, i as int, sheet@, indent, default_size),
    {
        let ch = chars[i].0;
        let style = chars[i].1;
        let advance = sheet.advance(ch, style);
        let room: i64 = (WIDTH as i64 - indent as i64) * 10000;
        let left: i64 = room - self.pen as i64 - advance as i64;
        if ch == ' ' {
            if self.pen > 0 && word_exceeds(chars, sheet, i + 1, left) {
                self.newline(indent, default_size);
            } else {
                self.place(ch, style, advance);
            }
        } else {
            if left < 0 && self.pen > 0 {
                self.newline(indent, default_size);
            }
            self.place(ch, style, advance);
            self.measure(style, sheet.ascent(style));
        }
    }

    fn lay_line(&mut self, line: &RichLine, sheet: &GlyphSheet)
        requires
            old(self).wf(),
        ensures
            final(self).wf(),
            final(self)@ == lay_line(old(self)@, line@, sheet@),
    {
        let chars = flatten(&line.spans);
        let size = default_size(&line.spans);
        self.newline(line.indent, size);
        let ghost start = self@;
        let mut i: usize = 0;
        while i < chars.len()
            invariant
                self.wf(),
                self.lines@.len() > 0,
                i <= chars.len(),
                self@ == lay_chars(start, chars@, i as nat, sheet@, line.indent, size),
            decreases chars.len() - i,
        {
            self.lay_char(&chars, i, sheet, line.indent, size);
            i += 1;
        }
    }
}

/// The characters of the spans, normalized, each with its style.
fn flatten(spans: &Vec<Span>) -> (r: Vec<(char, Style)>)
    ensures
        r@ == styled_chars(span_views(spans@)),
{
    let ghost views = span_views(spans@);
    let mut out: Vec<(char, Style)> = Vec::new();
    let mut i: usize = 0;
    while i < spans.len()
        invariant
            i <= spans.len(),
            views == span_views(spans@),
            out@ == styled_chars(views.take(i as int)),
        decreases spans.len() - i,
    {
        let ghost before = out@;
        let style = spans[i].style;
        let chars = normalized_chars(spans[i].text.as_str());
        let mut j: usize = 0;
        while j < chars.len()
            invariant
                j <= chars.len(),
                out@ == before + styled(chars@.take(j as int), style),
            decreases chars.len() - j,
        {
            out.push((chars[j], style));
            j += 1;
            assert(out@ =~= before + styled(chars@.take(j as int), style));
        }
        assert(chars@.take(j as int) =~= chars@);
        assert(views.take(i + 1).drop_last() =~= views.take(i as int));
        i += 1;
    }
    assert(views.take(i as int) =~= views);
    out
}

/// The largest size of the spans, 24 px where there are none.
fn default_size(spans: &Vec<Span>) -> (r: u32)
    ensures
        r == largest_size(span_views(spans@)),
{
    let ghost views = span_views(spans@);
    if spans.len() == 0 {
        return 2400;
    }
    let mut size: u32 = spans[0].style.size;
    let mut i: usize = 1;
    while i < spans.len()
        invariant
            1 <= i <= spans.len(),
            views == span_views(spans@),
            size == largest_size(views.take(i as int)),
        decreases spans.len() - i,
    {
        assert(views.take(i + 1).drop_last() =~= views.take(i as int));
        if size < spans[i].style.size {
            size = spans[i].style.size;
        }
        i += 1;
    }
    assert(views.take(i as int) =~= views);
    size
}

/// Lays the logical lines out, one below the other.
pub(crate) fn lay_out(lines: &[RichLine], sheet: &GlyphSheet) -> (r: Page)
    ensures
        r.wf(),
        r@ == laid_out(line_views(lines@), sheet@),
{
    let ghost views = line_views(lines@);
    let mut page = Page { lines: Vec::new(), glyphs: Vec::new(), pen: 0 };
    assert(page@ =~= laid_out(Seq::empty(), sheet@));
    assert(views.take(0) =~= Seq::empty());
    let mut i: usize = 0;
    while i < lines.len()
        invariant
            i <= lines.len(),
            page.wf(),
            views == line_views(lines@),
            page@ == laid_out(views.take(i as int), sheet@),
        decreases lines.len() - i,
    {
        assert(views.take(i + 1).drop_last() =~= views.take(i as int));
        page.lay_line(&lines[i], sheet);
        i += 1;
    }
    assert(views.take(i as int) =~= views);
    page
}

/// Whether every glyph of the page is on a line and ends within that line's room, unless it
/// starts the line.
pub open spec fn within_room(page: Layout, sheet: SheetView) -> bool {
    forall|k: int|
        0 <= k < page.glyphs.len() ==> {
            let g = #[trigger] page.glyphs[k];
            &&& g.line < page.lines.len()
            &&& g.pen == 0 || g.pen + sheet.advance(g.ch, g.style) <= room(
                page.lines[g.line as int].indent,
            )
        }
}

/// What laying one more character out leaves alone: the lines above the last one stay, and all
/// lines from there on have the logical line's indent.
spec fn extends(from: Layout, to: Layout, indent: u32) -> bool {
    &&& 0 < from.lines.len() <= to.lines.len()
    &&& forall|i: int| 0 <= i < from.lines.len() - 1 ==> #[trigger] to.lines[i] == from.lines[i]
    &&& forall|i: int|
        from.lines.len() - 1 <= i < to.lines.len() ==> (#[trigger] to.lines[i]).indent == indent
}

proof fn lemma_place(st: Layout, ch: char, style: Style, advance: nat)
    ensures
        st.place(ch, style, advance).glyphs.len() == st.glyphs.len() + 1,
        forall|k: int|
            0 <= k < st.glyphs.len() ==> #[trigger] st.place(ch, style, advance).glyphs[k]
                == st.glyphs[k],
        st.place(ch, style, advance).glyphs.last() == (LaidGlyph {
            ch,
            style,
            pen: st.pen,
            line: (st.lines.len() - 1) as nat,
        }),
        placed_chars(st.place(ch, style, advance)).drop_last() == placed_chars(st),
        placed_chars(st.place(ch, style, advance)).last() == (ch, style),
{
    let after = st.place(ch, style, advance);
    assert(placed_chars(after).drop_last() =~= placed_chars(st));
}

proof fn lemma_lay_char(
    st: Layout,
    chars: Seq<(char, Style)>,
    i: int,
    sheet: SheetView,
    indent: u32,
    size: u32,
)
    requires
        st.lines.len() > 0,
        st.lines.last().indent == indent,
        within_room(st, sheet),
    ensures
        extends(st, lay_char(st, chars, i, sheet, indent, size), indent),
        within_room(lay_char(st, chars, i, sheet, indent, size), sheet),
{
    let after = lay_char(st, chars, i, sheet, indent, size);
    let ch = chars[i].0;
    let style = chars[i].1;
    let advance = sheet.advance(ch, style);
    let broken = st.newline(indent, size);
    lemma_place(st, ch, style, advance);
    lemma_place(broken, ch, style, advance);
    assert(broken.lines.last().indent == indent);
    if ch != ' ' {
        if st.pen + advance > room(indent) && st.pen > 0 {
            assert(after.glyphs == broken.place(ch, style, advance).glyphs);
        } else {
            assert(after.glyphs == st.place(ch, style, advance).glyphs);
        }
    } else if st.pen + advance + word_width(chars, sheet, i + 1) > room(indent) && st.pen > 0 {
        assert(after == broken);
    } else {
        assert(after == st.place(ch, style, advance));
    }
    assert forall|k: int| 0 <= k < after.glyphs.len() implies {
        let g = #[trigger] after.glyphs[k];
        &&& g.line < after.lines.len()
        &&& g.pen == 0 || g.pen + sheet.advance(g.ch, g.style) <= room(
            after.lines[g.line as int].indent,
        )
    } by {
        if k < st.glyphs.len() {
            assert(after.glyphs[k] == st.glyphs[k]);
        } else {
            assert(after.glyphs[k] == after.glyphs.last());
        }
    }
}

proof fn lemma_lay_chars(
    st: Layout,
    chars: Seq<(char, Style)>,
    n: nat,
    sheet: SheetView,
    indent: u32,
    size: u32,
)
    requires
        n <= chars.len(),
        st.lines.len() > 0,
        st.lines.last().indent == indent,
        within_room(st, sheet),
    ensures
        extends(st, lay_chars(st, chars, n, sheet, indent, size), indent),
        within_room(lay_chars(st, chars, n, sheet, indent, size), sheet),
    decreases n,
{
    if n > 0 {
        lemma_lay_chars(st, chars, (n - 1) as nat, sheet, indent, size);
        let before = lay_chars(st, chars, (n - 1) as nat, sheet, indent, size);
        lemma_lay_char(before, chars, n - 1, sheet, indent, size);
        assert(before.lines[before.lines.len() - 1].indent == indent);
    }
}

/// Wrapping keeps the indent: a logical line adds at least one rendered line, all of them with
/// its indent, and leaves those above as they are.
pub proof fn law_wrapped_lines_keep_the_indent(st: Layout, line: LineView, sheet: SheetView)
    requires
        within_room(st, sheet),
    ensures
        lay_line(st, line, sheet).lines.len() > st.lines.len(),
        forall|i: int|
            0 <= i < st.lines.len() ==> #[trigger] lay_line(st, line, sheet).lines[i]
                == st.lines[i],
        forall|i: int|
            st.lines.len() <= i < lay_line(st, line, sheet).lines.len() ==> (#[trigger] lay_line(
                st,
                line,
                sheet,
            ).lines[i]).indent == line.indent,
        within_room(lay_line(st, line, sheet), sheet),
{
    let chars = styled_chars(line.spans);
    let size = largest_size(line.spans);
    let start = st.newline(line.indent, size);
    assert forall|k: int| 0 <= k < start.glyphs.len() implies {
        let g = #[trigger] start.glyphs[k];
        &&& g.line < start.lines.len()
        &&& g.pen == 0 || g.pen + sheet.advance(g.ch, g.style) <= room(
            start.lines[g.line as int].indent,
        )
    } by {
        assert(st.glyphs[k] == start.glyphs[k]);
    }
    lemma_lay_chars(start, chars, chars.len(), sheet, line.indent, size);
    let page = lay_line(st, line, sheet);
    assert forall|i: int| 0 <= i < st.lines.len() implies #[trigger] page.lines[i]
        == st.lines[i] by {
        assert(page.lines[i] == start.lines[i]);
    }
}

/// Setting one more logical line leaves the glyphs of those above where they are.
pub proof fn law_wrapping_keeps_what_is_placed(st: Layout, line: LineView, sheet: SheetView)
    ensures
        lay_line(st, line, sheet).glyphs.len() >= st.glyphs.len(),
        forall|k: int|
            0 <= k < st.glyphs.len() ==> #[trigger] lay_line(st, line, sheet).glyphs[k]
                == st.glyphs[k],
{
    let chars = styled_chars(line.spans);
    let size = largest_size(line.spans);
    lemma_glyphs_stay(
        st.newline(line.indent, size),
        chars,
        chars.len(),
        sheet,
        line.indent,
        size,
    );
}

proof fn lemma_glyphs_stay(
    st: Layout,
    chars: Seq<(char, Style)>,
    n: nat,
    sheet: SheetView,
    indent: u32,
    size: u32,
)
    ensures
        lay_chars(st, chars, n, sheet, indent, size).glyphs.len() >= st.glyphs.len(),
        forall|k: int|
            0 <= k < st.glyphs.len() ==> #[trigger] lay_chars(
                st,
                chars,
                n,
                sheet,
                indent,
                size,
            ).glyphs[k] == st.glyphs[k],
    decreases n,
{
    if n > 0 {
        lemma_glyphs_stay(st, chars, (n - 1) as nat, sheet, indent, size);
        let before = lay_chars(st, chars, (n - 1) as nat, sheet, indent, size);
        let (ch, style) = chars[n - 1];
        lemma_place(before, ch, style, sheet.advance(ch, style));
        lemma_place(before.newline(indent, size), ch, style, sheet.advance(ch, style));
    }
}

/// Text never runs past the paper: a glyph ends within its line's room, unless it starts the line
/// (and is then too wide for any line).
pub proof fn law_text_stays_within_the_room(lines: Seq<LineView>, sheet: SheetView)
    ensures
        within_room(laid_out(lines, sheet), sheet),
    decreases lines.len(),
{
    if lines.len() > 0 {
        law_text_stays_within_the_room(lines.drop_last(), sheet);
        law_wrapped_lines_keep_the_indent(
            laid_out(lines.drop_last(), sheet),
            lines.last(),
            sheet,
        );
    }
}

/// The characters that are no spaces, in order.
pub open spec fn visible(chars: Seq<(char, Style)>) -> Seq<(char, Style)>
    decreases chars.len(),
{
    if chars.len() == 0 {
        Seq::empty()
    } else if chars.last().0 == ' ' {
        visible(chars.drop_last())
    } else {
        visible(chars.drop_last()).push(chars.last())
    }
}

/// The characters of the placed glyphs.
pub open spec fn placed_chars(page: Layout) -> Seq<(char, Style)> {
    page.glyphs.map_values(|g: LaidGlyph| (g.ch, g.style))
}

proof fn lemma_lay_chars_places_all(
    st: Layout,
    chars: Seq<(char, Style)>,
    n: nat,
    sheet: SheetView,
    indent: u32,
    size: u32,
)
    requires
        n <= chars.len(),
    ensures
        visible(placed_chars(lay_chars(st, chars, n, sheet, indent, size))) == visible(
            placed_chars(st),
        ) + visible(chars.take(n as int)),
    decreases n,
{
    if n == 0 {
        assert(chars.take(0) =~= Seq::empty());
    } else {
        lemma_lay_chars_places_all(st, chars, (n - 1) as nat, sheet, indent, size);
        let before = lay_chars(st, chars, (n - 1) as nat, sheet, indent, size);
        let after = lay_char(before, chars, n - 1, sheet, indent, size);
        assert(chars.take(n as int).drop_last() =~= chars.take(n - 1));
        let (ch, style) = chars[n - 1];
        let broken = before.newline(indent, size);
        assert(placed_chars(broken) =~= placed_chars(before));
        lemma_place(before, ch, style, sheet.advance(ch, style));
        lemma_place(broken, ch, style, sheet.advance(ch, style));
        assert(ch == ' ' ==> after == broken || after == before.place(
            ch,
            style,
            sheet.advance(ch, style),
        ));
        assert(ch != ' ' ==> after.glyphs == broken.place(ch, style, sheet.advance(ch, style)).glyphs
            || after.glyphs == before.place(ch, style, sheet.advance(ch, style)).glyphs);
    }
}

/// Wrapping loses nothing but spaces: a logical line places all its other characters, each in its
/// own style, in order.
pub proof fn law_wrapping_loses_only_spaces(st: Layout, line: LineView, sheet: SheetView)
    ensures
        visible(placed_chars(lay_line(st, line, sheet))) == visible(placed_chars(st)) + visible(
            styled_chars(line.spans),
        ),
{
    let chars = styled_chars(line.spans);
    let size = largest_size(line.spans);
    let start = st.newline(line.indent, size);
    lemma_lay_chars_places_all(start, chars, chars.len(), sheet, line.indent, size);
    assert(chars.take(chars.len() as int) =~= chars);
    assert(placed_chars(start) =~= placed_chars(st));
}

/// Normalized text holds neither carriage returns nor tabs, and text without them is left as it
/// is.
pub proof fn law_normalized_text(s: Seq<char>)
    ensures
        !normalized(s).contains('\r'),
        !normalized(s).contains('\t'),
        !s.contains('\r') && !s.contains('\t') ==> normalized(s) == s,
    decreases s.len(),
{
    if s.len() > 0 {
        let front = s.drop_last();
        law_normalized_text(front);
        let before = normalized(front);
        let all = normalized(s);
        assert forall|i: int| 0 <= i < all.len() implies all[i] != '\r' && all[i] != '\t' by {
            if i < before.len() {
                assert(before.contains(before[i]));
            }
        }
        if !s.contains('\r') && !s.contains('\t') {
            assert(s.contains(s.last()));
            if s.len() > 1 {
                assert(s.contains(s[s.len() - 2]));
            }
            if front.contains('\r') {
                let i = choose|i: int| 0 <= i < front.len() && front[i] == '\r';
                assert(s[i] == '\r');
            }
            if front.contains('\t') {
                let i = choose|i: int| 0 <= i < front.len() && front[i] == '\t';
                assert(s[i] == '\t');
            }
            assert(all =~= s);
        }
    }
}

/// How far the pen moves for the characters from `a` up to `b`.
pub open spec fn advances(chars: Seq<(char, Style)>, sheet: SheetView, a: int, b: int) -> nat
    decreases b - a,
{
    if a >= b {
        0
    } else {
        advances(chars, sheet, a, b - 1) + sheet.advance(chars[b - 1].0, chars[b - 1].1)
    }
}

proof fn lemma_advances_add(chars: Seq<(char, Style)>, sheet: SheetView, a: int, b: int, c: int)
    requires
        a <= b <= c,
    ensures
        advances(chars, sheet, a, c) == advances(chars, sheet, a, b) + advances(chars, sheet, b, c),
    decreases c - b,
{
    if b < c {
        lemma_advances_add(chars, sheet, a, b, c - 1);
    }
}

/// Whether the characters from `a` up to `b` hold no space.
pub open spec fn no_space(chars: Seq<(char, Style)>, a: int, b: int) -> bool {
    0 <= a <= b <= chars.len() && forall|k: int| a <= k < b ==> (#[trigger] chars[k]).0 != ' '
}

proof fn lemma_word_width(chars: Seq<(char, Style)>, sheet: SheetView, i: int) -> (end: int)
    requires
        0 <= i <= chars.len(),
    ensures
        no_space(chars, i, end),
        word_width(chars, sheet, i) == advances(chars, sheet, i, end),
        end == chars.len() || chars[end].0 == ' ',
    decreases chars.len() - i,
{
    if i >= chars.len() || chars[i].0 == ' ' {
        i
    } else {
        let end = lemma_word_width(chars, sheet, i + 1);
        lemma_advances_add(chars, sheet, i, i + 1, end);
        reveal_with_fuel(advances, 2);
        end
    }
}

/// A line breaks only where it has to, and does where it has to. A character that is no space
/// starts a new line where the paper ends before it does. A space is swallowed by a break where
/// the word behind it would not fit whole: some of that word's characters run past the paper.
/// Nothing breaks at the start of a line, and whatever is not swallowed is placed at the pen.
pub proof fn law_lines_break_where_they_must(
    st: Layout,
    chars: Seq<(char, Style)>,
    i: int,
    sheet: SheetView,
    indent: u32,
    size: u32,
)
    requires
        0 <= i < chars.len(),
        st.lines.len() > 0,
    ensures
        ({
            let after = lay_char(st, chars, i, sheet, indent, size);
            let advance = sheet.advance(chars[i].0, chars[i].1);
            let paper = (384 - indent) * 10000;
            let breaks = st.pen > 0 && if chars[i].0 == ' ' {
                exists|n: int| #[trigger]
                    no_space(chars, i + 1, n) && st.pen + advance + advances(chars, sheet, i + 1, n)
                        > paper
            } else {
                st.pen + advance > paper
            };
            &&& after.lines.len() == st.lines.len() + if breaks {
                1int
            } else {
                0
            }
            &&& chars[i].0 == ' ' && breaks ==> after.glyphs == st.glyphs && after.pen == 0
            &&& !(chars[i].0 == ' ' && breaks) ==> after.glyphs.len() == st.glyphs.len() + 1
                && after.glyphs.drop_last() == st.glyphs && after.glyphs.last() == (LaidGlyph {
                ch: chars[i].0,
                style: chars[i].1,
                pen: if breaks {
                    0
                } else {
                    st.pen
                },
                line: (after.lines.len() - 1) as nat,
            }) && after.pen == after.glyphs.last().pen + advance
        }),
{
    let after = lay_char(st, chars, i, sheet, indent, size);
    let (ch, style) = chars[i];
    let advance = sheet.advance(ch, style);
    let broken = st.newline(indent, size);
    let end = lemma_word_width(chars, sheet, i + 1);
    assert forall|n: int| #[trigger] no_space(chars, i + 1, n) implies advances(
        chars,
        sheet,
        i + 1,
        n,
    ) <= word_width(chars, sheet, i + 1) by {
        if n > end {
            assert(chars[end].0 != ' ');
        }
        lemma_advances_add(chars, sheet, i + 1, n, end);
    }
    assert(no_space(chars, i + 1, end));
    lemma_place(st, ch, style, advance);
    lemma_place(broken, ch, style, advance);
    assert(broken.place(ch, style, advance).glyphs.drop_last() =~= st.glyphs);
    assert(st.place(ch, style, advance).glyphs.drop_last() =~= st.glyphs);
}

proof fn lemma_one_line(
    st: Layout,
    chars: Seq<(char, Style)>,
    n: nat,
    sheet: SheetView,
    indent: u32,
    size: u32,
)
    requires
        n <= chars.len(),
        st.lines.len() > 0,
        st.pen == 0,
        advances(chars, sheet, 0, chars.len() as int) <= (384 - indent) * 10000,
    ensures
        ({
            let page = lay_chars(st, chars, n, sheet, indent, size);
            &&& page.lines.len() == st.lines.len()
            &&& page.pen == advances(chars, sheet, 0, n as int)
            &&& page.glyphs.len() == st.glyphs.len() + n
            &&& forall|k: int|
                0 <= k < st.glyphs.len() ==> #[trigger] page.glyphs[k] == st.glyphs[k]
            &&& forall|k: int|
                0 <= k < n ==> #[trigger] page.glyphs[st.glyphs.len() + k] == (LaidGlyph {
                    ch: chars[k].0,
                    style: chars[k].1,
                    pen: advances(chars, sheet, 0, k),
                    line: (st.lines.len() - 1) as nat,
                })
        }),
    decreases n,
{
    if n > 0 {
        lemma_one_line(st, chars, (n - 1) as nat, sheet, indent, size);
        let before = lay_chars(st, chars, (n - 1) as nat, sheet, indent, size);
        let page = lay_chars(st, chars, n, sheet, indent, size);
        let end = lemma_word_width(chars, sheet, n as int);
        lemma_advances_add(chars, sheet, 0, n as int, end);
        lemma_advances_add(chars, sheet, 0, end, chars.len() as int);
        law_lines_break_where_they_must(before, chars, n - 1, sheet, indent, size);
        assert forall|k: int| 0 <= k < st.glyphs.len() + n - 1 implies #[trigger] page.glyphs[k]
            == before.glyphs[k] by {
            assert(page.glyphs.drop_last()[k] == before.glyphs[k]);
        }
        assert(page.glyphs[st.glyphs.len() + n - 1] == page.glyphs.last());
        assert forall|k: int| 0 <= k < n implies #[trigger] page.glyphs[st.glyphs.len() + k] == (
        LaidGlyph {
            ch: chars[k].0,
            style: chars[k].1,
            pen: advances(chars, sheet, 0, k),
            line: (st.lines.len() - 1) as nat,
        }) by {
            if k < n - 1 {
                assert(page.glyphs[st.glyphs.len() + k] == before.glyphs[st.glyphs.len() + k]);
            }
        }
    }
}

/// A text that fits the paper is set on one line, character by character: each stands where the
/// advances of those before it add up to.
pub proof fn law_text_that_fits_is_not_wrapped(st: Layout, line: LineView, sheet: SheetView, k: int)
    requires
        advances(
            styled_chars(line.spans),
            sheet,
            0,
            styled_chars(line.spans).len() as int,
        ) <= (384 - line.indent) * 10000,
    ensures
        lay_line(st, line, sheet).lines.len() == st.lines.len() + 1,
        lay_line(st, line, sheet).glyphs.len() == st.glyphs.len() + styled_chars(line.spans).len(),
        0 <= k < styled_chars(line.spans).len() ==> lay_line(st, line, sheet).glyphs[st.glyphs.len()
            + k] == (LaidGlyph {
            ch: styled_chars(line.spans)[k].0,
            style: styled_chars(line.spans)[k].1,
            pen: advances(styled_chars(line.spans), sheet, 0, k),
            line: st.lines.len(),
        }),
{
    let chars = styled_chars(line.spans);
    let size = largest_size(line.spans);
    lemma_one_line(
        st.newline(line.indent, size),
        chars,
        chars.len(),
        sheet,
        line.indent,
        size,
    );
}

/// Whether glyph `k` stands on rendered line `l` and is no space.
pub open spec fn on_line(page: Layout, k: int, l: int) -> bool {
    0 <= k < page.glyphs.len() && page.glyphs[k].line == l && page.glyphs[k].ch != ' '
}

/// Where glyph `k` ends on its line.
pub open spec fn end_of(page: Layout, sheet: SheetView, k: int) -> nat {
    page.glyphs[k].pen + sheet.advance(page.glyphs[k].ch, page.glyphs[k].style)
}

/// Whether the line of glyph `k` takes it in: unless it is a space, the line reaches to its end
/// and is at least as large and as high.
pub open spec fn taken_in(page: Layout, sheet: SheetView, k: int) -> bool {
    let g = page.glyphs[k];
    let line = page.lines[g.line as int];
    &&& g.line < page.lines.len()
    &&& g.ch != ' ' ==> end_of(page, sheet, k) <= line.width && g.style.size <= line.max_size
        && sheet.ascent(g.style) <= line.ascent
}

/// Whether the measures of line `l` are those of glyphs on it, where it has any.
pub open spec fn attained(page: Layout, sheet: SheetView, l: int) -> bool {
    let line = page.lines[l];
    &&& line.width > 0 ==> exists|k: int| #[trigger]
        on_line(page, k, l) && end_of(page, sheet, k) == line.width
    &&& line.max_size > 0 ==> exists|k: int| #[trigger]
        on_line(page, k, l) && page.glyphs[k].style.size == line.max_size
    &&& line.ascent > 0 ==> exists|k: int| #[trigger]
        on_line(page, k, l) && sheet.ascent(page.glyphs[k].style) == line.ascent
}

/// Whether glyph `k` begins where the one before it on its line ends, and at the line's start where
/// there is none. No glyph stands on an earlier line than the one before it.
pub open spec fn follows(page: Layout, sheet: SheetView, k: int) -> bool {
    if k > 0 && page.glyphs[k - 1].line == page.glyphs[k].line {
        page.glyphs[k].pen == end_of(page, sheet, k - 1)
    } else {
        &&& page.glyphs[k].pen == 0
        &&& k > 0 ==> page.glyphs[k - 1].line < page.glyphs[k].line
    }
}

/// Where the pen of a page is: behind the last glyph, where that is on the last line, else at the
/// line's start.
pub open spec fn pen_follows(page: Layout, sheet: SheetView) -> bool {
    let n = page.glyphs.len() as int;
    page.pen == if n > 0 && page.glyphs[n - 1].line == page.lines.len() - 1 {
        end_of(page, sheet, n - 1)
    } else {
        0
    }
}

spec fn behind_pen(page: Layout, sheet: SheetView, k: int) -> bool {
    page.glyphs[k].line == page.lines.len() - 1 ==> end_of(page, sheet, k) <= page.pen
}

spec fn in_order(page: Layout, sheet: SheetView) -> bool {
    &&& forall|k: int| 0 <= k < page.glyphs.len() ==> #[trigger] taken_in(page, sheet, k)
    &&& forall|l: int| 0 <= l < page.lines.len() ==> #[trigger] attained(page, sheet, l)
    &&& forall|k: int| 0 <= k < page.glyphs.len() ==> #[trigger] follows(page, sheet, k)
    &&& forall|k: int| 0 <= k < page.glyphs.len() ==> #[trigger] behind_pen(page, sheet, k)
    &&& pen_follows(page, sheet)
}

proof fn lemma_still_attained(page: Layout, next: Layout, sheet: SheetView, l: int)
    requires
        attained(page, sheet, l),
        page.glyphs.len() <= next.glyphs.len(),
        forall|k: int| 0 <= k < page.glyphs.len() ==> #[trigger] next.glyphs[k] == page.glyphs[k],
    ensures
        next.lines[l].width == page.lines[l].width && next.lines[l].width > 0 ==> exists|k: int|
            #[trigger] on_line(next, k, l) && end_of(next, sheet, k) == next.lines[l].width,
        next.lines[l].max_size == page.lines[l].max_size && next.lines[l].max_size > 0 ==> exists|
            k: int,
        | #[trigger] on_line(next, k, l) && next.glyphs[k].style.size == next.lines[l].max_size,
        next.lines[l].ascent == page.lines[l].ascent && next.lines[l].ascent > 0 ==> exists|k: int|
            #[trigger] on_line(next, k, l) && sheet.ascent(next.glyphs[k].style)
                == next.lines[l].ascent,
{
    let line = page.lines[l];
    if line.width > 0 {
        let k = choose|k: int| #[trigger]
            on_line(page, k, l) && end_of(page, sheet, k) == line.width;
        assert(on_line(next, k, l));
    }
    if line.max_size > 0 {
        let k = choose|k: int| #[trigger]
            on_line(page, k, l) && page.glyphs[k].style.size == line.max_size;
        assert(on_line(next, k, l));
    }
    if line.ascent > 0 {
        let k = choose|k: int| #[trigger]
            on_line(page, k, l) && sheet.ascent(page.glyphs[k].style) == line.ascent;
        assert(on_line(next, k, l));
    }
}

proof fn lemma_newline_in_order(page: Layout, sheet: SheetView, indent: u32, size: u32)
    requires
        in_order(page, sheet),
    ensures
        in_order(page.newline(indent, size), sheet),
{
    let next = page.newline(indent, size);
    assert forall|k: int| 0 <= k < next.glyphs.len() implies #[trigger] taken_in(next, sheet, k) by {
        assert(taken_in(page, sheet, k));
    }
    assert forall|l: int| 0 <= l < next.lines.len() implies #[trigger] attained(next, sheet, l) by {
        if l < page.lines.len() {
            assert(attained(page, sheet, l));
            lemma_still_attained(page, next, sheet, l);
        }
    }
    assert forall|k: int| 0 <= k < next.glyphs.len() implies #[trigger] follows(next, sheet, k) by {
        assert(follows(page, sheet, k));
    }
    assert forall|k: int| 0 <= k < next.glyphs.len() implies #[trigger] behind_pen(
        next,
        sheet,
        k,
    ) by {
        assert(taken_in(page, sheet, k));
    }
    let n = page.glyphs.len() as int;
    if n > 0 {
        assert(taken_in(page, sheet, n - 1));
    }
}

proof fn lemma_place_in_order(page: Layout, sheet: SheetView, ch: char, style: Style)
    requires
        in_order(page, sheet),
        page.lines.len() > 0,
    ensures
        ch == ' ' ==> in_order(page.place(ch, style, sheet.advance(ch, style)), sheet),
        ch != ' ' ==> in_order(
            page.place(ch, style, sheet.advance(ch, style)).measure(style, sheet.ascent(style)),
            sheet,
        ),
{
    let advance = sheet.advance(ch, style);
    let placed = page.place(ch, style, advance);
    lemma_place(page, ch, style, advance);
    let next = if ch == ' ' {
        placed
    } else {
        placed.measure(style, sheet.ascent(style))
    };
    let last = page.lines.len() - 1;
    let n = page.glyphs.len() as int;
    assert(next.glyphs == placed.glyphs);
    assert(next.glyphs[n] == placed.glyphs.last());
    assert forall|k: int| 0 <= k < n implies #[trigger] next.glyphs[k] == page.glyphs[k] by {
        assert(placed.glyphs[k] == page.glyphs[k]);
    }
    assert forall|k: int| 0 <= k < next.glyphs.len() implies #[trigger] taken_in(next, sheet, k) by {
        if k < n {
            assert(taken_in(page, sheet, k));
            assert(behind_pen(page, sheet, k));
        }
    }
    assert forall|l: int| 0 <= l < next.lines.len() implies #[trigger] attained(next, sheet, l) by {
        assert(attained(page, sheet, l));
        lemma_still_attained(page, next, sheet, l);
        if ch != ' ' && l == last {
            assert(on_line(next, n, l));
            assert(end_of(next, sheet, n) == next.lines[l].width);
        }
    }
    assert forall|k: int| 0 <= k < next.glyphs.len() implies #[trigger] follows(next, sheet, k) by {
        if k < n {
            assert(follows(page, sheet, k));
        } else if n > 0 {
            assert(taken_in(page, sheet, n - 1));
        }
    }
    assert forall|k: int| 0 <= k < next.glyphs.len() implies #[trigger] behind_pen(
        next,
        sheet,
        k,
    ) by {
        if k < n {
            assert(behind_pen(page, sheet, k));
        }
    }
}

proof fn lemma_char_in_order(
    before: Layout,
    chars: Seq<(char, Style)>,
    i: int,
    sheet: SheetView,
    indent: u32,
    size: u32,
)
    requires
        0 <= i < chars.len(),
        before.lines.len() > 0,
        in_order(before, sheet),
    ensures
        in_order(lay_char(before, chars, i, sheet, indent, size), sheet),
        lay_char(before, chars, i, sheet, indent, size).lines.len() > 0,
{
    lemma_newline_in_order(before, sheet, indent, size);
    lemma_place_in_order(before, sheet, chars[i].0, chars[i].1);
    lemma_place_in_order(before.newline(indent, size), sheet, chars[i].0, chars[i].1);
}

proof fn lemma_chars_in_order(
    st: Layout,
    chars: Seq<(char, Style)>,
    n: nat,
    sheet: SheetView,
    indent: u32,
    size: u32,
)
    requires
        n <= chars.len(),
        st.lines.len() > 0,
        in_order(st, sheet),
    ensures
        in_order(lay_chars(st, chars, n, sheet, indent, size), sheet),
        lay_chars(st, chars, n, sheet, indent, size).lines.len() > 0,
    decreases n,
{
    if n > 0 {
        lemma_chars_in_order(st, chars, (n - 1) as nat, sheet, indent, size);
        lemma_char_in_order(
            lay_chars(st, chars, (n - 1) as nat, sheet, indent, size),
            chars,
            n - 1,
            sheet,
            indent,
            size,
        );
    }
}

proof fn lemma_laid_out_in_order(lines: Seq<LineView>, sheet: SheetView)
    ensures
        in_order(laid_out(lines, sheet), sheet),
    decreases lines.len(),
{
    if lines.len() > 0 {
        lemma_laid_out_in_order(lines.drop_last(), sheet);
        let st = laid_out(lines.drop_last(), sheet);
        let line = lines.last();
        let chars = styled_chars(line.spans);
        let size = largest_size(line.spans);
        lemma_newline_in_order(st, sheet, line.indent, size);
        lemma_chars_in_order(
            st.newline(line.indent, size),
            chars,
            chars.len(),
            sheet,
            line.indent,
            size,
        );
    }
}

/// On every page glyphs follow each other without gaps from the start of their line, and a line's
/// width, size and ascent are those of the glyphs on it that are no spaces.
pub proof fn law_lines_are_measured_by_their_glyphs(
    lines: Seq<LineView>,
    sheet: SheetView,
    k: int,
    l: int,
)
    ensures
        0 <= k < laid_out(lines, sheet).glyphs.len() ==> taken_in(laid_out(lines, sheet), sheet, k),
        0 <= k < laid_out(lines, sheet).glyphs.len() ==> follows(laid_out(lines, sheet), sheet, k),
        0 <= l < laid_out(lines, sheet).lines.len() ==> attained(laid_out(lines, sheet), sheet, l),
{
    lemma_laid_out_in_order(lines, sheet);
}

/// What text becomes when it is set: a tab four spaces, a carriage return a line feed, and a line
/// feed right behind one nothing more; every other character itself. Each run keeps its style.
pub proof fn law_characters_are_set_as_they_come(s: Seq<char>, c: char, style: Style)
    ensures
        normalized(Seq::empty()).len() == 0,
        normalized(s.push('\t')) == normalized(s) + seq![' ', ' ', ' ', ' '],
        normalized(s.push('\r')) == normalized(s) + seq!['\n'],
        s.len() > 0 && s.last() == '\r' ==> normalized(s.push('\n')) == normalized(s),
        s.len() == 0 || s.last() != '\r' ==> normalized(s.push('\n')) == normalized(s) + seq!['\n'],
        c != '\t' && c != '\r' && c != '\n' ==> normalized(s.push(c)) == normalized(s) + seq![c],
        styled_chars(seq![SpanView { text: s, style }]).len() == normalized(s).len(),
        forall|i: int|
            0 <= i < normalized(s).len() ==> #[trigger] styled_chars(
                seq![SpanView { text: s, style }],
            )[i] == (normalized(s)[i], style),
{
    assert(s.push('\t').drop_last() =~= s);
    assert(s.push('\r').drop_last() =~= s);
    assert(s.push('\n').drop_last() =~= s);
    assert(s.push(c).drop_last() =~= s);
    let spans = seq![SpanView { text: s, style }];
    assert(spans.drop_last() =~= Seq::empty());
    assert(styled_chars(spans.drop_last()).len() == 0);
    assert(styled_chars(spans) =~= styled(normalized(s), style));
}

/// The size that a line without visible text is as high as: the largest of its spans, and 24 px
/// where it has none.
pub proof fn law_largest_size(spans: Seq<SpanView>, i: int)
    ensures
        spans.len() == 0 ==> largest_size(spans) == 2400,
        0 <= i < spans.len() ==> spans[i].style.size <= largest_size(spans),
        spans.len() > 0 ==> exists|k: int|
            0 <= k < spans.len() && (#[trigger] spans[k]).style.size == largest_size(spans),
    decreases spans.len(),
{
    if spans.len() == 1 {
        assert(spans[0].style.size == largest_size(spans));
    } else if spans.len() > 1 {
        let front = spans.drop_last();
        law_largest_size(front, i);
        let k = choose|k: int|
            0 <= k < front.len() && (#[trigger] front[k]).style.size == largest_size(front);
        assert(spans[k] == front[k]);
        assert(spans[spans.len() - 1] == spans.last());
        if i < front.len() {
            assert(0 <= i ==> front[i] == spans[i]);
        }
    }
}

/// Of a logical line that is one run of text, every rendered line is set in that run's style: all
/// its glyphs are, and a line without any is as high as the run's size asks for.
pub proof fn law_runs_keep_their_style(st: Layout, text: Seq<char>, style: Style, indent: u32, sheet: SheetView)
    ensures
        ({
            let line = LineView { spans: seq![SpanView { text, style }], indent };
            let page = lay_line(st, line, sheet);
            &&& page.glyphs.len() >= st.glyphs.len()
            &&& forall|k: int|
                st.glyphs.len() <= k < page.glyphs.len() ==> (#[trigger] page.glyphs[k]).style
                    == style
            &&& forall|l: int|
                st.lines.len() <= l < page.lines.len() ==> {
                    let line = #[trigger] page.lines[l];
                    line.default_size == style.size && (line.max_size == 0 || line.max_size
                        == style.size)
                }
        }),
{
    let line = LineView { spans: seq![SpanView { text, style }], indent };
    law_characters_are_set_as_they_come(text, ' ', style);
    let chars = styled_chars(line.spans);
    assert(largest_size(line.spans) == style.size);
    assert forall|i: int| 0 <= i < chars.len() implies (#[trigger] chars[i]).1 == style by {}
    lemma_run_style(
        st.newline(indent, style.size),
        chars,
        chars.len(),
        sheet,
        indent,
        style,
        st.glyphs.len(),
        st.lines.len(),
    );
}

proof fn lemma_run_style(
    st: Layout,
    chars: Seq<(char, Style)>,
    n: nat,
    sheet: SheetView,
    indent: u32,
    style: Style,
    glyphs: nat,
    lines: nat,
)
    requires
        n <= chars.len(),
        forall|i: int| 0 <= i < chars.len() ==> (#[trigger] chars[i]).1 == style,
        st.glyphs.len() == glyphs,
        st.lines.len() == lines + 1,
        st.lines.last().default_size == style.size,
        st.lines.last().max_size == 0,
    ensures
        ({
            let page = lay_chars(st, chars, n, sheet, indent, style.size);
            &&& page.glyphs.len() >= glyphs
            &&& page.lines.len() > lines
            &&& forall|k: int|
                glyphs <= k < page.glyphs.len() ==> (#[trigger] page.glyphs[k]).style == style
            &&& forall|l: int|
                lines <= l < page.lines.len() ==> {
                    let line = #[trigger] page.lines[l];
                    line.default_size == style.size && (line.max_size == 0 || line.max_size
                        == style.size)
                }
        }),
    decreases n,
{
    if n > 0 {
        lemma_run_style(st, chars, (n - 1) as nat, sheet, indent, style, glyphs, lines);
        let before = lay_chars(st, chars, (n - 1) as nat, sheet, indent, style.size);
        let broken = before.newline(indent, style.size);
        let ch = chars[n - 1].0;
        assert(chars[n - 1].1 == style);
        let advance = sheet.advance(ch, style);
        lemma_place(before, ch, style, advance);
        lemma_place(broken, ch, style, advance);
        assert(before.lines[before.lines.len() - 1] == before.lines.last());
    }
}

} // verus!
