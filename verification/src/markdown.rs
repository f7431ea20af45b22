//! Markdown to 1-bit bitmap.
//!
//! Headings are bold (36, 30 and 26 px), body text regular 24 px, code and tables regular 20 px.
//! Fences named `qr`, `barcode` and `wagara` turn into graphics; one that cannot be drawn prints
//! its error instead and never costs the rest of the document.
//!
//! Images take two passes, since nothing is fetched here: [`markdown_image_refs`] lists a
//! document's image destinations, the caller decodes what it can, and [`render_markdown_with`]
//! renders the document against the result. What is missing becomes an italic placeholder line.

use vstd::hash_set::StringHashSet;
use vstd::prelude::*;

use crate::barcode::{barcode_message, barcode_page, render_barcode, BarcodeError};
use crate::bitmap::{
    blank_row, blank_rows, ink, painted, pixel, rectangular, rows_view, Bitmap, WIDTH,
};
use crate::events::{
    event_views, is_blank, markdown_events, parse_markdown, MdEvent, MdTag, MdTagEnd,
};
use crate::glyphs::{FontStyle, GlyphSheet, SheetView, Style};
use crate::images::ImageMap;
use crate::layout::{line_views, LineView, RichLine, SpanView};
use crate::lowering::{
    block_views, code_line, flow_after, lemma_code_text, lower, lowered_blocks, single_line,
    BlockView, Flow, MdBlock, CODE_INDENT,
};
use crate::qr::{
    encodes_well, law_quiet_zone_is_white, qr_encoding, qr_message, qr_page, render_qr_with_width,
    EncodeError, QrError, SymbolView,
};
use crate::rich::{render_rich, render_rich_aligned, rich_rows, Alignment};
use crate::table::string_views;
use crate::text::{
    begins, char_views, chars_of, lines, parse_unsigned, split_words, starts_with, unsigned, words,
};
use crate::wagara::{
    band_views, parse_wagara_options, read_options, render_wagara, wagara_message, wagara_page,
    wagara_view, Band, BandView, WagaraError,
};

verus! {

/// White margin above and below a horizontal rule, in pixels.
pub const RULE_MARGIN: usize = 12;

/// Thickness of a horizontal rule, in pixels.
pub const RULE_THICKNESS: usize = 2;

/// Dash (and gap) length of a tear marker, in pixels.
pub const TEAR_DASH: usize = 8;

/// White margin above and below a graphic fence, including what the graphic brings itself.
pub const FENCE_MARGIN: usize = 24;

/// White margin above and below an image, in pixels.
pub const IMAGE_MARGIN: usize = 8;

/// What a document is drawn with: glyphs, and the wagara bands it may use.
pub struct Artwork {
    pub sheet: GlyphSheet,
    pub bands: Vec<Band>,
}

/// What an [`Artwork`] holds.
pub struct ArtworkView {
    pub sheet: SheetView,
    pub bands: Seq<BandView>,
}

impl View for Artwork {
    type V = ArtworkView;

    open spec fn view(&self) -> ArtworkView {
        ArtworkView { sheet: self.sheet@, bands: band_views(self.bands@) }
    }
}

/// The image destinations some events use and how many images are open after them: only the
/// outermost image of a nest counts, and only a destination that is neither empty nor seen before.
pub open spec fn refs_after(events: Seq<MdEvent<Seq<char>>>) -> (Seq<Seq<char>>, nat)
    decreases events.len(),
{
    if events.len() == 0 {
        (Seq::empty(), 0)
    } else {
        let (refs, depth) = refs_after(events.drop_last());
        match events.last() {
            MdEvent::Start(MdTag::Image(dest)) => (
                if depth == 0 && dest.len() > 0 && !refs.contains(dest) {
                    refs.push(dest)
                } else {
                    refs
                },
                depth + 1,
            ),
            MdEvent::End(MdTagEnd::Image) => (
                refs,
                if depth > 0 {
                    (depth - 1) as nat
                } else {
                    0
                },
            ),
            _ => (refs, depth),
        }
    }
}

/// The image destinations that some events use, in order.
pub fn image_refs(events: &Vec<MdEvent<String>>) -> (r: Vec<String>)
    ensures
        string_views(r@) == refs_after(event_views(events@)).0,
{
    let ghost views = event_views(events@);
    let mut refs: Vec<String> = Vec::new();
    let mut seen: StringHashSet = StringHashSet::new();
    let mut depth: usize = 0;
    let mut i: usize = 0;
    assert(views.take(0) =~= Seq::empty());
    assert(string_views(refs@) =~= Seq::empty());
    while i < events.len()
        invariant
            i <= events.len(),
            views == event_views(events@),
            (string_views(refs@), depth as nat) == refs_after(views.take(i as int)),
            forall|dest: Seq<char>| #[trigger]
                seen@.contains(dest) <==> string_views(refs@).contains(dest),
            depth <= i,
        decreases events.len() - i,
    {
        assert(views.take(i + 1).drop_last() =~= views.take(i as int));
        match &events[i] {
            MdEvent::Start(MdTag::Image(dest)) => {
                if depth == 0 && !dest.as_str().is_empty() && seen.insert(dest.clone()) {
                    let ghost before = string_views(refs@);
                    refs.push(dest.clone());
                    assert(string_views(refs@) =~= before.push(dest@));
                    proof {
                        lemma_push_contains(before, dest@);
                    }
                }
                depth = depth + 1;
            },
            MdEvent::End(MdTagEnd::Image) => {
                if depth > 0 {
                    depth = depth - 1;
                }
            },
            _ => {},
        }
        i += 1;
    }
    assert(views.take(i as int) =~= views);
    refs
}

proof fn lemma_push_contains(refs: Seq<Seq<char>>, dest: Seq<char>)
    ensures
        forall|other: Seq<char>| #[trigger]
            refs.push(dest).contains(other) <==> refs.contains(other) || other == dest,
{
    assert forall|other: Seq<char>| refs.contains(other) || other == dest implies #[trigger]
    refs.push(dest).contains(other) by {
        if refs.contains(other) {
            let k = choose|k: int| 0 <= k < refs.len() && refs[k] == other;
            assert(refs.push(dest)[k] == other);
        } else {
            assert(refs.push(dest)[refs.len() as int] == other);
        }
    }
}

/// Every image destination in `md`, in document order, each once, exactly as it has to be a key
/// of the map handed to [`render_markdown_with`].
pub fn markdown_image_refs(md: &str) -> (r: Vec<String>)
    ensures
        string_views(r@) == refs_after(markdown_events(md@)).0,
{
    image_refs(&parse_markdown(md))
}

/// The rows between margins of white.
pub open spec fn padded_rows(rows: Seq<Seq<bool>>, margin: nat) -> Seq<Seq<bool>> {
    blank_rows(margin) + rows + blank_rows(margin)
}

/// A copy of `src` with `margin` px of white above and below.
pub fn padded(src: &Bitmap, margin: usize) -> (r: Bitmap)
    ensures
        r@ == padded_rows(src@, margin as nat),
{
    let mut out = Bitmap::new(margin);
    out.append(src);
    out.push_blank(margin);
    out
}

/// A solid bar: 2 px high and as wide as the paper, between 12 px margins.
pub open spec fn rule_rows() -> Seq<Seq<bool>> {
    painted(26, |x: int, y: int| 12 <= y < 14)
}

/// A dashed bar: 8 px on, 8 px off.
pub open spec fn tear_rows() -> Seq<Seq<bool>> {
    painted(26, |x: int, y: int| 12 <= y < 14 && (x / 8) % 2 == 0)
}

/// A bar, solid or dashed.
fn bar(dashed: bool) -> (r: Bitmap)
    ensures
        r@ == if dashed {
            tear_rows()
        } else {
            rule_rows()
        },
{
    let mut b = Bitmap::new(2 * RULE_MARGIN + RULE_THICKNESS);
    let mut x: usize = 0;
    while x < WIDTH
        invariant
            x <= WIDTH,
            rectangular(b@),
            b@.len() == 26,
            forall|i: int, j: int|
                0 <= i < WIDTH && 0 <= j < 26 ==> #[trigger] pixel(b@, i, j) == (12 <= j < 14 && i < x
                    && (!dashed || (i / 8) % 2 == 0)),
        decreases WIDTH - x,
    {
        if !dashed || (x / TEAR_DASH) % 2 == 0 {
            ink(&mut b, x as i128, RULE_MARGIN as i128);
            ink(&mut b, x as i128, RULE_MARGIN as i128 + 1);
        }
        x += 1;
    }
    proof {
        let wanted = if dashed {
            tear_rows()
        } else {
            rule_rows()
        };
        assert forall|j: int| 0 <= j < 26 implies b@[j] == wanted[j] by {
            assert forall|i: int| 0 <= i < WIDTH implies b@[j][i] == wanted[j][i] by {
                assert(pixel(b@, i, j) == (12 <= j < 14 && (!dashed || (i / 8) % 2 == 0)));
            }
            assert(b@[j] =~= wanted[j]);
        }
        assert(b@ =~= wanted);
    }
    b
}

/// A full-width 2 px black bar with white margins above and below.
pub fn rule_bitmap() -> (r: Bitmap)
    ensures
        r@ == rule_rows(),
{
    bar(false)
}

/// A dashed 2 px tear line (8 px on, 8 px off) with the margins of a rule.
pub fn tear_bitmap() -> (r: Bitmap)
    ensures
        r@ == tear_rows(),
{
    bar(true)
}

/// Pages stacked one below the other.
pub open spec fn stacked(pages: Seq<Seq<Seq<bool>>>) -> Seq<Seq<bool>>
    decreases pages.len(),
{
    if pages.len() == 0 {
        Seq::empty()
    } else {
        stacked(pages.drop_last()) + pages.last()
    }
}

/// The bitmaps' rows.
pub open spec fn bitmap_views(bitmaps: Seq<Bitmap>) -> Seq<Seq<Seq<bool>>> {
    bitmaps.map_values(|b: Bitmap| b@)
}

/// Stacks bitmaps vertically into one.
pub fn stack(bitmaps: Vec<Bitmap>) -> (r: Bitmap)
    ensures
        r@ == stacked(bitmap_views(bitmaps@)),
{
    let ghost views = bitmap_views(bitmaps@);
    let mut out = Bitmap::new(0);
    assert(out@ =~= Seq::empty());
    let mut i: usize = 0;
    while i < bitmaps.len()
        invariant
            i <= bitmaps.len(),
            views == bitmap_views(bitmaps@),
            out@ == stacked(views.take(i as int)),
        decreases bitmaps.len() - i,
    {
        assert(views.take(i + 1).drop_last() =~= views.take(i as int));
        out.append(&bitmaps[i]);
        i += 1;
    }
    assert(views.take(i as int) =~= views);
    out
}

/// A failed fence's message, as one line of code text.
pub open spec fn error_rows(message: Seq<char>, sheet: SheetView) -> Seq<Seq<bool>> {
    rich_rows(seq![code_line(message, CODE_INDENT)], sheet, Alignment::Left)
}

/// A failed fence's message, as one line of code text.
pub fn fence_error(message: &str, sheet: &GlyphSheet) -> (r: Bitmap)
    ensures
        r@ == error_rows(message@, sheet@),
{
    let mut all: Vec<RichLine> = Vec::new();
    all.push(single_line(message.to_owned(), CODE_INDENT));
    assert(line_views(all@) =~= seq![code_line(message@, CODE_INDENT)]);
    render_rich(all.as_slice(), sheet)
}

/// A fence's block: the graphic padded to 24 px of white, of which it brings `built_in` itself, or
/// its error message padded by 24 px.
pub open spec fn fence_rows(
    rendered: Result<Seq<Seq<bool>>, Seq<char>>,
    built_in: nat,
    sheet: SheetView,
) -> Seq<Seq<bool>> {
    match rendered {
        Ok(rows) => padded_rows(
            rows,
            if built_in < 24 {
                (24 - built_in) as nat
            } else {
                0
            },
        ),
        Err(message) => padded_rows(error_rows(message, sheet), 24),
    }
}

/// A rendering's rows, or the message in its place.
pub open spec fn rendered_view(r: Result<Bitmap, String>) -> Result<Seq<Seq<bool>>, Seq<char>> {
    match r {
        Ok(bitmap) => Ok(bitmap@),
        Err(message) => Err(message@),
    }
}

/// Lays out a graphic fence, or its error message.
pub fn fence_bitmap(rendered: Result<Bitmap, String>, built_in: usize, sheet: &GlyphSheet) -> (r:
    Bitmap)
    ensures
        r@ == fence_rows(rendered_view(rendered), built_in as nat, sheet@),
{
    match rendered {
        Ok(code) => padded(&code, FENCE_MARGIN.saturating_sub(built_in)),
        Err(message) => padded(&fence_error(message.as_str(), sheet), FENCE_MARGIN),
    }
}

/// The width that some words ask for; a word that is no width counts for nothing.
pub open spec fn width_option(options: Seq<Seq<char>>) -> Result<Option<nat>, QrError>
    decreases options.len(),
{
    if options.len() == 0 {
        Ok(None)
    } else {
        match width_option(options.drop_last()) {
            Err(e) => Err(e),
            Ok(width) => {
                let word = options.last();
                if !starts_with(word, "width="@) {
                    Ok(width)
                } else if width is Some {
                    Err(QrError::InvalidWidth)
                } else {
                    match unsigned(word.skip("width="@.len() as int), usize::MAX as nat) {
                        Some(n) => Ok(Some(n)),
                        None => Err(QrError::InvalidWidth),
                    }
                }
            },
        }
    }
}

/// What a QR fence renders to.
pub open spec fn qr_fence(
    encoding: Result<SymbolView, EncodeError>,
    options: Seq<char>,
    sheet: SheetView,
) -> Result<Seq<Seq<bool>>, QrError> {
    match width_option(words(options)) {
        Err(e) => Err(e),
        Ok(Some(width)) => qr_page(encoding, None, width, sheet),
        Ok(None) => qr_page(encoding, None, WIDTH as nat, sheet),
    }
}

/// Whether a QR fence's words ask for no width, or for one that the paper has.
pub open spec fn qr_width_allowed(options: Seq<char>) -> bool {
    match width_option(words(options)) {
        Err(e) => false,
        Ok(Some(width)) => 0 < width <= WIDTH,
        Ok(None) => true,
    }
}

proof fn lemma_first_width_error(options: Seq<Seq<char>>, n: int)
    requires
        0 <= n <= options.len(),
        width_option(options.take(n)) is Err,
    ensures
        width_option(options) == width_option(options.take(n)),
    decreases options.len() - n,
{
    if n < options.len() {
        assert(options.take(n + 1).drop_last() =~= options.take(n));
        lemma_first_width_error(options, n + 1);
    } else {
        assert(options.take(n) =~= options);
    }
}

/// The width that a QR fence's options ask for.
pub fn qr_width(options: &str) -> (r: Result<Option<usize>, QrError>)
    ensures
        match r {
            Ok(Some(n)) => width_option(words(options@)) == Ok::<Option<nat>, QrError>(
                Some(n as nat),
            ),
            Ok(None) => width_option(words(options@)) == Ok::<Option<nat>, QrError>(None),
            Err(e) => width_option(words(options@)) == Err::<Option<nat>, QrError>(e),
        },
{
    let parts = split_words(chars_of(options).as_slice());
    let ghost views = char_views(parts@);
    let mut width: Option<usize> = None;
    let mut i: usize = 0;
    assert(views.take(0) =~= Seq::empty());
    while i < parts.len()
        invariant
            i <= parts.len(),
            views == char_views(parts@),
            views == words(options@),
            match width {
                Some(n) => width_option(views.take(i as int)) == Ok::<Option<nat>, QrError>(
                    Some(n as nat),
                ),
                None => width_option(views.take(i as int)) == Ok::<Option<nat>, QrError>(None),
            },
        decreases parts.len() - i,
    {
        assert(views.take(i + 1).drop_last() =~= views.take(i as int));
        let word = parts[i].as_slice();
        assert(views.take(i + 1).last() == word@);
        if begins(word, "width=") {
            proof {
                reveal_strlit("width=");
            }
            let value = &word[6..word.len()];
            assert(value@ =~= word@.skip("width="@.len() as int));
            let parsed = if width.is_some() {
                None
            } else {
                parse_unsigned(value, usize::MAX as u64)
            };
            match parsed {
                Some(n) => {
                    width = Some(n as usize);
                },
                None => {
                    proof {
                        lemma_first_width_error(views, i + 1);
                    }
                    return Err(QrError::InvalidWidth);
                },
            }
        }
        i += 1;
    }
    assert(views.take(i as int) =~= views);
    Ok(width)
}

/// Renders a QR fence: the payload, and the words after the fence's name. Unknown words are
/// ignored, recognized widths validated.
pub fn qr_bitmap(data: &str, options: &str, sheet: &GlyphSheet) -> (r: Result<Bitmap, QrError>)
    ensures
        rows_view(r) == qr_fence(qr_encoding(data@), options@, sheet@),
        qr_width_allowed(options@) ==> encodes_well(data@),
{
    match qr_width(options) {
        Err(e) => Err(e),
        Ok(Some(width)) => render_qr_with_width(data, None, width, sheet),
        Ok(None) => render_qr_with_width(data, None, WIDTH, sheet),
    }
}

/// What a wagara fence renders to: bad options come before a bad name.
pub open spec fn wagara_fence(name: Seq<char>, options: Seq<char>, bands: Seq<BandView>) -> Result<
    Seq<Seq<bool>>,
    WagaraError<Seq<char>>,
> {
    match read_options(lines(options)) {
        Ok(read) => wagara_page(name, read, bands),
        Err(e) => Err(e),
    }
}

/// Renders a wagara fence: reads the options, then picks the band.
pub fn wagara_bitmap(name: &str, options: &str, bands: &Vec<Band>) -> (r: Result<
    Bitmap,
    WagaraError<String>,
>)
    ensures
        wagara_view(r) == wagara_fence(name@, options@, band_views(bands@)),
{
    match parse_wagara_options(options) {
        Ok(read) => render_wagara(name, read, bands),
        Err(e) => Err(e),
    }
}

/// A result with its error as a message.
pub open spec fn qr_reported(r: Result<Seq<Seq<bool>>, QrError>) -> Result<
    Seq<Seq<bool>>,
    Seq<char>,
> {
    match r {
        Ok(rows) => Ok(rows),
        Err(e) => Err(qr_message(e)),
    }
}

/// A result with its error as a message.
pub open spec fn barcode_reported(data: Seq<char>) -> Result<Seq<Seq<bool>>, Seq<char>> {
    match barcode_page(data) {
        Ok(rows) => Ok(rows),
        Err(e) => Err(barcode_message(e)),
    }
}

/// A result with its error as a message.
pub open spec fn wagara_reported(r: Result<Seq<Seq<bool>>, WagaraError<Seq<char>>>) -> Result<
    Seq<Seq<bool>>,
    Seq<char>,
> {
    match r {
        Ok(rows) => Ok(rows),
        Err(e) => Err(wagara_message(e)),
    }
}

/// The rows a block is drawn with.
pub open spec fn block_rows(block: BlockView, art: ArtworkView) -> Seq<Seq<bool>> {
    match block {
        BlockView::Lines(text, alignment) => rich_rows(text, art.sheet, alignment),
        BlockView::Rule => rule_rows(),
        BlockView::Tear => tear_rows(),
        BlockView::Qr(data, options) => fence_rows(
            qr_reported(qr_fence(qr_encoding(data), options, art.sheet)),
            16,
            art.sheet,
        ),
        BlockView::Barcode(data) => fence_rows(barcode_reported(data), 0, art.sheet),
        BlockView::Wagara(name, options) => fence_rows(
            wagara_reported(wagara_fence(name, options, art.bands)),
            0,
            art.sheet,
        ),
        BlockView::Image(rows) => padded_rows(rows, 8),
    }
}

/// The pages of some blocks.
pub open spec fn block_pages(blocks: Seq<BlockView>, art: ArtworkView) -> Seq<Seq<Seq<bool>>> {
    blocks.map_values(|b: BlockView| block_rows(b, art))
}

/// Whether a block's payload encodes to a well-formed symbol, where it is a QR fence of an allowed
/// width.
pub open spec fn block_encodes_well(block: BlockView) -> bool {
    match block {
        BlockView::Qr(data, options) => qr_width_allowed(options) ==> encodes_well(data),
        _ => true,
    }
}

/// Whether every block's payload does.
pub open spec fn codes_are_well_formed(blocks: Seq<BlockView>) -> bool {
    forall|i: int| 0 <= i < blocks.len() ==> block_encodes_well(#[trigger] blocks[i])
}

/// Draws one block.
fn render_block(block: &MdBlock, art: &Artwork) -> (r: Bitmap)
    ensures
        r@ == block_rows(block@, art@),
        block_encodes_well(block@),
{
    let sheet = &art.sheet;
    match block {
        MdBlock::Lines(text, alignment) => render_rich_aligned(text.as_slice(), *alignment, sheet),
        MdBlock::Rule => rule_bitmap(),
        MdBlock::Tear => tear_bitmap(),
        MdBlock::Qr(data, options) => {
            let rendered = match qr_bitmap(data.as_str(), options.as_str(), sheet) {
                Ok(code) => Ok(code),
                Err(e) => Err(e.message()),
            };
            fence_bitmap(rendered, 16, sheet)
        },
        MdBlock::Barcode(data) => {
            let rendered = match render_barcode(data.as_str()) {
                Ok(code) => Ok(code),
                Err(e) => Err(e.message()),
            };
            fence_bitmap(rendered, 0, sheet)
        },
        MdBlock::Wagara(name, options) => {
            let rendered = match wagara_bitmap(name.as_str(), options.as_str(), &art.bands) {
                Ok(band) => Ok(band),
                Err(e) => Err(e.message()),
            };
            fence_bitmap(rendered, 0, sheet)
        },
        MdBlock::Image(image) => padded(image, IMAGE_MARGIN),
    }
}

/// Draws blocks one below the other.
pub fn render_blocks(blocks: &Vec<MdBlock>, art: &Artwork) -> (r: Bitmap)
    ensures
        r@ == stacked(block_pages(block_views(blocks@), art@)),
        codes_are_well_formed(block_views(blocks@)),
{
    let ghost wanted = block_pages(block_views(blocks@), art@);
    let mut bitmaps: Vec<Bitmap> = Vec::new();
    let mut i: usize = 0;
    while i < blocks.len()
        invariant
            i <= blocks.len(),
            wanted == block_pages(block_views(blocks@), art@),
            bitmap_views(bitmaps@) == wanted.take(i as int),
            forall|k: int| 0 <= k < i ==> block_encodes_well(#[trigger] block_views(blocks@)[k]),
        decreases blocks.len() - i,
    {
        let ghost before = bitmaps@;
        let bitmap = render_block(&blocks[i], art);
        bitmaps.push(bitmap);
        i += 1;
        assert(bitmap_views(bitmaps@) =~= bitmap_views(before).push(bitmap@));
        assert(bitmap_views(bitmaps@) =~= wanted.take(i as int));
    }
    assert(bitmap_views(bitmaps@) =~= wanted);
    stack(bitmaps)
}

/// The rows that a document's events render to.
pub open spec fn document_rows(
    events: Seq<MdEvent<Seq<char>>>,
    images: Map<Seq<char>, Seq<Seq<bool>>>,
    art: ArtworkView,
) -> Seq<Seq<bool>> {
    stacked(block_pages(lowered_blocks(events, images), art))
}

/// Renders markdown to a 1-bit bitmap, resolving images through `images`. Keys are destinations as
/// [`markdown_image_refs`] reports them; one that is missing renders as a placeholder line. A blank
/// document takes no paper.
pub fn render_markdown_with(md: &str, images: &ImageMap, art: &Artwork) -> (r: Bitmap)
    ensures
        r@ == document_rows(markdown_events(md@), images@, art@),
        codes_are_well_formed(lowered_blocks(markdown_events(md@), images@)),
        is_blank(md@) ==> r@.len() == 0,
{
    let blocks = lower(md, images);
    assert(block_views(blocks@).len() == blocks@.len());
    render_blocks(&blocks, art)
}

/// Renders markdown to a 1-bit bitmap, with no images available.
pub fn render_markdown(md: &str, art: &Artwork) -> (r: Bitmap)
    ensures
        r@ == document_rows(markdown_events(md@), Map::empty(), art@),
        codes_are_well_formed(lowered_blocks(markdown_events(md@), Map::empty())),
        is_blank(md@) ==> r@.len() == 0,
{
    render_markdown_with(md, &ImageMap::new(), art)
}

/// Image destinations are reported once each, and never empty.
pub proof fn law_refs_are_distinct(events: Seq<MdEvent<Seq<char>>>)
    ensures
        refs_after(events).0.no_duplicates(),
        forall|i: int|
            0 <= i < refs_after(events).0.len() ==> (#[trigger] refs_after(events).0[i]).len() > 0,
    decreases events.len(),
{
    if events.len() > 0 {
        law_refs_are_distinct(events.drop_last());
        let (refs, depth) = refs_after(events.drop_last());
        if let MdEvent::Start(MdTag::Image(dest)) = events.last() {
            if depth == 0 && dest.len() > 0 && !refs.contains(dest) {
                assert forall|i: int, j: int|
                    0 <= i < refs.push(dest).len() && 0 <= j < refs.push(dest).len() && i
                        != j implies refs.push(dest)[i] != refs.push(dest)[j] by {
                    if i < refs.len() {
                        assert(refs.contains(refs[i]));
                    }
                    if j < refs.len() {
                        assert(refs.contains(refs[j]));
                    }
                }
            }
        }
    }
}

/// Destinations are reported in the order they first appear: more events only add to the end.
pub proof fn law_refs_keep_document_order(events: Seq<MdEvent<Seq<char>>>, n: int)
    requires
        0 <= n <= events.len(),
    ensures
        refs_after(events.take(n)).0.is_prefix_of(refs_after(events).0),
    decreases events.len() - n,
{
    if n == events.len() {
        assert(events.take(n) =~= events);
    } else {
        law_refs_keep_document_order(events, n + 1);
        assert(events.take(n + 1).drop_last() =~= events.take(n));
        assert(refs_after(events.take(n)).0.is_prefix_of(refs_after(events.take(n + 1)).0));
    }
}

/// Whether two maps hold the same image, or none, for a destination.
pub open spec fn agree_on(
    a: Map<Seq<char>, Seq<Seq<bool>>>,
    b: Map<Seq<char>, Seq<Seq<bool>>>,
    dest: Seq<char>,
) -> bool {
    &&& a.dom().contains(dest) == b.dom().contains(dest)
    &&& a.dom().contains(dest) ==> a[dest] == b[dest]
}

proof fn lemma_same_flow(
    events: Seq<MdEvent<Seq<char>>>,
    refs: Seq<Seq<char>>,
    a: Map<Seq<char>, Seq<Seq<bool>>>,
    b: Map<Seq<char>, Seq<Seq<bool>>>,
)
    requires
        refs_after(events).0.is_prefix_of(refs),
        forall|dest: Seq<char>|
            dest.len() == 0 || refs.contains(dest) ==> #[trigger] agree_on(a, b, dest),
    ensures
        flow_after(events, a) == flow_after(events, b),
        flow_after(events, a).images == refs_after(events).1,
        flow_after(events, a).images > 0 ==> flow_after(events, a).image_dest.len() == 0
            || refs.contains(flow_after(events, a).image_dest),
    decreases events.len(),
{
    if events.len() > 0 {
        let front = events.drop_last();
        law_refs_keep_document_order(events, events.len() - 1);
        assert(events.take(events.len() - 1) =~= front);
        let seen_before = refs_after(front).0;
        assert(seen_before.is_prefix_of(refs)) by {
            assert(seen_before =~= refs.take(seen_before.len() as int)) by {
                let whole = refs_after(events).0;
                assert forall|i: int| 0 <= i < seen_before.len() implies seen_before[i]
                    == refs[i] by {
                    assert(whole[i] == refs[i]);
                    assert(seen_before[i] == whole[i]);
                }
            }
        }
        lemma_same_flow(front, refs, a, b);
        reveal(Flow::step);
        let st = flow_after(front, a);
        let next = st.step(events.last(), a);
        if st.images > 0 {
            assert(agree_on(a, b, st.image_dest));
            assert(st.step(events.last(), b) == next);
        } else {
            assert(st.step(events.last(), b) == next);
        }
        match events.last() {
            MdEvent::Start(MdTag::Image(dest)) => {
                if st.images == 0 && dest.len() > 0 {
                    let refs_now = refs_after(events).0;
                    assert(refs_now.contains(dest)) by {
                        if !seen_before.contains(dest) {
                            assert(refs_now[seen_before.len() as int] == dest);
                        }
                    }
                    let i = choose|i: int| 0 <= i < refs_now.len() && refs_now[i] == dest;
                    assert(refs[i] == dest);
                }
            },
            MdEvent::Text(text) => {
                lemma_code_text(st, text);
            },
            _ => {},
        }
    }
}

/// The two passes fit together: of all images a caller may supply, only those that
/// [`markdown_image_refs`] reports make a difference, so that a caller who resolves them misses
/// nothing and fetches nothing in vain. (Neither map is taken to hold an image for the empty
/// destination, which is never reported.)
pub proof fn law_reported_images_suffice(
    events: Seq<MdEvent<Seq<char>>>,
    a: Map<Seq<char>, Seq<Seq<bool>>>,
    b: Map<Seq<char>, Seq<Seq<bool>>>,
    art: ArtworkView,
)
    requires
        forall|dest: Seq<char>|
            refs_after(events).0.contains(dest) ==> #[trigger] agree_on(a, b, dest),
        !a.dom().contains(Seq::<char>::empty()),
        !b.dom().contains(Seq::<char>::empty()),
    ensures
        lowered_blocks(events, a) == lowered_blocks(events, b),
        document_rows(events, a, art) == document_rows(events, b, art),
{
    let refs = refs_after(events).0;
    assert forall|dest: Seq<char>| dest.len() == 0 || refs.contains(dest) implies #[trigger] agree_on(
        a,
        b,
        dest,
    ) by {
        if dest.len() == 0 {
            assert(dest =~= Seq::empty());
        }
    }
    assert(refs.is_prefix_of(refs));
    lemma_same_flow(events, refs, a, b);
}

/// A document without events takes no paper.
pub proof fn law_empty_document(images: Map<Seq<char>, Seq<Seq<bool>>>, art: ArtworkView)
    ensures
        document_rows(Seq::empty(), images, art).len() == 0,
{
}

/// The height of a stack is the sum of its pages' heights.
pub open spec fn total_height(pages: Seq<Seq<Seq<bool>>>) -> nat
    decreases pages.len(),
{
    if pages.len() == 0 {
        0
    } else {
        total_height(pages.drop_last()) + pages.last().len()
    }
}

/// A document is exactly as high as its blocks together.
pub proof fn law_document_height(pages: Seq<Seq<Seq<bool>>>)
    ensures
        stacked(pages).len() == total_height(pages),
    decreases pages.len(),
{
    if pages.len() > 0 {
        law_document_height(pages.drop_last());
    }
}

/// One block never costs the reader another: whatever a block turns into, an error message for
/// one, all blocks above and below it print as they would without it.
pub proof fn law_blocks_do_not_disturb_each_other(
    pages: Seq<Seq<Seq<bool>>>,
    i: int,
    page: Seq<Seq<bool>>,
)
    requires
        0 <= i < pages.len(),
    ensures
        stacked(pages.update(i, page)) == stacked(pages.take(i)) + page + stacked(
            pages.skip(i + 1),
        ),
{
    let changed = pages.update(i, page);
    lemma_stacked_add(changed.take(i + 1), changed.skip(i + 1));
    assert(changed.take(i + 1) + changed.skip(i + 1) =~= changed);
    assert(changed.skip(i + 1) =~= pages.skip(i + 1));
    assert(changed.take(i + 1).drop_last() =~= pages.take(i));
    assert(changed.take(i + 1).last() == page);
}

proof fn lemma_stacked_add(a: Seq<Seq<Seq<bool>>>, b: Seq<Seq<Seq<bool>>>)
    ensures
        stacked(a + b) == stacked(a) + stacked(b),
    decreases b.len(),
{
    if b.len() == 0 {
        assert(a + b =~= a);
        assert(stacked(a) + stacked(b) =~= stacked(a));
    } else {
        lemma_stacked_add(a, b.drop_last());
        assert((a + b).drop_last() =~= a + b.drop_last());
        assert(stacked(a + b) =~= stacked(a) + stacked(b));
    }
}

/// Whether the first and the last `n` rows are white.
pub open spec fn white_ends(rows: Seq<Seq<bool>>, n: nat) -> bool {
    &&& n <= rows.len()
    &&& forall|y: int|
        0 <= y < n || rows.len() - n <= y < rows.len() ==> #[trigger] rows[y] == blank_row()
}

/// Every fence stands between 24 px of white, whether it was drawn or reports an error: what a
/// graphic brings itself is counted in.
pub proof fn law_fence_margins(
    rendered: Result<Seq<Seq<bool>>, Seq<char>>,
    built_in: nat,
    sheet: SheetView,
)
    requires
        built_in <= 24,
        rendered matches Ok(rows) ==> white_ends(rows, built_in),
    ensures
        white_ends(fence_rows(rendered, built_in, sheet), 24),
{
    let rows = match rendered {
        Ok(rows) => rows,
        Err(message) => error_rows(message, sheet),
    };
    let margin = match rendered {
        Ok(rows) => (24 - built_in) as nat,
        Err(message) => 24,
    };
    let all = padded_rows(rows, margin);
    assert(fence_rows(rendered, built_in, sheet) == all);
    assert forall|y: int|
        0 <= y < 24 || all.len() - 24 <= y < all.len() implies #[trigger] all[y]
        == blank_row() by {
        if margin <= y < margin + rows.len() {
            assert(all[y] == rows[y - margin]);
        }
    }
}

/// A QR code brings 16 px of white above and below, which is what its fence counts in.
pub proof fn law_qr_margins(symbol: SymbolView, max_width: nat)
    requires
        symbol.wf(),
        symbol.scale(max_width) >= 2,
    ensures
        white_ends(symbol.rows(max_width), 16),
{
    let rows = symbol.rows(max_width);
    assert forall|y: int|
        0 <= y < 16 || rows.len() - 16 <= y < rows.len() implies #[trigger] rows[y]
        == blank_row() by {
        assert forall|x: int| 0 <= x < WIDTH implies !symbol.inks(max_width, x, y) by {
            if symbol.inks(max_width, x, y) {
                law_quiet_zone_is_white(symbol, max_width, x, y);
            }
        }
        assert(rows[y] =~= blank_row());
    }
}

/// A legacy word after `qr` changes nothing: options without a width mean the full width.
pub proof fn law_unknown_qr_words_are_ignored(
    encoding: Result<SymbolView, EncodeError>,
    options: Seq<char>,
    sheet: SheetView,
)
    requires
        forall|i: int|
            0 <= i < words(options).len() ==> !starts_with(#[trigger] words(options)[i], "width="@),
    ensures
        qr_fence(encoding, options, sheet) == qr_page(encoding, None, WIDTH as nat, sheet),
{
    lemma_no_width(words(options));
}

proof fn lemma_no_width(options: Seq<Seq<char>>)
    requires
        forall|i: int| 0 <= i < options.len() ==> !starts_with(#[trigger] options[i], "width="@),
    ensures
        width_option(options) == Ok::<Option<nat>, QrError>(None),
    decreases options.len(),
{
    if options.len() > 0 {
        lemma_no_width(options.drop_last());
        assert(!starts_with(options[options.len() - 1], "width="@));
    }
}

/// A rule is a solid bar across the whole paper, two pixels high, with twelve white ones above and
/// below; a tear line is one of eight pixels on and eight off.
pub proof fn law_rules_and_tears(x: int, y: int)
    requires
        0 <= x < 384,
        0 <= y < 26,
    ensures
        rule_rows().len() == 26,
        rule_rows()[y].len() == 384,
        rule_rows()[y][x] == (y == 12 || y == 13),
        tear_rows().len() == 26,
        tear_rows()[y].len() == 384,
        tear_rows()[y][x] == ((y == 12 || y == 13) && x % 16 < 8),
{
    assert((x / 8) % 2 == 0 <==> x % 16 < 8);
}

/// Padding puts the same number of white rows above and below and keeps the rows between.
pub proof fn law_padding(rows: Seq<Seq<bool>>, margin: nat, y: int)
    requires
        0 <= y < rows.len() + 2 * margin,
    ensures
        padded_rows(rows, margin).len() == rows.len() + 2 * margin,
        margin <= y < margin + rows.len() ==> padded_rows(rows, margin)[y] == rows[y - margin],
        !(margin <= y < margin + rows.len()) ==> padded_rows(rows, margin)[y] == blank_row(),
{
}

/// How each block is drawn: text as it is laid out and aligned; a graphic between white rows, 24
/// with what it brings itself, where it could be drawn; where not, its message in its place, as
/// regular text of 20 px at an indent of 16, between 24 white rows; a picture between eight.
pub proof fn law_blocks_are_drawn(
    block: BlockView,
    art: ArtworkView,
    rows: Seq<Seq<bool>>,
    message: Seq<char>,
)
    ensures
        block matches BlockView::Image(image) ==> block_rows(block, art) == padded_rows(image, 8),
        block matches BlockView::Lines(lines, alignment) ==> block_rows(block, art) == rich_rows(
            lines,
            art.sheet,
            alignment,
        ),
        block is Rule ==> block_rows(block, art) == rule_rows(),
        block is Tear ==> block_rows(block, art) == tear_rows(),
        block matches BlockView::Qr(data, options) ==> {
            let page = qr_fence(qr_encoding(data), options, art.sheet);
            &&& page == Ok::<Seq<Seq<bool>>, QrError>(rows) ==> block_rows(block, art)
                == padded_rows(rows, 8)
            &&& (page matches Err(e) ==> block_rows(block, art) == message_rows(
                qr_message(e),
                art.sheet,
            ))
        },
        block matches BlockView::Barcode(data) ==> {
            let page = barcode_page(data);
            &&& page == Ok::<Seq<Seq<bool>>, BarcodeError>(rows) ==> block_rows(block, art)
                == padded_rows(rows, 24)
            &&& (page matches Err(e) ==> block_rows(block, art) == message_rows(
                barcode_message(e),
                art.sheet,
            ))
        },
        block matches BlockView::Wagara(name, options) ==> {
            let page = wagara_fence(name, options, art.bands);
            &&& page == Ok::<Seq<Seq<bool>>, WagaraError<Seq<char>>>(rows) ==> block_rows(block, art)
                == padded_rows(rows, 24)
            &&& (page matches Err(e) ==> block_rows(block, art) == message_rows(
                wagara_message(e),
                art.sheet,
            ))
        },
{
    if let BlockView::Qr(data, options) = block {
        if let Err(e) = qr_fence(qr_encoding(data), options, art.sheet) {
            lemma_message_line(qr_message(e));
        }
    }
    if let BlockView::Barcode(data) = block {
        if let Err(e) = barcode_page(data) {
            lemma_message_line(barcode_message(e));
        }
    }
    if let BlockView::Wagara(name, options) = block {
        if let Err(e) = wagara_fence(name, options, art.bands) {
            lemma_message_line(wagara_message(e));
        }
    }
}

/// A message in the place of a graphic.
pub open spec fn message_rows(message: Seq<char>, sheet: SheetView) -> Seq<Seq<bool>> {
    let style = Style { font: FontStyle::Regular, size: 2000, strike: false };
    let line = LineView { spans: seq![SpanView { text: message, style }], indent: 16 };
    padded_rows(rich_rows(seq![line], sheet, Alignment::Left), 24)
}

proof fn lemma_message_line(message: Seq<char>)
    ensures
        code_line(message, CODE_INDENT) == (LineView {
            spans: seq![
                SpanView {
                    text: message,
                    style: Style { font: FontStyle::Regular, size: 2000, strike: false },
                },
            ],
            indent: 16,
        }),
{
}

/// Whether a word of a QR fence asks for a width.
pub open spec fn asks_for_a_width(word: Seq<char>) -> bool {
    word.len() >= 6 && word.take(6) == "width="@
}

/// A QR fence's width is the number in its only `width=` word: words of another kind count for
/// nothing before and behind it, a number that does not read is an error, and so is a second width.
pub proof fn law_qr_widths(before: Seq<Seq<char>>, word: Seq<char>, after: Seq<Seq<char>>)
    requires
        forall|i: int| 0 <= i < before.len() ==> !asks_for_a_width(#[trigger] before[i]),
        asks_for_a_width(word),
    ensures
        width_option(before) == Ok::<Option<nat>, QrError>(None),
        (forall|i: int| 0 <= i < after.len() ==> !asks_for_a_width(#[trigger] after[i]))
            ==> width_option(before + seq![word] + after) == match unsigned(
            word.skip(6),
            usize::MAX as nat,
        ) {
            Some(n) => Ok::<Option<nat>, QrError>(Some(n)),
            None => Err(QrError::InvalidWidth),
        },
        (exists|i: int| 0 <= i < after.len() && asks_for_a_width(#[trigger] after[i]))
            ==> width_option(before + seq![word] + after) == Err::<Option<nat>, QrError>(
            QrError::InvalidWidth,
        ),
    decreases after.len(),
{
    reveal_strlit("width=");
    assert forall|w: Seq<char>| #[trigger] starts_with(w, "width="@) == asks_for_a_width(w) by {}
    assert forall|i: int| 0 <= i < before.len() implies !starts_with(
        #[trigger] before[i],
        "width="@,
    ) by {
        assert(!asks_for_a_width(before[i]));
    }
    lemma_no_width(before);
    let all = before + seq![word] + after;
    if after.len() == 0 {
        assert(all.drop_last() =~= before);
        assert(all.last() == word);
    } else {
        let less = after.drop_last();
        law_qr_widths(before, word, less);
        assert(all.drop_last() =~= before + seq![word] + less);
        assert(all.last() == after.last());
        assert(after[after.len() - 1] == after.last());
        if forall|i: int| 0 <= i < after.len() ==> !asks_for_a_width(#[trigger] after[i]) {
            assert forall|i: int| 0 <= i < less.len() implies !asks_for_a_width(
                #[trigger] less[i],
            ) by {
                assert(less[i] == after[i]);
            }
        }
        if exists|i: int| 0 <= i < after.len() && asks_for_a_width(#[trigger] after[i]) {
            let i = choose|i: int| 0 <= i < after.len() && asks_for_a_width(#[trigger] after[i]);
            if i < less.len() {
                assert(asks_for_a_width(less[i]));
            } else if forall|j: int| 0 <= j < less.len() ==> !asks_for_a_width(#[trigger] less[j]) {
            } else {
                let j = choose|j: int| 0 <= j < less.len() && asks_for_a_width(#[trigger] less[j]);
                assert(asks_for_a_width(less[j]));
            }
        }
    }
}

} // verus!
