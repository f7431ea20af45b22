//! QR codes to 1-bit bitmap.
//!
//! A code is scaled by the largest whole factor that fits the given width together with a
//! four-module quiet zone on every side, and centred between 16 px margins. A caption may follow.

use qrcode::types::QrError as OutsideError;
use qrcode::QrCode;
use vstd::prelude::*;

use crate::bitmap::{ink, painted, pixel, rectangular, rows_view, Bitmap, WIDTH};
use crate::glyphs::{GlyphSheet, SheetView};
use crate::rich::{render_text, rich_rows, text_lines, Alignment};
use crate::text::{append_chars, chars_of, text_of};

verus! {

/// White margin above and below the code, in pixels.
pub const MARGIN: usize = 16;

/// Quiet-zone width on each side, in modules.
pub const QUIET_MODULES: usize = 4;

/// Caption text size, in hundredths of a pixel.
pub const CAPTION_SIZE: u32 = 2400;

/// Why the encoder refused a payload.
#[derive(Debug, Clone, Copy, PartialEq, Eq, Structural)]
pub enum EncodeError {
    DataTooLong,
    InvalidVersion,
    UnsupportedCharacterSet,
    InvalidEciDesignator,
    InvalidCharacter,
}

/// Why a QR code could not be rendered.
#[derive(Debug, Clone, Copy, PartialEq, Eq, Structural)]
pub enum QrError {
    /// A width must fit the paper and leave at least two dots per module.
    InvalidWidth,
    /// The payload does not fit in any QR code version.
    DataTooLong,
    /// Any other encoding failure.
    Encode(EncodeError),
}

impl vstd::std_specs::convert::FromSpecImpl<EncodeError> for QrError {
    open spec fn obeys_from_spec() -> bool {
        true
    }

    open spec fn from_spec(e: EncodeError) -> QrError {
        match e {
            EncodeError::DataTooLong => QrError::DataTooLong,
            _ => QrError::Encode(e),
        }
    }
}

impl From<EncodeError> for QrError {
    fn from(e: EncodeError) -> (r: QrError) {
        match e {
            EncodeError::DataTooLong => QrError::DataTooLong,
            _ => QrError::Encode(e),
        }
    }
}

/// What the encoder calls an error.
pub open spec fn encode_message(e: EncodeError) -> Seq<char> {
    match e {
        EncodeError::DataTooLong => "data too long"@,
        EncodeError::InvalidVersion => "invalid version"@,
        EncodeError::UnsupportedCharacterSet => "unsupported character set"@,
        EncodeError::InvalidEciDesignator => "invalid ECI designator"@,
        EncodeError::InvalidCharacter => "invalid character"@,
    }
}

/// The text that reports an error.
pub open spec fn qr_message(e: QrError) -> Seq<char> {
    match e {
        QrError::InvalidWidth =>
            "QR width must be at most 384 pixels and allow at least two dots per module"@,
        QrError::DataTooLong => "data too long to fit in a QR code"@,
        QrError::Encode(cause) => "QR encoding failed: "@ + encode_message(cause),
    }
}

impl QrError {
    /// The text that reports the error.
    pub fn message(&self) -> (r: String)
        ensures
            r@ == qr_message(*self),
    {
        match *self {
            QrError::InvalidWidth =>
                "QR width must be at most 384 pixels and allow at least two dots per module".to_owned(),
            QrError::DataTooLong => "data too long to fit in a QR code".to_owned(),
            QrError::Encode(cause) => {
                let what = match cause {
                    EncodeError::DataTooLong => "data too long",
                    EncodeError::InvalidVersion => "invalid version",
                    EncodeError::UnsupportedCharacterSet => "unsupported character set",
                    EncodeError::InvalidEciDesignator => "invalid ECI designator",
                    EncodeError::InvalidCharacter => "invalid character",
                };
                let mut chars = chars_of("QR encoding failed: ");
                append_chars(&mut chars, chars_of(what).as_slice());
                text_of(chars.as_slice())
            },
        }
    }
}

/// An encoded symbol: a square of dark and light modules, row by row.
#[derive(Debug)]
pub struct Symbol {
    /// Modules per side.
    pub modules: usize,
    /// Which modules are dark.
    pub dark: Vec<bool>,
}

/// What a [`Symbol`] holds.
pub struct SymbolView {
    pub modules: nat,
    pub dark: Seq<bool>,
}

impl View for Symbol {
    type V = SymbolView;

    open spec fn view(&self) -> SymbolView {
        SymbolView { modules: self.modules as nat, dark: self.dark@ }
    }
}

impl SymbolView {
    /// A square no smaller than a version 1 code and no larger than a version 40 code.
    pub open spec fn wf(self) -> bool {
        21 <= self.modules <= 177 && self.dark.len() == self.modules * self.modules
    }

    /// Dots per module at a maximum width.
    pub open spec fn scale(self, max_width: nat) -> nat {
        max_width / (self.modules + 8)
    }

    /// The side of the square with its quiet zone, in pixels.
    pub open spec fn side(self, max_width: nat) -> nat {
        self.scale(max_width) * (self.modules + 8)
    }

    /// Where the square begins.
    pub open spec fn left(self, max_width: nat) -> int {
        (WIDTH - self.side(max_width)) / 2
    }

    /// Whether the pixel `(x, y)` of the rendered code is black.
    pub open spec fn inks(self, max_width: nat, x: int, y: int) -> bool {
        let mx = (x - self.left(max_width)) / (self.scale(max_width) as int) - 4;
        let my = (y - 16) / (self.scale(max_width) as int) - 4;
        &&& 0 <= mx < self.modules
        &&& 0 <= my < self.modules
        &&& self.dark[my * self.modules + mx]
    }

    /// The rows of the rendered code.
    pub open spec fn rows(self, max_width: nat) -> Seq<Seq<bool>> {
        painted(self.side(max_width) + 32, |x: int, y: int| self.inks(max_width, x, y))
    }
}

/// What the QR encoder makes of a payload: version and mask chosen by itself, at the medium level
/// of error correction.
pub uninterp spec fn qr_encoding(data: Seq<char>) -> Result<SymbolView, EncodeError>;

/// Whether a payload encodes to a well-formed symbol, if it encodes at all.
pub open spec fn encodes_well(data: Seq<char>) -> bool {
    qr_encoding(data) matches Ok(symbol) ==> symbol.wf()
}

/// The encoding's outcome, in the library's types.
pub open spec fn encoding_view(r: Result<Symbol, EncodeError>) -> Result<SymbolView, EncodeError> {
    match r {
        Ok(symbol) => Ok(symbol@),
        Err(e) => Err(e),
    }
}

/// Encodes `data` with `qrcode::QrCode::new`, and reads the symbol through `width` and
/// `to_colors`. Claimed is that the payload alone decides the outcome, and that a symbol is a
/// square of one of the forty QR versions, 21 to 177 modules wide.
#[verifier::external_body]
fn encode(data: &str) -> (r: Result<Symbol, EncodeError>)
    ensures
        encoding_view(r) == qr_encoding(data@),
        r matches Ok(symbol) ==> symbol@.wf(),
{
    match QrCode::new(data) {
        Ok(code) => {
            let dark = code.to_colors().into_iter().map(|color| color.select(true, false)).collect();
            Ok(Symbol { modules: code.width(), dark })
        }
        Err(OutsideError::DataTooLong) => Err(EncodeError::DataTooLong),
        Err(OutsideError::InvalidVersion) => Err(EncodeError::InvalidVersion),
        Err(OutsideError::UnsupportedCharacterSet) => Err(EncodeError::UnsupportedCharacterSet),
        Err(OutsideError::InvalidEciDesignator) => Err(EncodeError::InvalidEciDesignator),
        Err(OutsideError::InvalidCharacter) => Err(EncodeError::InvalidCharacter),
    }
}

proof fn lemma_module_index(my: int, mx: int, modules: int)
    requires
        0 <= my < modules,
        0 <= mx < modules <= 177,
    ensures
        0 <= my * modules <= my * modules + mx < modules * modules <= 31329,
{
    assert(modules * modules <= 31329) by (nonlinear_arith)
        requires
            0 <= modules <= 177,
    ;
    assert(0 <= my * modules && my * modules + modules <= modules * modules) by (nonlinear_arith)
        requires
            0 <= my < modules,
    ;
}

proof fn lemma_side(symbol: SymbolView, max_width: nat)
    requires
        symbol.wf(),
        max_width <= WIDTH,
    ensures
        symbol.side(max_width) <= max_width,
        symbol.scale(max_width) <= 13,
{
    let total = (symbol.modules + 8) as int;
    let w = max_width as int;
    assert((w / total) * total <= w && 0 <= w / total <= 13) by (nonlinear_arith)
        requires
            29 <= total,
            0 <= w <= WIDTH,
    ;
}

/// Whether the pixel `(x, y)` of the rendered code is black.
fn dark_at(
    symbol: &Symbol,
    max_width: usize,
    left: usize,
    scale: usize,
    x: usize,
    y: usize,
) -> (r: bool)
    requires
        symbol@.wf(),
        left == symbol@.left(max_width as nat),
        scale == symbol@.scale(max_width as nat),
        scale >= 2,
    ensures
        r == symbol@.inks(max_width as nat, x as int, y as int),
{
    if x < left {
        proof {
            lemma_negative_div(x - left, scale as int);
        }
        return false;
    }
    if y < MARGIN {
        proof {
            lemma_negative_div(y - 16, scale as int);
        }
        return false;
    }
    let cx: usize = (x - left) / scale;
    let cy: usize = (y - MARGIN) / scale;
    if cx < QUIET_MODULES || cy < QUIET_MODULES {
        return false;
    }
    let mx: usize = cx - QUIET_MODULES;
    let my: usize = cy - QUIET_MODULES;
    if mx >= symbol.modules || my >= symbol.modules {
        return false;
    }
    proof {
        lemma_module_index(my as int, mx as int, symbol.modules as int);
    }
    let above: usize = my * symbol.modules;
    symbol.dark[above + mx]
}

/// Draws the code itself.
fn draw(symbol: &Symbol, max_width: usize) -> (r: Bitmap)
    requires
        symbol@.wf(),
        max_width <= WIDTH,
        symbol@.scale(max_width as nat) >= 2,
    ensures
        r@ == symbol@.rows(max_width as nat),
{
    let ghost w = max_width as nat;
    proof {
        lemma_side(symbol@, w);
    }
    let total: usize = symbol.modules + 2 * QUIET_MODULES;
    let scale: usize = max_width / total;
    assert(scale * total == symbol@.side(w));
    let side: usize = scale * total;
    let left: usize = (WIDTH - side) / 2;
    let height: usize = side + 2 * MARGIN;
    let mut out = Bitmap::new(height);
    let mut y: usize = 0;
    while y < height
        invariant
            y <= height,
            w == max_width,
            symbol@.wf(),
            scale == symbol@.scale(w),
            scale >= 2,
            left == symbol@.left(w),
            left <= WIDTH,
            height == symbol@.side(w) + 32,
            rectangular(out@),
            out@.len() == height,
            forall|i: int, j: int|
                0 <= i < WIDTH && 0 <= j < height ==> #[trigger] pixel(out@, i, j) == (symbol@.inks(
                    w,
                    i,
                    j,
                ) && j < y),
        decreases height - y,
    {
        let mut x: usize = 0;
        while x < WIDTH
            invariant
                x <= WIDTH,
                y < height,
                w == max_width,
                symbol@.wf(),
                scale == symbol@.scale(w),
                scale >= 2,
                left == symbol@.left(w),
                left <= WIDTH,
                rectangular(out@),
                out@.len() == height,
                forall|i: int, j: int|
                    0 <= i < WIDTH && 0 <= j < height ==> #[trigger] pixel(out@, i, j) == (
                    symbol@.inks(w, i, j) && (j < y || (j == y && i < x))),
            decreases WIDTH - x,
        {
            let black = dark_at(symbol, max_width, left, scale, x, y);
            if black {
                ink(&mut out, x as i128, y as i128);
            }
            x += 1;
        }
        y += 1;
    }
    proof {
        let wanted = symbol@.rows(w);
        assert forall|j: int| 0 <= j < wanted.len() implies out@[j] == wanted[j] by {
            assert forall|i: int| 0 <= i < WIDTH implies out@[j][i] == wanted[j][i] by {
                assert(pixel(out@, i, j) == symbol@.inks(w, i, j));
            }
            assert(out@[j] =~= wanted[j]);
        }
        assert(out@ =~= wanted);
    }
    out
}

proof fn lemma_negative_div(a: int, b: int)
    by (nonlinear_arith)
    requires
        a < 0,
        b > 0,
    ensures
        a / b < 0,
{
}

/// The rows of a caption; no rows without one.
pub open spec fn caption_rows(caption: Option<Seq<char>>, sheet: SheetView) -> Seq<Seq<bool>> {
    match caption {
        Some(text) => rich_rows(text_lines(text, CAPTION_SIZE), sheet, Alignment::Left),
        None => Seq::empty(),
    }
}

/// What an encoding renders to: the width is judged before and after the encoding.
pub open spec fn qr_page(
    encoding: Result<SymbolView, EncodeError>,
    caption: Option<Seq<char>>,
    max_width: nat,
    sheet: SheetView,
) -> Result<Seq<Seq<bool>>, QrError> {
    if max_width == 0 || max_width > WIDTH {
        Err(QrError::InvalidWidth)
    } else {
        match encoding {
            Err(EncodeError::DataTooLong) => Err(QrError::DataTooLong),
            Err(e) => Err(QrError::Encode(e)),
            Ok(symbol) => if symbol.scale(max_width) < 2 {
                Err(QrError::InvalidWidth)
            } else {
                Ok(symbol.rows(max_width) + caption_rows(caption, sheet))
            },
        }
    }
}

/// The text a string holds, if there is one.
pub open spec fn text_view(s: Option<&str>) -> Option<Seq<char>> {
    match s {
        Some(text) => Some(text@),
        None => None,
    }
}

/// Renders an encoding within a maximum width, with an optional caption below.
pub fn render_symbol(
    encoding: Result<Symbol, EncodeError>,
    caption: Option<&str>,
    max_width: usize,
    sheet: &GlyphSheet,
) -> (r: Result<Bitmap, QrError>)
    requires
        encoding matches Ok(symbol) ==> symbol@.wf(),
    ensures
        rows_view(r) == qr_page(
            encoding_view(encoding),
            text_view(caption),
            max_width as nat,
            sheet@,
        ),
{
    if max_width == 0 || max_width > WIDTH {
        return Err(QrError::InvalidWidth);
    }
    let symbol = match encoding {
        Ok(symbol) => symbol,
        Err(e) => return Err(QrError::from(e)),
    };
    if max_width / (symbol.modules + 2 * QUIET_MODULES) < 2 {
        return Err(QrError::InvalidWidth);
    }
    let mut out = draw(&symbol, max_width);
    if let Some(text) = caption {
        out.append(&render_text(text, CAPTION_SIZE, sheet));
    }
    assert(out@ =~= symbol@.rows(max_width as nat) + caption_rows(text_view(caption), sheet@));
    Ok(out)
}

/// Renders `data` as a QR code within a maximum width including its four-module quiet zone, with
/// an optional text caption below. The raster stays 384 pixels wide.
pub fn render_qr_with_width(
    data: &str,
    caption: Option<&str>,
    max_width: usize,
    sheet: &GlyphSheet,
) -> (r: Result<Bitmap, QrError>)
    ensures
        rows_view(r) == qr_page(
            qr_encoding(data@),
            text_view(caption),
            max_width as nat,
            sheet@,
        ),
        0 < max_width <= WIDTH ==> encodes_well(data@),
{
    if max_width == 0 || max_width > WIDTH {
        return Err(QrError::InvalidWidth);
    }
    render_symbol(encode(data), caption, max_width, sheet)
}

/// Renders `data` as a QR code as wide as the paper allows, with an optional text caption below.
pub fn render_qr(data: &str, caption: Option<&str>, sheet: &GlyphSheet) -> (r: Result<
    Bitmap,
    QrError,
>)
    ensures
        rows_view(r) == qr_page(qr_encoding(data@), text_view(caption), WIDTH as nat, sheet@),
        r != Err::<Bitmap, QrError>(QrError::InvalidWidth),
        r is Ok <==> qr_encoding(data@) is Ok,
        encodes_well(data@),
{
    let encoding = encode(data);
    proof {
        law_full_width_is_never_invalid(encoding_view(encoding), text_view(caption), sheet@);
    }
    render_symbol(encoding, caption, WIDTH, sheet)
}

/// At the paper's full width every payload that encodes can be rendered: even the largest code
/// gets two dots per module.
pub proof fn law_full_width_fits_every_code(symbol: SymbolView)
    requires
        symbol.wf(),
    ensures
        symbol.scale(WIDTH as nat) >= 2,
{
    let total = (symbol.modules + 8) as int;
    assert(384int / total >= 2) by (nonlinear_arith)
        requires
            29 <= total <= 185,
    ;
}

/// Payloads that encode always render at the paper's full width, and no width error comes from
/// the others either.
pub proof fn law_full_width_is_never_invalid(
    encoding: Result<SymbolView, EncodeError>,
    caption: Option<Seq<char>>,
    sheet: SheetView,
)
    requires
        encoding matches Ok(symbol) ==> symbol.wf(),
    ensures
        qr_page(encoding, caption, WIDTH as nat, sheet) != Err::<Seq<Seq<bool>>, QrError>(
            QrError::InvalidWidth,
        ),
        encoding is Ok ==> qr_page(encoding, caption, WIDTH as nat, sheet) is Ok,
{
    if let Ok(symbol) = encoding {
        law_full_width_fits_every_code(symbol);
    }
}

/// The width is a maximum that whole dots come as close to as they can: the square with its quiet
/// zone fits it, one more dot per module would not, and the square is centred on the paper to
/// within one pixel.
pub proof fn law_width_is_a_maximum(symbol: SymbolView, max_width: nat)
    requires
        symbol.wf(),
        max_width <= WIDTH,
    ensures
        symbol.side(max_width) <= max_width,
        (symbol.scale(max_width) + 1) * (symbol.modules + 8) > max_width,
        0 <= WIDTH - symbol.left(max_width) - symbol.side(max_width) - symbol.left(max_width) <= 1,
{
    lemma_side(symbol, max_width);
    let total = (symbol.modules + 8) as int;
    let w = max_width as int;
    assert((w / total + 1) * total > w) by (nonlinear_arith)
        requires
            29 <= total,
            0 <= w,
    ;
}

/// Ink stays inside the quiet zone and the margins: a black pixel is at least four modules inside
/// the square, horizontally and vertically.
pub proof fn law_quiet_zone_is_white(symbol: SymbolView, max_width: nat, x: int, y: int)
    requires
        symbol.wf(),
        symbol.scale(max_width) >= 2,
        symbol.inks(max_width, x, y),
    ensures
        symbol.left(max_width) + 4 * symbol.scale(max_width) <= x,
        x < symbol.left(max_width) + symbol.side(max_width) - 4 * symbol.scale(max_width),
        16 + 4 * symbol.scale(max_width) <= y,
        y < 16 + symbol.side(max_width) - 4 * symbol.scale(max_width),
{
    let scale = symbol.scale(max_width) as int;
    let modules = symbol.modules as int;
    let dx = x - symbol.left(max_width);
    let dy = y - 16;
    assert(4 * scale <= dx && dx < scale * (modules + 8) - 4 * scale) by (nonlinear_arith)
        requires
            scale >= 2,
            4 <= dx / scale < modules + 4,
    ;
    assert(4 * scale <= dy && dy < scale * (modules + 8) - 4 * scale) by (nonlinear_arith)
        requires
            scale >= 2,
            4 <= dy / scale < modules + 4,
    ;
}

/// A caption goes below the code and changes nothing above it: the page with a caption is the page
/// without one, then the caption's text.
pub proof fn law_captions_go_below(
    encoding: Result<SymbolView, EncodeError>,
    caption: Seq<char>,
    max_width: nat,
    sheet: SheetView,
)
    ensures
        qr_page(encoding, Some(caption), max_width, sheet) == match qr_page(
            encoding,
            None,
            max_width,
            sheet,
        ) {
            Ok(rows) => Ok(
                rows + rich_rows(text_lines(caption, CAPTION_SIZE), sheet, Alignment::Left),
            ),
            Err(e) => Err(e),
        },
{
    if let Ok(symbol) = encoding {
        assert(symbol.rows(max_width) + Seq::<Seq<bool>>::empty() =~= symbol.rows(max_width));
    }
}

/// A symbol is drawn module by module: each takes a square of dots of one size, four modules of
/// quiet zone and 16 px of margin from the top, in its row and column. The page is as high as the
/// square with its quiet zone and both margins.
pub proof fn law_modules_are_drawn_in_place(
    symbol: SymbolView,
    max_width: nat,
    mx: int,
    my: int,
    dx: int,
    dy: int,
)
    requires
        symbol.wf(),
        max_width <= 384,
        symbol.scale(max_width) >= 2,
        0 <= mx < symbol.modules,
        0 <= my < symbol.modules,
        0 <= dx < symbol.scale(max_width),
        0 <= dy < symbol.scale(max_width),
    ensures
        ({
            let dots = symbol.scale(max_width);
            let side = dots * (symbol.modules + 8);
            let rows = symbol.rows(max_width);
            let x = symbol.left(max_width) + dots * (mx + 4) + dx;
            let y = 16 + dots * (my + 4) + dy;
            &&& dots * (symbol.modules + 8) <= max_width < (dots + 1) * (symbol.modules + 8)
            &&& 0 <= 384 - side - 2 * symbol.left(max_width) <= 1
            &&& rows.len() == side + 32
            &&& 0 <= x < 384
            &&& 0 <= y < rows.len()
            &&& rows[y][x] == symbol.dark[my * symbol.modules + mx]
        }),
{
    let dots = symbol.scale(max_width) as int;
    let n = symbol.modules as int;
    law_width_is_a_maximum(symbol, max_width);
    let x = symbol.left(max_width) + dots * (mx + 4) + dx;
    let y = 16 + dots * (my + 4) + dy;
    assert((dots * (mx + 4) + dx) / dots == mx + 4 && (dots * (my + 4) + dy) / dots == my + 4
        && 0 <= dots * (mx + 4) && dots * (mx + 4) + dx < dots * (n + 8) && 0 <= dots * (my + 4)
        && dots * (my + 4) + dy < dots * (n + 8)) by (nonlinear_arith)
        requires
            dots >= 2,
            0 <= mx < n,
            0 <= my < n,
            0 <= dx < dots,
            0 <= dy < dots,
    ;
}

/// When a code can be rendered, and what else is said: a width of nothing or over 384 px is
/// invalid whatever the payload; then the encoder's error counts, an overlong payload by its own
/// name; then a width that leaves less than two dots per module. Anything else is the code, with
/// its caption's text at 24 px below it.
pub proof fn law_what_becomes_of_a_code(
    encoding: Result<SymbolView, EncodeError>,
    caption: Option<Seq<char>>,
    max_width: nat,
    sheet: SheetView,
)
    ensures
        ({
            let page = qr_page(encoding, caption, max_width, sheet);
            let fits = 0 < max_width <= 384;
            &&& !fits ==> page == Err::<Seq<Seq<bool>>, QrError>(QrError::InvalidWidth)
            &&& fits ==> (encoding matches Err(e) ==> page == Err::<Seq<Seq<bool>>, QrError>(
                if e == EncodeError::DataTooLong {
                    QrError::DataTooLong
                } else {
                    QrError::Encode(e)
                },
            ))
            &&& fits ==> (encoding matches Ok(symbol) ==> {
                &&& max_width < 2 * (symbol.modules + 8) ==> page == Err::<
                    Seq<Seq<bool>>,
                    QrError,
                >(QrError::InvalidWidth)
                &&& max_width >= 2 * (symbol.modules + 8) ==> page == Ok::<
                    Seq<Seq<bool>>,
                    QrError,
                >(
                    symbol.rows(max_width) + match caption {
                        Some(text) => rich_rows(text_lines(text, 2400), sheet, Alignment::Left),
                        None => Seq::empty(),
                    },
                )
            })
        }),
{
    if let Ok(symbol) = encoding {
        let total = (symbol.modules + 8) as int;
        let w = max_width as int;
        assert(w < 2 * total <==> w / total < 2) by (nonlinear_arith)
            requires
                total > 0,
                w >= 0,
        ;
    }
}

/// Each way a code fails says what is wrong; what the encoder reports is passed on behind a prefix.
pub proof fn law_qr_messages(cause: EncodeError)
    ensures
        qr_message(QrError::InvalidWidth)
            == "QR width must be at most 384 pixels and allow at least two dots per module"@,
        qr_message(QrError::DataTooLong) == "data too long to fit in a QR code"@,
        qr_message(QrError::Encode(cause)) == "QR encoding failed: "@ + (if cause is InvalidVersion {
            "invalid version"@
        } else if cause is UnsupportedCharacterSet {
            "unsupported character set"@
        } else if cause is InvalidEciDesignator {
            "invalid ECI designator"@
        } else if cause is InvalidCharacter {
            "invalid character"@
        } else {
            "data too long"@
        }),
{
}


} // verus!
