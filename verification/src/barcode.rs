//! Code 128 barcodes, character set B.
//!
//! A payload of n characters takes 11n + 35 modules: a start symbol, the data, a checksum and a
//! stop symbol. The bars are 80 px high, drawn at the largest whole number of pixels per module
//! that leaves a 16 px quiet zone on each side, and centred.

use vstd::prelude::*;

use crate::bitmap::{ink, painted, pixel, rectangular, rows_view, Bitmap, WIDTH};
use crate::text::{chars_of, trim, trimmed};

verus! {

/// Height of the bars, in pixels.
pub const BAR_HEIGHT: usize = 80;

/// Room for the bars: the paper less the quiet zones, in pixels.
pub const BAR_ROOM: usize = 352;

/// Why a payload cannot be drawn.
#[derive(Debug, Clone, Copy, PartialEq, Eq, Structural)]
pub enum BarcodeError {
    /// Nothing is left after trimming.
    Empty,
    /// A character outside printable ASCII.
    NotPrintableAscii,
    /// More modules than pixels.
    TooLong,
}

/// The text that reports an error.
pub open spec fn barcode_message(e: BarcodeError) -> Seq<char> {
    match e {
        BarcodeError::Empty => "barcode data is empty (after trimming whitespace)"@,
        BarcodeError::NotPrintableAscii => "barcode data must be printable ASCII"@,
        BarcodeError::TooLong => "barcode data too long to fit the paper"@,
    }
}

impl BarcodeError {
    /// The text that reports the error.
    pub fn message(&self) -> (r: String)
        ensures
            r@ == barcode_message(*self),
    {
        match *self {
            BarcodeError::Empty => "barcode data is empty (after trimming whitespace)".to_owned(),
            BarcodeError::NotPrintableAscii => "barcode data must be printable ASCII".to_owned(),
            BarcodeError::TooLong => "barcode data too long to fit the paper".to_owned(),
        }
    }
}

/// The bars and spaces of a symbol, the first module in the highest of eleven bits.
pub open spec fn pattern_bits(value: u8) -> u16 {
    match value {
        0 => 0b11011001100,
        1 => 0b11001101100,
        2 => 0b11001100110,
        3 => 0b10010011000,
        4 => 0b10010001100,
        5 => 0b10001001100,
        6 => 0b10011001000,
        7 => 0b10011000100,
        8 => 0b10001100100,
        9 => 0b11001001000,
        10 => 0b11001000100,
        11 => 0b11000100100,
        12 => 0b10110011100,
        13 => 0b10011011100,
        14 => 0b10011001110,
        15 => 0b10111001100,
        16 => 0b10011101100,
        17 => 0b10011100110,
        18 => 0b11001110010,
        19 => 0b11001011100,
        20 => 0b11001001110,
        21 => 0b11011100100,
        22 => 0b11001110100,
        23 => 0b11101101110,
        24 => 0b11101001100,
        25 => 0b11100101100,
        26 => 0b11100100110,
        27 => 0b11101100100,
        28 => 0b11100110100,
        29 => 0b11100110010,
        30 => 0b11011011000,
        31 => 0b11011000110,
        32 => 0b11000110110,
        33 => 0b10100011000,
        34 => 0b10001011000,
        35 => 0b10001000110,
        36 => 0b10110001000,
        37 => 0b10001101000,
        38 => 0b10001100010,
        39 => 0b11010001000,
        40 => 0b11000101000,
        41 => 0b11000100010,
        42 => 0b10110111000,
        43 => 0b10110001110,
        44 => 0b10001101110,
        45 => 0b10111011000,
        46 => 0b10111000110,
        47 => 0b10001110110,
        48 => 0b11101110110,
        49 => 0b11010001110,
        50 => 0b11000101110,
        51 => 0b11011101000,
        52 => 0b11011100010,
        53 => 0b11011101110,
        54 => 0b11101011000,
        55 => 0b11101000110,
        56 => 0b11100010110,
        57 => 0b11101101000,
        58 => 0b11101100010,
        59 => 0b11100011010,
        60 => 0b11101111010,
        61 => 0b11001000010,
        62 => 0b11110001010,
        63 => 0b10100110000,
        64 => 0b10100001100,
        65 => 0b10010110000,
        66 => 0b10010000110,
        67 => 0b10000101100,
        68 => 0b10000100110,
        69 => 0b10110010000,
        70 => 0b10110000100,
        71 => 0b10011010000,
        72 => 0b10011000010,
        73 => 0b10000110100,
        74 => 0b10000110010,
        75 => 0b11000010010,
        76 => 0b11001010000,
        77 => 0b11110111010,
        78 => 0b11000010100,
        79 => 0b10001111010,
        80 => 0b10100111100,
        81 => 0b10010111100,
        82 => 0b10010011110,
        83 => 0b10111100100,
        84 => 0b10011110100,
        85 => 0b10011110010,
        86 => 0b11110100100,
        87 => 0b11110010100,
        88 => 0b11110010010,
        89 => 0b11011011110,
        90 => 0b11011110110,
        91 => 0b11110110110,
        92 => 0b10101111000,
        93 => 0b10100011110,
        94 => 0b10001011110,
        95 => 0b10111101000,
        96 => 0b10111100010,
        97 => 0b11110101000,
        98 => 0b11110100010,
        99 => 0b10111011110,
        100 => 0b10111101110,
        101 => 0b11101011110,
        102 => 0b11110101110,
        103 => 0b11010000100,
        104 => 0b11010010000,
        105 => 0b11010011100,
        _ => 0,
    }
}

/// The modules of the lowest `n` bits of `bits`, the highest first.
pub open spec fn modules_of(bits: u16, n: nat) -> Seq<bool> {
    Seq::new(n, |i: int| (bits >> ((n - 1 - i) as u16)) & 1 == 1)
}

/// The modules of a symbol.
pub open spec fn symbol_modules(value: u8) -> Seq<bool> {
    modules_of(pattern_bits(value), 11)
}

/// The modules of the stop symbol.
pub open spec fn stop_modules() -> Seq<bool> {
    modules_of(0b1100011101011, 13)
}

/// The symbol of a printable character.
pub open spec fn char_value(c: char) -> u8 {
    (c as int - 32) as u8
}

/// The sum of the data symbols, each times its position.
pub open spec fn weighted(data: Seq<char>) -> nat
    decreases data.len(),
{
    if data.len() == 0 {
        0
    } else {
        (weighted(data.drop_last()) + data.len() * char_value(data.last())) as nat
    }
}

/// The check symbol: the start symbol and the weighted data, modulo 103.
pub open spec fn check_value(data: Seq<char>) -> u8 {
    ((104 + weighted(data)) % 103) as u8
}

/// The modules of the data symbols.
pub open spec fn data_modules(data: Seq<char>) -> Seq<bool>
    decreases data.len(),
{
    if data.len() == 0 {
        Seq::empty()
    } else {
        data_modules(data.drop_last()) + symbol_modules(char_value(data.last()))
    }
}

/// The modules of a whole barcode, `true` for a bar.
pub open spec fn barcode_modules(data: Seq<char>) -> Seq<bool> {
    symbol_modules(104) + data_modules(data) + symbol_modules(check_value(data)) + stop_modules()
}

/// Whether every character is printable ASCII.
pub open spec fn printable(data: Seq<char>) -> bool {
    forall|i: int| 0 <= i < data.len() ==> ' ' <= #[trigger] data[i] <= '~'
}

/// The rows of some modules.
pub open spec fn bar_rows(modules: Seq<bool>) -> Seq<Seq<bool>> {
    painted(80, |x: int, y: int| bar_inks(modules, x))
}

/// Whether column `x` is black.
pub open spec fn bar_inks(modules: Seq<bool>, x: int) -> bool {
    let scale = 352int / (modules.len() as int);
    let left = (WIDTH - scale * modules.len()) / 2;
    &&& left <= x < left + scale * modules.len()
    &&& modules[(x - left) / scale]
}

/// What a payload renders to.
pub open spec fn barcode_page(data: Seq<char>) -> Result<Seq<Seq<bool>>, BarcodeError> {
    let payload = trim(data);
    if payload.len() == 0 {
        Err(BarcodeError::Empty)
    } else if !printable(payload) {
        Err(BarcodeError::NotPrintableAscii)
    } else if 11 * payload.len() + 35 > 352 {
        Err(BarcodeError::TooLong)
    } else {
        Ok(bar_rows(barcode_modules(payload)))
    }
}

/// The bars and spaces of a symbol.
fn pattern(value: u8) -> (r: u16)
    ensures
        r == pattern_bits(value),
{
    match value {
        0 => 0b11011001100,
        1 => 0b11001101100,
        2 => 0b11001100110,
        3 => 0b10010011000,
        4 => 0b10010001100,
        5 => 0b10001001100,
        6 => 0b10011001000,
        7 => 0b10011000100,
        8 => 0b10001100100,
        9 => 0b11001001000,
        10 => 0b11001000100,
        11 => 0b11000100100,
        12 => 0b10110011100,
        13 => 0b10011011100,
        14 => 0b10011001110,
        15 => 0b10111001100,
        16 => 0b10011101100,
        17 => 0b10011100110,
        18 => 0b11001110010,
        19 => 0b11001011100,
        20 => 0b11001001110,
        21 => 0b11011100100,
        22 => 0b11001110100,
        23 => 0b11101101110,
        24 => 0b11101001100,
        25 => 0b11100101100,
        26 => 0b11100100110,
        27 => 0b11101100100,
        28 => 0b11100110100,
        29 => 0b11100110010,
        30 => 0b11011011000,
        31 => 0b11011000110,
        32 => 0b11000110110,
        33 => 0b10100011000,
        34 => 0b10001011000,
        35 => 0b10001000110,
        36 => 0b10110001000,
        37 => 0b10001101000,
        38 => 0b10001100010,
        39 => 0b11010001000,
        40 => 0b11000101000,
        41 => 0b11000100010,
        42 => 0b10110111000,
        43 => 0b10110001110,
        44 => 0b10001101110,
        45 => 0b10111011000,
        46 => 0b10111000110,
        47 => 0b10001110110,
        48 => 0b11101110110,
        49 => 0b11010001110,
        50 => 0b11000101110,
        51 => 0b11011101000,
        52 => 0b11011100010,
        53 => 0b11011101110,
        54 => 0b11101011000,
        55 => 0b11101000110,
        56 => 0b11100010110,
        57 => 0b11101101000,
        58 => 0b11101100010,
        59 => 0b11100011010,
        60 => 0b11101111010,
        61 => 0b11001000010,
        62 => 0b11110001010,
        63 => 0b10100110000,
        64 => 0b10100001100,
        65 => 0b10010110000,
        66 => 0b10010000110,
        67 => 0b10000101100,
        68 => 0b10000100110,
        69 => 0b10110010000,
        70 => 0b10110000100,
        71 => 0b10011010000,
        72 => 0b10011000010,
        73 => 0b10000110100,
        74 => 0b10000110010,
        75 => 0b11000010010,
        76 => 0b11001010000,
        77 => 0b11110111010,
        78 => 0b11000010100,
        79 => 0b10001111010,
        80 => 0b10100111100,
        81 => 0b10010111100,
        82 => 0b10010011110,
        83 => 0b10111100100,
        84 => 0b10011110100,
        85 => 0b10011110010,
        86 => 0b11110100100,
        87 => 0b11110010100,
        88 => 0b11110010010,
        89 => 0b11011011110,
        90 => 0b11011110110,
        91 => 0b11110110110,
        92 => 0b10101111000,
        93 => 0b10100011110,
        94 => 0b10001011110,
        95 => 0b10111101000,
        96 => 0b10111100010,
        97 => 0b11110101000,
        98 => 0b11110100010,
        99 => 0b10111011110,
        100 => 0b10111101110,
        101 => 0b11101011110,
        102 => 0b11110101110,
        103 => 0b11010000100,
        104 => 0b11010010000,
        105 => 0b11010011100,
        _ => 0,
    }
}

/// Appends the modules of the lowest `n` bits of `bits`.
fn push_modules(out: &mut Vec<bool>, bits: u16, n: u16)
    requires
        n <= 16,
    ensures
        final(out)@ == old(out)@ + modules_of(bits, n as nat),
{
    let mut i: u16 = 0;
    while i < n
        invariant
            i <= n <= 16,
            out@ == old(out)@ + modules_of(bits, n as nat).take(i as int),
        decreases n - i,
    {
        let shift: u16 = n - 1 - i;
        out.push((bits >> shift) & 1 == 1);
        i += 1;
        assert(out@ =~= old(out)@ + modules_of(bits, n as nat).take(i as int));
    }
    assert(modules_of(bits, n as nat).take(i as int) =~= modules_of(bits, n as nat));
}

/// The modules of a whole barcode.
fn encode(data: &[char]) -> (r: Vec<bool>)
    requires
        printable(data@),
        data@.len() <= 28,
    ensures
        r@ == barcode_modules(data@),
{
    let mut out: Vec<bool> = Vec::new();
    push_modules(&mut out, pattern(104), 11);
    let ghost start = symbol_modules(104);
    assert(out@ =~= start);
    let mut sum: u32 = 0;
    let mut i: usize = 0;
    while i < data.len()
        invariant
            i <= data.len() <= 28,
            printable(data@),
            start == symbol_modules(104),
            sum == weighted(data@.take(i as int)),
            sum <= i * 2632,
            out@ == start + data_modules(data@.take(i as int)),
        decreases data.len() - i,
    {
        assert(data@.take(i + 1).drop_last() =~= data@.take(i as int));
        assert(' ' <= data@[i as int] <= '~');
        let value: u32 = data[i] as u32 - 32;
        let place: u32 = i as u32 + 1;
        assert(0 <= place * value <= 2632 && place * value == value * place) by (nonlinear_arith)
            requires
                0 <= place <= 28,
                0 <= value <= 94,
        ;
        sum = sum + place * value;
        push_modules(&mut out, pattern(value as u8), 11);
        i += 1;
        assert(out@ =~= start + data_modules(data@.take(i as int)));
    }
    assert(data@.take(i as int) =~= data@);
    push_modules(&mut out, pattern(((104 + sum) % 103) as u8), 11);
    push_modules(&mut out, 0b1100011101011, 13);
    out
}

proof fn lemma_data_modules_len(data: Seq<char>)
    ensures
        data_modules(data).len() == 11 * data.len(),
    decreases data.len(),
{
    if data.len() > 0 {
        lemma_data_modules_len(data.drop_last());
    }
}

/// Whether column `x` is black.
fn bar_at(modules: &Vec<bool>, scale: usize, left: usize, x: usize) -> (r: bool)
    requires
        0 < modules@.len() <= 352,
        scale == 352int / (modules@.len() as int),
        left == (WIDTH - scale * modules@.len()) / 2,
        scale * modules@.len() <= 352,
        scale > 0,
    ensures
        r == bar_inks(modules@, x as int),
{
    let width: usize = scale * modules.len();
    if x < left || x >= left + width {
        return false;
    }
    let k: usize = (x - left) / scale;
    assert(k < modules@.len()) by (nonlinear_arith)
        requires
            k == (x - left) / (scale as int),
            0 <= x - left < scale * modules@.len(),
            scale > 0,
    ;
    modules[k]
}

/// Draws modules as bars.
fn draw(modules: &Vec<bool>) -> (r: Bitmap)
    requires
        0 < modules@.len() <= 352,
    ensures
        r@ == bar_rows(modules@),
{
    let scale: usize = BAR_ROOM / modules.len();
    assert(0 < scale && scale * modules@.len() <= 352) by (nonlinear_arith)
        requires
            0 < modules@.len() <= 352,
            scale == 352int / (modules@.len() as int),
    ;
    let left: usize = (WIDTH - scale * modules.len()) / 2;
    let mut out = Bitmap::new(BAR_HEIGHT);
    let mut x: usize = 0;
    while x < WIDTH
        invariant
            x <= WIDTH,
            0 < modules@.len() <= 352,
            scale == 352int / (modules@.len() as int),
            left == (WIDTH - scale * modules@.len()) / 2,
            scale * modules@.len() <= 352,
            scale > 0,
            rectangular(out@),
            out@.len() == 80,
            forall|i: int, j: int|
                0 <= i < WIDTH && 0 <= j < 80 ==> #[trigger] pixel(out@, i, j) == (bar_inks(
                    modules@,
                    i,
                ) && i < x),
        decreases WIDTH - x,
    {
        if bar_at(modules, scale, left, x) {
            let mut y: usize = 0;
            while y < BAR_HEIGHT
                invariant
                    y <= 80,
                    x < WIDTH,
                    bar_inks(modules@, x as int),
                    rectangular(out@),
                    out@.len() == 80,
                    forall|i: int, j: int|
                        0 <= i < WIDTH && 0 <= j < 80 ==> #[trigger] pixel(out@, i, j) == (bar_inks(
                            modules@,
                            i,
                        ) && (i < x || (i == x && j < y))),
                decreases 80 - y,
            {
                ink(&mut out, x as i128, y as i128);
                y += 1;
            }
        }
        x += 1;
    }
    proof {
        let wanted = bar_rows(modules@);
        assert forall|j: int| 0 <= j < 80 implies out@[j] == wanted[j] by {
            assert forall|i: int| 0 <= i < WIDTH implies out@[j][i] == wanted[j][i] by {
                assert(pixel(out@, i, j) == bar_inks(modules@, i));
            }
            assert(out@[j] =~= wanted[j]);
        }
        assert(out@ =~= wanted);
    }
    out
}

/// Renders `data`, trimmed, as a Code 128 barcode: at most 28 printable ASCII characters.
pub fn render_barcode(data: &str) -> (r: Result<Bitmap, BarcodeError>)
    ensures
        rows_view(r) == barcode_page(data@),
{
    let chars = chars_of(data);
    let payload = trimmed(chars.as_slice());
    if payload.len() == 0 {
        return Err(BarcodeError::Empty);
    }
    let mut i: usize = 0;
    while i < payload.len()
        invariant
            i <= payload.len(),
            payload@ == trim(data@),
            payload@.len() > 0,
            forall|j: int| 0 <= j < i ==> ' ' <= #[trigger] payload@[j] <= '~',
        decreases payload.len() - i,
    {
        if payload[i] < ' ' || payload[i] > '~' {
            assert(!(' ' <= payload@[i as int] <= '~'));
            return Err(BarcodeError::NotPrintableAscii);
        }
        i += 1;
    }
    if payload.len() > 28 {
        return Err(BarcodeError::TooLong);
    }
    let modules = encode(payload);
    proof {
        lemma_data_modules_len(payload@);
    }
    Ok(draw(&modules))
}

/// A barcode is drawn for exactly the payloads of one to 28 printable ASCII characters.
pub proof fn law_accepted_payloads(data: Seq<char>)
    ensures
        barcode_page(data) is Ok <==> 1 <= trim(data).len() <= 28 && printable(trim(data)),
{
}

/// A payload of n characters takes 11n + 35 modules.
pub proof fn law_module_count(data: Seq<char>)
    ensures
        barcode_modules(data).len() == 11 * data.len() + 35,
{
    lemma_data_modules_len(data);
}

/// Both quiet zones are at least 16 px wide: no ink comes closer to the paper's edges.
pub proof fn law_quiet_zones(modules: Seq<bool>, x: int)
    requires
        0 < modules.len() <= 352,
        bar_inks(modules, x),
    ensures
        16 <= x < 368,
{
    let n = modules.len() as int;
    let scale = 352int / n;
    assert(0 < scale && scale * n <= 352) by (nonlinear_arith)
        requires
            0 < n <= 352,
            scale == 352int / n,
    ;
}

/// The bars of an accepted payload run through all 80 rows: each column is black from top to
/// bottom or not at all.
pub proof fn law_bars_are_straight(modules: Seq<bool>, x: int, y: int)
    requires
        0 <= x < WIDTH,
        0 <= y < 80,
    ensures
        bar_rows(modules).len() == 80,
        bar_rows(modules)[y][x] == bar_inks(modules, x),
{
}

/// The widths of a symbol's three bars and the spaces behind them, from left to right, as the
/// digits of a number.
pub open spec fn bar_widths(value: u8) -> int {
    match value {
        0 => 212222,
        1 => 222122,
        2 => 222221,
        3 => 121223,
        4 => 121322,
        5 => 131222,
        6 => 122213,
        7 => 122312,
        8 => 132212,
        9 => 221213,
        10 => 221312,
        11 => 231212,
        12 => 112232,
        13 => 122132,
        14 => 122231,
        15 => 113222,
        16 => 123122,
        17 => 123221,
        18 => 223211,
        19 => 221132,
        20 => 221231,
        21 => 213212,
        22 => 223112,
        23 => 312131,
        24 => 311222,
        25 => 321122,
        26 => 321221,
        27 => 312212,
        28 => 322112,
        29 => 322211,
        30 => 212123,
        31 => 212321,
        32 => 232121,
        33 => 111323,
        34 => 131123,
        35 => 131321,
        36 => 112313,
        37 => 132113,
        38 => 132311,
        39 => 211313,
        40 => 231113,
        41 => 231311,
        42 => 112133,
        43 => 112331,
        44 => 132131,
        45 => 113123,
        46 => 113321,
        47 => 133121,
        48 => 313121,
        49 => 211331,
        50 => 231131,
        51 => 213113,
        52 => 213311,
        53 => 213131,
        54 => 311123,
        55 => 311321,
        56 => 331121,
        57 => 312113,
        58 => 312311,
        59 => 332111,
        60 => 314111,
        61 => 221411,
        62 => 431111,
        63 => 111224,
        64 => 111422,
        65 => 121124,
        66 => 121421,
        67 => 141122,
        68 => 141221,
        69 => 112214,
        70 => 112412,
        71 => 122114,
        72 => 122411,
        73 => 142112,
        74 => 142211,
        75 => 241211,
        76 => 221114,
        77 => 413111,
        78 => 241112,
        79 => 134111,
        80 => 111242,
        81 => 121142,
        82 => 121241,
        83 => 114212,
        84 => 124112,
        85 => 124211,
        86 => 411212,
        87 => 421112,
        88 => 421211,
        89 => 212141,
        90 => 214121,
        91 => 412121,
        92 => 111143,
        93 => 111341,
        94 => 131141,
        95 => 114113,
        96 => 114311,
        97 => 411113,
        98 => 411311,
        99 => 113141,
        100 => 114131,
        101 => 311141,
        102 => 411131,
        103 => 211412,
        104 => 211214,
        105 => 211232,
        _ => 0,
    }
}

/// Two to the power of `k`.
#[verifier::opaque]
pub open spec fn power(k: int) -> int
    decreases k,
{
    if k <= 0 {
        1
    } else {
        2 * power(k - 1)
    }
}

/// The eleven modules of bars and spaces of some widths, as a binary number with ones for bars.
pub open spec fn bars_of(widths: int) -> int {
    let a = 11 - widths / 100000;
    let b = a - widths / 10000 % 10;
    let c = b - widths / 1000 % 10;
    let d = c - widths / 100 % 10;
    let e = d - widths / 10 % 10;
    2048 - power(a) + power(b) - power(c) + power(d) - power(e)
}

proof fn lemma_powers()
    ensures
        power(0) == 1,
        power(1) == 2,
        power(2) == 4,
        power(3) == 8,
        power(4) == 16,
        power(5) == 32,
        power(6) == 64,
        power(7) == 128,
        power(8) == 256,
        power(9) == 512,
        power(10) == 1024,
        power(11) == 2048,
{
    reveal_with_fuel(power, 12);
}

/// Every symbol of the code is drawn with the widths that the code gives it, eleven modules in all.
pub proof fn law_symbols_have_their_widths(value: u8)
    requires
        value <= 105,
    ensures
        pattern_bits(value) == bars_of(bar_widths(value)),
        0 <= pattern_bits(value) < 2048,
{
    lemma_powers();
}

proof fn lemma_patterns_tell_apart(a: u8, b: u8)
    requires
        a <= 105,
        b <= 105,
        pattern_bits(a) == pattern_bits(b),
    ensures
        a == b,
{
}

proof fn lemma_module_bits(bits: u16)
    ensures
        modules_of(bits, 11)[0] == ((bits >> 10u16) & 1 == 1),
        modules_of(bits, 11)[1] == ((bits >> 9u16) & 1 == 1),
        modules_of(bits, 11)[2] == ((bits >> 8u16) & 1 == 1),
        modules_of(bits, 11)[3] == ((bits >> 7u16) & 1 == 1),
        modules_of(bits, 11)[4] == ((bits >> 6u16) & 1 == 1),
        modules_of(bits, 11)[5] == ((bits >> 5u16) & 1 == 1),
        modules_of(bits, 11)[6] == ((bits >> 4u16) & 1 == 1),
        modules_of(bits, 11)[7] == ((bits >> 3u16) & 1 == 1),
        modules_of(bits, 11)[8] == ((bits >> 2u16) & 1 == 1),
        modules_of(bits, 11)[9] == ((bits >> 1u16) & 1 == 1),
        modules_of(bits, 11)[10] == ((bits >> 0u16) & 1 == 1),
{
}

proof fn lemma_modules_tell_apart(a: u16, b: u16)
    requires
        a < 2048,
        b < 2048,
        modules_of(a, 11) == modules_of(b, 11),
    ensures
        a == b,
{
    lemma_module_bits(a);
    lemma_module_bits(b);
    assert(a == b) by (bit_vector)
        requires
            a < 2048,
            b < 2048,
            ((a >> 10u16) & 1 == 1) == ((b >> 10u16) & 1 == 1),
            ((a >> 9u16) & 1 == 1) == ((b >> 9u16) & 1 == 1),
            ((a >> 8u16) & 1 == 1) == ((b >> 8u16) & 1 == 1),
            ((a >> 7u16) & 1 == 1) == ((b >> 7u16) & 1 == 1),
            ((a >> 6u16) & 1 == 1) == ((b >> 6u16) & 1 == 1),
            ((a >> 5u16) & 1 == 1) == ((b >> 5u16) & 1 == 1),
            ((a >> 4u16) & 1 == 1) == ((b >> 4u16) & 1 == 1),
            ((a >> 3u16) & 1 == 1) == ((b >> 3u16) & 1 == 1),
            ((a >> 2u16) & 1 == 1) == ((b >> 2u16) & 1 == 1),
            ((a >> 1u16) & 1 == 1) == ((b >> 1u16) & 1 == 1),
            ((a >> 0u16) & 1 == 1) == ((b >> 0u16) & 1 == 1),
    ;
}

proof fn lemma_data_at(data: Seq<char>, i: int)
    requires
        0 <= i < data.len(),
    ensures
        data_modules(data).len() == 11 * data.len(),
        data_modules(data).subrange(11 * i, 11 * i + 11) == symbol_modules(
            (data[i] as int - 32) as u8,
        ),
    decreases data.len(),
{
    lemma_data_modules_len(data);
    let front = data.drop_last();
    lemma_data_modules_len(front);
    let all = data_modules(data);
    if i == data.len() - 1 {
        assert(all.subrange(11 * i, 11 * i + 11) =~= symbol_modules(char_value(data.last())));
    } else {
        lemma_data_at(front, i);
        assert(all.subrange(11 * i, 11 * i + 11) =~= data_modules(front).subrange(
            11 * i,
            11 * i + 11,
        ));
    }
}

/// The sum of the first `n` data symbols, the first counted once, the second twice, and so on.
pub open spec fn position_sum(data: Seq<char>, n: int) -> int
    decreases n,
{
    if n <= 0 {
        0
    } else {
        position_sum(data, n - 1) + n * (data[n - 1] as int - 32)
    }
}

proof fn lemma_position_sum(data: Seq<char>, n: int)
    requires
        printable(data),
        0 <= n <= data.len(),
    ensures
        weighted(data.take(n)) == position_sum(data, n),
    decreases n,
{
    if n > 0 {
        lemma_position_sum(data, n - 1);
        assert(data.take(n).drop_last() =~= data.take(n - 1));
        assert(' ' <= data[n - 1] <= '~');
    }
}

/// A barcode reads from left to right: the start symbol of the character set, each character's
/// symbol in its place, the check symbol, which is the start symbol and the position-weighted sum
/// of the symbols as drawn, modulo 103, and the stop symbol, bars and spaces of 2, 3, 3, 1, 1, 1
/// and 2 modules.
pub proof fn law_barcodes_read_from_left_to_right(data: Seq<char>, i: int)
    requires
        printable(data),
    ensures
        ({
            let all = barcode_modules(data);
            let n = data.len() as int;
            &&& all.len() == 11 * n + 35
            &&& all.subrange(0, 11) == symbol_modules(104)
            &&& 0 <= i < n ==> all.subrange(11 * (i + 1), 11 * (i + 2)) == symbol_modules(
                (data[i] as int - 32) as u8,
            )
            &&& all.subrange(11 * (n + 1), 11 * (n + 2)) == symbol_modules(
                ((104 + position_sum(data, n)) % 103) as u8,
            )
            &&& all.skip(11 * (n + 2)) == seq![
                true,
                true,
                false,
                false,
                false,
                true,
                true,
                true,
                false,
                true,
                false,
                true,
                true,
            ]
        }),
{
    let all = barcode_modules(data);
    let n = data.len() as int;
    lemma_data_modules_len(data);
    assert(data.take(n) =~= data);
    lemma_position_sum(data, n);
    assert(all.subrange(0, 11) =~= symbol_modules(104));
    if 0 <= i < n {
        lemma_data_at(data, i);
        assert(all.subrange(11 * (i + 1), 11 * (i + 2)) =~= data_modules(data).subrange(
            11 * i,
            11 * i + 11,
        ));
    }
    assert(all.subrange(11 * (n + 1), 11 * (n + 2)) =~= symbol_modules(check_value(data)));
    assert(all.skip(11 * (n + 2)) =~= stop_modules());
    lemma_stop();
}

proof fn lemma_stop()
    ensures
        stop_modules() == seq![
            true,
            true,
            false,
            false,
            false,
            true,
            true,
            true,
            false,
            true,
            false,
            true,
            true,
        ],
{
    let bits: u16 = 0b1100011101011;
    assert((bits >> 12u16) & 1 == 1 && (bits >> 11u16) & 1 == 1 && (bits >> 10u16) & 1 == 0 && (bits
        >> 9u16) & 1 == 0 && (bits >> 8u16) & 1 == 0 && (bits >> 7u16) & 1 == 1 && (bits >> 6u16)
        & 1 == 1 && (bits >> 5u16) & 1 == 1 && (bits >> 4u16) & 1 == 0 && (bits >> 3u16) & 1 == 1
        && (bits >> 2u16) & 1 == 0 && (bits >> 1u16) & 1 == 1 && (bits >> 0u16) & 1 == 1)
        by (bit_vector)
        requires
            bits == 0b1100011101011,
    ;
    assert(stop_modules() =~= seq![
        true,
        true,
        false,
        false,
        false,
        true,
        true,
        true,
        false,
        true,
        false,
        true,
        true,
    ]);
}

/// A barcode scans as its payload: no two payloads have the same bars.
pub proof fn law_barcodes_tell_payloads_apart(a: Seq<char>, b: Seq<char>)
    requires
        printable(a),
        printable(b),
        barcode_modules(a) == barcode_modules(b),
    ensures
        a == b,
{
    law_barcodes_read_from_left_to_right(a, 0);
    law_barcodes_read_from_left_to_right(b, 0);
    assert(a.len() == b.len());
    assert forall|i: int| 0 <= i < a.len() implies a[i] == b[i] by {
        law_barcodes_read_from_left_to_right(a, i);
        law_barcodes_read_from_left_to_right(b, i);
        assert(' ' <= a[i] <= '~');
        assert(' ' <= b[i] <= '~');
        let x = (a[i] as int - 32) as u8;
        let y = (b[i] as int - 32) as u8;
        law_symbols_have_their_widths(x);
        law_symbols_have_their_widths(y);
        lemma_modules_tell_apart(pattern_bits(x), pattern_bits(y));
        lemma_patterns_tell_apart(x, y);
    }
    assert(a =~= b);
}

/// Modules are drawn side by side at the largest whole number of pixels that leaves 16 px on each
/// side, in the middle of the paper: each as wide as the others, in their order.
pub proof fn law_modules_are_drawn_in_order(modules: Seq<bool>, k: int) -> (place: (int, int))
    requires
        0 < modules.len() <= 352,
        0 <= k < modules.len(),
    ensures
        ({
            let (left, scale) = place;
            let n = modules.len();
            &&& scale * n <= 352 < (scale + 1) * n
            &&& 0 <= 384 - scale * n - 2 * left <= 1
            &&& forall|x: int|
                left + scale * k <= x < left + scale * (k + 1) ==> #[trigger] bar_inks(modules, x)
                    == modules[k]
            &&& forall|x: int|
                x < left || x >= left + scale * n ==> !#[trigger] bar_inks(modules, x)
        }),
{
    let n = modules.len() as int;
    let scale = 352int / n;
    let left = (384 - scale * n) / 2;
    assert(0 < scale && scale * n <= 352 < (scale + 1) * n) by (nonlinear_arith)
        requires
            0 < n <= 352,
            scale == 352int / n,
    ;
    assert forall|x: int| left + scale * k <= x < left + scale * (k + 1) implies #[trigger] bar_inks(
        modules,
        x,
    ) == modules[k] by {
        assert((x - left) / scale == k && 0 <= scale * k && scale * (k + 1) <= scale * n)
            by (nonlinear_arith)
            requires
                0 < scale,
                0 <= k < n,
                scale * k <= x - left < scale * (k + 1),
        ;
    }
    (left, scale)
}

/// What becomes of a payload, without the white space around it: nothing, a character that is not
/// printable ASCII, and more than 28 characters are errors, in this order; anything else is drawn
/// 80 px high, each row alike.
pub proof fn law_what_becomes_of_a_payload(data: Seq<char>, x: int, y: int)
    requires
        0 <= x < 384,
        0 <= y < 80,
    ensures
        ({
            let payload = trim(data);
            let ascii = forall|i: int|
                0 <= i < payload.len() ==> 32 <= #[trigger] payload[i] as int <= 126;
            &&& payload.len() == 0 ==> barcode_page(data) == Err::<Seq<Seq<bool>>, BarcodeError>(
                BarcodeError::Empty,
            )
            &&& payload.len() > 0 && !ascii ==> barcode_page(data) == Err::<
                Seq<Seq<bool>>,
                BarcodeError,
            >(BarcodeError::NotPrintableAscii)
            &&& payload.len() > 28 && ascii ==> barcode_page(data) == Err::<
                Seq<Seq<bool>>,
                BarcodeError,
            >(BarcodeError::TooLong)
            &&& 0 < payload.len() <= 28 && ascii ==> (barcode_page(data) matches Ok(rows)
                && rows.len() == 80 && rows[y].len() == 384 && rows[y][x] == bar_inks(
                barcode_modules(payload),
                x,
            ))
        }),
{
    let payload = trim(data);
    let ascii = forall|i: int|
        0 <= i < payload.len() ==> 32 <= #[trigger] payload[i] as int <= 126;
    if ascii {
        assert(printable(payload));
    } else {
        let i = choose|i: int|
            0 <= i < payload.len() && !(32 <= #[trigger] payload[i] as int <= 126);
        assert(!(' ' <= payload[i] <= '~'));
    }
}

/// Each way a payload fails says what is wrong with it.
pub proof fn law_barcode_messages(e: BarcodeError)
    ensures
        e is Empty <==> barcode_message(e) == "barcode data is empty (after trimming whitespace)"@,
        e is NotPrintableAscii <==> barcode_message(e) == "barcode data must be printable ASCII"@,
        e is TooLong <==> barcode_message(e) == "barcode data too long to fit the paper"@,
{
    reveal_strlit("barcode data is empty (after trimming whitespace)");
    reveal_strlit("barcode data must be printable ASCII");
    reveal_strlit("barcode data too long to fit the paper");
    assert("barcode data is empty (after trimming whitespace)"@.len() == 49);
    assert("barcode data must be printable ASCII"@.len() == 36);
    assert("barcode data too long to fit the paper"@.len() == 38);
}


} // verus!
