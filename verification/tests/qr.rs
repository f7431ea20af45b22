use printa_ble::bitmap::{Bitmap, WIDTH};
use printa_ble::glyphs::{FontStyle, Glyph, GlyphSheet};
use printa_ble::qr::{
    render_qr, render_qr_with_width, render_symbol, EncodeError, QrError, Symbol, MARGIN,
};
use printa_ble::table::char_display_width;
use qrcode::{Color, QrCode};

/// Every character the tests set.
fn alphabet() -> Vec<char> {
    let mut all: Vec<char> = (' '..='~').collect();
    all.extend("•…—éα☕日本語文字列あいうえおかきくけこさしすせそ見出説明し品目数珈琲紅茶とお菓子和".chars());
    all
}

/// A monospace sheet: 0.6 em advances (1 em for full-width characters), ascent 1.02 em. A glyph is
/// a block with a pattern that depends on the character and the face, its left column solid.
fn sheet() -> GlyphSheet {
    let mut sheet = GlyphSheet::new();
    for size in [2000u32, 2400, 2600, 3000, 3600] {
        for (f, font) in [FontStyle::Regular, FontStyle::Bold, FontStyle::Italic]
            .into_iter()
            .enumerate()
        {
            sheet.set_ascent(font, size, 102 * size);
            for ch in alphabet() {
                sheet.insert(ch, font, size, glyph(ch, f as u32, size));
            }
        }
    }
    sheet
}

fn glyph(ch: char, face: u32, size: u32) -> Glyph {
    let full = char_display_width(ch) == 2;
    let advance = if full { 100 * size } else { 60 * size };
    if ch == ' ' {
        return Glyph { advance, xmin: 0, ymin: 0, width: 0, height: 0, coverage: vec![] };
    }
    let width = size / 200;
    let height = 2 * size / 300;
    let mut coverage = Vec::new();
    for row in 0..height {
        for col in 0..width {
            let mixed = (ch as u32).wrapping_mul(2654435761).rotate_left(row % 31) ^ (face * 7);
            let black = col == 0 || (mixed >> (col % 17)) & 1 == 1;
            coverage.push(if black { 255 } else { 0 });
        }
    }
    Glyph { advance, xmin: 1, ymin: 0, width, height, coverage }
}

/// Bounding box of black pixels: (min_x, min_y, max_x, max_y).
fn ink_bbox(b: &Bitmap) -> Option<(usize, usize, usize, usize)> {
    let mut bbox: Option<(usize, usize, usize, usize)> = None;
    for y in 0..b.height() {
        for x in 0..WIDTH {
            if b.get(x, y) {
                bbox = Some(match bbox {
                    None => (x, y, x, y),
                    Some((x0, y0, x1, y1)) => (x0.min(x), y0.min(y), x1.max(x), y1.max(y)),
                });
            }
        }
    }
    bbox
}

#[test]
fn small_payload_renders_centered_square() {
    let b = render_qr("hello", None, &sheet()).unwrap();
    let (min_x, min_y, max_x, max_y) = ink_bbox(&b).expect("QR render has no ink");
    // "hello" fits version 1: 21 modules + 8 quiet = 29, scale 13: the quiet zone alone is 52 px;
    // no ink anywhere left of x = 40.
    assert!(min_x >= 40, "ink at x = {min_x}, inside the quiet zone");
    // Horizontally centered: left and right white margins within 2 px.
    let right = WIDTH - 1 - max_x;
    assert!(
        min_x.abs_diff(right) <= 2,
        "not centered: left {min_x}, right {right}"
    );
    // 16 px top margin plus the scaled quiet zone above the code.
    assert!(min_y >= 16, "ink at y = {min_y}, inside the top margin");
    // Ink bounding box roughly square (within 10%).
    let w = max_x - min_x + 1;
    let h = max_y - min_y + 1;
    assert!(
        w.abs_diff(h) * 10 <= w,
        "bounding box {w}x{h} not square within 10%"
    );
}

#[test]
fn caption_adds_height() {
    let plain = render_qr("x", None, &sheet()).unwrap();
    let captioned = render_qr("x", Some("caption"), &sheet()).unwrap();
    assert!(
        captioned.height() > plain.height(),
        "caption {} should be taller than plain {}",
        captioned.height(),
        plain.height()
    );
}

#[test]
fn finder_patterns_present() {
    let b = render_qr("hello", None, &sheet()).unwrap();
    let (min_x, min_y, max_x, max_y) = ink_bbox(&b).expect("QR render has no ink");
    // Finder patterns put black modules at the top-left, top-right, and bottom-left corners of the
    // code's ink bounding box.
    assert!(b.get(min_x, min_y), "no ink at top-left corner");
    assert!(b.get(max_x, min_y), "no ink at top-right corner");
    assert!(b.get(min_x, max_y), "no ink at bottom-left corner");
}

#[test]
fn huge_payload_errors() {
    // 4000 bytes exceeds version 40's byte-mode capacity (2953 at EC L).
    let data = "a".repeat(4000);
    let err = render_qr(&data, None, &sheet()).unwrap_err();
    assert!(matches!(err, QrError::DataTooLong), "got {err:?}");
}

#[test]
fn empty_data_ok() {
    // The encoder accepts empty payloads (an empty segment stream is a valid version-1 code), so
    // this must render without error.
    let b = render_qr("", None, &sheet()).unwrap();
    assert!(ink_bbox(&b).is_some(), "empty-data QR has no ink");
}

#[test]
fn width_is_a_maximum_with_integer_modules_and_quiet_zone() {
    let data = "TREASURE:HUNT1:STEP1";
    let code = QrCode::new(data).unwrap();
    let total = code.width() + 8;
    let scale = 240 / total;
    let b = render_qr_with_width(data, None, 240, &sheet()).unwrap();
    assert_eq!(b.height(), 2 * MARGIN + total * scale);
    let left = (WIDTH - total * scale) / 2;
    let colors = code.to_colors();
    for y in 0..total * scale {
        for x in 0..WIDTH {
            let expected = if x >= left + 4 * scale
                && x < left + (total - 4) * scale
                && y >= 4 * scale
                && y < (total - 4) * scale
            {
                let mx = (x - left) / scale - 4;
                let my = y / scale - 4;
                colors[my * code.width() + mx] == Color::Dark
            } else {
                false
            };
            assert_eq!(b.get(x, MARGIN + y), expected);
        }
    }
}

#[test]
fn default_width_keeps_existing_pixels() {
    let old = render_qr("hello", Some("Caption"), &sheet()).unwrap();
    let explicit = render_qr_with_width("hello", Some("Caption"), WIDTH, &sheet()).unwrap();
    assert_eq!(old.height(), explicit.height());
    for y in 0..old.height() {
        assert_eq!(old.row(y), explicit.row(y));
    }
}

#[test]
fn invalid_and_unscannably_small_widths_fail() {
    for width in [0, 1, 40, 385, usize::MAX] {
        assert!(render_qr_with_width("hello", None, width, &sheet()).is_err());
    }
}

/// A version 1 code is 29 modules with its quiet zone: 58 px are enough, 57 are not.
#[test]
fn two_dots_per_module_are_the_least() {
    assert!(render_qr_with_width("hello", None, 58, &sheet()).is_ok());
    assert!(matches!(
        render_qr_with_width("hello", None, 57, &sheet()),
        Err(QrError::InvalidWidth)
    ));
    // The width is judged before the payload.
    assert!(matches!(
        render_qr_with_width(&"a".repeat(4000), None, 0, &sheet()),
        Err(QrError::InvalidWidth)
    ));
}

/// The largest payload still gets two dots per module at the full width.
#[test]
fn the_largest_code_fits_the_paper() {
    let b = render_qr(&"a".repeat(2331), None, &sheet()).unwrap();
    assert_eq!(b.height(), 2 * MARGIN + 2 * 185);
    // A version 1 code: 13 dots per module, 377 px and the margins.
    assert_eq!(render_qr("hello", None, &sheet()).unwrap().height(), 409);
}

/// A symbol of chosen modules: exact pixels, and the caption below.
#[test]
fn a_given_symbol_is_drawn_module_by_module() {
    let symbol = || {
        let mut dark = vec![false; 441];
        dark[0] = true;
        dark[21 * 3 + 5] = true;
        Symbol { modules: 21, dark }
    };
    let b = render_symbol(Ok(symbol()), None, 100, &sheet()).unwrap();
    // 100 / 29 = 3 dots per module, 87 px, centred from 148.
    assert_eq!(b.height(), 87 + 32);
    for y in 0..b.height() {
        for x in 0..WIDTH {
            let first = (160..163).contains(&x) && (28..31).contains(&y);
            let second = (175..178).contains(&x) && (37..40).contains(&y);
            assert_eq!(b.get(x, y), first || second, "at {x}, {y}");
        }
    }
    let captioned = render_symbol(Ok(symbol()), Some("a\nb"), 100, &sheet()).unwrap();
    assert_eq!(captioned.height(), 87 + 32 + 63);
    assert!(matches!(
        render_symbol(Err(EncodeError::InvalidCharacter), None, 100, &sheet()),
        Err(QrError::Encode(EncodeError::InvalidCharacter))
    ));
    assert!(matches!(
        render_symbol(Err(EncodeError::DataTooLong), None, 100, &sheet()),
        Err(QrError::DataTooLong)
    ));
}

#[test]
fn qr_errors_have_messages() {
    assert_eq!(
        QrError::InvalidWidth.message(),
        "QR width must be at most 384 pixels and allow at least two dots per module"
    );
    assert_eq!(QrError::DataTooLong.message(), "data too long to fit in a QR code");
    for (e, outside) in [
        (EncodeError::DataTooLong, qrcode::types::QrError::DataTooLong),
        (EncodeError::InvalidVersion, qrcode::types::QrError::InvalidVersion),
        (
            EncodeError::UnsupportedCharacterSet,
            qrcode::types::QrError::UnsupportedCharacterSet,
        ),
        (
            EncodeError::InvalidEciDesignator,
            qrcode::types::QrError::InvalidEciDesignator,
        ),
        (EncodeError::InvalidCharacter, qrcode::types::QrError::InvalidCharacter),
    ] {
        assert_eq!(
            QrError::Encode(e).message(),
            format!("QR encoding failed: {outside}")
        );
    }
    assert_eq!(QrError::from(EncodeError::DataTooLong), QrError::DataTooLong);
}
