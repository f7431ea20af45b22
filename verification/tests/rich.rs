use printa_ble::bitmap::{Bitmap, WIDTH};
use printa_ble::glyphs::{FontStyle, Glyph, GlyphSheet, Style};
use printa_ble::layout::{RichLine, Span};
use printa_ble::rich::{normalize, render_rich, render_rich_aligned, render_text, Alignment};
use printa_ble::table::char_display_width;

/// Every character the tests set.
fn alphabet() -> Vec<char> {
    let mut all: Vec<char> = (' '..='~').collect();
    all.extend("•…—éα☕日本語文字列あいうえおかきくけこさしすせそ見出説明し品目数珈琲紅茶とお菓子和".chars());
    all
}

/// A monospace sheet: 0.6 em advances (1 em for full-width characters), ascent 1.02 em. A glyph is
/// a block with a pattern that depends on the character and the face, its left column solid.
fn sheet() -> GlyphSheet {
    let mut sheet = GlyphSheet::new();
    for size in [2000u32, 2400, 2600, 3000, 3600] {
        for (f, font) in [FontStyle::Regular, FontStyle::Bold, FontStyle::Italic]
            .into_iter()
            .enumerate()
        {
            sheet.set_ascent(font, size, 102 * size);
            for ch in alphabet() {
                sheet.insert(ch, font, size, glyph(ch, f as u32, size));
            }
        }
    }
    sheet
}

fn glyph(ch: char, face: u32, size: u32) -> Glyph {
    let full = char_display_width(ch) == 2;
    let advance = if full { 100 * size } else { 60 * size };
    if ch == ' ' {
        return Glyph { advance, xmin: 0, ymin: 0, width: 0, height: 0, coverage: vec![] };
    }
    let width = size / 200;
    let height = 2 * size / 300;
    let mut coverage = Vec::new();
    for row in 0..height {
        for col in 0..width {
            let mixed = (ch as u32).wrapping_mul(2654435761).rotate_left(row % 31) ^ (face * 7);
            let black = col == 0 || (mixed >> (col % 17)) & 1 == 1;
            coverage.push(if black { 255 } else { 0 });
        }
    }
    Glyph { advance, xmin: 1, ymin: 0, width, height, coverage }
}

fn span(text: &str, font: FontStyle, size: u32) -> Span {
    Span { text: text.to_string(), style: Style::new(font, size) }
}

fn line(spans: Vec<Span>, indent: u32) -> RichLine {
    RichLine { spans, indent }
}

fn has_ink(b: &Bitmap) -> bool {
    (0..b.height()).any(|y| (0..WIDTH).any(|x| b.get(x, y)))
}

fn min_ink_x(b: &Bitmap) -> Option<usize> {
    (0..WIDTH).find(|&x| (0..b.height()).any(|y| b.get(x, y)))
}

fn rows(b: &Bitmap) -> Vec<Vec<u8>> {
    (0..b.height()).map(|y| b.row(y).to_vec()).collect()
}

#[test]
fn bold_differs_from_regular() {
    let sheet = sheet();
    let regular = render_rich(&[line(vec![span("Hello", FontStyle::Regular, 2400)], 0)], &sheet);
    let bold = render_rich(&[line(vec![span("Hello", FontStyle::Bold, 2400)], 0)], &sheet);
    assert!(has_ink(&regular), "regular render has no ink");
    assert!(has_ink(&bold), "bold render has no ink");
    assert_ne!(rows(&regular), rows(&bold), "bold should differ from regular");
}

#[test]
fn mixed_sizes_share_baseline() {
    let b = render_rich(
        &[line(
            vec![
                span("Ag", FontStyle::Regular, 2400),
                span("Ag", FontStyle::Regular, 3600),
            ],
            0,
        )],
        &sheet(),
    );
    let expected = (36.0f32 * 1.3).ceil() as usize;
    assert_eq!(b.height(), expected);
    // Split at the end of the first span: both spans must have ink.
    let style = Style::new(FontStyle::Regular, 2400);
    let w1: u32 = "Ag".chars().map(|c| sheet().advance(c, style)).sum();
    let split = w1.div_ceil(10000) as usize;
    let ink_left = (0..b.height()).any(|y| (0..split).any(|x| b.get(x, y)));
    let ink_right = (0..b.height()).any(|y| (split..WIDTH).any(|x| b.get(x, y)));
    assert!(ink_left, "24 px span has no ink");
    assert!(ink_right, "36 px span has no ink");
    // Both end on the same row: 1.02 times 36 px down, rounded.
    let bottom = |from: usize, to: usize| {
        (0..b.height()).rev().find(|&y| (from..to).any(|x| b.get(x, y)))
    };
    assert_eq!(bottom(0, split), Some(36));
    assert_eq!(bottom(split, WIDTH), Some(36));
}

#[test]
fn indent_shifts_ink_right() {
    let b = render_rich(&[line(vec![span("Hello", FontStyle::Regular, 2400)], 40)], &sheet());
    assert!(has_ink(&b));
    assert!(
        min_ink_x(&b) >= Some(40),
        "ink left of indent: {:?}",
        min_ink_x(&b)
    );
}

#[test]
fn wrap_keeps_indent() {
    let sheet = sheet();
    let text = "word ".repeat(30);
    let one_line = render_rich(&[line(vec![span("word", FontStyle::Regular, 2400)], 40)], &sheet);
    let b = render_rich(&[line(vec![span(&text, FontStyle::Regular, 2400)], 40)], &sheet);
    assert!(
        b.height() > one_line.height(),
        "long text should wrap to multiple lines"
    );
    assert!(has_ink(&b));
    assert!(
        min_ink_x(&b) >= Some(40),
        "ink left of indent: {:?}",
        min_ink_x(&b)
    );
}

#[test]
fn strike_differs_from_plain() {
    let sheet = sheet();
    let struck_style = Style { strike: true, ..Style::default() };
    let plain = render_rich(&[line(vec![span("abc", FontStyle::Regular, 2400)], 0)], &sheet);
    let struck = render_rich(
        &[line(vec![Span { text: "abc".to_string(), style: struck_style }], 0)],
        &sheet,
    );
    assert!(has_ink(&plain), "plain render has no ink");
    assert!(has_ink(&struck), "struck render has no ink");
    assert_ne!(rows(&plain), rows(&struck), "strike should differ from plain");
}

#[test]
fn strike_has_line_at_strike_height() {
    let sheet = sheet();
    let struck_style = Style { strike: true, ..Style::default() };
    let b = render_rich(
        &[line(vec![Span { text: "ab cd".to_string(), style: struck_style }], 0)],
        &sheet,
    );
    let ascent = sheet.ascent(struck_style) as f32 / 10000.0;
    let y = (ascent - 0.35 * 24.0).round() as usize;
    let width: u32 = "ab cd".chars().map(|c| sheet.advance(c, struck_style)).sum();
    // The line must be continuous across the full advance width: no breaks in inter-glyph gaps or
    // at the word space.
    for x in 0..(width / 10000) as usize {
        assert!(b.get(x, y), "strike line broken at x={x}, y={y}");
    }
}

#[test]
fn empty_lines_gives_empty_bitmap() {
    assert_eq!(render_rich(&[], &sheet()).height(), 0);
}

#[test]
fn spanless_line_is_blank() {
    let b = render_rich(&[RichLine::default()], &sheet());
    let expected = (24.0f32 * 1.3).ceil() as usize;
    assert_eq!(b.height(), expected);
    assert!(!has_ink(&b), "blank line should have no ink");
}

#[test]
fn alignment_moves_each_wrapped_line_without_changing_ink_or_height() {
    let sheet = sheet();
    let lines = [RichLine {
        spans: vec![Span {
            text: "Short words wrap to separate lines with a short ending".into(),
            style: Style { strike: true, ..Style::default() },
        }],
        indent: 24,
    }];
    let left = render_rich(&lines, &sheet);
    let center = render_rich_aligned(&lines, Alignment::Center, &sheet);
    let right = render_rich_aligned(&lines, Alignment::Right, &sheet);
    let explicit_left = render_rich_aligned(&lines, Alignment::Left, &sheet);
    assert!(left.height() > 32);
    for b in [&center, &right, &explicit_left] {
        assert_eq!(b.height(), left.height());
    }
    let mut saw_shift = false;
    for y in 0..left.height() {
        assert_eq!(left.row(y), explicit_left.row(y));
        let ink = |b: &Bitmap| (0..WIDTH).filter(|&x| b.get(x, y)).collect::<Vec<_>>();
        let l = ink(&left);
        let c = ink(&center);
        let r = ink(&right);
        assert_eq!(l.len(), c.len());
        assert_eq!(l.len(), r.len());
        if let Some(&start) = l.first() {
            let dc = c[0] - start;
            let dr = r[0] - start;
            assert!(dc <= dr);
            assert_eq!(c, l.iter().map(|x| x + dc).collect::<Vec<_>>());
            assert_eq!(r, l.iter().map(|x| x + dr).collect::<Vec<_>>());
            saw_shift |= dc > 0;
        }
    }
    assert!(saw_shift);
}

/// 26 characters of 24 px and 32 characters of 20 px fill a line exactly.
#[test]
fn a_line_holds_what_the_monospace_advance_allows() {
    let sheet = sheet();
    for (size, fits) in [(2400, 26), (2000, 32)] {
        let height = |n: usize| {
            render_rich(&[line(vec![span(&"x".repeat(n), FontStyle::Regular, size)], 0)], &sheet)
                .height()
        };
        assert_eq!(height(fits), height(1), "{fits} characters at {size} should fit");
        assert!(height(fits + 1) > height(1), "one more should break the word");
    }
}

/// The heights of the block sizes: 1.3 times the size, rounded up.
#[test]
fn line_heights_are_thirteen_tenths() {
    let sheet = sheet();
    for (size, height) in [(3600, 47), (3000, 39), (2600, 34), (2400, 32), (2000, 26)] {
        let b = render_rich(&[line(vec![span("x", FontStyle::Regular, size)], 0)], &sheet);
        assert_eq!(b.height(), height);
    }
    let five = render_rich(&vec![RichLine::default(); 5], &sheet);
    assert_eq!(five.height(), 156);
}

/// A space at a line break is swallowed, and nothing else.
#[test]
fn breaks_swallow_one_space() {
    let sheet = sheet();
    let words = format!("{} {}", "a".repeat(20), "b".repeat(20));
    let wrapped = render_rich(&[line(vec![span(&words, FontStyle::Regular, 2400)], 0)], &sheet);
    let apart = render_rich(
        &[
            line(vec![span(&"a".repeat(20), FontStyle::Regular, 2400)], 0),
            line(vec![span(&"b".repeat(20), FontStyle::Regular, 2400)], 0),
        ],
        &sheet,
    );
    assert_eq!(rows(&wrapped), rows(&apart));
}

/// Glyph pixels are black from half coverage on, placed from the pen and the baseline.
#[test]
fn a_glyph_lands_where_its_metrics_say() {
    let mut sheet = GlyphSheet::new();
    sheet.set_ascent(FontStyle::Regular, 1000, 100_000);
    let coverage = vec![255, 127, 128, 0, 200, 0];
    sheet.insert(
        'g',
        FontStyle::Regular,
        1000,
        Glyph { advance: 60_000, xmin: 2, ymin: -1, width: 3, height: 2, coverage },
    );
    let b = render_rich(&[line(vec![span("gg", FontStyle::Regular, 1000)], 5)], &sheet);
    assert_eq!(b.height(), 13);
    let black: Vec<(usize, usize)> = (0..b.height())
        .flat_map(|y| (0..WIDTH).map(move |x| (x, y)))
        .filter(|&(x, y)| b.get(x, y))
        .collect();
    // Baseline 10 px down, bitmap bottom 1 px below it, left edge 2 px right of the pen.
    assert_eq!(black, vec![(7, 9), (9, 9), (13, 9), (15, 9), (8, 10), (14, 10)]);
}

#[test]
fn missing_glyphs_take_no_room() {
    let b = render_rich(
        &[line(vec![span("abc", FontStyle::Regular, 2400)], 0)],
        &GlyphSheet::new(),
    );
    assert_eq!(b.height(), 32);
    assert!(!has_ink(&b));
}

#[test]
fn text_is_normalized() {
    assert_eq!(normalize("a\r\nb\rc\td\r\r\n"), "a\nb\nc    d\n\n");
    assert_eq!(normalize(""), "");
}

#[test]
fn line_feeds_break_plain_text() {
    let sheet = sheet();
    let two = render_text("ab\r\ncd", 2400, &sheet);
    let lines = [
        line(vec![span("ab", FontStyle::Regular, 2400)], 0),
        line(vec![span("cd", FontStyle::Regular, 2400)], 0),
    ];
    assert_eq!(rows(&two), rows(&render_rich(&lines, &sheet)));
    assert_eq!(render_text("a\n\nb", 2400, &sheet).height(), 94);
}

#[test]
fn text_is_left_aligned_by_default() {
    assert_eq!(Alignment::default(), Alignment::Left);
}
