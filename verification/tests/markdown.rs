use printa_ble::barcode::render_barcode;
use printa_ble::bitmap::{Bitmap, WIDTH};
use printa_ble::fences::placeholder_text;
use printa_ble::glyphs::{FontStyle, Glyph, GlyphSheet, Style};
use printa_ble::images::ImageMap;
use printa_ble::layout::{RichLine, Span};
use printa_ble::lowering::{lower, MdBlock, BODY_SIZE, CODE_INDENT, CODE_SIZE};
use printa_ble::markdown::{
    fence_error, markdown_image_refs, render_markdown, render_markdown_with, Artwork, FENCE_MARGIN,
    IMAGE_MARGIN, RULE_MARGIN, RULE_THICKNESS,
};
use printa_ble::rich::render_rich;
use printa_ble::table::{
    build_table_lines, char_display_width, display_width, TABLE_GUTTER, TABLE_MAX_WIDTH,
    TABLE_MIN_COL,
};
use printa_ble::wagara::{find_pattern, render_wagara, Band, WagaraOptions};

/// Every character the tests set.
fn alphabet() -> Vec<char> {
    let mut all: Vec<char> = (' '..='~').collect();
    all.extend("•…—éα☕日本語文字列あいうえおかきくけこさしすせそ見出説明し品目数珈琲紅茶とお菓子和".chars());
    all
}

/// A monospace sheet: 0.6 em advances (1 em for full-width characters), ascent 1.02 em. A glyph is
/// a block with a pattern that depends on the character and the face, its left column solid.
fn sheet() -> GlyphSheet {
    let mut sheet = GlyphSheet::new();
    for size in [2000u32, 2400, 2600, 3000, 3600] {
        for (f, font) in [FontStyle::Regular, FontStyle::Bold, FontStyle::Italic]
            .into_iter()
            .enumerate()
        {
            sheet.set_ascent(font, size, 102 * size);
            for ch in alphabet() {
                sheet.insert(ch, font, size, glyph(ch, f as u32, size));
            }
        }
    }
    sheet
}

fn glyph(ch: char, face: u32, size: u32) -> Glyph {
    let full = char_display_width(ch) == 2;
    let advance = if full { 100 * size } else { 60 * size };
    if ch == ' ' {
        return Glyph { advance, xmin: 0, ymin: 0, width: 0, height: 0, coverage: vec![] };
    }
    let width = size / 200;
    let height = 2 * size / 300;
    let mut coverage = Vec::new();
    for row in 0..height {
        for col in 0..width {
            let mixed = (ch as u32).wrapping_mul(2654435761).rotate_left(row % 31) ^ (face * 7);
            let black = col == 0 || (mixed >> (col % 17)) & 1 == 1;
            coverage.push(if black { 255 } else { 0 });
        }
    }
    Glyph { advance, xmin: 1, ymin: 0, width, height, coverage }
}

/// A band with a frame and a dot pattern, for every pattern at the sizes the tests ask for.
fn bands() -> Vec<Band> {
    let mut bands = Vec::new();
    for name in NAMES {
        let pattern = find_pattern(name).unwrap();
        for height in [56usize, 80] {
            let mut bitmap = Bitmap::new(height);
            for y in 0..height {
                for x in 0..WIDTH {
                    let edge = x == 0 || x == WIDTH - 1 || y == 0 || y == height - 1;
                    if edge || (x + y + name.len()) % 5 == 0 {
                        bitmap.set(x, y, true);
                    }
                }
            }
            let options = WagaraOptions { height, scale: 1 };
            bands.push(Band { pattern, options, bitmap });
        }
    }
    bands
}

const NAMES: [&str; 10] = [
    "asanoha", "ichimatsu", "kanoko", "kikkou", "sayagata", "seigaiha", "shippou", "tatewaku",
    "uroko", "yagasuri",
];

fn art() -> Artwork {
    Artwork { sheet: sheet(), bands: bands() }
}

fn has_ink(b: &Bitmap) -> bool {
    (0..b.height()).any(|y| (0..WIDTH).any(|x| b.get(x, y)))
}

fn rows(b: &Bitmap) -> Vec<Vec<u8>> {
    (0..b.height()).map(|y| b.row(y).to_vec()).collect()
}

/// `render_markdown` with the tests' artwork.
fn render(md: &str) -> Bitmap {
    render_markdown(md, &art())
}

fn ink_before(b: &Bitmap, x_limit: usize) -> bool {
    (0..b.height()).any(|y| (0..x_limit).any(|x| b.get(x, y)))
}

fn span(text: &str, font: FontStyle, size: u32) -> Span {
    Span { text: text.to_string(), style: Style::new(font, size) }
}

fn line(text: &str, font: FontStyle, size: u32, indent: u32) -> RichLine {
    RichLine { spans: vec![span(text, font, size)], indent }
}

/// `render_rich` of one line with the tests' sheet.
fn rich(text: &str, font: FontStyle, size: u32, indent: u32) -> Bitmap {
    render_rich(&[line(text, font, size, indent)], &sheet())
}

fn no_images() -> ImageMap {
    ImageMap::new()
}

#[test]
fn heading_taller_than_body() {
    let heading = render("# Hi");
    let body = render("Hi");
    assert!(
        heading.height() > body.height(),
        "heading {} should be taller than body {}",
        heading.height(),
        body.height()
    );
}

#[test]
fn bold_differs_from_plain() {
    let bold = render("**Hi**");
    let plain = render("Hi");
    assert!(has_ink(&bold), "bold render has no ink");
    assert!(has_ink(&plain), "plain render has no ink");
    assert_ne!(rows(&bold), rows(&plain), "bold should differ from plain");
}

#[test]
fn list_items_indented() {
    let b = render("- item");
    assert!(has_ink(&b), "list item has no ink");
    assert!(!ink_before(&b, 24), "ink left of the 24 px list indent");
}

#[test]
fn ordered_list_numbers() {
    let two = render("1. a\n2. b");
    let one = render("1. a");
    assert!(has_ink(&two), "ordered list has no ink");
    assert!(
        two.height() > one.height(),
        "two items {} should be taller than one {}",
        two.height(),
        one.height()
    );
}

#[test]
fn code_block_preserves_lines() {
    let three = render("```\na\nb\nc\n```");
    let one = render("```\na\n```");
    assert!(has_ink(&three), "code block has no ink");
    assert!(
        three.height() > one.height(),
        "three code lines {} should be taller than one {}",
        three.height(),
        one.height()
    );
    // Three code lines at 20 px, 1.3 line height each.
    let expected = (3.0 * 20.0 * 1.3) as usize;
    assert!(
        three.height() >= expected,
        "height {} does not cover three 20 px code lines ({expected})",
        three.height()
    );
}

#[test]
fn hr_renders_full_width_line() {
    let b = render("---");
    let full_row = (0..b.height()).any(|y| b.get(0, y) && b.get(191, y) && b.get(383, y));
    assert!(full_row, "no full-width black row found for the rule");
}

#[test]
fn empty_markdown_gives_empty_bitmap() {
    assert_eq!(render("").height(), 0);
}

#[test]
fn paragraph_wraps() {
    let long = render(&"word ".repeat(30));
    let short = render("word");
    assert!(
        long.height() > short.height(),
        "long paragraph {} should wrap taller than short {}",
        long.height(),
        short.height()
    );
}

#[test]
fn strikethrough_differs_from_plain() {
    let struck = render("~~Hi~~");
    let plain = render("Hi");
    assert!(has_ink(&struck), "struck render has no ink");
    assert!(has_ink(&plain), "plain render has no ink");
    assert_ne!(rows(&struck), rows(&plain), "strikethrough should differ from plain");
    // The tildes must be consumed: ~~Hi~~ is exactly "Hi" struck through.
    let expected = render_rich(
        &[RichLine {
            spans: vec![Span {
                text: "Hi".to_string(),
                style: Style { strike: true, ..Style::default() },
            }],
            indent: 0,
        }],
        &sheet(),
    );
    assert_eq!(rows(&struck), rows(&expected), "~~Hi~~ should render as struck 'Hi'");
}

#[test]
fn checkbox_checked_differs_from_unchecked() {
    let checked = render("- [x] task");
    let unchecked = render("- [ ] task");
    assert!(has_ink(&checked), "checked render has no ink");
    assert!(has_ink(&unchecked), "unchecked render has no ink");
    assert_ne!(rows(&checked), rows(&unchecked), "checked should differ from unchecked");
    // The checked marker is exactly "[x] " (no bullet, no literal "[x]" text run: the marker
    // replaces the bullet prefix).
    let expected = rich("[x] task", FontStyle::Regular, 2400, 24);
    assert_eq!(
        rows(&checked),
        rows(&expected),
        "checked task item should render as '[x] task' at list indent"
    );
}

#[test]
fn checkbox_renders_ascii_marker() {
    let md = render("- [ ] task");
    let expected = rich("[ ] task", FontStyle::Regular, 2400, 24);
    assert_eq!(
        rows(&md),
        rows(&expected),
        "task item should render as '[ ] task' at list indent"
    );
}

#[test]
fn tear_renders_dashed_line() {
    let b = render("- - -");
    // Same footprint as a rule: margins + 2 px line.
    assert_eq!(b.height(), 2 * RULE_MARGIN + RULE_THICKNESS);
    // Dashes: 8 px on / 8 px off, starting black at x = 0.
    for y in RULE_MARGIN..RULE_MARGIN + RULE_THICKNESS {
        for x in 0..WIDTH {
            let want = (x / 8).is_multiple_of(2);
            assert_eq!(b.get(x, y), want, "tear pattern wrong at x={x}, y={y}");
        }
    }
}

#[test]
fn tear_differs_from_solid_rule() {
    let tear = render("- - -");
    let rule = render("---");
    assert_ne!(rows(&tear), rows(&rule), "tear should differ from rule");
    let full_row = (0..rule.height()).any(|y| (0..WIDTH).all(|x| rule.get(x, y)));
    assert!(full_row, "solid rule lost its full-width black row");
}

#[test]
fn table_renders_ink() {
    let table = render("| a | b |\n| --- | --- |\n| c | d |");
    let line = render("`a  b`");
    assert!(has_ink(&table), "table render has no ink");
    assert!(
        table.height() > line.height(),
        "table {} (header + separator + body) should be taller than one line {}",
        table.height(),
        line.height()
    );
}

#[test]
fn table_has_separator_row() {
    // Header, dashed separator, and one body row: three text rows.
    let table = render("| a | b |\n|---|---|\n| c | d |");
    let one = render("| a | b |\n|---|---|");
    assert!(
        table.height() > one.height(),
        "three-row table {} should exceed a header+separator {}",
        table.height(),
        one.height()
    );
    // The separator is the pure-text line the builder emits second.
    let lines = build_table_lines(&["a".into(), "b".into()], &[vec!["c".into(), "d".into()]]);
    assert_eq!(lines.len(), 3, "header, separator, body");
    assert!(
        lines[1].chars().all(|c| c == '-' || c == ' '),
        "separator row is dashes and gutters, got {:?}",
        lines[1]
    );
    assert!(lines[1].contains('-'), "separator row has dashes, got {:?}", lines[1]);
}

#[test]
fn build_table_lines_pads_and_gutters() {
    let lines = build_table_lines(
        &["Item".into(), "Qty".into()],
        &[vec!["Coffee".into(), "2".into()]],
    );
    // Column widths: max("Item",6=Coffee)=6, max("Qty",1)=3. Gutter = 2.
    assert_eq!(lines[0], "Item    Qty");
    assert_eq!(lines[1], "------  ---");
    assert_eq!(lines[2], "Coffee  2  ");
    for l in &lines {
        assert_eq!(l.chars().count(), 11, "every row is the same width: {l:?}");
    }
}

#[test]
fn table_truncates_overwide_cells() {
    let long = "x".repeat(50);
    let lines = build_table_lines(&["col".into(), "b".into()], &[vec![long, "y".into()]]);
    for l in &lines {
        assert!(
            l.chars().count() <= TABLE_MAX_WIDTH,
            "line {:?} exceeds {TABLE_MAX_WIDTH} display columns",
            l
        );
    }
    // The over-wide body cell is truncated with an ellipsis.
    assert!(
        lines.last().unwrap().contains('…'),
        "over-wide cell should be truncated with '…', got {:?}",
        lines.last()
    );
    // And it still renders without panicking.
    let md = format!("| col | b |\n|---|---|\n| {} | y |", "x".repeat(50));
    assert!(has_ink(&render(&md)), "wide table has no ink");
}

/// Seven columns already exceed the budget at the 3-column floor, so wide tables word-wrap instead
/// of staying aligned. This is a documented ceiling, not a bug: pin it so a change is deliberate.
#[test]
fn table_over_six_columns_exceeds_budget_and_wraps() {
    // Six columns still fit: 6*3 + 2*5 = 28 <= 32.
    let six: Vec<String> = (0..6).map(|i| format!("h{i}")).collect();
    let lines = build_table_lines(&six, std::slice::from_ref(&six));
    for l in &lines {
        assert!(
            l.chars().count() <= TABLE_MAX_WIDTH,
            "six columns should fit, got {:?} ({} columns)",
            l,
            l.chars().count()
        );
    }

    // Eight do not: every column bottoms out at TABLE_MIN_COL and the line is still
    // 8*3 + 2*7 = 38 columns.
    let eight: Vec<String> = (0..8).map(|i| format!("header{i}")).collect();
    let lines = build_table_lines(&eight, std::slice::from_ref(&eight));
    assert_eq!(
        lines[0].chars().count(),
        8 * TABLE_MIN_COL + TABLE_GUTTER * 7,
        "eight columns bottom out at the floor: {:?}",
        lines[0]
    );
    assert!(
        lines[0].chars().count() > TABLE_MAX_WIDTH,
        "eight columns should overflow the budget"
    );

    // The renderer wraps rather than clipping: ink stays on the paper and the block is taller than
    // the three rows it would be if it fit.
    let head = eight.iter().map(String::as_str).collect::<Vec<_>>().join(" | ");
    let md = format!("| {head} |\n|{}\n| {head} |", "---|".repeat(8));
    let wide = render(&md);
    assert!(has_ink(&wide), "eight-column table has no ink");
    let narrow = render("| a | b |\n|---|---|\n| 1 | 2 |");
    assert!(
        wide.height() > narrow.height(),
        "wrapped table {} should be taller than an aligned one {}",
        wide.height(),
        narrow.height()
    );
}

#[test]
fn table_single_column_ok() {
    let lines = build_table_lines(&["only".into()], &[vec!["one".into()], vec!["two".into()]]);
    assert_eq!(lines, vec!["only", "----", "one ", "two "]);
    assert!(has_ink(&render("| only |\n|---|\n| one |\n| two |")));
}

#[test]
fn table_ragged_rows_padded() {
    // A body row shorter than the header is padded with empty cells.
    let lines = build_table_lines(&["a".into(), "b".into(), "c".into()], &[vec!["1".into()]]);
    assert_eq!(lines[0], "a  b  c");
    // "1" (col0) + gutter + " " (empty col1) + gutter + " " (empty col2).
    assert_eq!(lines[2], "1      ");
    assert_eq!(lines[2].chars().count(), 7);
    // A row with more cells than the header drops the extras.
    let over = build_table_lines(&["a".into()], &[vec!["1".into(), "2".into()]]);
    assert_eq!(over, vec!["a", "-", "1"]);
    assert!(has_ink(&render("| a | b | c |\n|---|---|---|\n| 1 |")));
}

#[test]
fn table_empty_header_no_lines() {
    assert!(build_table_lines(&[], &[vec!["x".into()]]).is_empty());
}

#[test]
fn display_width_counts_full_width_characters_as_two() {
    for c in ['漢', '日', '本', 'あ', 'ゐ', 'ア', 'ヺ', '、', '。', '　', 'Ａ', '￥', '한', '﨑'] {
        assert_eq!(char_display_width(c), 2, "{c:?} should be full-width");
    }
    for c in ['a', 'Z', '9', ' ', '-', '…', 'é', '•', 'ｱ', '\u{ffee}'] {
        assert_eq!(char_display_width(c), 1, "{c:?} should be half-width");
    }
    assert_eq!(display_width("日本語"), 6);
    assert_eq!(display_width("ab日"), 4);
    assert_eq!(display_width(""), 0);
}

#[test]
fn table_with_cjk_cells_aligns() {
    let lines = build_table_lines(
        &["品目".into(), "数".into()],
        &[
            vec!["珈琲".into(), "2".into()],
            vec!["紅茶とお菓子".into(), "10".into()],
        ],
    );
    let want = display_width(&lines[0]);
    for l in &lines {
        assert_eq!(display_width(l), want, "every row is the same display width: {l:?}");
    }
    // Column 0 is as wide as its widest cell (6 chars × 2 = 12 columns).
    assert_eq!(want, 12 + TABLE_GUTTER + 2);
    assert!(has_ink(&render(
        "| 品目 | 数 |\n|---|---|\n| 珈琲 | 2 |\n| 紅茶とお菓子 | 10 |"
    )));
}

#[test]
fn table_mixing_ascii_and_cjk_pads_to_display_width() {
    let lines = build_table_lines(
        &["Item".into(), "Qty".into()],
        &[
            vec!["珈琲".into(), "2".into()],
            vec!["Coffee".into(), "10".into()],
        ],
    );
    // Column 0: max(4, 珈琲=4, 6) = 6. Column 1: max(3, 1, 2) = 3.
    assert_eq!(lines[0], "Item    Qty");
    assert_eq!(lines[1], "------  ---");
    // Two spaces of padding, not four: the cell already spends 4 columns.
    assert_eq!(lines[2], "珈琲    2  ");
    assert_eq!(lines[3], "Coffee  10 ");
    for l in &lines {
        assert_eq!(display_width(l), 11, "row {l:?} is not 11 columns");
    }
}

#[test]
fn table_truncates_cjk_on_a_character_boundary() {
    // Twenty full-width characters claim 40 columns on their own, so the column shrinks and the
    // cell has to be cut.
    let long = "日本語文字列".repeat(3) + "あいう";
    assert_eq!(display_width(&long), 42);
    let lines = build_table_lines(&["見出し".into(), "説明".into()], &[vec![long, "α".into()]]);
    for l in &lines {
        assert!(
            display_width(l) <= TABLE_MAX_WIDTH,
            "line {l:?} is {} columns, over the {TABLE_MAX_WIDTH} budget",
            display_width(l)
        );
    }
    let body = lines.last().unwrap();
    assert!(
        body.contains('…'),
        "over-wide CJK cell should be truncated with '…', got {body:?}"
    );
    // The cut kept whole characters: no lone half of a full-width glyph, and no
    // replacement/`\u{fffd}` fallout from slicing mid-codepoint.
    assert!(
        body.chars()
            .all(|c| c == ' ' || c == '…' || c == 'α' || "日本語文字列あいう".contains(c)),
        "truncation mangled the cell: {body:?}"
    );
    assert!(has_ink(&render(
        "| 見出し | 説明 |\n|---|---|\n| 日本語文字列日本語文字列日本語文字列あいう | α |"
    )));
}

/// An odd budget cannot be filled exactly by full-width characters, so the last column becomes
/// padding rather than half a glyph.
#[test]
fn table_odd_budget_pads_rather_than_splitting_a_glyph() {
    // Width 5: 4 columns for the kept prefix, two characters, then `…`.
    let lines = build_table_lines(&["あいうえお".into()], &[vec!["か".into()]]);
    assert_eq!(display_width(&lines[0]), 10);
    // Shrink to an odd width and re-check the prefix lands on a boundary.
    let fitted = build_table_lines(
        &["12345".into(), "あいうえお".into(), "c".into()],
        &[vec!["x".into(), "かきくけこさしすせそ".into(), "y".into()]],
    );
    let want = display_width(&fitted[0]);
    for l in &fitted {
        assert_eq!(display_width(l), want, "row {l:?} is not {want} columns");
        assert!(display_width(l) <= TABLE_MAX_WIDTH);
    }
}

#[test]
fn blockquote_indented() {
    let b = render("> quote");
    assert!(has_ink(&b), "blockquote has no ink");
    assert!(!ink_before(&b, 24), "ink left of the 24 px quote indent");
}

/// Bounding box of black pixels: (min_x, min_y, max_x, max_y).
fn ink_bbox(b: &Bitmap) -> Option<(usize, usize, usize, usize)> {
    let mut bbox: Option<(usize, usize, usize, usize)> = None;
    for y in 0..b.height() {
        for x in 0..WIDTH {
            if b.get(x, y) {
                bbox = Some(match bbox {
                    None => (x, y, x, y),
                    Some((x0, y0, x1, y1)) => (x0.min(x), y0.min(y), x1.max(x), y1.max(y)),
                });
            }
        }
    }
    bbox
}

/// Longest run of consecutive black pixels down column `x`.
fn tallest_run(b: &Bitmap, x: usize) -> usize {
    let (mut best, mut run) = (0, 0);
    for y in 0..b.height() {
        run = if b.get(x, y) { run + 1 } else { 0 };
        best = best.max(run);
    }
    best
}

#[test]
fn qr_fence_renders_block() {
    let b = render("```qr\nhttps://example.com\n```");
    let (min_x, min_y, max_x, max_y) = ink_bbox(&b).expect("qr fence has no ink");
    let w = max_x - min_x + 1;
    let h = max_y - min_y + 1;
    assert!(w.abs_diff(h) * 10 <= w, "bbox {w}x{h} is not square within 10%");
    assert!(min_x >= 16, "ink at x = {min_x}, inside the quiet zone");
    assert!(min_y >= 8, "ink at y = {min_y}, inside the top margin");
}

#[test]
fn qr_fence_case_insensitive() {
    let upper = render("```QR\nhttps://example.com\n```");
    let lower = render("```qr\nhttps://example.com\n```");
    assert!(has_ink(&upper), "uppercase QR fence has no ink");
    assert_eq!(rows(&upper), rows(&lower), "```QR should match ```qr");
    // An info string with attributes after the name still selects the fence.
    let attrs = render("```  Qr  extra\nhttps://example.com\n```");
    assert_eq!(rows(&attrs), rows(&lower), "```Qr extra should match ```qr");
}

#[test]
fn qr_fence_too_long_renders_error_not_panic() {
    let md = format!("```qr\n{}\n```", "a".repeat(4000));
    let b = render(&md);
    assert!(has_ink(&b), "over-long qr fence rendered nothing");
    // Error text, not a code: far shorter than a QR block and left-aligned at the code indent
    // rather than centered in a quiet zone. Both carry the same FENCE_MARGIN, so compare against a
    // real QR fence.
    let real = render("```qr\nhttps://example.com\n```");
    assert!(
        b.height() * 2 < real.height(),
        "height {} looks like a QR ({}), not error text",
        b.height(),
        real.height()
    );
    assert!(ink_before(&b, 40), "no ink at the 16 px code indent");
}

#[test]
fn barcode_fence_renders_bars() {
    let b = render("```barcode\nHELLO123\n```");
    assert!(has_ink(&b), "barcode fence has no ink");
    assert!(!ink_before(&b, 16), "ink inside the 16 px quiet zone");
    let tall = (0..WIDTH).filter(|&x| tallest_run(&b, x) >= 60).count();
    assert!(tall >= 20, "only {tall} columns have a 60 px black run");
    // Fence blocks are padded to a common margin, so a barcode gets the same breathing room a QR
    // does rather than sitting cramped against the next block.
    let first_ink = (0..b.height())
        .find(|&y| (0..WIDTH).any(|x| b.get(x, y)))
        .unwrap();
    assert_eq!(first_ink, FENCE_MARGIN, "barcode top margin");
    let last_ink = (0..b.height())
        .rev()
        .find(|&y| (0..WIDTH).any(|x| b.get(x, y)))
        .unwrap();
    assert_eq!(b.height() - 1 - last_ink, FENCE_MARGIN, "barcode bottom margin");
}

#[test]
fn barcode_fence_invalid_renders_error_not_panic() {
    for md in [
        "```barcode\n\n```",
        "```barcode\ncafé ☕\n```",
        "```barcode\nWAY TOO LONG FOR A 384 PIXEL ROLL OF PAPER\n```",
    ] {
        let b = render(md);
        assert!(has_ink(&b), "invalid barcode {md:?} rendered nothing");
        let tall = (0..WIDTH).filter(|&x| tallest_run(&b, x) >= 60).count();
        assert_eq!(tall, 0, "invalid barcode {md:?} drew bars");
        assert!(ink_before(&b, 40), "no error text at the code indent");
    }
}

/// A fence gets the same breathing room whether it encoded or not. A fence is its own block, so the
/// blank line around it is trimmed; if only the success branch padded, a failed fence's error text
/// would print flush against the neighbouring paragraph.
#[test]
fn fence_margins_match_in_both_branches() {
    // Padding added by the block = document blanks minus the content's own. The success branch's
    // built-in margin is subtracted, so both branches add the same FENCE_MARGIN of white.
    let pad = |doc: &Bitmap, inner: &Bitmap| {
        let (_, doc_top, _, doc_bot) = ink_bbox(doc).expect("document has no ink");
        let (_, in_top, _, in_bot) = ink_bbox(inner).expect("content has no ink");
        (
            doc_top - in_top,
            (doc.height() - 1 - doc_bot) - (inner.height() - 1 - in_bot),
        )
    };

    let ok_inner = render_barcode("HELLO123").expect("HELLO123 is a valid payload");
    let ok_doc = render("```barcode\nHELLO123\n```");
    assert_eq!(
        pad(&ok_doc, &ok_inner),
        (FENCE_MARGIN, FENCE_MARGIN),
        "successful fence margins"
    );

    let err = render_barcode("café ☕").expect_err("non-ASCII payload must be rejected");
    let err_inner = fence_error(&err.message(), &sheet());
    let err_doc = render("```barcode\ncafé ☕\n```");
    assert_eq!(
        pad(&err_doc, &err_inner),
        (FENCE_MARGIN, FENCE_MARGIN),
        "failed fence margins"
    );

    // And the visible symptom: with text on both sides, a failed fence keeps at least FENCE_MARGIN
    // of white from its neighbours instead of colliding with them.
    let doc = render("before\n\n```barcode\ncafé ☕\n```\n\nafter");
    let blank_runs: Vec<usize> = {
        let inked: Vec<bool> = (0..doc.height())
            .map(|y| (0..WIDTH).any(|x| doc.get(x, y)))
            .collect();
        let mut runs = Vec::new();
        let mut run = 0;
        for (i, &ink) in inked.iter().enumerate() {
            if ink {
                if run > 0 && i > run {
                    runs.push(run);
                }
                run = 0;
            } else {
                run += 1;
            }
        }
        runs
    };
    // The error message wraps, so the interior runs are line gaps; the first and last are the
    // fence's own margins.
    assert!(
        blank_runs.len() >= 2,
        "expected gaps above and below the fence, got {blank_runs:?}"
    );
    for gap in [blank_runs[0], *blank_runs.last().unwrap()] {
        assert!(
            gap >= FENCE_MARGIN,
            "gap of {gap} px around a failed fence is below the {FENCE_MARGIN} px margin"
        );
    }
}

#[test]
fn wagara_fence_renders_a_band() {
    let b = render("```wagara seigaiha\n```");
    let expected =
        render_wagara("seigaiha", WagaraOptions::default(), &bands()).expect("valid pattern");
    assert_eq!(
        b.height(),
        expected.height() + 2 * FENCE_MARGIN,
        "band plus the shared fence margin"
    );
    // The band is a graphic, not text: it runs edge to edge.
    assert!(
        (0..b.height()).any(|y| b.get(0, y)),
        "wagara band should reach the left paper edge"
    );
    assert!(
        (0..b.height()).any(|y| b.get(WIDTH - 1, y)),
        "wagara band should reach the right paper edge"
    );
    let first_ink = (0..b.height())
        .find(|&y| (0..WIDTH).any(|x| b.get(x, y)))
        .expect("wagara fence has no ink");
    assert_eq!(first_ink, FENCE_MARGIN, "wagara top margin");
}

/// Every name the wagara module draws must be reachable from a fence.
#[test]
fn wagara_fence_draws_every_pattern() {
    for name in NAMES {
        let b = render(&format!("```wagara {name}\n```"));
        let expected =
            render_wagara(name, WagaraOptions::default(), &bands()).expect("known pattern renders");
        assert_eq!(
            b.height(),
            expected.height() + 2 * FENCE_MARGIN,
            "{name} fence should be a band, not an error message"
        );
        assert!(
            (WIDTH - 8..WIDTH).any(|x| (0..b.height()).any(|y| b.get(x, y))),
            "{name} fence should reach the right paper edge"
        );
    }
}

/// The pattern name may come from the info string or from the body's first line; both spellings
/// must render the same band.
#[test]
fn wagara_fence_takes_its_name_from_the_info_string_or_the_body() {
    let info = render("```wagara asanoha\n```");
    let body = render("```wagara\nasanoha\n```");
    assert_eq!(rows(&info), rows(&body), "both name forms should agree");
    // ...and the options still apply in either form.
    let info = render("```wagara kikkou\nheight: 80\n```");
    let body = render("```wagara\nkikkou\nheight: 80\n```");
    assert_eq!(rows(&info), rows(&body), "both option forms should agree");
    assert_eq!(info.height(), 80 + 2 * FENCE_MARGIN);
}

#[test]
fn wagara_fence_case_insensitive() {
    let upper = render("```WAGARA Ichimatsu\n```");
    let lower = render("```wagara ichimatsu\n```");
    assert!(has_ink(&upper), "uppercase WAGARA fence has no ink");
    assert_eq!(rows(&upper), rows(&lower), "```WAGARA should match ```wagara");
}

#[test]
fn wagara_fence_bad_input_renders_error_not_panic() {
    for md in [
        "```wagara nonsense\n```",
        "```wagara\n```",
        "```wagara seigaiha\nheight: enormous\n```",
        "```wagara seigaiha\nheight: 4000\n```",
        "```wagara seigaiha\ncolour: red\n```",
    ] {
        let b = render(md);
        assert!(has_ink(&b), "{md:?} rendered nothing");
        // Error text, not a band: left-aligned at the code indent and far shorter than the
        // shortest band a fence could produce.
        assert!(ink_before(&b, 40), "{md:?}: no error text at the code indent");
        assert!(
            !(0..b.height()).any(|y| b.get(WIDTH - 1, y)),
            "{md:?} drew a full-width band instead of an error"
        );
    }
}

#[test]
fn image_refs_extracts_in_order_deduped() {
    let md = "![a](a.png)\n\n![b](b.png)\n\n![again](a.png)";
    assert_eq!(markdown_image_refs(md), vec!["a.png", "b.png"]);
    assert!(markdown_image_refs("# Just text\n\nno pictures here").is_empty());
    assert!(markdown_image_refs("").is_empty());
}

/// A document with a thousand images must still report each destination once, in first-seen order.
#[test]
fn image_refs_dedupe_scales_and_keeps_first_seen_order() {
    let mut md = String::new();
    for i in 0..500 {
        let dest = if i % 2 == 0 { "a.png" } else { "b.png" };
        md.push_str(&format!("![alt]({dest})\n\n"));
    }
    for i in 0..500 {
        md.push_str(&format!("![alt](u{i}.png)\n\n"));
    }

    let refs = markdown_image_refs(&md);
    assert_eq!(refs.len(), 502, "each destination should appear once");

    let mut expected = vec!["a.png".to_string(), "b.png".to_string()];
    expected.extend((0..500).map(|i| format!("u{i}.png")));
    assert_eq!(refs, expected);
}

#[test]
fn image_refs_ignores_links() {
    assert!(markdown_image_refs("[text](page.html)").is_empty());
    // A link wrapping an image still yields the image's destination.
    assert_eq!(markdown_image_refs("[![alt](pic.png)](page.html)"), vec!["pic.png"]);
}

#[test]
fn render_with_supplied_bitmap_stacks_it() {
    let mut pic = Bitmap::new(40);
    pic.set(10, 5, true);
    let mut images = no_images();
    images.insert("pic.png".to_string(), pic);

    let base = render("# Hi");
    let with = render_markdown_with("# Hi\n\n![p](pic.png)", &images, &art());
    assert_eq!(
        with.height(),
        base.height() + 40 + 2 * IMAGE_MARGIN,
        "image should add its height plus top and bottom margins"
    );
    // The supplied ink lands below the heading and the top margin.
    assert!(
        with.get(10, base.height() + IMAGE_MARGIN + 5),
        "supplied image pixel missing at its stacked offset"
    );
    // ...and nowhere else on that row of the image block.
    assert!(
        !with.get(11, base.height() + IMAGE_MARGIN + 5),
        "supplied image should not smear sideways"
    );
}

#[test]
fn missing_image_renders_placeholder() {
    assert_eq!(placeholder_text("Cat", "cat.png"), "[image: Cat]");
    let b = render("![Cat](cat.png)");
    assert!(has_ink(&b), "missing image rendered nothing");
    let expected = rich("[image: Cat]", FontStyle::Italic, BODY_SIZE, 0);
    assert_eq!(
        rows(&b),
        rows(&expected),
        "missing image should render an italic placeholder line"
    );
}

#[test]
fn placeholder_uses_dest_when_no_alt() {
    assert_eq!(placeholder_text("", "x.png"), "[image: x.png]");
    let b = render("![](x.png)");
    let expected = rich("[image: x.png]", FontStyle::Italic, BODY_SIZE, 0);
    assert_eq!(rows(&b), rows(&expected), "empty alt should fall back to dest");
}

#[test]
fn placeholder_flattens_styled_alt_text() {
    // Alt text is the image's inner text content, emphasis dropped.
    assert!(markdown_image_refs("![*a* b](x.png)") == vec!["x.png"]);
    let b = render("![*a* b](x.png)");
    let expected = rich("[image: a b]", FontStyle::Italic, BODY_SIZE, 0);
    assert_eq!(rows(&b), rows(&expected), "styled alt text should flatten");
}

#[test]
fn image_refs_skips_empty_and_nested_dests() {
    // Nothing to fetch, so nothing to report.
    assert!(markdown_image_refs("![alt]()").is_empty());
    // An image inside another's alt text is consumed as alt text and never rendered, so its
    // destination would be a wasted fetch.
    assert_eq!(
        markdown_image_refs("![a ![b](inner.png)](outer.png)"),
        vec!["outer.png"]
    );
}

#[test]
fn placeholder_marks_a_wholly_empty_image() {
    assert_eq!(placeholder_text("", ""), "[image: ?]");
    assert!(
        has_ink(&render("![]()")),
        "an empty image should still print a placeholder"
    );
}

/// Count the blocks a document lowers to, by kind, for "no stray block" assertions:
/// (lines blocks, image blocks, other blocks).
fn block_kinds(md: &str, images: &ImageMap) -> (usize, usize, usize) {
    let mut counts = (0, 0, 0);
    for block in lower(md, images) {
        match block {
            MdBlock::Lines(_, _) => counts.0 += 1,
            MdBlock::Image(_) => counts.1 += 1,
            _ => counts.2 += 1,
        }
    }
    counts
}

#[test]
fn image_in_table_cell_renders_inside_the_cell() {
    let md = "| a | b |\n|---|---|\n| 1 | ![Cat](cat.png) |";
    // A table cell is monospace text: the placeholder belongs *in* the cell, not as a stray line
    // after the table.
    assert_eq!(
        block_kinds(md, &no_images()),
        (1, 0, 0),
        "a table with an image should lower to exactly one lines block"
    );
    // The cell holds the placeholder text, so the table renders identically to one whose cell
    // contains that text literally (escaped brackets).
    let literal = "| a | b |\n|---|---|\n| 1 | \\[image: Cat\\] |";
    assert_eq!(
        rows(&render(md)),
        rows(&render(literal)),
        "image cell should render as its placeholder text"
    );
}

#[test]
fn supplied_image_in_table_cell_stays_in_the_cell() {
    let md = "| a | b |\n|---|---|\n| 1 | ![Cat](cat.png) |";
    let mut pic = Bitmap::new(40);
    pic.set(10, 5, true);
    let mut images = no_images();
    images.insert("cat.png".to_string(), pic);
    // Nothing can stack inside a monospace cell, so a supplied image collapses to the same
    // placeholder rather than escaping the table, which, with rows still buffered, would emit it
    // *before* the table.
    assert_eq!(
        block_kinds(md, &images),
        (1, 0, 0),
        "a supplied image in a cell must not become its own block"
    );
    assert_eq!(
        rows(&render_markdown_with(md, &images, &art())),
        rows(&render(md)),
        "a supplied image in a cell renders like a missing one"
    );
}

#[test]
fn image_in_list_keeps_indent() {
    let b = render("- ![Cat](cat.png)");
    assert!(has_ink(&b), "list image placeholder has no ink");
    assert!(!ink_before(&b, 24), "ink left of the 24 px list indent");
}

#[test]
fn render_markdown_delegates() {
    let md = "# Title\n\n![Cat](cat.png)\n\ntext";
    assert_eq!(
        rows(&render(md)),
        rows(&render_markdown_with(md, &no_images(), &art())),
        "render_markdown should equal render_markdown_with an empty map"
    );
}

#[test]
fn plain_code_fence_unaffected() {
    let expected = rich("code", FontStyle::Regular, CODE_SIZE, CODE_INDENT);
    // The classifier matches whole fence names, never prefixes: only exactly `qr`, `barcode` and
    // `wagara` turn into graphics.
    for lang in [
        "", "rust", "qrcode", "qrs", "barcodes", "barcodex", "bar", "wagaras", "wagarax", "waga",
    ] {
        let md = format!("```{lang}\ncode\n```");
        assert_eq!(
            rows(&render(&md)),
            rows(&expected),
            "{md:?} should still render as code text"
        );
    }
}

#[test]
fn qr_width_option_reduces_height_and_keeps_legacy_arguments() {
    let small = render("```qr width=240\nTREASURE:HUNT1:STEP1\n```\n");
    let default = render("```qr\nTREASURE:HUNT1:STEP1\n```\n");
    assert!(small.height() < default.height());
    assert_eq!(
        rows(&default),
        rows(&render("```qr utf8\nTREASURE:HUNT1:STEP1\n```\n"))
    );
}

#[test]
fn alignment_changes_text_and_can_reset_to_left() {
    let ordinary = "# Hello\n\nShort text\n";
    let left = rows(&render(ordinary));
    assert_eq!(
        left,
        rows(&render(&format!("<!-- align: left -->\n\n{ordinary}")))
    );
    assert_eq!(
        left,
        rows(&render(&format!("<!-- align: nonsense -->\n\n{ordinary}")))
    );
    assert_eq!(
        left,
        rows(&render(&format!(
            "<!-- align: center -->\n\n<!-- align: left -->\n\n{ordinary}"
        )))
    );
    assert_ne!(
        left,
        rows(&render(&format!("<!-- align: center -->\n\n{ordinary}")))
    );
    assert_ne!(
        left,
        rows(&render(&format!("<!-- align: right -->\n\n{ordinary}")))
    );
}

#[test]
fn malformed_width_does_not_abort_the_document() {
    for width in [
        "oops",
        "0",
        "9999999999999999999999999",
        "385",
        "20",
        "240 width=200",
    ] {
        let b = render(&format!("```qr width={width}\nhello\n```\n\n# Still here\n"));
        assert!(b.height() > render("# Still here").height());
    }
}

#[test]
fn directives_inside_fences_are_literal_data() {
    let doc = "```text\n<!-- align: center -->\n```\n\n# Hello";
    assert_eq!(
        rows(&render(doc)),
        rows(&render(&format!("<!-- align: left -->\n\n{doc}")))
    );
}
