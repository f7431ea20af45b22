use printa_ble::bitmap::Bitmap;
use printa_ble::fences::{fence_arg, fence_kind, fence_options, split_wagara, Fence};
use printa_ble::glyphs::{FontStyle, Glyph, GlyphSheet};
use printa_ble::images::ImageMap;
use printa_ble::layout::RichLine;
use printa_ble::lowering::{lower, MdBlock};
use printa_ble::markdown::{qr_width, render_markdown, render_markdown_with, Artwork};
use printa_ble::qr::QrError;
use printa_ble::rich::Alignment;
use printa_ble::table::char_display_width;

/// Every character the tests set.
fn alphabet() -> Vec<char> {
    let mut all: Vec<char> = (' '..='~').collect();
    all.extend("•…—éα☕日本語文字列あいうえおかきくけこさしすせそ見出説明し品目数珈琲紅茶とお菓子和".chars());
    all
}

/// A monospace sheet: 0.6 em advances (1 em for full-width characters), ascent 1.02 em. A glyph is
/// a block with a pattern that depends on the character and the face, its left column solid.
fn sheet() -> GlyphSheet {
    let mut sheet = GlyphSheet::new();
    for size in [2000u32, 2400, 2600, 3000, 3600] {
        for (f, font) in [FontStyle::Regular, FontStyle::Bold, FontStyle::Italic]
            .into_iter()
            .enumerate()
        {
            sheet.set_ascent(font, size, 102 * size);
            for ch in alphabet() {
                sheet.insert(ch, font, size, glyph(ch, f as u32, size));
            }
        }
    }
    sheet
}

fn glyph(ch: char, face: u32, size: u32) -> Glyph {
    let full = char_display_width(ch) == 2;
    let advance = if full { 100 * size } else { 60 * size };
    if ch == ' ' {
        return Glyph { advance, xmin: 0, ymin: 0, width: 0, height: 0, coverage: vec![] };
    }
    let width = size / 200;
    let height = 2 * size / 300;
    let mut coverage = Vec::new();
    for row in 0..height {
        for col in 0..width {
            let mixed = (ch as u32).wrapping_mul(2654435761).rotate_left(row % 31) ^ (face * 7);
            let black = col == 0 || (mixed >> (col % 17)) & 1 == 1;
            coverage.push(if black { 255 } else { 0 });
        }
    }
    Glyph { advance, xmin: 1, ymin: 0, width, height, coverage }
}

fn rows(b: &Bitmap) -> Vec<Vec<u8>> {
    (0..b.height()).map(|y| b.row(y).to_vec()).collect()
}

/// A document's blocks in words: a text line is its indent, its faces and its text.
fn blocks(md: &str) -> Vec<String> {
    let mut out = vec![];
    for block in lower(md, &ImageMap::new()) {
        match block {
            MdBlock::Lines(lines, alignment) => {
                for line in lines {
                    out.push(words(&line, alignment));
                }
            }
            MdBlock::Rule => out.push("rule".to_string()),
            MdBlock::Tear => out.push("tear".to_string()),
            MdBlock::Qr(data, options) => out.push(format!("qr {data} ({options})")),
            MdBlock::Barcode(data) => out.push(format!("barcode {data}")),
            MdBlock::Wagara(name, options) => out.push(format!("wagara {name} ({options})")),
            MdBlock::Image(b) => out.push(format!("image {}", b.height())),
        }
    }
    out
}

fn words(line: &RichLine, alignment: Alignment) -> String {
    let mut text = match alignment {
        Alignment::Left => format!("{}:", line.indent),
        Alignment::Center => format!("c{}:", line.indent),
        Alignment::Right => format!("r{}:", line.indent),
    };
    let mut last = None;
    for span in &line.spans {
        if last != Some(span.style) {
            let face = match span.style.font {
                FontStyle::Regular => "R",
                FontStyle::Bold => "B",
                FontStyle::Italic => "I",
            };
            let strike = if span.style.strike { "~" } else { "" };
            text.push_str(&format!("<{face}{}{strike}>", span.style.size / 100));
            last = Some(span.style);
        }
        text.push_str(&span.text);
    }
    text
}

#[test]
fn headings_are_bold_at_fixed_sizes() {
    let sheet = sheet();
    let art = Artwork { sheet, bands: vec![] };
    for (md, block, height) in [
        ("# t", "0:<B36>t", 47),
        ("## t", "0:<B30>t", 39),
        ("### t", "0:<B26>t", 34),
        ("#### t", "0:<B26>t", 34),
        ("###### t", "0:<B26>t", 34),
        ("t\n===", "0:<B36>t", 47),
        ("t\n---", "0:<B30>t", 39),
    ] {
        assert_eq!(blocks(md), [block]);
        assert_eq!(render_markdown(md, &art).height(), height);
    }
    assert_eq!(blocks("# *t* ~~u~~"), ["0:<B36>t <B36~>u"]);
    assert_eq!(blocks("a\n# t\nb"), ["0:<R24>a", "0:", "0:<B36>t", "0:", "0:<R24>b"]);
}

#[test]
fn breaks_in_paragraphs() {
    assert_eq!(blocks("a\nb"), ["0:<R24>a b"]);
    assert_eq!(blocks("a  \nb"), ["0:<R24>a", "0:<R24>b"]);
    assert_eq!(blocks("a\\\nb"), ["0:<R24>a", "0:<R24>b"]);
}

#[test]
fn emphasis_resolves_to_one_face() {
    assert_eq!(blocks("***x***"), blocks("**x**"));
    assert_eq!(blocks("**x**"), ["0:<B24>x"]);
    assert_eq!(blocks("*x* ~~y~~ **~~z~~**"), ["0:<I24>x<R24> <R24~>y<R24> <B24~>z"]);
    assert_eq!(blocks("a `x` b"), blocks("a x b"));
    assert_eq!(blocks("> q **b** *i*"), ["24:<I24>q <B24>b<I24> i"]);
}

#[test]
fn lists_indent_by_level() {
    assert_eq!(
        blocks("- level 1\n  - level 2\n    - level 3"),
        ["24:<R24>• level 1", "48:<R24>• level 2", "72:<R24>• level 3"]
    );
    assert_eq!(blocks("5. a\n6. b"), ["24:<R24>5. a", "24:<R24>6. b"]);
    assert_eq!(blocks("- a\n\n- b"), blocks("- a\n- b"));
    assert_eq!(blocks("- a\n\n  b"), ["24:<R24>• a", "24:<R24>b"]);
    assert_eq!(blocks("> - a"), ["48:<I24>• a"]);
    assert_eq!(blocks("> > x"), ["48:<I24>x"]);
    assert_eq!(blocks("> # x"), ["24:<B36>x"]);
}

#[test]
fn task_markers_replace_the_prefix() {
    assert_eq!(blocks("- [x] done\n- [ ] open"), ["24:<R24>[x] done", "24:<R24>[ ] open"]);
    assert_eq!(blocks("1. [ ] t"), blocks("- [ ] t"));
}

#[test]
fn code_keeps_its_lines() {
    assert_eq!(
        blocks("```\na\n\n  b\tc\n```"),
        ["16:<R20>a", "16:<R20>", "16:<R20>  b\tc"]
    );
    assert_eq!(blocks("    x"), ["16:<R20>x"]);
    assert_eq!(blocks("> ```\n> x\n> ```"), ["40:<R20>x"]);
    // Code escapes its list item.
    assert_eq!(blocks("- a\n\n      x"), ["24:<R24>• a", "16:<R20>x"]);
    let art = Artwork { sheet: sheet(), bands: vec![] };
    assert_eq!(render_markdown("```\na\n\nb\n```", &art).height(), 78);
}

#[test]
fn breaks_are_solid_or_tears_by_their_source() {
    for md in ["---", "***", "___", "----", "> ---", "- ***", "- * * *", "1. ---"] {
        assert_eq!(blocks(md).last().unwrap(), "rule", "{md:?}");
    }
    for md in ["- - -", "* * *", "_ _ _", "-  -  -", "- ---", "> - - -"] {
        assert_eq!(blocks(md), ["tear"], "{md:?}");
    }
}

#[test]
fn tables_are_monospace_text() {
    let md = "| Item          | Qty | Price |\n|---------------|:---:|------:|\n\
              | Espresso      | 2   | 5.00  |\n| Oat flat white| 1   | 4.20  |";
    assert_eq!(
        blocks(md),
        [
            "0:<R20>Item            Qty  Price",
            "0:<R20>--------------  ---  -----",
            "0:<R20>Espresso        2    5.00 ",
            "0:<R20>Oat flat white  1    4.20 ",
        ]
    );
    assert_eq!(
        blocks("| a |\n|---|\n| **b** `c` [d](e) ![f](g) |"),
        ["0:<R20>a               ", "0:<R20>----------------", "0:<R20>b c d [image: f]"]
    );
}

#[test]
fn graphic_fences_go_by_their_first_word() {
    assert_eq!(blocks("```QR utf8 width=9\n a \n```"), ["qr a (utf8 width=9)"]);
    assert_eq!(blocks("```Barcode utf8\nA\n```"), ["barcode A"]);
    assert_eq!(
        blocks("```wagara seigaiha\nheight: 72\nscale: 2\n```"),
        ["wagara seigaiha (height: 72\nscale: 2\n)"]
    );
    assert_eq!(
        blocks("```wagara\n\nasanoha\nheight: 40\n```"),
        ["wagara asanoha (height: 40)"]
    );
    assert_eq!(blocks("```wagara\nheight: 40\n```"), ["wagara  (height: 40\n)"]);
    for (info, kind) in [
        ("qr", Fence::Qr),
        ("  Qr x", Fence::Qr),
        ("barcode", Fence::Barcode),
        ("WAGARA", Fence::Wagara),
        ("qrcode", Fence::Code),
        ("", Fence::Code),
    ] {
        assert_eq!(fence_kind(info), kind);
    }
    assert_eq!(fence_arg("wagara  uroko x"), "uroko");
    assert_eq!(fence_arg("wagara"), "");
    assert_eq!(fence_options("qr  a   b"), "a b");
    assert_eq!(fence_options(""), "");
    assert_eq!(
        split_wagara("", "\n\n"),
        (String::new(), String::new())
    );
}

#[test]
fn graphic_fences_have_fixed_heights() {
    let art = Artwork { sheet: sheet(), bands: vec![] };
    assert_eq!(render_markdown("```qr\n\n```", &art).height(), 425);
    assert_eq!(
        render_markdown("```qr\nhttps://example.com/order/42\n```", &art).height(),
        418
    );
    assert_eq!(render_markdown("```barcode\nORDER-42\n```", &art).height(), 128);
    // A message of two lines, 26 px each, with the same margins.
    assert_eq!(render_markdown("```barcode\n```", &art).height(), 48 + 52);
}

#[test]
fn qr_widths_are_read_from_the_options() {
    assert_eq!(qr_width(""), Ok(None));
    assert_eq!(qr_width("utf8 width=240 x"), Ok(Some(240)));
    for wrong in ["width=", "width=-1", "width=1.5", "width=9 width=9", "width=x"] {
        assert_eq!(qr_width(wrong), Err(QrError::InvalidWidth), "{wrong}");
    }
    assert_eq!(qr_width("Width=9"), Ok(None));
}

#[test]
fn images_have_placeholders() {
    assert_eq!(blocks("![Cat](cat.png)"), ["0:<I24>[image: Cat]"]);
    assert_eq!(blocks("![](cat.png)"), ["0:<I24>[image: cat.png]"]);
    assert_eq!(blocks("![]()"), ["0:<I24>[image: ?]"]);
    assert_eq!(blocks("![*a* b](x.png)"), ["0:<I24>[image: a b]"]);
}

/// Of all supplied images only the reported ones make a difference.
#[test]
fn images_that_are_not_reported_change_nothing() {
    let md = "![a ![b](b.png)](a.png)";
    let mut images = ImageMap::new();
    images.insert("b.png".to_string(), Bitmap::new(9));
    images.insert("c.png".to_string(), Bitmap::new(9));
    let art = Artwork { sheet: sheet(), bands: vec![] };
    assert_eq!(
        rows(&render_markdown_with(md, &images, &art)),
        rows(&render_markdown(md, &art))
    );
    images.insert("a.png".to_string(), Bitmap::new(9));
    assert_eq!(render_markdown_with(md, &images, &art).height(), 9 + 16);
}

/// A fence that fails costs the reader nothing else.
#[test]
fn neighbours_of_a_failed_fence_print_as_ever() {
    let art = Artwork { sheet: sheet(), bands: vec![] };
    let above = rows(&render_markdown("above", &art));
    let below = rows(&render_markdown("below", &art));
    for payload in ["OK", "é"] {
        let fence = format!("```barcode\n{payload}\n```");
        let alone = rows(&render_markdown(&fence, &art));
        let all = rows(&render_markdown(&format!("above\n\n{fence}\n\nbelow"), &art));
        assert_eq!(all, [above.clone(), alone, below.clone()].concat());
    }
}

#[test]
fn alignment_comments_stand_alone() {
    assert_eq!(
        blocks("a\n\n<!-- align: center -->\n\nb\n\n<!-- align: right -->\n\n- c"),
        ["0:<R24>a", "c0:<R24>b", "r24:<R24>• c"]
    );
    for md in [
        "a <!-- align: center -->",
        "<!-- align: middle -->\n\na",
        "> <!-- align: center -->\n\na",
        "- <!-- align: center -->\n\na",
    ] {
        assert!(blocks(md).iter().all(|line| !line.starts_with('c')), "{md:?}");
    }
}

#[test]
fn unsupported_markup_degrades() {
    assert_eq!(blocks("term\n  : def"), ["0:<R24>term : def"]);
    assert_eq!(blocks("$x$ \"q\" -- ..."), ["0:<R24>$x$ \"q\" -- ..."]);
    assert_eq!(blocks("> [!NOTE]\n> x"), ["24:<I24>[!NOTE] x"]);
    assert_eq!(blocks("# t {#id}"), ["0:<B36>t {#id}"]);
    assert!(blocks("<div>hi</div>").is_empty());
    assert_eq!(blocks("a <b>c</b> d"), ["0:<R24>a c d"]);
    assert_eq!(blocks("[t](http://u) <http://x>"), ["0:<R24>t http://x"]);
    assert_eq!(
        blocks("See note[^1]\n\n[^1]: https://example.com/note"),
        ["0:<R24>See note^1"]
    );
    assert_eq!(
        blocks("See note[^1]\n\n[^1]: The note body."),
        ["0:<R24>See note[^1]", "0:", "0:<R24>[^1]: The note body."]
    );
    assert_eq!(
        blocks("---\ntitle: Hi\n---\n\nBody text."),
        blocks("---\n\n## title: Hi\n\nBody text.")
    );
}

#[test]
fn a_whole_receipt() {
    let md = "# Cafe Aurora\n\n**Order 42** — _table 6_ — ~~takeaway~~\n\n## Items\n\n\
              | Item           | Qty | Price |\n| -------------- | --- | ----- |\n\
              | Espresso       | 2   | 5.00  |\n| Oat flat white | 1   | 4.20  |\n\n### Notes\n\n\
              - [x] beans ground\n- [ ] water boiled\n  - filtered, 94 C\n\n\
              > Reheat within 20 minutes.\n\nPickup code:\n\n```barcode\nORDER-42\n```\n\n\
              ```qr\nhttps://example.com/order/42\n```\n\n```\ntare: 312 g\nnet:  188 g\n```\n\n\
              ![receipt logo](logo.png)\n\n---\n\nThanks! Tear below.\n\n- - -\n";
    let lines: Vec<String> =
        blocks(md).into_iter().filter(|line| line != "0:").collect();
    assert_eq!(
        lines,
        [
            "0:<B36>Cafe Aurora",
            "0:<B24>Order 42<R24> — <I24>table 6<R24> — <R24~>takeaway",
            "0:<B30>Items",
            "0:<R20>Item            Qty  Price",
            "0:<R20>--------------  ---  -----",
            "0:<R20>Espresso        2    5.00 ",
            "0:<R20>Oat flat white  1    4.20 ",
            "0:<B26>Notes",
            "24:<R24>[x] beans ground",
            "24:<R24>[ ] water boiled",
            "48:<R24>• filtered, 94 C",
            "24:<I24>Reheat within 20 minutes.",
            "0:<R24>Pickup code:",
            "barcode ORDER-42",
            "qr https://example.com/order/42 ()",
            "16:<R20>tare: 312 g",
            "16:<R20>net:  188 g",
            "0:<I24>[image: receipt logo]",
            "rule",
            "0:<R24>Thanks! Tear below.",
            "tear",
        ]
    );
}

/// A blank document takes no paper; a no-break space is text, and takes a line.
#[test]
fn blank_documents_take_no_paper() {
    let art = Artwork { sheet: sheet(), bands: vec![] };
    for md in ["", "\n", "   \n\t\n", "\r\n \u{b}\u{c}\r", "        "] {
        assert!(blocks(md).is_empty(), "{md:?}");
        assert_eq!(render_markdown(md, &art).height(), 0, "{md:?}");
    }
    assert_eq!(render_markdown("\u{a0}", &art).height(), 32);
}

/// Rare kana and ideographs are two columns wide like the common ones.
#[test]
fn rare_kana_and_ideographs_are_full_width() {
    for c in [
        '\u{3400}', '\u{4dbf}', '\u{31f0}', '\u{31ff}', '\u{1aff0}', '\u{1b000}', '\u{1b122}',
        '\u{1b167}', '\u{20000}', '\u{2a6df}', '\u{2a700}', '\u{2ee5d}', '\u{2f800}', '\u{2fa1d}',
        '\u{30000}', '\u{3134a}', '\u{31350}', '\u{323af}', '\u{f900}',
    ] {
        assert_eq!(char_display_width(c), 2, "{c:?}");
    }
    // Neighbours, unassigned code points and noncharacters.
    for c in [
        '\u{33ff}', '\u{4dc0}', '\u{31ef}', '\u{3200}', '\u{1aff4}', '\u{1afff}', '\u{1b123}',
        '\u{1b168}', '\u{1ffff}', '\u{2a6e0}', '\u{2b73a}', '\u{2ee5e}', '\u{2fa1e}',
        '\u{2fffe}', '\u{2ffff}', '\u{3134b}', '\u{3fffe}', '\u{3ffff}', '\u{40000}',
    ] {
        assert_eq!(char_display_width(c), 1, "{c:?}");
    }
    assert_eq!(
        blocks("| a | b |\n|---|---|\n| 㐀㐀 | 𠀀 |\n| xxxx | y |"),
        ["0:<R20>a     b ", "0:<R20>----  --", "0:<R20>㐀㐀  𠀀", "0:<R20>xxxx  y "]
    );
}

/// Each further paragraph of an item keeps the item's indent, whatever stands between.
#[test]
fn paragraphs_of_an_item_keep_its_indent() {
    let md = "- a\n\n  - b\n\n  c";
    assert_eq!(blocks(md), ["24:<R24>• a", "48:<R24>• b", "24:<R24>c"]);
    let page = render_markdown(md, &Artwork { sheet: sheet(), bands: vec![] });
    assert_eq!(page.height(), 94);
    let inked = |from: usize, to: usize| (63..94).any(|y| (from..to).any(|x| page.get(x, y)));
    assert!(inked(24, 48));
    assert!(!inked(0, 24));
    for between in [
        "```\n  x\n  ```",
        "```qr\n  x\n  ```",
        "# t",
        "| h |\n  |---|\n  | c |",
        "> q",
        "---",
        "1. x",
        "![i](i.png)",
    ] {
        let md = format!("- a\n\n  {between}\n\n  b");
        assert_eq!(blocks(&md).last().unwrap(), "24:<R24>b", "{md:?}");
        let md = format!("- x\n  - a\n\n    {}\n\n    b", between.replace("\n  ", "\n    "));
        assert_eq!(blocks(&md).last().unwrap(), "48:<R24>b", "{md:?}");
    }
    assert_eq!(
        blocks("- a\n  ```\n  x\n  ```\n  b"),
        ["24:<R24>• a", "16:<R20>x", "0:", "24:<R24>b"]
    );
    assert_eq!(
        blocks("- a\n\n  > q\n\n  b\n\nc"),
        ["24:<R24>• a", "48:<I24>q", "24:<R24>b", "0:", "0:<R24>c"]
    );
    assert_eq!(
        blocks("> - a\n>\n>   b\n>\n> c"),
        ["48:<I24>• a", "48:<I24>b", "0:", "24:<I24>c"]
    );
}

/// Spellings that mean the same print the same.
#[test]
fn equivalent_documents_print_the_same() {
    let art = Artwork { sheet: sheet(), bands: vec![] };
    for (a, b) in [
        ("***x***", "**x**"),
        ("> *x*", "> x"),
        ("# *x*", "# x"),
        ("a `x` b", "a x b"),
        ("- a\n\n- b", "- a\n- b"),
        ("1. [ ] a\n2. [x] b", "- [ ] a\n- [x] b"),
        ("> ---", "---"),
        ("- ---", "- - -"),
        ("a <b>c</b> d", "a c d"),
        ("```QR\nx\n```", "```qr\nx\n```"),
        ("<!-- align: right -->\n\n<!-- align: center -->\n\na", "<!-- align: center -->\n\na"),
        ("<!-- align: left -->\n\na", "a"),
        ("<!-- note -->\n\na", "a"),
    ] {
        assert_eq!(
            rows(&render_markdown(a, &art)),
            rows(&render_markdown(b, &art)),
            "{a:?} and {b:?}"
        );
    }
}

#[test]
fn alignment_is_reset_by_a_comment() {
    assert_eq!(
        blocks("<!-- align: center -->\n\na\n\n<!-- align: left -->\n\nb"),
        ["c0:<R24>a", "0:<R24>b"]
    );
}

/// In a table cell an image is its placeholder, supplied or not.
#[test]
fn cells_show_placeholders_only() {
    let md = "| h |\n|---|\n| ![f](g.png) |";
    let art = Artwork { sheet: sheet(), bands: vec![] };
    let mut images = ImageMap::new();
    images.insert("g.png".to_string(), Bitmap::new(9));
    assert_eq!(blocks(md)[2], "0:<R20>[image: f]");
    assert_eq!(
        rows(&render_markdown_with(md, &images, &art)),
        rows(&render_markdown(md, &art))
    );
}
