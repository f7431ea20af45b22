use fontdue::{Font, FontSettings};
use printa_ble::faces::Faces;
use printa_ble::glyphs::FontStyle;

fn word(out: &mut Vec<u8>, n: u16) {
    out.extend_from_slice(&n.to_be_bytes());
}

fn long(out: &mut Vec<u8>, n: u32) {
    out.extend_from_slice(&n.to_be_bytes());
}

/// A font with `units` per em and empty glyphs for `chars`.
fn font(units: u16, chars: &[char]) -> Font {
    let mut cmap = vec![];
    word(&mut cmap, 0);
    word(&mut cmap, 1);
    word(&mut cmap, 3);
    word(&mut cmap, 10);
    long(&mut cmap, 12);
    word(&mut cmap, 12);
    word(&mut cmap, 0);
    long(&mut cmap, 16 + 12 * chars.len() as u32);
    long(&mut cmap, 0);
    long(&mut cmap, chars.len() as u32);
    for (i, &c) in chars.iter().enumerate() {
        long(&mut cmap, c as u32);
        long(&mut cmap, c as u32);
        long(&mut cmap, i as u32 + 1);
    }
    let mut head = vec![0; 54];
    head[18..20].copy_from_slice(&units.to_be_bytes());
    let hhea = vec![0; 36];
    let mut maxp = vec![];
    long(&mut maxp, 0x5000);
    word(&mut maxp, chars.len() as u16 + 1);

    let tables = [(b"cmap", cmap), (b"head", head), (b"hhea", hhea), (b"maxp", maxp)];
    let mut file = vec![];
    long(&mut file, 0x10000);
    word(&mut file, 4);
    file.extend_from_slice(&[0; 6]);
    let mut offset = 12 + 16 * 4;
    for (tag, table) in &tables {
        file.extend_from_slice(*tag);
        long(&mut file, 0);
        long(&mut file, offset);
        long(&mut file, table.len() as u32);
        offset += table.len() as u32;
    }
    for (_, table) in &tables {
        file.extend_from_slice(table);
    }
    Font::from_bytes(file, FontSettings::default()).unwrap()
}

fn faces(cjk: bool) -> Faces {
    Faces {
        regular: font(100, &['a', 'b', '┃']),
        bold: font(200, &['a', '┃']),
        italic: font(300, &['a']),
        cjk: if cjk { Some(font(400, &['a', '山', '川'])) } else { None },
    }
}

const STYLES: [(FontStyle, f32); 3] = [
    (FontStyle::Regular, 100.0),
    (FontStyle::Bold, 200.0),
    (FontStyle::Italic, 300.0),
];

#[test]
fn each_style_has_its_face() {
    let faces = faces(true);
    for (style, units) in STYLES {
        assert_eq!(faces.font_for(style).units_per_em(), units);
        assert_eq!(faces.face_for('a', style).units_per_em(), units);
    }
}

/// Characters that a style's face lacks come from the fallback, whatever the style.
#[test]
fn lacking_glyphs_come_from_the_fallback() {
    let faces = faces(true);
    for (style, _) in STYLES {
        assert_eq!(faces.face_for('山', style).units_per_em(), 400.0);
        assert_eq!(faces.face_for('川', style).units_per_em(), 400.0);
    }
}

/// Where no face has the glyph, the style's own draws its box.
#[test]
fn glyphs_that_no_face_has_stay_with_the_style() {
    for cjk in [false, true] {
        let faces = faces(cjk);
        for (style, units) in STYLES {
            assert_eq!(faces.face_for('\u{2610}', style).units_per_em(), units);
        }
        // Another style's face is no fallback.
        assert_eq!(faces.face_for('b', FontStyle::Italic).units_per_em(), 300.0);
    }
    assert_eq!(faces(false).face_for('山', FontStyle::Bold).units_per_em(), 200.0);
}
