use printa_ble::bitmap::{Bitmap, WIDTH};
use printa_ble::markdown::wagara_bitmap;
use printa_ble::wagara::{
    find_pattern, parse_wagara_options, render_wagara, Band, Pattern, WagaraOptions,
};

fn message(options: &str) -> String {
    parse_wagara_options(options).unwrap_err().message()
}

#[test]
fn options_are_read_line_by_line() {
    assert_eq!(
        parse_wagara_options("").unwrap(),
        WagaraOptions { height: 56, scale: 1 }
    );
    assert_eq!(
        parse_wagara_options("\n  HEIGHT :72\r\n\nscale: 2\n").unwrap(),
        WagaraOptions { height: 72, scale: 2 }
    );
    // A later line wins.
    assert_eq!(parse_wagara_options("height: 20\nheight: 30").unwrap().height, 30);
    for (text, height) in [("height: 16", 16), ("height: 400", 400)] {
        assert_eq!(parse_wagara_options(text).unwrap().height, height);
    }
}

#[test]
fn bad_options_have_messages() {
    assert_eq!(
        message("wide"),
        "wagara option \"wide\" is not a `key: value` line (valid keys: height, scale)"
    );
    assert_eq!(
        message(" Colour : red"),
        "unknown wagara option \"Colour\" (valid: height, scale)"
    );
    assert_eq!(
        message("height: enormous"),
        "wagara height must be a whole number, got \"enormous\""
    );
    assert_eq!(message("height: -5"), "wagara height must be a whole number, got \"-5\"");
    assert_eq!(message("scale: 9"), "wagara scale must be between 1 and 4, got 9");
    assert_eq!(message("height: 15"), "wagara height must be between 16 and 400, got 15");
    assert_eq!(message("height: 401"), "wagara height must be between 16 and 400, got 401");
    // The first bad line decides.
    assert_eq!(message("scale: 0\nwide"), "wagara scale must be between 1 and 4, got 0");
}

#[test]
fn patterns_are_found_by_name_and_alias() {
    for (alias, name) in [
        ("kikko", "kikkou"),
        ("SHIPPO", "shippou"),
        ("tachiwaki", "tatewaku"),
        ("Yabane", "yagasuri"),
    ] {
        assert!(find_pattern(name).is_some());
        assert_eq!(find_pattern(alias), find_pattern(name));
    }
    assert_eq!(find_pattern("seigaiha"), Some(Pattern::Seigaiha));
    assert_eq!(find_pattern(""), None);
    assert_eq!(find_pattern("seigai"), None);
}

#[test]
fn an_unknown_pattern_is_named_in_the_error() {
    let e = render_wagara("Plaid", WagaraOptions::default(), &vec![]).unwrap_err();
    assert_eq!(
        e.message(),
        "unknown wagara pattern \"Plaid\" (valid: asanoha, ichimatsu, kanoko, kikkou, sayagata, \
         seigaiha, shippou, tatewaku, uroko, yagasuri)"
    );
    // Bad options come before a bad name.
    let e = wagara_bitmap("Plaid", "scale: 9", &vec![]).unwrap_err();
    assert_eq!(e.message(), "wagara scale must be between 1 and 4, got 9");
}

#[test]
fn a_band_is_used_as_given_and_missing_ones_are_white() {
    let mut bitmap = Bitmap::new(72);
    bitmap.set(100, 50, true);
    let options = WagaraOptions { height: 72, scale: 2 };
    let bands = vec![Band { pattern: Pattern::Uroko, options, bitmap }];
    let b = wagara_bitmap("uroko", "height: 72\nscale: 2", &bands).unwrap();
    assert_eq!(b.height(), 72);
    assert!(b.get(100, 50) && !b.get(101, 50));
    let other = wagara_bitmap("uroko", "height: 72", &bands).unwrap();
    assert_eq!(other.height(), 72);
    assert!((0..72).all(|y| (0..WIDTH).all(|x| !other.get(x, y))));
}
