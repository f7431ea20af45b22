use printa_ble::barcode::{render_barcode, BarcodeError, BAR_HEIGHT};
use printa_ble::bitmap::WIDTH;

/// The bars of `data` as module widths, from the rendered columns.
fn columns(data: &str) -> Vec<bool> {
    let b = render_barcode(data).unwrap();
    (0..WIDTH).map(|x| b.get(x, 40)).collect()
}

#[test]
fn a_letter_encodes_as_start_data_check_stop() {
    // "A": 46 modules, 7 px each, 322 px centred from 31. Start B, 33, check (104 + 33) % 103 = 34,
    // stop.
    let modules = "1101001000010100011000100010110001100011101011";
    let got = columns("A");
    for (x, &black) in got.iter().enumerate() {
        let expected = (31..31 + 322).contains(&x)
            && modules.as_bytes()[(x - 31) / 7] == b'1';
        assert_eq!(black, expected, "at x = {x}");
    }
}

#[test]
fn positions_weigh_in_the_checksum() {
    // "Ab~": values 33, 66, 94; check (104 + 33 + 2 * 66 + 3 * 94) % 103 = 36 ("10110001000").
    // 68 modules, 5 px each, 340 px from 22.
    let got = columns("Ab~");
    let start = 22 + 5 * 44;
    let check: Vec<bool> = (0..11).map(|i| got[start + 5 * i]).collect();
    let expected: Vec<bool> = "10110001000".chars().map(|c| c == '1').collect();
    assert_eq!(check, expected);
}

#[test]
fn bars_are_eighty_rows_of_the_same() {
    let b = render_barcode("ORDER-42").unwrap();
    assert_eq!(b.height(), BAR_HEIGHT);
    assert!((0..BAR_HEIGHT).all(|y| b.row(y) == b.row(0)));
}

#[test]
fn the_paper_holds_twenty_eight_characters() {
    let b = render_barcode(&"x".repeat(28)).unwrap();
    // 343 modules of one pixel.
    let first = (0..WIDTH).find(|&x| b.get(x, 0)).unwrap();
    let last = (0..WIDTH).rev().find(|&x| b.get(x, 0)).unwrap();
    assert_eq!((first, last), (20, 362));
    assert_eq!(
        render_barcode(&"x".repeat(29)).unwrap_err(),
        BarcodeError::TooLong
    );
}

#[test]
fn payloads_are_trimmed_and_checked() {
    assert_eq!(columns("  HELLO123\n"), columns("HELLO123"));
    assert_eq!(render_barcode(" \n\t").unwrap_err(), BarcodeError::Empty);
    for bad in ["café", "a\tb", "a\nb", "日本", "\u{7f}"] {
        assert_eq!(
            render_barcode(bad).unwrap_err(),
            BarcodeError::NotPrintableAscii,
            "{bad:?}"
        );
    }
}

#[test]
fn barcode_errors_have_messages() {
    assert_eq!(
        BarcodeError::Empty.message(),
        "barcode data is empty (after trimming whitespace)"
    );
    assert_eq!(
        BarcodeError::NotPrintableAscii.message(),
        "barcode data must be printable ASCII"
    );
    assert_eq!(
        BarcodeError::TooLong.message(),
        "barcode data too long to fit the paper"
    );
}
