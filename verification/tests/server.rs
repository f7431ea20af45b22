use printa_ble::bitmap::Bitmap;
use printa_ble::glyphs::{FontStyle, Glyph, GlyphSheet};
use printa_ble::job::JobStats;
use printa_ble::markdown::Artwork;
use printa_ble::md_images::ImageStep;
use printa_ble::server::{
    dither_from_str, field_use, markdown_bitmap, multipart_error, preview_markdown, preview_qr,
    preview_text, print_error_to_api, print_markdown, print_qr, print_step, print_text, print_url,
    read_error, status_report, status_step, validate_text, validate_url, ApiError, Dither, Field,
    FieldUse, FieldValue, ImageForm, PrintAction, PrintEvent, PrintFailure, PrintOptions,
    PrintOpts, PrintOutcome, PrintState, PrinterStatus, StatusAction, StatusAnswer, StatusEvent,
    StatusState,
};
use printa_ble::table::char_display_width;

/// Every character the tests set.
fn alphabet() -> Vec<char> {
    let mut all: Vec<char> = (' '..='~').collect();
    all.extend("•…—éα☕日本語文字列あいうえおかきくけこさしすせそ見出説明し品目数珈琲紅茶とお菓子和".chars());
    all
}

/// A monospace sheet: 0.6 em advances (1 em for full-width characters), ascent 1.02 em. A glyph is
/// a block with a pattern that depends on the character and the face, its left column solid.
fn sheet() -> GlyphSheet {
    let mut sheet = GlyphSheet::new();
    for size in [2000u32, 2400, 2600, 3000, 3600] {
        for (f, font) in [FontStyle::Regular, FontStyle::Bold, FontStyle::Italic]
            .into_iter()
            .enumerate()
        {
            sheet.set_ascent(font, size, 102 * size);
            for ch in alphabet() {
                sheet.insert(ch, font, size, glyph(ch, f as u32, size));
            }
        }
    }
    sheet
}

fn glyph(ch: char, face: u32, size: u32) -> Glyph {
    let full = char_display_width(ch) == 2;
    let advance = if full { 100 * size } else { 60 * size };
    if ch == ' ' {
        return Glyph { advance, xmin: 0, ymin: 0, width: 0, height: 0, coverage: vec![] };
    }
    let width = size / 200;
    let height = 2 * size / 300;
    let mut coverage = Vec::new();
    for row in 0..height {
        for col in 0..width {
            let mixed = (ch as u32).wrapping_mul(2654435761).rotate_left(row % 31) ^ (face * 7);
            let black = col == 0 || (mixed >> (col % 17)) & 1 == 1;
            coverage.push(if black { 255 } else { 0 });
        }
    }
    Glyph { advance, xmin: 1, ymin: 0, width, height, coverage }
}

fn message<T>(r: Result<T, ApiError>) -> (u16, String) {
    match r {
        Ok(_) => panic!("expected an error"),
        Err(e) => (e.status, e.message),
    }
}

fn bad(message: &str) -> (u16, String) {
    (400, message.to_string())
}

fn rows(b: &Bitmap) -> Vec<Vec<u8>> {
    (0..b.height()).map(|y| b.row(y).to_vec()).collect()
}

#[test]
fn print_opts_validate_defaults_ok() {
    assert!(PrintOpts::default().validate().is_ok());
}

#[test]
fn print_opts_validate_rejects_out_of_range() {
    let ok = PrintOpts::default();
    for (opts, what) in [
        (PrintOpts { density: 0, ..ok }, "density 0"),
        (PrintOpts { density: 8, ..ok }, "density 8"),
        (PrintOpts { copies: 0, ..ok }, "copies 0"),
        (PrintOpts { copies: 21, ..ok }, "copies 21"),
        (PrintOpts { feed: 2001, ..ok }, "feed 2001"),
    ] {
        assert!(opts.validate().is_err(), "{what} should be rejected");
    }
}

#[test]
fn print_opts_validate_accepts_bounds() {
    let ok = PrintOpts::default();
    for opts in [
        PrintOpts { density: 1, ..ok },
        PrintOpts { density: 7, ..ok },
        PrintOpts { copies: 20, ..ok },
        PrintOpts { feed: 2000, ..ok },
        PrintOpts { feed: 0, ..ok },
    ] {
        assert!(opts.validate().is_ok());
    }
}

#[derive(Debug)]
struct NoPrinterFound;

#[derive(Debug)]
struct PrinterNotResponding(&'static str);

#[derive(Debug)]
struct NoPaper;

#[derive(Debug)]
struct Failed;

#[derive(Debug)]
enum JobError {
    TooLarge { packets: usize },
}

impl std::fmt::Display for NoPrinterFound {
    fn fmt(&self, f: &mut std::fmt::Formatter<'_>) -> std::fmt::Result {
        f.write_str("no printer found")
    }
}

impl std::fmt::Display for PrinterNotResponding {
    fn fmt(&self, f: &mut std::fmt::Formatter<'_>) -> std::fmt::Result {
        f.write_str(&format!("{} did not respond", self.0))
    }
}

impl std::fmt::Display for NoPaper {
    fn fmt(&self, f: &mut std::fmt::Formatter<'_>) -> std::fmt::Result {
        f.write_str("no paper")
    }
}

impl std::fmt::Display for Failed {
    fn fmt(&self, f: &mut std::fmt::Formatter<'_>) -> std::fmt::Result {
        f.write_str("print failed")
    }
}

impl std::fmt::Display for JobError {
    fn fmt(&self, f: &mut std::fmt::Formatter<'_>) -> std::fmt::Result {
        match self {
            JobError::TooLarge { packets } => f.write_str(&format!("{packets} packets")),
        }
    }
}

impl std::error::Error for JobError {}

/// The markers found in an error's chain, and its text.
fn failure(e: &anyhow::Error) -> PrintFailure {
    PrintFailure {
        no_printer: e.downcast_ref::<NoPrinterFound>().is_some(),
        not_responding: e.downcast_ref::<PrinterNotResponding>().is_some(),
        no_paper: e.downcast_ref::<NoPaper>().is_some(),
        print_failed: e.downcast_ref::<Failed>().is_some(),
        too_large: matches!(e.downcast_ref::<JobError>(), Some(JobError::TooLarge { .. })),
        message: format!("{e:#}"),
    }
}

#[test]
fn print_errors_map_to_statuses() {
    let e = anyhow::Error::msg(NoPrinterFound);
    assert_eq!(print_error_to_api(&failure(&e)).status, 503);

    // The device was found, but it never answered.
    let e = anyhow::Error::msg(PrinterNotResponding("LX-D02"));
    let api = print_error_to_api(&failure(&e));
    assert_eq!(api.status, 503);
    assert!(api.message.contains("LX-D02"), "{}", api.message);

    let e = anyhow::Error::msg(NoPaper);
    assert_eq!(print_error_to_api(&failure(&e)).status, 409);

    let e = anyhow::Error::msg("write failed").context(Failed);
    assert_eq!(print_error_to_api(&failure(&e)).status, 500);

    let e = anyhow::Error::from(JobError::TooLarge { packets: 70_000 })
        .context("cannot print this job");
    let api = print_error_to_api(&failure(&e));
    assert_eq!(api.status, 400);
    assert_eq!(api.message, "cannot print this job: 70000 packets");

    // Anything else stays a plain 500.
    let e = anyhow::Error::msg("boom");
    let api = print_error_to_api(&failure(&e));
    assert_eq!((api.status, api.message.as_str()), (500, "boom"));
}

/// With both markers in the chain, the root cause must win over the wrapper.
#[test]
fn print_error_no_paper_wins_over_print_failure() {
    let e = anyhow::Error::msg(NoPaper).context(Failed);
    assert_eq!(print_error_to_api(&failure(&e)).status, 409);
}

#[test]
fn options_are_reported_one_at_a_time() {
    let opts = PrintOpts { density: 0, feed: 9999, copies: 0 };
    assert_eq!(message(opts.validate()), bad("density must be between 1 and 7"));
    let opts = PrintOpts { density: 3, ..opts };
    assert_eq!(message(opts.validate()), bad("copies must be between 1 and 20"));
    let opts = PrintOpts { copies: 1, ..opts };
    assert_eq!(message(opts.validate()), bad("feed must be at most 2000"));
    assert_eq!(PrintOpts::default(), PrintOpts { density: 3, feed: 40, copies: 1 });
    assert_eq!(
        PrintOptions::from(opts),
        PrintOptions { density: 3, feed: 9999, copies: 1 }
    );
}

#[test]
fn text_requests_are_checked() {
    let sheet = sheet();
    let empty = bad("content must not be empty");
    let size = bad("size must be greater than 0 and at most 128");
    assert_eq!(message(preview_text("  ", None, &sheet)), empty);
    assert_eq!(message(preview_text(" \n\u{3000}", Some(0), &sheet)), empty);
    for wrong in [0, -1, 12801, i64::MAX, i64::MIN] {
        assert_eq!(message(preview_text("x", Some(wrong), &sheet)), size);
    }
    assert_eq!(validate_text("x", None).unwrap(), 2400);
    assert_eq!(validate_text("x", Some(1)).unwrap(), 1);
    assert_eq!(validate_text("x", Some(12800)).unwrap(), 12800);
    assert_eq!(preview_text("hello", None, &sheet).unwrap().height(), 32);
}

/// Options are judged before the content, and a print renders what its preview shows.
#[test]
fn prints_render_like_previews() {
    let sheet = sheet();
    let ok = PrintOpts::default();
    let wrong = PrintOpts { density: 9, ..ok };
    let density = bad("density must be between 1 and 7");
    assert_eq!(message(print_text(wrong, "  ", None, &sheet)), density);
    assert_eq!(message(print_qr(wrong, &"x".repeat(4000), None, &sheet)), density);
    assert_eq!(message(print_markdown(wrong, "  ", true)), density);
    assert_eq!(message(print_url(wrong, "file:///etc/passwd")), density);
    assert_eq!(
        message(print_text(ok, "  ", None, &sheet)),
        bad("content must not be empty")
    );
    assert_eq!(
        rows(&print_text(ok, "a b", Some(2000), &sheet).unwrap()),
        rows(&preview_text("a b", Some(2000), &sheet).unwrap())
    );
    assert_eq!(
        rows(&print_qr(ok, "hello", Some("scan me"), &sheet).unwrap()),
        rows(&preview_qr("hello", Some("scan me"), &sheet).unwrap())
    );
}

#[test]
fn qr_requests_that_do_not_fit_are_refused() {
    assert_eq!(
        message(preview_qr(&"x".repeat(4000), None, &sheet())),
        bad("data too long to fit in a QR code")
    );
    assert!(preview_qr("https://example.com", Some("scan me"), &sheet()).is_ok());
}

#[test]
fn documents_start_a_resolution_without_files() {
    assert_eq!(
        message(preview_markdown(" \n ", true)),
        bad("content must not be empty")
    );
    assert_eq!(
        message(print_markdown(PrintOpts::default(), "", true)),
        bad("content must not be empty")
    );
    let md = "![x](/etc/hosts)\n\n![y](http://h/y.png)\n\ntext";
    let mut resolver = preview_markdown(md, true).unwrap();
    assert!(matches!(
        resolver.next_image(),
        Some(ImageStep::Fetch(url)) if url == "http://h/y.png"
    ));
    assert!(resolver.next_image().is_none());
    let mut resolver = print_markdown(PrintOpts::default(), md, false).unwrap();
    assert!(resolver.next_image().is_none());
    // Both references render as placeholders: three paragraphs and the blank lines between them,
    // 31.2 px each.
    let art = Artwork { sheet: sheet(), bands: vec![] };
    let b = markdown_bitmap(md, &resolver.finish(), &art);
    assert_eq!(b.height(), 156);
}

#[test]
fn urls_need_a_scheme() {
    let scheme = bad("URL must start with http:// or https://");
    assert_eq!(message(validate_url("file:///etc/passwd")), scheme);
    assert_eq!(message(validate_url("example.com")), scheme);
    assert!(validate_url("HTTPS://example.com").is_ok());
    let ok = PrintOpts::default();
    assert_eq!(message(print_url(ok, "file:///etc/passwd")), scheme);
    assert!(print_url(ok, "http://example.com").is_ok());
}

#[test]
fn dithers_have_names() {
    for (name, dither) in [
        ("floyd", Some(Dither::FloydSteinberg)),
        ("atkinson", Some(Dither::Atkinson)),
        ("threshold", Some(Dither::Threshold)),
        ("none", Some(Dither::Threshold)),
        ("bogus", None),
        ("Floyd", None),
        ("", None),
    ] {
        assert_eq!(dither_from_str(name), dither, "{name}");
    }
}

#[test]
fn form_fields_go_by_name() {
    for (name, preview, print) in [
        (Some("file"), FieldUse::File, FieldUse::File),
        (Some("dither"), FieldUse::Dither, FieldUse::Dither),
        (Some("density"), FieldUse::Ignored, FieldUse::Density),
        (Some("feed"), FieldUse::Ignored, FieldUse::Feed),
        (Some("copies"), FieldUse::Ignored, FieldUse::Copies),
        (Some("other"), FieldUse::Ignored, FieldUse::Ignored),
        (None, FieldUse::Ignored, FieldUse::Ignored),
    ] {
        assert_eq!(field_use(name, false), preview);
        assert_eq!(field_use(name, true), print);
    }
}

#[test]
fn forms_are_read_field_by_field() {
    let mut form = ImageForm::new();
    assert_eq!(form.dither, Dither::FloydSteinberg);
    form.set_text(FieldUse::Density, "5").unwrap();
    form.set_text(FieldUse::Feed, "+7").unwrap();
    form.set_text(FieldUse::Copies, "20").unwrap();
    form.set_text(FieldUse::Dither, "none").unwrap();
    form.set_text(FieldUse::Ignored, "whatever").unwrap();
    assert_eq!(form.opts, PrintOpts { density: 5, feed: 7, copies: 20 });
    assert_eq!(form.dither, Dither::Threshold);
    for (what, value, text) in [
        (FieldUse::Density, "256", "invalid density `256`"),
        (FieldUse::Density, "-1", "invalid density `-1`"),
        (FieldUse::Feed, "", "invalid feed ``"),
        (FieldUse::Feed, "4 0", "invalid feed `4 0`"),
        (FieldUse::Copies, "65536", "invalid copies `65536`"),
        (
            FieldUse::Dither,
            "bogus",
            "unknown dither `bogus` (expected floyd, atkinson, threshold or none)",
        ),
    ] {
        assert_eq!(message(form.set_text(what, value)), bad(text));
    }
    assert_eq!(form.opts, PrintOpts { density: 5, feed: 7, copies: 20 });
    form.set_file(vec![1]);
    form.set_file(vec![2, 3]);
    assert_eq!(form.finish(true).unwrap(), [2, 3]);
}

#[test]
fn forms_need_a_file_and_valid_options() {
    assert_eq!(message(ImageForm::new().finish(false)), bad("missing `file` field"));
    let mut form = ImageForm::new();
    form.set_text(FieldUse::Density, "0").unwrap();
    assert_eq!(message(form.finish(true)), bad("density must be between 1 and 7"));
    let mut form = ImageForm::new();
    form.set_text(FieldUse::Density, "0").unwrap();
    form.set_file(vec![]);
    assert!(form.finish(false).unwrap().is_empty());
}

#[test]
fn unreadable_forms_are_reported() {
    let e = read_error("feed", "connection reset");
    assert_eq!((e.status, e.message.as_str()), (400, "failed to read feed: connection reset"));
    let e = multipart_error("no boundary");
    assert_eq!((e.status, e.message.as_str()), (400, "invalid multipart body: no boundary"));
    let e = ApiError::bad_gateway("timeout");
    assert_eq!((e.status, e.message.as_str()), (502, "failed to render URL: timeout"));
}

fn fields(report: &[Field]) -> Vec<(&str, FieldValue)> {
    report.iter().map(|f| (f.name, f.value)).collect()
}

fn frame() -> PrinterStatus {
    PrinterStatus {
        battery_pct: 87,
        no_paper: false,
        charging: true,
        charged: false,
        overheat: false,
        low_battery: true,
        density: Some(3),
        voltage_mv: Some(4012),
    }
}

#[test]
fn status_reports_what_the_printer_knows() {
    let all = [
        ("battery_pct", FieldValue::Number(87)),
        ("no_paper", FieldValue::Bool(false)),
        ("charging", FieldValue::Bool(true)),
        ("charged", FieldValue::Bool(false)),
        ("overheat", FieldValue::Bool(false)),
        ("low_battery", FieldValue::Bool(true)),
        ("density", FieldValue::Number(3)),
        ("voltage_mv", FieldValue::Number(4012)),
    ];
    assert_eq!(fields(&status_report(frame())), all);
    let without = PrinterStatus { density: None, voltage_mv: None, ..frame() };
    assert_eq!(fields(&status_report(without)), all[..6]);
    let without = PrinterStatus { density: None, ..frame() };
    assert_eq!(fields(&status_report(without))[6], all[7]);
}

/// While a print job holds the lock, a status request is answered without a connection.
#[test]
fn a_busy_printer_is_reported_at_once() {
    let (state, action) = status_step(StatusState::Asked, StatusEvent::Lock(false));
    assert_eq!(state, StatusState::Answered);
    assert!(matches!(action, StatusAction::Answer(StatusAnswer::Printing)));
}

#[test]
fn a_free_printer_is_asked_and_let_go() {
    let (state, action) = status_step(StatusState::Asked, StatusEvent::Lock(true));
    assert!(matches!(action, StatusAction::Connect));
    let (failed, action) =
        status_step(state, StatusEvent::NotConnected("nothing in range".to_string()));
    assert_eq!(failed, StatusState::Answered);
    assert!(matches!(
        action,
        StatusAction::Answer(StatusAnswer::Failed(e))
            if e.status == 503 && e.message == "nothing in range"
    ));
    let (state, action) = status_step(state, StatusEvent::Connected);
    assert!(matches!(action, StatusAction::Listen));
    let (silent, action) = status_step(state, StatusEvent::NoFrame("timed out".to_string()));
    assert_eq!(silent, StatusState::Answered);
    assert!(matches!(
        action,
        StatusAction::DisconnectAndAnswer(StatusAnswer::Failed(e))
            if e.status == 503 && e.message == "timed out"
    ));
    let (state, action) = status_step(state, StatusEvent::Frame(frame()));
    assert!(matches!(
        action,
        StatusAction::DisconnectAndAnswer(StatusAnswer::Report(s)) if s == frame()
    ));
    let (_, action) = status_step(state, StatusEvent::Connected);
    assert!(matches!(action, StatusAction::Nothing));
}

#[test]
fn prints_wait_for_the_lock_and_report() {
    let opts = PrintOpts { density: 5, feed: 10, copies: 2 };
    let queued = PrintState::Queued(opts);
    let stats = JobStats { packets_sent: 7, holds: 2, cooldowns: 1, retransmits: 3 };
    let outcome = PrintOutcome { lines: 120, elapsed_ms: 4500, stats };
    let (state, action) = print_step(queued, PrintEvent::Printed(outcome));
    assert_eq!(state, queued);
    assert!(matches!(action, PrintAction::Nothing));
    let (state, action) = print_step(queued, PrintEvent::Locked);
    assert!(matches!(action, PrintAction::Print(o) if o == PrintOptions::from(opts)));
    let (done, action) = print_step(state, PrintEvent::Printed(outcome));
    assert_eq!(done, PrintState::Answered);
    let PrintAction::Report(report) = action else {
        panic!("expected a report");
    };
    assert_eq!(
        fields(&report),
        [
            ("printed_lines", FieldValue::Number(120)),
            ("copies", FieldValue::Number(2)),
            ("elapsed_ms", FieldValue::Number(4500)),
            ("packets_sent", FieldValue::Number(7)),
            ("holds", FieldValue::Number(2)),
            ("cooldowns", FieldValue::Number(1)),
            ("retransmits", FieldValue::Number(3)),
        ]
    );
    let (done, action) =
        print_step(state, PrintEvent::Failed(failure(&anyhow::Error::msg(NoPaper))));
    assert_eq!(done, PrintState::Answered);
    assert!(matches!(
        action,
        PrintAction::Fail(e) if e.status == 409 && e.message == "printer is out of paper"
    ));
    let (_, action) = print_step(done, PrintEvent::Locked);
    assert!(matches!(action, PrintAction::Nothing));
}
