//! The HTTP print server's rules: what a request may ask for, what it is answered, and when the
//! printer is touched.
//!
//! Sockets, JSON and the radio are the caller's. What it reads comes in as plain values, and what
//! it has to do or answer comes back as one.

use vstd::prelude::*;

use crate::bitmap::{Bitmap, WIDTH};
use crate::events::markdown_events;
use crate::glyphs::{plain_style, FontStyle, GlyphSheet, SheetView};
use crate::images::ImageMap;
use crate::job::JobStats;
use crate::layout::{advances, laid_out, styled};
use crate::markdown::{document_rows, render_markdown_with, Artwork};
use crate::md_images::{
    image_steps, is_http, is_http_url, law_no_fetches_unless_allowed, law_no_files_unless_allowed,
    Reach, Resolver, ResolverView,
};
use crate::qr::{
    encodes_well, qr_encoding, qr_message, qr_page, render_qr, text_view, EncodeError, SymbolView,
};
use crate::rich::{
    law_one_line_of_text, law_plain_text_is_set_at_its_size, render_text, rich_rows, text_lines,
    Alignment,
};
use crate::text::{
    chars_of, lowered, parse_unsigned, push_text, reads, text_of, trim, trimmed, unsigned,
};

verus! {

/// Largest accepted request body, in bytes.
pub const BODY_LIMIT: usize = 20971520;

/// Seconds that `/status` waits for a status frame.
pub const STATUS_TIMEOUT_SECS: u64 = 5;

/// Default size of text, in hundredths of a pixel.
pub const DEFAULT_TEXT_SIZE: i64 = 2400;

/// Largest accepted size of text, in hundredths of a pixel.
pub const MAX_TEXT_SIZE: i64 = 12800;

/// An error answer: an HTTP status and a message.
#[derive(Debug)]
pub struct ApiError {
    pub status: u16,
    pub message: String,
}

/// What an [`ApiError`] holds.
pub struct ApiErrorView {
    pub status: u16,
    pub message: Seq<char>,
}

impl View for ApiError {
    type V = ApiErrorView;

    open spec fn view(&self) -> ApiErrorView {
        ApiErrorView { status: self.status, message: self.message@ }
    }
}

/// The answer to invalid input.
pub open spec fn bad_request(message: Seq<char>) -> ApiErrorView {
    ApiErrorView { status: 400, message }
}

impl ApiError {
    /// Invalid input.
    pub fn bad_request(message: &str) -> (r: ApiError)
        ensures
            r@ == bad_request(message@),
    {
        ApiError { status: 400, message: message.to_owned() }
    }

    /// The printer cannot do what is asked in its state.
    pub fn conflict(message: &str) -> (r: ApiError)
        ensures
            r@ == (ApiErrorView { status: 409, message: message@ }),
    {
        ApiError { status: 409, message: message.to_owned() }
    }

    /// Something failed on this side.
    pub fn internal(message: &str) -> (r: ApiError)
        ensures
            r@ == (ApiErrorView { status: 500, message: message@ }),
    {
        ApiError { status: 500, message: message.to_owned() }
    }

    /// A page could not be rendered.
    pub fn bad_gateway(message: &str) -> (r: ApiError)
        ensures
            r@ == (ApiErrorView { status: 502, message: "failed to render URL: "@ + message@ }),
    {
        let mut out = chars_of("failed to render URL: ");
        push_text(&mut out, message);
        ApiError { status: 502, message: text_of(out.as_slice()) }
    }

    /// The printer cannot be reached.
    pub fn unavailable(message: &str) -> (r: ApiError)
        ensures
            r@ == (ApiErrorView { status: 503, message: message@ }),
    {
        ApiError { status: 503, message: message.to_owned() }
    }
}

/// An outcome whose error is an answer.
pub open spec fn answer_view<T>(r: Result<T, ApiError>) -> Result<T, ApiErrorView> {
    match r {
        Ok(value) => Ok(value),
        Err(e) => Err(e@),
    }
}

/// An outcome with a bitmap's rows.
pub open spec fn page_view(r: Result<Bitmap, ApiError>) -> Result<Seq<Seq<bool>>, ApiErrorView> {
    match r {
        Ok(bitmap) => Ok(bitmap@),
        Err(e) => Err(e@),
    }
}

/// Print job knobs shared by every print endpoint.
#[derive(Debug, Clone, Copy, PartialEq, Eq, Structural)]
pub struct PrintOpts {
    pub density: u8,
    pub feed: usize,
    pub copies: u16,
}

/// The knobs of a request that sets none.
pub open spec fn default_opts() -> PrintOpts {
    PrintOpts { density: 3, feed: 40, copies: 1 }
}

impl Default for PrintOpts {
    fn default() -> (r: PrintOpts)
        ensures
            r == default_opts(),
    {
        PrintOpts { density: 3, feed: 40, copies: 1 }
    }
}

impl PrintOpts {
    /// Whether every knob is in its range.
    pub open spec fn in_range(self) -> bool {
        1 <= self.density <= 7 && 1 <= self.copies <= 20 && self.feed <= 2000
    }

    /// The first knob out of its range decides the error.
    pub open spec fn verdict(self) -> Result<(), ApiErrorView> {
        if !(1 <= self.density <= 7) {
            Err(bad_request("density must be between 1 and 7"@))
        } else if !(1 <= self.copies <= 20) {
            Err(bad_request("copies must be between 1 and 20"@))
        } else if self.feed > 2000 {
            Err(bad_request("feed must be at most 2000"@))
        } else {
            Ok(())
        }
    }

    /// Range-checks the knobs; every print endpoint does so before it renders or prints.
    pub fn validate(&self) -> (r: Result<(), ApiError>)
        ensures
            answer_view(r) == self.verdict(),
    {
        if self.density < 1 || self.density > 7 {
            return Err(ApiError::bad_request("density must be between 1 and 7"));
        }
        if self.copies < 1 || self.copies > 20 {
            return Err(ApiError::bad_request("copies must be between 1 and 20"));
        }
        if self.feed > 2000 {
            return Err(ApiError::bad_request("feed must be at most 2000"));
        }
        Ok(())
    }
}

/// What the print pipeline is told.
#[derive(Debug, Clone, Copy, PartialEq, Eq, Structural)]
pub struct PrintOptions {
    pub density: u8,
    pub feed: usize,
    pub copies: u16,
}

impl vstd::std_specs::convert::FromSpecImpl<PrintOpts> for PrintOptions {
    open spec fn obeys_from_spec() -> bool {
        true
    }

    open spec fn from_spec(o: PrintOpts) -> PrintOptions {
        PrintOptions { density: o.density, feed: o.feed, copies: o.copies }
    }
}

impl From<PrintOpts> for PrintOptions {
    fn from(o: PrintOpts) -> (r: PrintOptions) {
        PrintOptions { density: o.density, feed: o.feed, copies: o.copies }
    }
}

/// How greys are turned into black and white.
#[derive(Debug, Clone, Copy, PartialEq, Eq, Structural)]
pub enum Dither {
    FloydSteinberg,
    Atkinson,
    Threshold,
}

/// The dither of a name.
pub open spec fn dither_named(name: Seq<char>) -> Option<Dither> {
    if name == "floyd"@ {
        Some(Dither::FloydSteinberg)
    } else if name == "atkinson"@ {
        Some(Dither::Atkinson)
    } else if name == "threshold"@ || name == "none"@ {
        Some(Dither::Threshold)
    } else {
        None
    }
}

/// Reads a dither name; `none` is a plain threshold.
pub fn dither_from_str(s: &str) -> (r: Option<Dither>)
    ensures
        r == dither_named(s@),
{
    let chars = chars_of(s);
    let name = chars.as_slice();
    if reads(name, "floyd") {
        Some(Dither::FloydSteinberg)
    } else if reads(name, "atkinson") {
        Some(Dither::Atkinson)
    } else if reads(name, "threshold") || reads(name, "none") {
        Some(Dither::Threshold)
    } else {
        None
    }
}

/// Whether a text is empty or white space only.
fn is_blank(s: &str) -> (r: bool)
    ensures
        r == (trim(s@).len() == 0),
{
    let chars = chars_of(s);
    trimmed(chars.as_slice()).len() == 0
}

/// The size that a text request is rendered at, in hundredths of a pixel.
pub open spec fn text_size(content: Seq<char>, size: Option<i64>) -> Result<u32, ApiErrorView> {
    let wanted = match size {
        Some(size) => size,
        None => 2400,
    };
    if trim(content).len() == 0 {
        Err(bad_request("content must not be empty"@))
    } else if wanted <= 0 || wanted > 12800 {
        Err(bad_request("size must be greater than 0 and at most 128"@))
    } else {
        Ok(wanted as u32)
    }
}

/// Checks text content and resolves its size, which is given in hundredths of a pixel.
pub fn validate_text(content: &str, size: Option<i64>) -> (r: Result<u32, ApiError>)
    ensures
        answer_view(r) == text_size(content@, size),
{
    if is_blank(content) {
        return Err(ApiError::bad_request("content must not be empty"));
    }
    let wanted = match size {
        Some(size) => size,
        None => DEFAULT_TEXT_SIZE,
    };
    if wanted <= 0 || wanted > MAX_TEXT_SIZE {
        return Err(ApiError::bad_request("size must be greater than 0 and at most 128"));
    }
    Ok(wanted as u32)
}

/// What a text request renders to.
pub open spec fn text_answer(content: Seq<char>, size: Option<i64>, sheet: SheetView) -> Result<
    Seq<Seq<bool>>,
    ApiErrorView,
> {
    match text_size(content, size) {
        Ok(size) => Ok(rich_rows(text_lines(content, size), sheet, Alignment::Left)),
        Err(e) => Err(e),
    }
}

/// Renders a text request.
pub fn preview_text(content: &str, size: Option<i64>, sheet: &GlyphSheet) -> (r: Result<
    Bitmap,
    ApiError,
>)
    ensures
        page_view(r) == text_answer(content@, size, sheet@),
{
    match validate_text(content, size) {
        Ok(size) => Ok(render_text(content, size, sheet)),
        Err(e) => Err(e),
    }
}

/// What a print request renders to: the knobs are judged before anything else.
pub open spec fn if_valid(
    opts: PrintOpts,
    answer: Result<Seq<Seq<bool>>, ApiErrorView>,
) -> Result<Seq<Seq<bool>>, ApiErrorView> {
    match opts.verdict() {
        Ok(_) => answer,
        Err(e) => Err(e),
    }
}

/// Renders a text print request.
pub fn print_text(opts: PrintOpts, content: &str, size: Option<i64>, sheet: &GlyphSheet) -> (r:
    Result<Bitmap, ApiError>)
    ensures
        page_view(r) == if_valid(opts, text_answer(content@, size, sheet@)),
{
    match opts.validate() {
        Ok(_) => preview_text(content, size, sheet),
        Err(e) => Err(e),
    }
}

/// What a QR request renders to.
pub open spec fn qr_answer(
    encoding: Result<SymbolView, EncodeError>,
    caption: Option<Seq<char>>,
    sheet: SheetView,
) -> Result<Seq<Seq<bool>>, ApiErrorView> {
    match qr_page(encoding, caption, WIDTH as nat, sheet) {
        Ok(rows) => Ok(rows),
        Err(e) => Err(bad_request(qr_message(e))),
    }
}

/// Renders a QR request.
pub fn preview_qr(data: &str, caption: Option<&str>, sheet: &GlyphSheet) -> (r: Result<
    Bitmap,
    ApiError,
>)
    ensures
        page_view(r) == qr_answer(qr_encoding(data@), text_view(caption), sheet@),
        encodes_well(data@),
{
    match render_qr(data, caption, sheet) {
        Ok(bitmap) => Ok(bitmap),
        Err(e) => Err(ApiError::bad_request(e.message().as_str())),
    }
}

/// Renders a QR print request.
pub fn print_qr(opts: PrintOpts, data: &str, caption: Option<&str>, sheet: &GlyphSheet) -> (r:
    Result<Bitmap, ApiError>)
    ensures
        page_view(r) == if_valid(opts, qr_answer(qr_encoding(data@), text_view(caption), sheet@)),
        r is Ok ==> encodes_well(data@),
{
    match opts.validate() {
        Ok(_) => preview_qr(data, caption, sheet),
        Err(e) => Err(e),
    }
}

/// What the server may do for a posted document: never read files, and fetch only where it was
/// not told otherwise.
pub open spec fn server_reach(remote_images: bool) -> Reach {
    Reach { local: false, remote: remote_images }
}

/// Whether a document is accepted.
pub open spec fn document_verdict(content: Seq<char>) -> Result<(), ApiErrorView> {
    if trim(content).len() == 0 {
        Err(bad_request("content must not be empty"@))
    } else {
        Ok(())
    }
}

/// Accepts a posted document and starts the resolution of its images.
pub fn preview_markdown(content: &str, remote_images: bool) -> (r: Result<Resolver, ApiError>)
    ensures
        match r {
            Ok(resolver) => document_verdict(content@) is Ok && resolver@ == (ResolverView {
                refs: crate::md_images::capped(
                    crate::markdown::refs_after(markdown_events(content@)).0,
                ),
                left: crate::md_images::capped(
                    crate::markdown::refs_after(markdown_events(content@)).0,
                ),
                handed: Seq::empty(),
                reach: server_reach(remote_images),
                images: Map::empty(),
            }),
            Err(e) => document_verdict(content@) == Err::<(), ApiErrorView>(e@),
        },
{
    if is_blank(content) {
        return Err(ApiError::bad_request("content must not be empty"));
    }
    Ok(Resolver::for_document(content, Reach { local: false, remote: remote_images }))
}

/// Accepts a document that is to be printed.
pub fn print_markdown(opts: PrintOpts, content: &str, remote_images: bool) -> (r: Result<
    Resolver,
    ApiError,
>)
    ensures
        match r {
            Ok(resolver) => opts.verdict() is Ok && document_verdict(content@) is Ok && resolver@
                == (ResolverView {
                refs: crate::md_images::capped(
                    crate::markdown::refs_after(markdown_events(content@)).0,
                ),
                left: crate::md_images::capped(
                    crate::markdown::refs_after(markdown_events(content@)).0,
                ),
                handed: Seq::empty(),
                reach: server_reach(remote_images),
                images: Map::empty(),
            }),
            Err(e) => if opts.verdict() is Err {
                opts.verdict() == Err::<(), ApiErrorView>(e@)
            } else {
                document_verdict(content@) == Err::<(), ApiErrorView>(e@)
            },
        },
{
    match opts.validate() {
        Ok(_) => preview_markdown(content, remote_images),
        Err(e) => Err(e),
    }
}

/// Renders an accepted document with the images that were resolved.
pub fn markdown_bitmap(content: &str, images: &ImageMap, art: &Artwork) -> (r: Bitmap)
    ensures
        r@ == document_rows(markdown_events(content@), images@, art@),
{
    render_markdown_with(content, images, art)
}

/// Whether a URL may be rendered.
pub open spec fn url_verdict(url: Seq<char>) -> Result<(), ApiErrorView> {
    if is_http_url(url) {
        Ok(())
    } else {
        Err(bad_request("URL must start with http:// or https://"@))
    }
}

/// Checks a URL's scheme, before anything is launched.
pub fn validate_url(url: &str) -> (r: Result<(), ApiError>)
    ensures
        answer_view(r) == url_verdict(url@),
{
    if is_http(url) {
        Ok(())
    } else {
        Err(ApiError::bad_request("URL must start with http:// or https://"))
    }
}

/// Checks a print request for a URL: the knobs first, then the scheme, before anything is
/// launched.
pub fn print_url(opts: PrintOpts, url: &str) -> (r: Result<(), ApiError>)
    ensures
        answer_view(r) == match opts.verdict() {
            Ok(_) => url_verdict(url@),
            Err(e) => Err(e),
        },
{
    match opts.validate() {
        Ok(_) => validate_url(url),
        Err(e) => Err(e),
    }
}

/// What a field of an image form is for.
#[derive(Debug, Clone, Copy, PartialEq, Eq, Structural)]
pub enum FieldUse {
    File,
    Dither,
    Density,
    Feed,
    Copies,
    /// Unknown fields are ignored, and so are print knobs in a preview.
    Ignored,
}

/// The use of a field by its name.
pub open spec fn use_named(name: Option<Seq<char>>, printing: bool) -> FieldUse {
    match name {
        None => FieldUse::Ignored,
        Some(name) => if name == "file"@ {
            FieldUse::File
        } else if name == "dither"@ {
            FieldUse::Dither
        } else if printing && name == "density"@ {
            FieldUse::Density
        } else if printing && name == "feed"@ {
            FieldUse::Feed
        } else if printing && name == "copies"@ {
            FieldUse::Copies
        } else {
            FieldUse::Ignored
        },
    }
}

/// What a field is for: the file's bytes or one of the texts to read, or nothing.
pub fn field_use(name: Option<&str>, printing: bool) -> (r: FieldUse)
    ensures
        r == use_named(text_view(name), printing),
{
    match name {
        None => FieldUse::Ignored,
        Some(text) => {
            let chars = chars_of(text);
            let name = chars.as_slice();
            if reads(name, "file") {
                FieldUse::File
            } else if reads(name, "dither") {
                FieldUse::Dither
            } else if printing && reads(name, "density") {
                FieldUse::Density
            } else if printing && reads(name, "feed") {
                FieldUse::Feed
            } else if printing && reads(name, "copies") {
                FieldUse::Copies
            } else {
                FieldUse::Ignored
            }
        },
    }
}

/// An image form that is being read.
#[derive(Debug)]
pub struct ImageForm {
    pub file: Option<Vec<u8>>,
    pub dither: Dither,
    pub opts: PrintOpts,
}

/// What an [`ImageForm`] holds.
pub struct FormView {
    pub file: Option<Seq<u8>>,
    pub dither: Dither,
    pub opts: PrintOpts,
}

impl View for ImageForm {
    type V = FormView;

    open spec fn view(&self) -> FormView {
        FormView {
            file: match self.file {
                Some(bytes) => Some(bytes@),
                None => None,
            },
            dither: self.dither,
            opts: self.opts,
        }
    }
}

/// The error for a number that does not read.
pub open spec fn invalid_number(name: Seq<char>, value: Seq<char>) -> ApiErrorView {
    bad_request("invalid "@ + name + " `"@ + value + "`"@)
}

impl FormView {
    /// The form with one more text field, or why the text is wrong.
    pub open spec fn with_text(self, what: FieldUse, value: Seq<char>) -> Result<
        FormView,
        ApiErrorView,
    > {
        match what {
            FieldUse::Dither => match dither_named(value) {
                Some(dither) => Ok(FormView { dither, ..self }),
                None => Err(
                    bad_request(
                        "unknown dither `"@ + value
                            + "` (expected floyd, atkinson, threshold or none)"@,
                    ),
                ),
            },
            FieldUse::Density => match unsigned(value, u8::MAX as nat) {
                Some(n) => Ok(
                    FormView { opts: PrintOpts { density: n as u8, ..self.opts }, ..self },
                ),
                None => Err(invalid_number("density"@, value)),
            },
            FieldUse::Feed => match unsigned(value, usize::MAX as nat) {
                Some(n) => Ok(
                    FormView { opts: PrintOpts { feed: n as usize, ..self.opts }, ..self },
                ),
                None => Err(invalid_number("feed"@, value)),
            },
            FieldUse::Copies => match unsigned(value, u16::MAX as nat) {
                Some(n) => Ok(
                    FormView { opts: PrintOpts { copies: n as u16, ..self.opts }, ..self },
                ),
                None => Err(invalid_number("copies"@, value)),
            },
            FieldUse::File => Ok(self),
            FieldUse::Ignored => Ok(self),
        }
    }

    /// The outcome of a form: in a print the knobs are judged first, and a file has to be there.
    pub open spec fn outcome(self, printing: bool) -> Result<Seq<u8>, ApiErrorView> {
        if printing && self.opts.verdict() is Err {
            Err(self.opts.verdict()->Err_0)
        } else {
            match self.file {
                Some(bytes) => Ok(bytes),
                None => Err(bad_request("missing `file` field"@)),
            }
        }
    }
}

/// The answer to a number that does not read.
fn number_error(name: &str, value: &str) -> (r: ApiError)
    ensures
        r@ == invalid_number(name@, value@),
{
    let mut out = chars_of("invalid ");
    push_text(&mut out, name);
    push_text(&mut out, " `");
    push_text(&mut out, value);
    push_text(&mut out, "`");
    ApiError { status: 400, message: text_of(out.as_slice()) }
}

/// The answer to a field that could not be read.
pub fn read_error(name: &str, detail: &str) -> (r: ApiError)
    ensures
        r@ == bad_request("failed to read "@ + name@ + ": "@ + detail@),
{
    let mut out = chars_of("failed to read ");
    push_text(&mut out, name);
    push_text(&mut out, ": ");
    push_text(&mut out, detail);
    ApiError { status: 400, message: text_of(out.as_slice()) }
}

/// The answer to a form that could not be read.
pub fn multipart_error(detail: &str) -> (r: ApiError)
    ensures
        r@ == bad_request("invalid multipart body: "@ + detail@),
{
    let mut out = chars_of("invalid multipart body: ");
    push_text(&mut out, detail);
    ApiError { status: 400, message: text_of(out.as_slice()) }
}

impl ImageForm {
    /// A form without fields.
    pub fn new() -> (r: ImageForm)
        ensures
            r@ == (FormView {
                file: None,
                dither: Dither::FloydSteinberg,
                opts: default_opts(),
            }),
    {
        ImageForm { file: None, dither: Dither::FloydSteinberg, opts: PrintOpts::default() }
    }

    /// Takes the file field's bytes; a later file replaces an earlier one.
    pub fn set_file(&mut self, bytes: Vec<u8>)
        ensures
            final(self)@ == (FormView { file: Some(bytes@), ..old(self)@ }),
    {
        self.file = Some(bytes);
    }

    /// Takes a text field; a wrong one leaves the form as it is.
    pub fn set_text(&mut self, what: FieldUse, value: &str) -> (r: Result<(), ApiError>)
        ensures
            match r {
                Ok(_) => old(self)@.with_text(what, value@) == Ok::<FormView, ApiErrorView>(
                    final(self)@,
                ),
                Err(e) => old(self)@.with_text(what, value@) == Err::<FormView, ApiErrorView>(e@)
                    && final(self)@ == old(self)@,
            },
    {
        let chars = chars_of(value);
        match what {
            FieldUse::Dither => match dither_from_str(value) {
                Some(dither) => {
                    self.dither = dither;
                    Ok(())
                },
                None => {
                    let mut out = chars_of("unknown dither `");
                    push_text(&mut out, value);
                    push_text(&mut out, "` (expected floyd, atkinson, threshold or none)");
                    Err(ApiError { status: 400, message: text_of(out.as_slice()) })
                },
            },
            FieldUse::Density => match parse_unsigned(chars.as_slice(), u8::MAX as u64) {
                Some(n) => {
                    self.opts.density = n as u8;
                    Ok(())
                },
                None => Err(number_error("density", value)),
            },
            FieldUse::Feed => match parse_unsigned(chars.as_slice(), usize::MAX as u64) {
                Some(n) => {
                    self.opts.feed = n as usize;
                    Ok(())
                },
                None => Err(number_error("feed", value)),
            },
            FieldUse::Copies => match parse_unsigned(chars.as_slice(), u16::MAX as u64) {
                Some(n) => {
                    self.opts.copies = n as u16;
                    Ok(())
                },
                None => Err(number_error("copies", value)),
            },
            FieldUse::File => Ok(()),
            FieldUse::Ignored => Ok(()),
        }
    }

    /// The file's bytes, once all fields are read.
    pub fn finish(self, printing: bool) -> (r: Result<Vec<u8>, ApiError>)
        ensures
            match r {
                Ok(bytes) => self@.outcome(printing) == Ok::<Seq<u8>, ApiErrorView>(bytes@),
                Err(e) => self@.outcome(printing) == Err::<Seq<u8>, ApiErrorView>(e@),
            },
    {
        if printing {
            if let Err(e) = self.opts.validate() {
                return Err(e);
            }
        }
        match self.file {
            Some(bytes) => Ok(bytes),
            None => Err(ApiError::bad_request("missing `file` field")),
        }
    }
}

/// What is known of a failed print: the markers found in the error, and its text.
#[derive(Debug)]
pub struct PrintFailure {
    /// No printer was found.
    pub no_printer: bool,
    /// A printer was found and did not answer.
    pub not_responding: bool,
    /// The printer is out of paper.
    pub no_paper: bool,
    /// The print itself failed.
    pub print_failed: bool,
    /// The job has more packets than the protocol can count.
    pub too_large: bool,
    pub message: String,
}

/// The answer to a failed print. A root cause wins over the wrappers that may lie on top of it.
pub open spec fn failure_answer(e: PrintFailure) -> ApiErrorView {
    if e.no_printer || e.not_responding {
        ApiErrorView { status: 503, message: e.message@ }
    } else if e.no_paper {
        ApiErrorView { status: 409, message: "printer is out of paper"@ }
    } else if e.print_failed {
        ApiErrorView { status: 500, message: e.message@ }
    } else if e.too_large {
        ApiErrorView { status: 400, message: e.message@ }
    } else {
        ApiErrorView { status: 500, message: e.message@ }
    }
}

/// The answer to a failed print.
pub fn print_error_to_api(e: &PrintFailure) -> (r: ApiError)
    ensures
        r@ == failure_answer(*e),
{
    if e.no_printer || e.not_responding {
        ApiError::unavailable(e.message.as_str())
    } else if e.no_paper {
        ApiError::conflict("printer is out of paper")
    } else if e.print_failed {
        ApiError::internal(e.message.as_str())
    } else if e.too_large {
        ApiError::bad_request(e.message.as_str())
    } else {
        ApiError::internal(e.message.as_str())
    }
}

/// A value of a JSON answer.
#[derive(Debug, Clone, Copy, PartialEq, Eq, Structural)]
pub enum FieldValue {
    Bool(bool),
    Number(u128),
}

/// A named value of a JSON answer.
#[derive(Debug, Clone, Copy)]
pub struct Field {
    pub name: &'static str,
    pub value: FieldValue,
}

/// The fields' names and values.
pub open spec fn field_views(fields: Seq<Field>) -> Seq<(Seq<char>, FieldValue)> {
    fields.map_values(|f: Field| (f.name@, f.value))
}

/// What a finished print reports.
#[derive(Debug, Clone, Copy, PartialEq, Eq, Structural)]
pub struct PrintOutcome {
    pub lines: usize,
    pub elapsed_ms: u128,
    pub stats: JobStats,
}

/// The fields of a print's answer.
pub open spec fn outcome_fields(outcome: PrintOutcome, copies: u16) -> Seq<
    (Seq<char>, FieldValue),
> {
    seq![
        ("printed_lines"@, FieldValue::Number(outcome.lines as u128)),
        ("copies"@, FieldValue::Number(copies as u128)),
        ("elapsed_ms"@, FieldValue::Number(outcome.elapsed_ms)),
        ("packets_sent"@, FieldValue::Number(outcome.stats.packets_sent as u128)),
        ("holds"@, FieldValue::Number(outcome.stats.holds as u128)),
        ("cooldowns"@, FieldValue::Number(outcome.stats.cooldowns as u128)),
        ("retransmits"@, FieldValue::Number(outcome.stats.retransmits as u128)),
    ]
}

/// The answer to a finished print.
pub fn print_report(outcome: PrintOutcome, copies: u16) -> (r: Vec<Field>)
    ensures
        field_views(r@) == outcome_fields(outcome, copies),
{
    let stats = outcome.stats;
    let mut out: Vec<Field> = Vec::new();
    out.push(Field { name: "printed_lines", value: FieldValue::Number(outcome.lines as u128) });
    out.push(Field { name: "copies", value: FieldValue::Number(copies as u128) });
    out.push(Field { name: "elapsed_ms", value: FieldValue::Number(outcome.elapsed_ms) });
    out.push(Field { name: "packets_sent", value: FieldValue::Number(stats.packets_sent as u128) });
    out.push(Field { name: "holds", value: FieldValue::Number(stats.holds as u128) });
    out.push(Field { name: "cooldowns", value: FieldValue::Number(stats.cooldowns as u128) });
    out.push(Field { name: "retransmits", value: FieldValue::Number(stats.retransmits as u128) });
    assert(field_views(out@) =~= outcome_fields(outcome, copies));
    out
}

/// A status frame of the printer.
#[derive(Debug, Clone, Copy, PartialEq, Eq, Structural)]
pub struct PrinterStatus {
    pub battery_pct: u8,
    pub no_paper: bool,
    pub charging: bool,
    pub charged: bool,
    pub overheat: bool,
    pub low_battery: bool,
    pub density: Option<u8>,
    pub voltage_mv: Option<u16>,
}

/// The fields of a status answer; the last two only where the printer reports them.
pub open spec fn status_fields(s: PrinterStatus) -> Seq<(Seq<char>, FieldValue)> {
    seq![
        ("battery_pct"@, FieldValue::Number(s.battery_pct as u128)),
        ("no_paper"@, FieldValue::Bool(s.no_paper)),
        ("charging"@, FieldValue::Bool(s.charging)),
        ("charged"@, FieldValue::Bool(s.charged)),
        ("overheat"@, FieldValue::Bool(s.overheat)),
        ("low_battery"@, FieldValue::Bool(s.low_battery)),
    ] + match s.density {
        Some(d) => seq![("density"@, FieldValue::Number(d as u128))],
        None => Seq::empty(),
    } + match s.voltage_mv {
        Some(mv) => seq![("voltage_mv"@, FieldValue::Number(mv as u128))],
        None => Seq::empty(),
    }
}

/// The answer to a status frame.
pub fn status_report(s: PrinterStatus) -> (r: Vec<Field>)
    ensures
        field_views(r@) == status_fields(s),
{
    let mut out: Vec<Field> = Vec::new();
    out.push(Field { name: "battery_pct", value: FieldValue::Number(s.battery_pct as u128) });
    out.push(Field { name: "no_paper", value: FieldValue::Bool(s.no_paper) });
    out.push(Field { name: "charging", value: FieldValue::Bool(s.charging) });
    out.push(Field { name: "charged", value: FieldValue::Bool(s.charged) });
    out.push(Field { name: "overheat", value: FieldValue::Bool(s.overheat) });
    out.push(Field { name: "low_battery", value: FieldValue::Bool(s.low_battery) });
    if let Some(d) = s.density {
        out.push(Field { name: "density", value: FieldValue::Number(d as u128) });
    }
    if let Some(mv) = s.voltage_mv {
        out.push(Field { name: "voltage_mv", value: FieldValue::Number(mv as u128) });
    }
    assert(field_views(out@) =~= status_fields(s));
    out
}

/// How far a status request has come.
#[derive(Debug, Clone, Copy, PartialEq, Eq, Structural)]
pub enum StatusState {
    /// The print lock is being tried.
    Asked,
    /// The printer is being connected to.
    Connecting,
    /// A status frame is being waited for.
    Listening,
    /// The request has been answered.
    Answered,
}

/// What happens to a status request. `S` is the type of an error's text.
#[derive(Debug)]
pub enum StatusEvent<S> {
    /// The print lock was taken, or a job holds it.
    Lock(bool),
    Connected,
    NotConnected(S),
    Frame(PrinterStatus),
    NoFrame(S),
}

/// The answer to a status request. `E` is the type of an error.
#[derive(Debug)]
pub enum StatusAnswer<E> {
    /// A print job is running.
    Printing,
    Report(PrinterStatus),
    Failed(E),
}

/// What to do next for a status request.
#[derive(Debug)]
pub enum StatusAction<E> {
    Connect,
    /// Save the device and wait for a status frame.
    Listen,
    Answer(StatusAnswer<E>),
    /// Let go of the printer, then answer.
    DisconnectAndAnswer(StatusAnswer<E>),
    /// The event does not belong here.
    Nothing,
}

impl View for StatusEvent<String> {
    type V = StatusEvent<Seq<char>>;

    open spec fn view(&self) -> StatusEvent<Seq<char>> {
        match *self {
            StatusEvent::Lock(free) => StatusEvent::Lock(free),
            StatusEvent::Connected => StatusEvent::Connected,
            StatusEvent::NotConnected(message) => StatusEvent::NotConnected(message@),
            StatusEvent::Frame(status) => StatusEvent::Frame(status),
            StatusEvent::NoFrame(message) => StatusEvent::NoFrame(message@),
        }
    }
}

impl View for StatusAnswer<ApiError> {
    type V = StatusAnswer<ApiErrorView>;

    open spec fn view(&self) -> StatusAnswer<ApiErrorView> {
        match *self {
            StatusAnswer::Printing => StatusAnswer::Printing,
            StatusAnswer::Report(status) => StatusAnswer::Report(status),
            StatusAnswer::Failed(e) => StatusAnswer::Failed(e@),
        }
    }
}

impl View for StatusAction<ApiError> {
    type V = StatusAction<ApiErrorView>;

    open spec fn view(&self) -> StatusAction<ApiErrorView> {
        match *self {
            StatusAction::Connect => StatusAction::Connect,
            StatusAction::Listen => StatusAction::Listen,
            StatusAction::Answer(answer) => StatusAction::Answer(answer@),
            StatusAction::DisconnectAndAnswer(answer) => StatusAction::DisconnectAndAnswer(answer@),
            StatusAction::Nothing => StatusAction::Nothing,
        }
    }
}

/// What a status request does next: a busy printer is reported at once, a free one connected to,
/// listened to, and let go of whatever came.
pub open spec fn status_next(state: StatusState, event: StatusEvent<Seq<char>>) -> (
    StatusState,
    StatusAction<ApiErrorView>,
) {
    match (state, event) {
        (StatusState::Asked, StatusEvent::Lock(true)) => (
            StatusState::Connecting,
            StatusAction::Connect,
        ),
        (StatusState::Asked, StatusEvent::Lock(false)) => (
            StatusState::Answered,
            StatusAction::Answer(StatusAnswer::Printing),
        ),
        (StatusState::Connecting, StatusEvent::Connected) => (
            StatusState::Listening,
            StatusAction::Listen,
        ),
        (StatusState::Connecting, StatusEvent::NotConnected(message)) => (
            StatusState::Answered,
            StatusAction::Answer(StatusAnswer::Failed(ApiErrorView { status: 503, message })),
        ),
        (StatusState::Listening, StatusEvent::Frame(status)) => (
            StatusState::Answered,
            StatusAction::DisconnectAndAnswer(StatusAnswer::Report(status)),
        ),
        (StatusState::Listening, StatusEvent::NoFrame(message)) => (
            StatusState::Answered,
            StatusAction::DisconnectAndAnswer(
                StatusAnswer::Failed(ApiErrorView { status: 503, message }),
            ),
        ),
        _ => (state, StatusAction::Nothing),
    }
}

/// Moves a status request on.
pub fn status_step(state: StatusState, event: StatusEvent<String>) -> (r: (
    StatusState,
    StatusAction<ApiError>,
))
    ensures
        (r.0, r.1@) == status_next(state, event@),
{
    match (state, event) {
        (StatusState::Asked, StatusEvent::Lock(true)) => (
            StatusState::Connecting,
            StatusAction::Connect,
        ),
        (StatusState::Asked, StatusEvent::Lock(false)) => (
            StatusState::Answered,
            StatusAction::Answer(StatusAnswer::Printing),
        ),
        (StatusState::Connecting, StatusEvent::Connected) => (
            StatusState::Listening,
            StatusAction::Listen,
        ),
        (StatusState::Connecting, StatusEvent::NotConnected(message)) => (
            StatusState::Answered,
            StatusAction::Answer(StatusAnswer::Failed(ApiError { status: 503, message })),
        ),
        (StatusState::Listening, StatusEvent::Frame(status)) => (
            StatusState::Answered,
            StatusAction::DisconnectAndAnswer(StatusAnswer::Report(status)),
        ),
        (StatusState::Listening, StatusEvent::NoFrame(message)) => (
            StatusState::Answered,
            StatusAction::DisconnectAndAnswer(
                StatusAnswer::Failed(ApiError { status: 503, message }),
            ),
        ),
        _ => (state, StatusAction::Nothing),
    }
}

/// How far a print request has come. Its content is rendered by now.
#[derive(Debug, Clone, Copy, PartialEq, Eq, Structural)]
pub enum PrintState {
    /// Waiting for the print lock, behind other jobs.
    Queued(PrintOpts),
    /// The job is with the printer.
    Printing(PrintOpts),
    /// The request has been answered.
    Answered,
}

/// What happens to a print request.
#[derive(Debug)]
pub enum PrintEvent {
    /// The print lock was taken.
    Locked,
    Printed(PrintOutcome),
    Failed(PrintFailure),
}

/// What to do next for a print request.
#[derive(Debug)]
pub enum PrintAction {
    /// Run the print pipeline, holding the lock.
    Print(PrintOptions),
    /// Answer with these fields.
    Report(Vec<Field>),
    /// Answer with an error.
    Fail(ApiError),
    /// The event does not belong here.
    Nothing,
}

/// What a [`PrintAction`] holds.
pub enum PrintActionView {
    Print(PrintOptions),
    Report(Seq<(Seq<char>, FieldValue)>),
    Fail(ApiErrorView),
    Nothing,
}

impl View for PrintAction {
    type V = PrintActionView;

    open spec fn view(&self) -> PrintActionView {
        match *self {
            PrintAction::Print(options) => PrintActionView::Print(options),
            PrintAction::Report(fields) => PrintActionView::Report(field_views(fields@)),
            PrintAction::Fail(e) => PrintActionView::Fail(e@),
            PrintAction::Nothing => PrintActionView::Nothing,
        }
    }
}

/// What a print request does next: it prints once it has the lock, with the knobs it was given,
/// and answers with what came of it.
pub open spec fn print_next(state: PrintState, event: PrintEvent) -> (PrintState, PrintActionView) {
    match (state, event) {
        (PrintState::Queued(opts), PrintEvent::Locked) => (
            PrintState::Printing(opts),
            PrintActionView::Print(
                PrintOptions { density: opts.density, feed: opts.feed, copies: opts.copies },
            ),
        ),
        (PrintState::Printing(opts), PrintEvent::Printed(outcome)) => (
            PrintState::Answered,
            PrintActionView::Report(outcome_fields(outcome, opts.copies)),
        ),
        (PrintState::Printing(opts), PrintEvent::Failed(e)) => (
            PrintState::Answered,
            PrintActionView::Fail(failure_answer(e)),
        ),
        _ => (state, PrintActionView::Nothing),
    }
}

/// Moves a print request on.
pub fn print_step(state: PrintState, event: PrintEvent) -> (r: (PrintState, PrintAction))
    ensures
        (r.0, r.1@) == print_next(state, event),
{
    match (state, event) {
        (PrintState::Queued(opts), PrintEvent::Locked) => (
            PrintState::Printing(opts),
            PrintAction::Print(PrintOptions::from(opts)),
        ),
        (PrintState::Printing(opts), PrintEvent::Printed(outcome)) => (
            PrintState::Answered,
            PrintAction::Report(print_report(outcome, opts.copies)),
        ),
        (PrintState::Printing(_), PrintEvent::Failed(e)) => (
            PrintState::Answered,
            PrintAction::Fail(print_error_to_api(&e)),
        ),
        _ => (state, PrintAction::Nothing),
    }
}

/// Options are accepted exactly where every one is in its range, and the defaults are.
pub proof fn law_options_are_range_checked(opts: PrintOpts)
    ensures
        opts.verdict() is Ok <==> opts.in_range(),
        default_opts().in_range(),
{
}

/// Bad options are reported before anything else is looked at: the content plays no part.
pub proof fn law_options_come_first(
    opts: PrintOpts,
    a: Result<Seq<Seq<bool>>, ApiErrorView>,
    b: Result<Seq<Seq<bool>>, ApiErrorView>,
)
    requires
        !opts.in_range(),
    ensures
        if_valid(opts, a) is Err,
        if_valid(opts, a) == if_valid(opts, b),
{
}

/// A print renders exactly what its preview shows, where its options are in range.
pub proof fn law_print_matches_preview(
    opts: PrintOpts,
    answer: Result<Seq<Seq<bool>>, ApiErrorView>,
)
    requires
        opts.in_range(),
    ensures
        if_valid(opts, answer) == answer,
{
}

/// No posted document makes the server read its own files: none of the steps for its images is a
/// file to read.
pub proof fn law_server_never_reads_files(refs: Seq<Seq<char>>, remote_images: bool)
    ensures
        forall|i: int|
            0 <= i < image_steps(refs, server_reach(remote_images)).len() ==> !(
            #[trigger] image_steps(refs, server_reach(remote_images))[i] is Read),
{
    law_no_files_unless_allowed(refs, server_reach(remote_images));
}

/// A status request never queues behind a print and never opens a second connection: while a job
/// holds the lock it is answered at once.
pub proof fn law_busy_status_answers_at_once()
    ensures
        status_next(StatusState::Asked, StatusEvent::Lock(false)) == (
            StatusState::Answered,
            StatusAction::<ApiErrorView>::Answer(StatusAnswer::Printing),
        ),
        forall|state: StatusState, event: StatusEvent<Seq<char>>|
            (#[trigger] status_next(state, event)).1 is Connect ==> event
                == StatusEvent::<Seq<char>>::Lock(true),
{
}

/// A status request that got a connection lets go of it, whatever it heard, and answers once.
pub proof fn law_status_lets_go(event: StatusEvent<Seq<char>>)
    ensures
        status_next(StatusState::Listening, event).0 == StatusState::Answered <==> status_next(
            StatusState::Listening,
            event,
        ).1 is DisconnectAndAnswer,
        status_next(StatusState::Answered, event) == (
            StatusState::Answered,
            StatusAction::<ApiErrorView>::Nothing,
        ),
{
}

/// Nothing is printed without the lock, and a request is answered once.
pub proof fn law_print_needs_the_lock(state: PrintState, event: PrintEvent)
    ensures
        print_next(state, event).1 is Print ==> event is Locked && state is Queued,
        print_next(PrintState::Answered, event) == (
            PrintState::Answered,
            PrintActionView::Nothing,
        ),
{
}

/// A missing roll of paper is reported as such, though the print failed because of it.
pub proof fn law_no_paper_wins(e: PrintFailure)
    requires
        e.no_paper,
        !e.no_printer,
        !e.not_responding,
    ensures
        failure_answer(e) == (ApiErrorView { status: 409, message: "printer is out of paper"@ }),
{
}

/// A server that was told not to fetch sends no request for any posted document.
pub proof fn law_server_without_remote_images_never_fetches(refs: Seq<Seq<char>>)
    ensures
        forall|i: int|
            0 <= i < image_steps(refs, server_reach(false)).len() ==> !(#[trigger] image_steps(
                refs,
                server_reach(false),
            )[i] is Fetch),
{
    law_no_fetches_unless_allowed(refs, server_reach(false));
}

/// A text request is set at the size it asks for: every glyph on the page is, and each rendered
/// line takes 1.3 times that size; a text without line breaks that fits the paper is one such line
/// high. Only a request without a size gets 24 px.
pub proof fn law_text_is_set_at_the_size_asked_for(content: Seq<char>, size: i64, sheet: SheetView)
    requires
        trim(content).len() > 0,
        0 < size <= 12800,
    ensures
        text_answer(content, None, sheet) == text_answer(content, Some(2400), sheet),
        text_answer(content, Some(size), sheet) matches Ok(rows) && {
            let lines = text_lines(content, size as u32);
            let page = laid_out(lines, sheet);
            &&& rows == rich_rows(lines, sheet, Alignment::Left)
            &&& forall|k: int|
                0 <= k < page.glyphs.len() ==> (#[trigger] page.glyphs[k]).style.size == size
            &&& 10000 * rows.len() >= page.lines.len() * (130 * size as u32)
            &&& 10000 * rows.len() < page.lines.len() * (130 * size as u32) + 10000
            &&& !content.contains('\n') && !content.contains('\r') && !content.contains('\t')
                && advances(
                styled(content, plain_style(FontStyle::Regular, size as u32)),
                sheet,
                0,
                content.len() as int,
            ) <= 3840000 ==> 130 * size <= 10000 * rows.len() < 130 * size + 10000
        },
{
    law_plain_text_is_set_at_its_size(content, size as u32, sheet);
    if !content.contains('\n') && !content.contains('\r') && !content.contains('\t') && advances(
        styled(content, plain_style(FontStyle::Regular, size as u32)),
        sheet,
        0,
        content.len() as int,
    ) <= 3840000 {
        law_one_line_of_text(content, size as u32, sheet);
    }
}

/// A text request is refused exactly where it has no text but white space, which is said first, or
/// asks for a size that is not positive or over 128 px.
pub proof fn law_text_requests_that_are_refused(
    content: Seq<char>,
    size: Option<i64>,
    sheet: SheetView,
)
    ensures
        trim(content).len() == 0 ==> text_answer(content, size, sheet) == Err::<
            Seq<Seq<bool>>,
            ApiErrorView,
        >(ApiErrorView { status: 400, message: "content must not be empty"@ }),
        trim(content).len() > 0 && (size matches Some(s) && (s <= 0 || s > 12800)) ==> text_answer(
            content,
            size,
            sheet,
        ) == Err::<Seq<Seq<bool>>, ApiErrorView>(
            ApiErrorView { status: 400, message: "size must be greater than 0 and at most 128"@ },
        ),
        text_answer(content, size, sheet) is Ok <==> trim(content).len() > 0 && (size matches Some(
            s,
        ) ==> 0 < s <= 12800),
{
}

/// Which print knobs are accepted: a density from 1 to 7, one to 20 copies, a feed of at most 2000.
/// The first that is out of its range is named. A request that sets none prints one copy at
/// density 3 and feeds 40.
pub proof fn law_print_knobs(opts: PrintOpts)
    ensures
        ({
            let density = 1 <= opts.density <= 7;
            let copies = 1 <= opts.copies <= 20;
            let feed = opts.feed <= 2000;
            &&& density && copies && feed <==> opts.verdict() == Ok::<(), ApiErrorView>(())
            &&& !density ==> opts.verdict() == Err::<(), ApiErrorView>(
                ApiErrorView { status: 400, message: "density must be between 1 and 7"@ },
            )
            &&& density && !copies ==> opts.verdict() == Err::<(), ApiErrorView>(
                ApiErrorView { status: 400, message: "copies must be between 1 and 20"@ },
            )
            &&& density && copies && !feed ==> opts.verdict() == Err::<(), ApiErrorView>(
                ApiErrorView { status: 400, message: "feed must be at most 2000"@ },
            )
            &&& default_opts().density == 3
            &&& default_opts().feed == 40
            &&& default_opts().copies == 1
        }),
{
}

/// A print is what its preview is, where the knobs are accepted, and the knobs' error where not,
/// for text, codes and whatever else.
pub proof fn law_prints_are_previews(
    opts: PrintOpts,
    preview: Result<Seq<Seq<bool>>, ApiErrorView>,
)
    ensures
        opts.verdict() is Ok ==> if_valid(opts, preview) == preview,
        opts.verdict() matches Err(e) ==> if_valid(opts, preview) == Err::<
            Seq<Seq<bool>>,
            ApiErrorView,
        >(e),
{
}

/// A code is drawn as wide as the paper allows, and what cannot be drawn is the request's fault.
pub proof fn law_code_requests(
    encoding: Result<SymbolView, EncodeError>,
    caption: Option<Seq<char>>,
    sheet: SheetView,
)
    ensures
        qr_answer(encoding, caption, sheet) == match qr_page(encoding, caption, 384, sheet) {
            Ok(rows) => Ok::<Seq<Seq<bool>>, ApiErrorView>(rows),
            Err(e) => Err(ApiErrorView { status: 400, message: qr_message(e) }),
        },
{
}

/// A document with nothing in it but white space is refused; a URL has to begin with `http://` or
/// `https://`, in any case. Of a document's images the server fetches those on the network where it
/// was not told otherwise, and reads none from its own files.
pub proof fn law_documents_and_urls(text: Seq<char>, remote_images: bool)
    ensures
        ({
            let low = lowered(text);
            let url = (low.len() >= 7 && low.take(7) == "http://"@) || (low.len() >= 8 && low.take(8)
                == "https://"@);
            &&& document_verdict(text) == if trim(text).len() > 0 {
                Ok::<(), ApiErrorView>(())
            } else {
                Err(ApiErrorView { status: 400, message: "content must not be empty"@ })
            }
            &&& url_verdict(text) == if url {
                Ok::<(), ApiErrorView>(())
            } else {
                Err(
                    ApiErrorView {
                        status: 400,
                        message: "URL must start with http:// or https://"@,
                    },
                )
            }
            &&& !server_reach(remote_images).local
            &&& server_reach(remote_images).remote == remote_images
        }),
{
    reveal_strlit("http://");
    reveal_strlit("https://");
}

/// How greys may be turned into black and white: by four names, of which two mean the same.
pub proof fn law_dither_names(name: Seq<char>)
    ensures
        dither_named(name) == Some(Dither::FloydSteinberg) <==> name == "floyd"@,
        dither_named(name) == Some(Dither::Atkinson) <==> name == "atkinson"@,
        dither_named(name) == Some(Dither::Threshold) <==> name == "threshold"@ || name == "none"@,
{
    reveal_strlit("floyd");
    reveal_strlit("atkinson");
    reveal_strlit("threshold");
    reveal_strlit("none");
    assert("floyd"@.len() == 5 && "atkinson"@.len() == 8 && "threshold"@.len() == 9 && "none"@.len()
        == 4);
}

/// What the fields of an image form are for goes by their names, and the print knobs count in a
/// print only.
pub proof fn law_field_names(name: Seq<char>, printing: bool)
    ensures
        use_named(Some(name), printing) == FieldUse::File <==> name == "file"@,
        use_named(Some(name), printing) == FieldUse::Dither <==> name == "dither"@,
        use_named(Some(name), printing) == FieldUse::Density <==> printing && name == "density"@,
        use_named(Some(name), printing) == FieldUse::Feed <==> printing && name == "feed"@,
        use_named(Some(name), printing) == FieldUse::Copies <==> printing && name == "copies"@,
        use_named(None, printing) == FieldUse::Ignored,
{
    reveal_strlit("file");
    reveal_strlit("dither");
    reveal_strlit("density");
    reveal_strlit("feed");
    reveal_strlit("copies");
    assert("file"@[1] == 'i' && "feed"@[1] == 'e' && "file"@.len() == 4 && "feed"@.len() == 4
        && "dither"@[0] == 'd' && "copies"@[0] == 'c' && "dither"@.len() == 6 && "copies"@.len()
        == 6 && "density"@.len() == 7);
}

/// A text field of a form sets what it is for to just what it says, and leaves the rest as it was:
/// numbers by their digits, dithers by their names. A text that does not read is quoted back and
/// changes nothing.
pub proof fn law_form_fields(form: FormView, value: Seq<char>, n: nat)
    ensures
        unsigned(value, 255) == Some(n) ==> form.with_text(FieldUse::Density, value) == Ok::<
            FormView,
            ApiErrorView,
        >(
            FormView {
                file: form.file,
                dither: form.dither,
                opts: PrintOpts {
                    density: n as u8,
                    feed: form.opts.feed,
                    copies: form.opts.copies,
                },
            },
        ),
        unsigned(value, usize::MAX as nat) == Some(n) ==> form.with_text(FieldUse::Feed, value)
            == Ok::<FormView, ApiErrorView>(
            FormView {
                file: form.file,
                dither: form.dither,
                opts: PrintOpts {
                    density: form.opts.density,
                    feed: n as usize,
                    copies: form.opts.copies,
                },
            },
        ),
        unsigned(value, 65535) == Some(n) ==> form.with_text(FieldUse::Copies, value) == Ok::<
            FormView,
            ApiErrorView,
        >(
            FormView {
                file: form.file,
                dither: form.dither,
                opts: PrintOpts {
                    density: form.opts.density,
                    feed: form.opts.feed,
                    copies: n as u16,
                },
            },
        ),
        unsigned(value, 255) is None ==> form.with_text(FieldUse::Density, value) == Err::<
            FormView,
            ApiErrorView,
        >(ApiErrorView { status: 400, message: "invalid "@ + "density"@ + " `"@ + value + "`"@ }),
        unsigned(value, usize::MAX as nat) is None ==> form.with_text(FieldUse::Feed, value) == Err::<
            FormView,
            ApiErrorView,
        >(ApiErrorView { status: 400, message: "invalid "@ + "feed"@ + " `"@ + value + "`"@ }),
        unsigned(value, 65535) is None ==> form.with_text(FieldUse::Copies, value) == Err::<
            FormView,
            ApiErrorView,
        >(ApiErrorView { status: 400, message: "invalid "@ + "copies"@ + " `"@ + value + "`"@ }),
        dither_named(value) matches Some(dither) ==> form.with_text(FieldUse::Dither, value)
            == Ok::<FormView, ApiErrorView>(
            FormView { file: form.file, dither, opts: form.opts },
        ),
        dither_named(value) is None ==> form.with_text(FieldUse::Dither, value) == Err::<
            FormView,
            ApiErrorView,
        >(
            ApiErrorView {
                status: 400,
                message: "unknown dither `"@ + value
                    + "` (expected floyd, atkinson, threshold or none)"@,
            },
        ),
        form.with_text(FieldUse::Ignored, value) == Ok::<FormView, ApiErrorView>(form),
{
}

/// What a form comes to: its file's bytes; without a file, and in a print with knobs out of range,
/// which is said first, it is refused.
pub proof fn law_forms(form: FormView)
    ensures
        form.file matches Some(bytes) ==> form.outcome(false) == Ok::<Seq<u8>, ApiErrorView>(bytes),
        form.file is None ==> form.outcome(false) == Err::<Seq<u8>, ApiErrorView>(
            ApiErrorView { status: 400, message: "missing `file` field"@ },
        ),
        form.opts.verdict() is Ok ==> form.outcome(true) == form.outcome(false),
        form.opts.verdict() matches Err(e) ==> form.outcome(true) == Err::<
            Seq<u8>,
            ApiErrorView,
        >(e),
{
}

/// What a failed print is answered: a printer that is not there or silent is unavailable, one
/// without paper a conflict, a job that is too large the request's fault, and anything else a
/// failure on this side. What lies deeper counts first.
pub proof fn law_failures(e: PrintFailure)
    ensures
        ({
            let answer = failure_answer(e);
            let away = e.no_printer || e.not_responding;
            &&& away ==> answer.status == 503 && answer.message == e.message@
            &&& !away && e.no_paper ==> answer.status == 409 && answer.message
                == "printer is out of paper"@
            &&& !away && !e.no_paper && !e.print_failed && e.too_large ==> answer.status == 400
                && answer.message == e.message@
            &&& !away && !e.no_paper && (e.print_failed || !e.too_large) ==> answer.status == 500
                && answer.message == e.message@
        }),
{
}

/// What a finished print reports: its counts, each under its own name.
pub proof fn law_print_reports(outcome: PrintOutcome, copies: u16)
    ensures
        ({
            let fields = outcome_fields(outcome, copies);
            &&& fields.len() == 7
            &&& fields[0] == ("printed_lines"@, FieldValue::Number(outcome.lines as u128))
            &&& fields[1] == ("copies"@, FieldValue::Number(copies as u128))
            &&& fields[2] == ("elapsed_ms"@, FieldValue::Number(outcome.elapsed_ms))
            &&& fields[3] == (
                "packets_sent"@,
                FieldValue::Number(outcome.stats.packets_sent as u128),
            )
            &&& fields[4] == ("holds"@, FieldValue::Number(outcome.stats.holds as u128))
            &&& fields[5] == ("cooldowns"@, FieldValue::Number(outcome.stats.cooldowns as u128))
            &&& fields[6] == ("retransmits"@, FieldValue::Number(outcome.stats.retransmits as u128))
        }),
{
}

/// What a printer's status reports: each of its facts under its own name, and the density and the
/// voltage where it knows them.
pub proof fn law_status_reports(s: PrinterStatus)
    ensures
        ({
            let fields = status_fields(s);
            &&& fields.take(6) == seq![
                ("battery_pct"@, FieldValue::Number(s.battery_pct as u128)),
                ("no_paper"@, FieldValue::Bool(s.no_paper)),
                ("charging"@, FieldValue::Bool(s.charging)),
                ("charged"@, FieldValue::Bool(s.charged)),
                ("overheat"@, FieldValue::Bool(s.overheat)),
                ("low_battery"@, FieldValue::Bool(s.low_battery)),
            ]
            &&& s.density matches Some(d) ==> fields[6] == (
                "density"@,
                FieldValue::Number(d as u128),
            )
            &&& s.voltage_mv matches Some(mv) ==> fields.last() == (
                "voltage_mv"@,
                FieldValue::Number(mv as u128),
            )
            &&& fields.len() == 6 + (if s.density is Some {
                1nat
            } else {
                0
            }) + (if s.voltage_mv is Some {
                1nat
            } else {
                0
            })
        }),
{
    assert(status_fields(s).take(6) =~= seq![
        ("battery_pct"@, FieldValue::Number(s.battery_pct as u128)),
        ("no_paper"@, FieldValue::Bool(s.no_paper)),
        ("charging"@, FieldValue::Bool(s.charging)),
        ("charged"@, FieldValue::Bool(s.charged)),
        ("overheat"@, FieldValue::Bool(s.overheat)),
        ("low_battery"@, FieldValue::Bool(s.low_battery)),
    ]);
}

/// A status request from its start to its answer: with the lock free it connects, listens, lets go
/// of the printer and reports what the printer said; a printer that cannot be reached, or says
/// nothing, is unavailable, for the reason that was given.
pub proof fn law_status_requests(status: PrinterStatus, reason: Seq<char>)
    ensures
        status_next(StatusState::Asked, StatusEvent::Lock(true)) == (
            StatusState::Connecting,
            StatusAction::<ApiErrorView>::Connect,
        ),
        status_next(StatusState::Connecting, StatusEvent::Connected) == (
            StatusState::Listening,
            StatusAction::<ApiErrorView>::Listen,
        ),
        status_next(StatusState::Connecting, StatusEvent::NotConnected(reason)) == (
            StatusState::Answered,
            StatusAction::Answer(
                StatusAnswer::Failed(ApiErrorView { status: 503, message: reason }),
            ),
        ),
        status_next(StatusState::Listening, StatusEvent::Frame(status)) == (
            StatusState::Answered,
            StatusAction::<ApiErrorView>::DisconnectAndAnswer(StatusAnswer::Report(status)),
        ),
        status_next(StatusState::Listening, StatusEvent::NoFrame(reason)) == (
            StatusState::Answered,
            StatusAction::DisconnectAndAnswer(
                StatusAnswer::Failed(ApiErrorView { status: 503, message: reason }),
            ),
        ),
{
}

/// A print request from its start to its answer: once it has the lock it prints with just the knobs
/// it was given, and answers with what came of it.
pub proof fn law_print_requests(opts: PrintOpts, outcome: PrintOutcome, e: PrintFailure)
    ensures
        print_next(PrintState::Queued(opts), PrintEvent::Locked).0 == PrintState::Printing(opts),
        print_next(PrintState::Queued(opts), PrintEvent::Locked).1 matches PrintActionView::Print(
            told,
        ) && told.density == opts.density && told.feed == opts.feed && told.copies == opts.copies,
        print_next(PrintState::Printing(opts), PrintEvent::Printed(outcome)) == (
            PrintState::Answered,
            PrintActionView::Report(outcome_fields(outcome, opts.copies)),
        ),
        print_next(PrintState::Printing(opts), PrintEvent::Failed(e)) == (
            PrintState::Answered,
            PrintActionView::Fail(failure_answer(e)),
        ),
{
}

} // verus!
