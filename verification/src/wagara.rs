//! Wagara bands: traditional Japanese patterns as full-width separators.
//!
//! The options and names of a fence are read here. The bands themselves are drawn by the caller,
//! who hands them in.

use vstd::prelude::*;

use crate::bitmap::{blank_rows, Bitmap};
use crate::text::{
    char_views, chars_of, decimal, find, find_char, law_find, lines, lowered, parse_unsigned,
    push_text, reads, split_lines, text_of, to_decimal, to_lower, trim, trimmed, unsigned,
};

verus! {

/// Default height of a band, in pixels.
pub const DEFAULT_HEIGHT: usize = 56;

/// Default motif size.
pub const DEFAULT_SCALE: usize = 1;

/// The patterns that can be drawn.
#[derive(Debug, Clone, Copy, PartialEq, Eq, Structural)]
pub enum Pattern {
    Asanoha,
    Ichimatsu,
    Kanoko,
    Kikkou,
    Sayagata,
    Seigaiha,
    Shippou,
    Tatewaku,
    Uroko,
    Yagasuri,
}

/// How a band is drawn.
#[derive(Debug, Clone, Copy, PartialEq, Eq, Structural)]
pub struct WagaraOptions {
    /// Height in pixels, 16 to 400.
    pub height: usize,
    /// Motif size multiplier, 1 to 4.
    pub scale: usize,
}

impl Default for WagaraOptions {
    fn default() -> (r: WagaraOptions)
        ensures
            r == default_options(),
    {
        WagaraOptions { height: DEFAULT_HEIGHT, scale: DEFAULT_SCALE }
    }
}

/// The options of a fence that gives none.
pub open spec fn default_options() -> WagaraOptions {
    WagaraOptions { height: 56, scale: 1 }
}

/// The options there are.
#[derive(Debug, Clone, Copy, PartialEq, Eq, Structural)]
pub enum WagaraKey {
    Height,
    Scale,
}

impl WagaraKey {
    /// The option's name.
    pub open spec fn name(self) -> Seq<char> {
        match self {
            WagaraKey::Height => "height"@,
            WagaraKey::Scale => "scale"@,
        }
    }

    /// The smallest value it takes.
    pub open spec fn least(self) -> u64 {
        match self {
            WagaraKey::Height => 16,
            WagaraKey::Scale => 1,
        }
    }

    /// The largest value it takes.
    pub open spec fn greatest(self) -> u64 {
        match self {
            WagaraKey::Height => 400,
            WagaraKey::Scale => 4,
        }
    }
}

/// Why a band could not be drawn. `S` is the type of the text it quotes.
#[derive(Debug)]
pub enum WagaraError<S> {
    UnknownPattern(S),
    /// An option line without a colon.
    MalformedOption(S),
    UnknownOption(S),
    /// A value that is no whole number.
    NotANumber(WagaraKey, S),
    /// A value outside the option's range.
    OutOfRange(WagaraKey, u64),
}

impl View for WagaraError<String> {
    type V = WagaraError<Seq<char>>;

    open spec fn view(&self) -> WagaraError<Seq<char>> {
        match *self {
            WagaraError::UnknownPattern(name) => WagaraError::UnknownPattern(name@),
            WagaraError::MalformedOption(line) => WagaraError::MalformedOption(line@),
            WagaraError::UnknownOption(key) => WagaraError::UnknownOption(key@),
            WagaraError::NotANumber(key, value) => WagaraError::NotANumber(key, value@),
            WagaraError::OutOfRange(key, n) => WagaraError::OutOfRange(key, n),
        }
    }
}

/// The text that reports an error.
pub open spec fn wagara_message(e: WagaraError<Seq<char>>) -> Seq<char> {
    match e {
        WagaraError::UnknownPattern(name) => "unknown wagara pattern \""@ + name
            + "\" (valid: asanoha, ichimatsu, kanoko, kikkou, sayagata, seigaiha, shippou, tatewaku, uroko, yagasuri)"@,
        WagaraError::MalformedOption(line) => "wagara option \""@ + line
            + "\" is not a `key: value` line (valid keys: height, scale)"@,
        WagaraError::UnknownOption(key) => "unknown wagara option \""@ + key
            + "\" (valid: height, scale)"@,
        WagaraError::NotANumber(key, value) => "wagara "@ + key.name()
            + " must be a whole number, got \""@ + value + "\""@,
        WagaraError::OutOfRange(key, n) => "wagara "@ + key.name() + " must be between "@
            + decimal(key.least() as nat) + " and "@ + decimal(key.greatest() as nat) + ", got "@
            + decimal(n as nat),
    }
}

impl WagaraError<String> {
    /// The text that reports the error.
    pub fn message(&self) -> (r: String)
        ensures
            r@ == wagara_message(self@),
    {
        let mut out: Vec<char> = Vec::new();
        match self {
            WagaraError::UnknownPattern(name) => {
                push_text(&mut out, "unknown wagara pattern \"");
                push_text(&mut out, name.as_str());
                push_text(
                    &mut out,
                    "\" (valid: asanoha, ichimatsu, kanoko, kikkou, sayagata, seigaiha, shippou, tatewaku, uroko, yagasuri)",
                );
            },
            WagaraError::MalformedOption(line) => {
                push_text(&mut out, "wagara option \"");
                push_text(&mut out, line.as_str());
                push_text(&mut out, "\" is not a `key: value` line (valid keys: height, scale)");
            },
            WagaraError::UnknownOption(key) => {
                push_text(&mut out, "unknown wagara option \"");
                push_text(&mut out, key.as_str());
                push_text(&mut out, "\" (valid: height, scale)");
            },
            WagaraError::NotANumber(key, value) => {
                push_text(&mut out, "wagara ");
                push_text(&mut out, key_name(*key));
                push_text(&mut out, " must be a whole number, got \"");
                push_text(&mut out, value.as_str());
                push_text(&mut out, "\"");
            },
            WagaraError::OutOfRange(key, n) => {
                let (least, greatest): (u64, u64) = match key {
                    WagaraKey::Height => (16, 400),
                    WagaraKey::Scale => (1, 4),
                };
                push_text(&mut out, "wagara ");
                push_text(&mut out, key_name(*key));
                push_text(&mut out, " must be between ");
                push_text(&mut out, text_of(to_decimal(least).as_slice()).as_str());
                push_text(&mut out, " and ");
                push_text(&mut out, text_of(to_decimal(greatest).as_slice()).as_str());
                push_text(&mut out, ", got ");
                push_text(&mut out, text_of(to_decimal(*n).as_slice()).as_str());
            },
        }
        assert(out@ =~= wagara_message(self@));
        text_of(out.as_slice())
    }
}

/// The option's name.
fn key_name(key: WagaraKey) -> (r: &'static str)
    ensures
        r@ == key.name(),
{
    match key {
        WagaraKey::Height => "height",
        WagaraKey::Scale => "scale",
    }
}

/// The pattern of that name in lower case.
pub open spec fn pattern_named(name: Seq<char>) -> Option<Pattern> {
    if name == "asanoha"@ {
        Some(Pattern::Asanoha)
    } else if name == "ichimatsu"@ {
        Some(Pattern::Ichimatsu)
    } else if name == "kanoko"@ {
        Some(Pattern::Kanoko)
    } else if name == "kikkou"@ || name == "kikko"@ {
        Some(Pattern::Kikkou)
    } else if name == "sayagata"@ {
        Some(Pattern::Sayagata)
    } else if name == "seigaiha"@ {
        Some(Pattern::Seigaiha)
    } else if name == "shippou"@ || name == "shippo"@ {
        Some(Pattern::Shippou)
    } else if name == "tatewaku"@ || name == "tachiwaki"@ {
        Some(Pattern::Tatewaku)
    } else if name == "uroko"@ {
        Some(Pattern::Uroko)
    } else if name == "yagasuri"@ || name == "yabane"@ {
        Some(Pattern::Yagasuri)
    } else {
        None
    }
}

/// The pattern of a name or one of its aliases; letter case does not count.
pub fn find_pattern(name: &str) -> (r: Option<Pattern>)
    ensures
        r == pattern_named(lowered(name@)),
{
    let lower = to_lower(chars_of(name).as_slice());
    let n = lower.as_slice();
    if reads(n, "asanoha") {
        Some(Pattern::Asanoha)
    } else if reads(n, "ichimatsu") {
        Some(Pattern::Ichimatsu)
    } else if reads(n, "kanoko") {
        Some(Pattern::Kanoko)
    } else if reads(n, "kikkou") || reads(n, "kikko") {
        Some(Pattern::Kikkou)
    } else if reads(n, "sayagata") {
        Some(Pattern::Sayagata)
    } else if reads(n, "seigaiha") {
        Some(Pattern::Seigaiha)
    } else if reads(n, "shippou") || reads(n, "shippo") {
        Some(Pattern::Shippou)
    } else if reads(n, "tatewaku") || reads(n, "tachiwaki") {
        Some(Pattern::Tatewaku)
    } else if reads(n, "uroko") {
        Some(Pattern::Uroko)
    } else if reads(n, "yagasuri") || reads(n, "yabane") {
        Some(Pattern::Yagasuri)
    } else {
        None
    }
}

/// The key of that name in lower case.
pub open spec fn key_named(name: Seq<char>) -> Option<WagaraKey> {
    if name == "height"@ {
        Some(WagaraKey::Height)
    } else if name == "scale"@ {
        Some(WagaraKey::Scale)
    } else {
        None
    }
}

/// The options with one changed.
pub open spec fn with_option(options: WagaraOptions, key: WagaraKey, n: usize) -> WagaraOptions {
    match key {
        WagaraKey::Height => WagaraOptions { height: n, ..options },
        WagaraKey::Scale => WagaraOptions { scale: n, ..options },
    }
}

/// One more option line: blank ones count for nothing, the rest are `key: value`.
pub open spec fn read_option(options: WagaraOptions, line: Seq<char>) -> Result<
    WagaraOptions,
    WagaraError<Seq<char>>,
> {
    let text = trim(line);
    let colon = find(text, ':');
    let name = trim(text.take(colon as int));
    let value = trim(text.skip(colon as int + 1));
    if text.len() == 0 {
        Ok(options)
    } else if colon == text.len() {
        Err(WagaraError::MalformedOption(text))
    } else {
        match key_named(lowered(name)) {
            None => Err(WagaraError::UnknownOption(name)),
            Some(key) => match unsigned(value, u64::MAX as nat) {
                None => Err(WagaraError::NotANumber(key, value)),
                Some(n) => if n < key.least() || n > key.greatest() {
                    Err(WagaraError::OutOfRange(key, n as u64))
                } else {
                    Ok(with_option(options, key, n as usize))
                },
            },
        }
    }
}

/// The options that some lines give; the first bad line decides the error.
pub open spec fn read_options(option_lines: Seq<Seq<char>>) -> Result<
    WagaraOptions,
    WagaraError<Seq<char>>,
>
    decreases option_lines.len(),
{
    if option_lines.len() == 0 {
        Ok(default_options())
    } else {
        match read_options(option_lines.drop_last()) {
            Ok(options) => read_option(options, option_lines.last()),
            Err(e) => Err(e),
        }
    }
}

/// The outcome of reading options.
pub open spec fn options_view(r: Result<WagaraOptions, WagaraError<String>>) -> Result<
    WagaraOptions,
    WagaraError<Seq<char>>,
> {
    match r {
        Ok(options) => Ok(options),
        Err(e) => Err(e@),
    }
}

/// Reads one more option line.
fn parse_option(options: WagaraOptions, line: &[char]) -> (r: Result<
    WagaraOptions,
    WagaraError<String>,
>)
    ensures
        options_view(r) == read_option(options, line@),
{
    let text = trimmed(line);
    if text.len() == 0 {
        return Ok(options);
    }
    let colon = find_char(text, ':');
    if colon == text.len() {
        return Err(WagaraError::MalformedOption(text_of(text)));
    }
    let name = trimmed(&text[0..colon]);
    assert(text@.subrange(0, colon as int) =~= text@.take(colon as int));
    let value = trimmed(&text[colon + 1..text.len()]);
    assert(text@.subrange(colon + 1, text@.len() as int) =~= text@.skip(colon + 1));
    let lower = to_lower(name);
    let key = if reads(lower.as_slice(), "height") {
        WagaraKey::Height
    } else if reads(lower.as_slice(), "scale") {
        WagaraKey::Scale
    } else {
        return Err(WagaraError::UnknownOption(text_of(name)));
    };
    match parse_unsigned(value, u64::MAX) {
        None => Err(WagaraError::NotANumber(key, text_of(value))),
        Some(n) => match key {
            WagaraKey::Height => if n < 16 || n > 400 {
                Err(WagaraError::OutOfRange(key, n))
            } else {
                Ok(WagaraOptions { height: n as usize, scale: options.scale })
            },
            WagaraKey::Scale => if n < 1 || n > 4 {
                Err(WagaraError::OutOfRange(key, n))
            } else {
                Ok(WagaraOptions { height: options.height, scale: n as usize })
            },
        },
    }
}

/// Reads the option lines of a fence.
pub fn parse_wagara_options(text: &str) -> (r: Result<WagaraOptions, WagaraError<String>>)
    ensures
        options_view(r) == read_options(lines(text@)),
{
    let parts = split_lines(chars_of(text).as_slice());
    let ghost views = char_views(parts@);
    let mut options = WagaraOptions::default();
    let mut i: usize = 0;
    while i < parts.len()
        invariant
            i <= parts.len(),
            views == char_views(parts@),
            views == lines(text@),
            read_options(views.take(i as int)) == Ok::<WagaraOptions, WagaraError<Seq<char>>>(
                options,
            ),
        decreases parts.len() - i,
    {
        assert(views.take(i + 1).drop_last() =~= views.take(i as int));
        match parse_option(options, parts[i].as_slice()) {
            Ok(changed) => {
                options = changed;
            },
            Err(e) => {
                proof {
                    lemma_first_error(views, i + 1);
                }
                return Err(e);
            },
        }
        i += 1;
    }
    assert(views.take(i as int) =~= views);
    Ok(options)
}

proof fn lemma_first_error(option_lines: Seq<Seq<char>>, n: int)
    requires
        0 <= n <= option_lines.len(),
        read_options(option_lines.take(n)) is Err,
    ensures
        read_options(option_lines) == read_options(option_lines.take(n)),
    decreases option_lines.len() - n,
{
    if n < option_lines.len() {
        assert(option_lines.take(n + 1).drop_last() =~= option_lines.take(n));
        lemma_first_error(option_lines, n + 1);
    } else {
        assert(option_lines.take(n) =~= option_lines);
    }
}

/// A drawn band.
#[derive(Debug)]
pub struct Band {
    pub pattern: Pattern,
    pub options: WagaraOptions,
    pub bitmap: Bitmap,
}

/// What a [`Band`] holds.
pub struct BandView {
    pub pattern: Pattern,
    pub options: WagaraOptions,
    pub rows: Seq<Seq<bool>>,
}

impl View for Band {
    type V = BandView;

    open spec fn view(&self) -> BandView {
        BandView { pattern: self.pattern, options: self.options, rows: self.bitmap@ }
    }
}

/// The bands' views.
pub open spec fn band_views(bands: Seq<Band>) -> Seq<BandView> {
    bands.map_values(|b: Band| b@)
}

/// The band drawn for a pattern and options: the last one given, white paper where there is none.
pub open spec fn band_rows(
    bands: Seq<BandView>,
    pattern: Pattern,
    options: WagaraOptions,
) -> Seq<Seq<bool>>
    decreases bands.len(),
{
    if bands.len() == 0 {
        blank_rows(options.height as nat)
    } else if bands.last().pattern == pattern && bands.last().options == options {
        bands.last().rows
    } else {
        band_rows(bands.drop_last(), pattern, options)
    }
}

/// What a pattern name and options render to.
pub open spec fn wagara_page(
    name: Seq<char>,
    options: WagaraOptions,
    bands: Seq<BandView>,
) -> Result<Seq<Seq<bool>>, WagaraError<Seq<char>>> {
    match pattern_named(lowered(name)) {
        Some(pattern) => Ok(band_rows(bands, pattern, options)),
        None => Err(WagaraError::UnknownPattern(name)),
    }
}

/// The rows of a rendering, or its error.
pub open spec fn wagara_view(r: Result<Bitmap, WagaraError<String>>) -> Result<
    Seq<Seq<bool>>,
    WagaraError<Seq<char>>,
> {
    match r {
        Ok(bitmap) => Ok(bitmap@),
        Err(e) => Err(e@),
    }
}

/// The band of a pattern.
pub fn render_wagara(name: &str, options: WagaraOptions, bands: &Vec<Band>) -> (r: Result<
    Bitmap,
    WagaraError<String>,
>)
    ensures
        wagara_view(r) == wagara_page(name@, options, band_views(bands@)),
{
    let pattern = match find_pattern(name) {
        Some(pattern) => pattern,
        None => return Err(WagaraError::UnknownPattern(name.to_owned())),
    };
    let ghost views = band_views(bands@);
    let mut i: usize = bands.len();
    assert(views.take(i as int) =~= views);
    while i > 0
        invariant
            i <= bands.len(),
            views == band_views(bands@),
            Some(pattern) == pattern_named(lowered(name@)),
            band_rows(views.take(i as int), pattern, options) == band_rows(views, pattern, options),
        decreases i,
    {
        i -= 1;
        assert(views.take(i + 1).drop_last() =~= views.take(i as int));
        assert(views.take(i + 1).last() == bands@[i as int]@);
        let band = &bands[i];
        if band.pattern == pattern && band.options == options {
            return Ok(band.bitmap.clone());
        }
    }
    assert(views.take(0) =~= Seq::empty());
    Ok(Bitmap::new(options.height))
}

/// Options that read at all are within their ranges.
pub proof fn law_options_are_in_range(option_lines: Seq<Seq<char>>)
    ensures
        read_options(option_lines) matches Ok(options) ==> 16 <= options.height <= 400 && 1
            <= options.scale <= 4,
    decreases option_lines.len(),
{
    if option_lines.len() > 0 {
        law_options_are_in_range(option_lines.drop_last());
    }
}

/// Letter case does not count in a pattern's name.
pub proof fn law_pattern_names_ignore_case(
    a: Seq<char>,
    b: Seq<char>,
    options: WagaraOptions,
    bands: Seq<BandView>,
)
    requires
        lowered(a) == lowered(b),
    ensures
        wagara_page(a, options, bands) is Ok <==> wagara_page(b, options, bands) is Ok,
        wagara_page(a, options, bands) is Ok ==> wagara_page(a, options, bands) == wagara_page(
            b,
            options,
            bands,
        ),
{
}

/// An option line is a name, a colon and a value, with white space wherever one likes and the name
/// in any case: a height from 16 to 400 or a scale from 1 to 4 is taken, and changes nothing else.
/// Any other number is out of range, anything else no number, and any other name unknown.
pub proof fn law_option_lines(
    options: WagaraOptions,
    line: Seq<char>,
    name: Seq<char>,
    value: Seq<char>,
)
    requires
        trim(line) == name + seq![':'] + value,
        !name.contains(':'),
    ensures
        ({
            let r = read_option(options, line);
            let key = lowered(trim(name));
            let number = unsigned(trim(value), u64::MAX as nat);
            &&& key == "height"@ ==> r == match number {
                None => Err(WagaraError::NotANumber(WagaraKey::Height, trim(value))),
                Some(n) => if 16 <= n <= 400 {
                    Ok(WagaraOptions { height: n as usize, scale: options.scale })
                } else {
                    Err(WagaraError::OutOfRange(WagaraKey::Height, n as u64))
                },
            }
            &&& key == "scale"@ ==> r == match number {
                None => Err(WagaraError::NotANumber(WagaraKey::Scale, trim(value))),
                Some(n) => if 1 <= n <= 4 {
                    Ok(WagaraOptions { height: options.height, scale: n as usize })
                } else {
                    Err(WagaraError::OutOfRange(WagaraKey::Scale, n as u64))
                },
            }
            &&& key != "height"@ && key != "scale"@ ==> r == Err::<
                WagaraOptions,
                WagaraError<Seq<char>>,
            >(WagaraError::UnknownOption(trim(name)))
        }),
{
    let text = trim(line);
    law_find(text, ':');
    assert(text[name.len() as int] == ':');
    let k = find(text, ':') as int;
    if k < name.len() {
        assert(text[k] == name[k]);
        assert(name.contains(':'));
    }
    assert(k == name.len());
    assert(text.take(k) =~= name);
    assert(text.skip(k + 1) =~= value);
    reveal_strlit("height");
    reveal_strlit("scale");
    assert("height"@.len() != "scale"@.len());
}

/// A blank line is no option, a line without a colon no option line, and the lines of a fence are
/// read from the first to the last, each on top of those before, from 56 px and a scale of 1; the
/// first that is wrong decides.
pub proof fn law_option_lines_add_up(
    options: WagaraOptions,
    before: Seq<Seq<char>>,
    line: Seq<char>,
)
    ensures
        trim(line).len() == 0 ==> read_option(options, line) == Ok::<
            WagaraOptions,
            WagaraError<Seq<char>>,
        >(options),
        trim(line).len() > 0 && !trim(line).contains(':') ==> read_option(options, line) == Err::<
            WagaraOptions,
            WagaraError<Seq<char>>,
        >(WagaraError::MalformedOption(trim(line))),
        read_options(Seq::empty()) == Ok::<WagaraOptions, WagaraError<Seq<char>>>(
            WagaraOptions { height: 56, scale: 1 },
        ),
        read_options(before.push(line)) == match read_options(before) {
            Ok(read) => read_option(read, line),
            Err(e) => Err(e),
        },
{
    assert(before.push(line).drop_last() =~= before);
    law_find(trim(line), ':');
    let k = find(trim(line), ':') as int;
    if k < trim(line).len() {
        assert(trim(line).contains(':'));
    }
}

/// The band that is drawn is the one for the pattern and just those options, the last one given
/// where there are several, and white paper of the height asked for where there is none. An
/// unknown name is an error that quotes it.
pub proof fn law_bands_are_found(
    name: Seq<char>,
    pattern: Pattern,
    options: WagaraOptions,
    bands: Seq<BandView>,
    i: int,
)
    requires
        pattern_named(lowered(name)) == Some(pattern),
        -1 <= i < bands.len(),
        i >= 0 ==> bands[i].pattern == pattern && bands[i].options == options,
        forall|j: int|
            i < j < bands.len() ==> !((#[trigger] bands[j]).pattern == pattern && bands[j].options
                == options),
    ensures
        wagara_page(name, options, bands) == Ok::<Seq<Seq<bool>>, WagaraError<Seq<char>>>(
            if i >= 0 {
                bands[i].rows
            } else {
                blank_rows(options.height as nat)
            },
        ),
    decreases bands.len(),
{
    if i < bands.len() - 1 {
        let front = bands.drop_last();
        assert(!(bands[bands.len() - 1].pattern == pattern && bands[bands.len() - 1].options
            == options));
        assert forall|j: int| i < j < front.len() implies !((#[trigger] front[j]).pattern == pattern
            && front[j].options == options) by {
            assert(front[j] == bands[j]);
        }
        law_bands_are_found(name, pattern, options, front, i);
    }
}

/// Every pattern goes by its name, and some by another spelling; no other name is one of theirs.
pub proof fn law_pattern_names(name: Seq<char>, bands: Seq<BandView>, options: WagaraOptions)
    ensures
        ({
            let n = lowered(name);
            let found = pattern_named(n);
            &&& found == Some(Pattern::Asanoha) <==> n == "asanoha"@
            &&& found == Some(Pattern::Ichimatsu) <==> n == "ichimatsu"@
            &&& found == Some(Pattern::Kanoko) <==> n == "kanoko"@
            &&& found == Some(Pattern::Kikkou) <==> n == "kikkou"@ || n == "kikko"@
            &&& found == Some(Pattern::Sayagata) <==> n == "sayagata"@
            &&& found == Some(Pattern::Seigaiha) <==> n == "seigaiha"@
            &&& found == Some(Pattern::Shippou) <==> n == "shippou"@ || n == "shippo"@
            &&& found == Some(Pattern::Tatewaku) <==> n == "tatewaku"@ || n == "tachiwaki"@
            &&& found == Some(Pattern::Uroko) <==> n == "uroko"@
            &&& found == Some(Pattern::Yagasuri) <==> n == "yagasuri"@ || n == "yabane"@
            &&& found is None <==> wagara_page(name, options, bands) == Err::<
                Seq<Seq<bool>>,
                WagaraError<Seq<char>>,
            >(WagaraError::UnknownPattern(name))
        }),
{
    reveal_strlit("asanoha");
    reveal_strlit("ichimatsu");
    reveal_strlit("kanoko");
    reveal_strlit("kikkou");
    reveal_strlit("kikko");
    reveal_strlit("sayagata");
    reveal_strlit("seigaiha");
    reveal_strlit("shippou");
    reveal_strlit("shippo");
    reveal_strlit("tatewaku");
    reveal_strlit("tachiwaki");
    reveal_strlit("uroko");
    reveal_strlit("yagasuri");
    reveal_strlit("yabane");
    let n = lowered(name);
    assert("asanoha"@[0] == 'a');
    assert("ichimatsu"@[0] == 'i');
    assert("kanoko"@[1] == 'a');
    assert("kikkou"@[1] == 'i' && "kikkou"@[0] == 'k');
    assert("kikko"@[1] == 'i' && "kikko"@[0] == 'k');
    assert("kanoko"@[0] == 'k');
    assert("sayagata"@[0] == 's' && "sayagata"@[1] == 'a');
    assert("seigaiha"@[0] == 's' && "seigaiha"@[1] == 'e');
    assert("shippou"@[0] == 's' && "shippou"@[1] == 'h');
    assert("shippo"@[0] == 's' && "shippo"@[1] == 'h');
    assert("tatewaku"@[0] == 't');
    assert("tachiwaki"@[0] == 't');
    assert("uroko"@[0] == 'u');
    assert("yagasuri"@[0] == 'y');
    assert("yabane"@[0] == 'y');
}

/// A band that cannot be drawn says what was given and what would have been taken.
pub proof fn law_wagara_messages(given: Seq<char>, n: u64, key: WagaraKey)
    ensures
        ({
            let name = if key is Height {
                "height"@
            } else {
                "scale"@
            };
            let least: nat = if key is Height {
                16
            } else {
                1
            };
            let greatest: nat = if key is Height {
                400
            } else {
                4
            };
            &&& wagara_message(WagaraError::UnknownPattern(given)) == "unknown wagara pattern \""@
                + given
                + "\" (valid: asanoha, ichimatsu, kanoko, kikkou, sayagata, seigaiha, shippou, tatewaku, uroko, yagasuri)"@
            &&& wagara_message(WagaraError::MalformedOption(given)) == "wagara option \""@ + given
                + "\" is not a `key: value` line (valid keys: height, scale)"@
            &&& wagara_message(WagaraError::UnknownOption(given)) == "unknown wagara option \""@
                + given + "\" (valid: height, scale)"@
            &&& wagara_message(WagaraError::NotANumber(key, given)) == "wagara "@ + name
                + " must be a whole number, got \""@ + given + "\""@
            &&& wagara_message(WagaraError::OutOfRange(key, n)) == "wagara "@ + name
                + " must be between "@ + decimal(least) + " and "@ + decimal(greatest) + ", got "@
                + decimal(n as nat)
        }),
{
}


} // verus!
