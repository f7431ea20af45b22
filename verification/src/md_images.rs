//! Which images of a document are fetched, and how much of them.
//!
//! A caller drives a [`Resolver`]: it asks for the next image, reads the file or fetches the URL
//! it is told to, and hands the decoded picture back. Anything that fails is left out, and renders
//! as a placeholder.

use base64::engine::general_purpose::STANDARD;
use base64::{DecodeError, Engine};
use vstd::prelude::*;

use crate::bitmap::Bitmap;
use crate::events::markdown_events;
use crate::images::ImageMap;
use crate::markdown::{markdown_image_refs, refs_after};
use crate::table::string_views;
use crate::text::{
    begins, chars_of, decimal, lowered, push_text, starts_with, text_of, to_decimal, to_lower,
};

verus! {

/// Seconds after which a slow server is given up on.
pub const HTTP_TIMEOUT_SECS: u64 = 15;

/// Seconds for the whole resolution pass, however many references there are.
pub const TOTAL_BUDGET_SECS: u64 = 30;

/// Most images resolved for one document.
pub const MAX_IMAGE_REFS: usize = 32;

/// Most bytes of one image.
pub const MAX_IMAGE_BYTES: usize = 5242880;

/// Most bytes that the base64 form of one image may take.
pub const MAX_ENCODED_BYTES: usize = 6990508;

/// How image fetches identify themselves.
pub const USER_AGENT: &'static str = "printable/0.1.0";

/// Why a text is not base64.
#[derive(Debug, Clone, Copy, PartialEq, Eq, Structural)]
pub enum Base64Error {
    /// A byte outside the alphabet: its offset and value.
    InvalidByte(usize, u8),
    /// A last group of a single symbol.
    InvalidLength(usize),
    /// Bits that would be discarded: the symbol's offset and value.
    InvalidLastSymbol(usize, u8),
    /// Padding that is missing or wrong.
    InvalidPadding,
}

/// Why an inline image cannot be used.
#[derive(Debug, Clone, Copy, PartialEq, Eq, Structural)]
pub enum EmbedError {
    /// Not a base64 PNG by its label.
    Unsupported,
    /// Over the byte limit, encoded or decoded.
    TooLarge,
    /// Not base64.
    Encoding(Base64Error),
    /// Not a PNG by its signature.
    NotPng,
}

/// The text that reports a base64 error.
pub open spec fn base64_message(e: Base64Error) -> Seq<char> {
    match e {
        Base64Error::InvalidByte(offset, byte) => "Invalid symbol "@ + decimal(byte as nat)
            + ", offset "@ + decimal(offset as nat) + "."@,
        Base64Error::InvalidLength(n) => "Invalid input length: "@ + decimal(n as nat),
        Base64Error::InvalidLastSymbol(offset, byte) => "Invalid last symbol "@ + decimal(
            byte as nat,
        ) + ", offset "@ + decimal(offset as nat) + "."@,
        Base64Error::InvalidPadding => "Invalid padding"@,
    }
}

/// The text that reports an error.
pub open spec fn embed_message(e: EmbedError) -> Seq<char> {
    match e {
        EmbedError::Unsupported => "only data:image/png;base64 images are supported"@,
        EmbedError::TooLarge => "embedded image exceeds byte limit"@,
        EmbedError::Encoding(cause) => base64_message(cause),
        EmbedError::NotPng => "embedded image is not PNG"@,
    }
}

/// Appends a number in decimal.
fn push_number(out: &mut Vec<char>, n: u64)
    ensures
        final(out)@ == old(out)@ + decimal(n as nat),
{
    push_text(out, text_of(to_decimal(n).as_slice()).as_str());
}

impl EmbedError {
    /// The text that reports the error.
    pub fn message(&self) -> (r: String)
        ensures
            r@ == embed_message(*self),
    {
        let mut out: Vec<char> = Vec::new();
        match *self {
            EmbedError::Unsupported => push_text(
                &mut out,
                "only data:image/png;base64 images are supported",
            ),
            EmbedError::TooLarge => push_text(&mut out, "embedded image exceeds byte limit"),
            EmbedError::Encoding(Base64Error::InvalidByte(offset, byte)) => {
                push_text(&mut out, "Invalid symbol ");
                push_number(&mut out, byte as u64);
                push_text(&mut out, ", offset ");
                push_number(&mut out, offset as u64);
                push_text(&mut out, ".");
            },
            EmbedError::Encoding(Base64Error::InvalidLength(n)) => {
                push_text(&mut out, "Invalid input length: ");
                push_number(&mut out, n as u64);
            },
            EmbedError::Encoding(Base64Error::InvalidLastSymbol(offset, byte)) => {
                push_text(&mut out, "Invalid last symbol ");
                push_number(&mut out, byte as u64);
                push_text(&mut out, ", offset ");
                push_number(&mut out, offset as u64);
                push_text(&mut out, ".");
            },
            EmbedError::Encoding(Base64Error::InvalidPadding) => push_text(
                &mut out,
                "Invalid padding",
            ),
            EmbedError::NotPng => push_text(&mut out, "embedded image is not PNG"),
        }
        assert(out@ =~= embed_message(*self));
        text_of(out.as_slice())
    }
}

/// The bytes that a text encodes in standard base64 with padding.
pub uninterp spec fn base64_decoding(text: Seq<char>) -> Result<Seq<u8>, Base64Error>;

/// The outcome of a decoding.
pub open spec fn bytes_view<E>(r: Result<Vec<u8>, E>) -> Result<Seq<u8>, E> {
    match r {
        Ok(bytes) => Ok(bytes@),
        Err(e) => Err(e),
    }
}

/// Decodes with `base64::engine::general_purpose::STANDARD.decode`. The claim is that the text
/// alone decides the outcome.
#[verifier::external_body]
fn decode_base64(text: &str) -> (r: Result<Vec<u8>, Base64Error>)
    ensures
        bytes_view(r) == base64_decoding(text@),
{
    match STANDARD.decode(text) {
        Ok(bytes) => Ok(bytes),
        Err(DecodeError::InvalidByte(offset, byte)) => Err(Base64Error::InvalidByte(offset, byte)),
        Err(DecodeError::InvalidLength(n)) => Err(Base64Error::InvalidLength(n)),
        Err(DecodeError::InvalidLastSymbol(offset, byte)) => Err(Base64Error::InvalidLastSymbol(offset, byte)),
        Err(DecodeError::InvalidPadding) => Err(Base64Error::InvalidPadding),
    }
}

/// The signature that a PNG file begins with.
pub open spec fn png_signature() -> Seq<u8> {
    seq![0x89u8, 0x50, 0x4e, 0x47, 0x0d, 0x0a, 0x1a, 0x0a]
}

/// Whether bytes begin with the PNG signature.
pub open spec fn is_png(bytes: Seq<u8>) -> bool {
    bytes.len() >= 8 && bytes.take(8) == png_signature()
}

/// Whether bytes begin with the PNG signature.
fn has_png_signature(bytes: &Vec<u8>) -> (r: bool)
    ensures
        r == is_png(bytes@),
{
    if bytes.len() < 8 {
        return false;
    }
    let r = bytes[0] == 0x89 && bytes[1] == 0x50 && bytes[2] == 0x4e && bytes[3] == 0x47 && bytes[4]
        == 0x0d && bytes[5] == 0x0a && bytes[6] == 0x1a && bytes[7] == 0x0a;
    proof {
        if r {
            assert(bytes@.take(8) =~= png_signature());
        } else {
            assert(exists|i: int| 0 <= i < 8 && #[trigger] bytes@.take(8)[i] != png_signature()[i])
                by {
                let t = bytes@.take(8);
                let w = png_signature();
                assert(t[0] != w[0] || t[1] != w[1] || t[2] != w[2] || t[3] != w[3] || t[4] != w[4]
                    || t[5] != w[5] || t[6] != w[6] || t[7] != w[7]);
            }
        }
    }
    r
}

/// What a decoding is worth: bytes within the limit that begin like a PNG.
pub open spec fn accepted(decoding: Result<Seq<u8>, Base64Error>) -> Result<Seq<u8>, EmbedError> {
    match decoding {
        Err(e) => Err(EmbedError::Encoding(e)),
        Ok(bytes) => if bytes.len() > MAX_IMAGE_BYTES {
            Err(EmbedError::TooLarge)
        } else if !is_png(bytes) {
            Err(EmbedError::NotPng)
        } else {
            Ok(bytes)
        },
    }
}

/// Judges a decoding: its size and its signature, never its label.
pub fn accept_decoding(decoding: Result<Vec<u8>, Base64Error>) -> (r: Result<Vec<u8>, EmbedError>)
    ensures
        bytes_view(r) == accepted(bytes_view(decoding)),
{
    match decoding {
        Err(e) => Err(EmbedError::Encoding(e)),
        Ok(bytes) => {
            if bytes.len() > MAX_IMAGE_BYTES {
                Err(EmbedError::TooLarge)
            } else if !has_png_signature(&bytes) {
                Err(EmbedError::NotPng)
            } else {
                Ok(bytes)
            }
        },
    }
}

/// The label of an inline PNG.
pub open spec fn png_label() -> Seq<char> {
    "data:image/png;base64,"@
}

/// The bytes of an inline image: its encoded size is judged before anything is decoded.
pub open spec fn embedded(dest: Seq<char>) -> Result<Seq<u8>, EmbedError> {
    if !starts_with(dest, png_label()) {
        Err(EmbedError::Unsupported)
    } else {
        let encoded = dest.skip(png_label().len() as int);
        if vstd::utf8::encode_utf8(encoded).len() > MAX_ENCODED_BYTES {
            Err(EmbedError::TooLarge)
        } else {
            accepted(base64_decoding(encoded))
        }
    }
}

/// The bytes of an inline PNG, which needs neither network nor files.
pub fn decode_embedded_png(dest: &str) -> (r: Result<Vec<u8>, EmbedError>)
    ensures
        bytes_view(r) == embedded(dest@),
{
    let chars = chars_of(dest);
    let label = chars_of("data:image/png;base64,");
    if !begins(chars.as_slice(), "data:image/png;base64,") {
        return Err(EmbedError::Unsupported);
    }
    let rest = &chars.as_slice()[label.len()..chars.len()];
    assert(rest@ =~= dest@.skip(png_label().len() as int));
    let encoded = text_of(rest);
    if encoded.as_str().as_bytes().len() > MAX_ENCODED_BYTES {
        return Err(EmbedError::TooLarge);
    }
    accept_decoding(decode_base64(encoded.as_str()))
}

/// Whether a destination is an `http` or `https` URL; letter case does not count.
pub open spec fn is_http_url(dest: Seq<char>) -> bool {
    starts_with(lowered(dest), "http://"@) || starts_with(lowered(dest), "https://"@)
}

/// Whether a destination is an `http` or `https` URL.
pub fn is_http(dest: &str) -> (r: bool)
    ensures
        r == is_http_url(dest@),
{
    let lower = to_lower(chars_of(dest).as_slice());
    begins(lower.as_slice(), "http://") || begins(lower.as_slice(), "https://")
}

/// Whether a destination is an inline image.
pub open spec fn is_inline(dest: Seq<char>) -> bool {
    starts_with(dest, "data:"@)
}

/// Where a local image is read from. `S` is the type of its texts.
#[derive(Debug)]
pub enum LocalPath<S> {
    /// The destination is a path of its own.
    AsGiven(S),
    /// The destination is relative to a directory: the directory, then the destination.
    Within(S, S),
}

impl View for LocalPath<String> {
    type V = LocalPath<Seq<char>>;

    open spec fn view(&self) -> LocalPath<Seq<char>> {
        match *self {
            LocalPath::AsGiven(dest) => LocalPath::AsGiven(dest@),
            LocalPath::Within(dir, dest) => LocalPath::Within(dir@, dest@),
        }
    }
}

/// Relative references resolve against the document's directory, absolute ones are used as they
/// are. Whether `dest` is relative is for the platform to say.
pub fn local_path(dest: &str, relative: bool, base_dir: Option<&str>) -> (r: LocalPath<String>)
    ensures
        r@ == match base_dir {
            Some(dir) => if relative {
                LocalPath::Within(dir@, dest@)
            } else {
                LocalPath::AsGiven(dest@)
            },
            None => LocalPath::AsGiven(dest@),
        },
{
    match base_dir {
        Some(dir) => if relative {
            LocalPath::Within(dir.to_owned(), dest.to_owned())
        } else {
            LocalPath::AsGiven(dest.to_owned())
        },
        None => LocalPath::AsGiven(dest.to_owned()),
    }
}

/// Why a fetched image is not used.
#[derive(Debug, Clone, Copy, PartialEq, Eq, Structural)]
pub enum FetchError {
    /// The server answered with that status.
    Status(u16),
    /// The server announced that many bytes.
    Announced(u64),
    /// The body grew over the limit.
    TooLarge,
}

/// Judges a response before its body is read: the status has to be a success, and the announced
/// length, if any, within the limit.
pub fn check_response(status: u16, content_length: Option<u64>) -> (r: Result<(), FetchError>)
    ensures
        r == if !(200 <= status < 300) {
            Err::<(), FetchError>(FetchError::Status(status))
        } else {
            match content_length {
                Some(n) => if n > MAX_IMAGE_BYTES {
                    Err::<(), FetchError>(FetchError::Announced(n))
                } else {
                    Ok(())
                },
                None => Ok(()),
            }
        },
{
    if status < 200 || status >= 300 {
        return Err(FetchError::Status(status));
    }
    if let Some(n) = content_length {
        if n > MAX_IMAGE_BYTES as u64 {
            return Err(FetchError::Announced(n));
        }
    }
    Ok(())
}

/// Takes one more chunk of a body, unless it would grow over the limit.
pub fn accept_chunk(body: &mut Vec<u8>, chunk: &[u8]) -> (r: Result<(), FetchError>)
    requires
        old(body)@.len() <= MAX_IMAGE_BYTES,
    ensures
        final(body)@.len() <= MAX_IMAGE_BYTES,
        old(body)@.len() + chunk@.len() <= MAX_IMAGE_BYTES ==> r == Ok::<(), FetchError>(())
            && final(body)@ == old(body)@ + chunk@,
        old(body)@.len() + chunk@.len() > MAX_IMAGE_BYTES ==> r == Err::<(), FetchError>(
            FetchError::TooLarge,
        ) && final(body)@ == old(body)@,
{
    if chunk.len() > MAX_IMAGE_BYTES - body.len() {
        return Err(FetchError::TooLarge);
    }
    let mut i: usize = 0;
    while i < chunk.len()
        invariant
            i <= chunk.len(),
            body@ == old(body)@ + chunk@.take(i as int),
        decreases chunk.len() - i,
    {
        body.push(chunk[i]);
        i += 1;
        assert(body@ =~= old(body)@ + chunk@.take(i as int));
    }
    assert(chunk@.take(i as int) =~= chunk@);
    Ok(())
}

/// What the caller has to do for the next image. `B` is the type of bytes, `S` that of texts.
#[derive(Debug)]
pub enum ImageStep<S, B> {
    /// Decode these bytes, which were inline.
    Inline(S, B),
    /// Fetch the URL.
    Fetch(S),
    /// Read the file.
    Read(S),
}

impl View for ImageStep<String, Vec<u8>> {
    type V = ImageStep<Seq<char>, Seq<u8>>;

    open spec fn view(&self) -> ImageStep<Seq<char>, Seq<u8>> {
        match *self {
            ImageStep::Inline(dest, bytes) => ImageStep::Inline(dest@, bytes@),
            ImageStep::Fetch(dest) => ImageStep::Fetch(dest@),
            ImageStep::Read(dest) => ImageStep::Read(dest@),
        }
    }
}

/// What a caller may do for a document.
#[derive(Debug, Clone, Copy, PartialEq, Eq, Structural)]
pub struct Reach {
    /// Whether files may be read. Network-facing callers never may.
    pub local: bool,
    /// Whether URLs may be fetched.
    pub remote: bool,
}

/// What is done for one destination: inline images are decoded, URLs fetched and files read as
/// far as the caller may; `None` leaves the image out.
pub open spec fn image_step(dest: Seq<char>, reach: Reach) -> Option<
    ImageStep<Seq<char>, Seq<u8>>,
> {
    if is_inline(dest) {
        match embedded(dest) {
            Ok(bytes) => Some(ImageStep::Inline(dest, bytes)),
            Err(e) => None,
        }
    } else if is_http_url(dest) {
        if reach.remote {
            Some(ImageStep::Fetch(dest))
        } else {
            None
        }
    } else if reach.local {
        Some(ImageStep::Read(dest))
    } else {
        None
    }
}

/// The steps for some destinations, in order.
pub open spec fn image_steps(refs: Seq<Seq<char>>, reach: Reach) -> Seq<
    ImageStep<Seq<char>, Seq<u8>>,
>
    decreases refs.len(),
{
    if refs.len() == 0 {
        Seq::empty()
    } else {
        let rest = image_steps(refs.skip(1), reach);
        match image_step(refs[0], reach) {
            Some(step) => seq![step] + rest,
            None => rest,
        }
    }
}

/// The destinations that are resolved: the first ones, up to the limit.
pub open spec fn capped(refs: Seq<Seq<char>>) -> Seq<Seq<char>> {
    if refs.len() > MAX_IMAGE_REFS {
        refs.take(MAX_IMAGE_REFS as int)
    } else {
        refs
    }
}

/// What is done for one destination.
pub fn plan_image(dest: &String, reach: Reach) -> (r: Option<ImageStep<String, Vec<u8>>>)
    ensures
        match r {
            Some(step) => image_step(dest@, reach) == Some(step@),
            None => image_step(dest@, reach) is None,
        },
{
    let chars = chars_of(dest.as_str());
    if begins(chars.as_slice(), "data:") {
        match decode_embedded_png(dest.as_str()) {
            Ok(bytes) => Some(ImageStep::Inline(dest.clone(), bytes)),
            Err(_) => None,
        }
    } else if is_http(dest.as_str()) {
        if reach.remote {
            Some(ImageStep::Fetch(dest.clone()))
        } else {
            None
        }
    } else if reach.local {
        Some(ImageStep::Read(dest.clone()))
    } else {
        None
    }
}

/// A resolution pass over a document's images.
pub struct Resolver {
    refs: Vec<String>,
    next: usize,
    handed: Vec<String>,
    reach: Reach,
    images: ImageMap,
}

/// What a [`Resolver`] holds.
pub struct ResolverView {
    /// The destinations of the pass.
    pub refs: Seq<Seq<char>>,
    /// The destinations that have not been looked at.
    pub left: Seq<Seq<char>>,
    /// The destinations that a step was handed out for.
    pub handed: Seq<Seq<char>>,
    pub reach: Reach,
    /// The images resolved so far.
    pub images: Map<Seq<char>, Seq<Seq<bool>>>,
}

impl View for Resolver {
    type V = ResolverView;

    closed spec fn view(&self) -> ResolverView {
        ResolverView {
            refs: string_views(self.refs@),
            left: string_views(self.refs@).skip(self.next as int),
            handed: string_views(self.handed@),
            reach: self.reach,
            images: self.images@,
        }
    }
}

impl Resolver {
    #[verifier::type_invariant]
    spec fn inv(self) -> bool {
        &&& self.next <= self.refs@.len()
        &&& self.refs@.len() <= MAX_IMAGE_REFS
        &&& string_views(self.handed@).to_set().subset_of(string_views(self.refs@).to_set())
        &&& self.images@.dom().subset_of(string_views(self.handed@).to_set())
    }

    /// A pass over the first destinations, up to the limit.
    pub fn new(refs: Vec<String>, reach: Reach) -> (r: Resolver)
        ensures
            r@.refs == capped(string_views(refs@)),
            r@.left == capped(string_views(refs@)),
            r@.handed == Seq::<Seq<char>>::empty(),
            r@.reach == reach,
            r@.images == Map::<Seq<char>, Seq<Seq<bool>>>::empty(),
    {
        let mut kept = refs;
        let ghost all = string_views(refs@);
        if kept.len() > MAX_IMAGE_REFS {
            kept.truncate(MAX_IMAGE_REFS);
        }
        let handed: Vec<String> = Vec::new();
        assert(string_views(handed@) =~= Seq::empty());
        let r = Resolver { refs: kept, next: 0, handed, reach, images: ImageMap::new() };
        assert(r@.refs =~= capped(all));
        assert(r@.left =~= capped(all));
        r
    }

    /// A pass over the images of a document.
    pub fn for_document(md: &str, reach: Reach) -> (r: Resolver)
        ensures
            r@.refs == capped(refs_after(markdown_events(md@)).0),
            r@.left == capped(refs_after(markdown_events(md@)).0),
            r@.handed == Seq::<Seq<char>>::empty(),
            r@.reach == reach,
            r@.images == Map::<Seq<char>, Seq<Seq<bool>>>::empty(),
    {
        Resolver::new(markdown_image_refs(md), reach)
    }

    /// Whether an HTTP client is needed at all: only where URLs may be fetched and there is one.
    pub fn needs_client(&self) -> (r: bool)
        ensures
            r == (self@.reach.remote && exists|i: int|
                0 <= i < self@.left.len() && is_http_url(#[trigger] self@.left[i])),
    {
        proof {
            use_type_invariant(&*self);
        }
        if !self.reach.remote {
            return false;
        }
        let mut i: usize = self.next;
        while i < self.refs.len()
            invariant
                self.next <= i <= self.refs@.len(),
                self.reach.remote,
                forall|k: int|
                    0 <= k < i - self.next ==> !is_http_url(#[trigger] self@.left[k]),
            decreases self.refs.len() - i,
        {
            assert(self@.left[i - self.next] == self.refs@[i as int]@);
            if is_http(self.refs[i].as_str()) {
                return true;
            }
            i += 1;
        }
        false
    }

    /// Gives up fetching for the rest of the pass, for want of an HTTP client.
    pub fn without_client(&mut self)
        ensures
            final(self)@ == (ResolverView {
                reach: Reach { remote: false, ..old(self)@.reach },
                ..old(self)@
            }),
    {
        proof {
            use_type_invariant(&*self);
        }
        self.reach = Reach { local: self.reach.local, remote: false };
    }

    /// The next image to get hold of; those that cannot be had are passed over.
    pub fn next_image(&mut self) -> (r: Option<ImageStep<String, Vec<u8>>>)
        ensures
            final(self)@.reach == old(self)@.reach,
            final(self)@.images == old(self)@.images,
            final(self)@.left.len() <= old(self)@.left.len(),
            final(self)@.left == old(self)@.left.skip(
                old(self)@.left.len() - final(self)@.left.len(),
            ),
            final(self)@.refs == old(self)@.refs,
            final(self)@.handed == match r {
                Some(step) => old(self)@.handed.push(step_dest(step@)),
                None => old(self)@.handed,
            },
            match r {
                Some(step) => image_steps(old(self)@.left, old(self)@.reach) == seq![step@]
                    + image_steps(final(self)@.left, old(self)@.reach),
                None => image_steps(old(self)@.left, old(self)@.reach).len() == 0
                    && final(self)@.left.len() == 0,
            },
    {
        proof {
            use_type_invariant(&*self);
        }
        let ghost start = self@;
        assert(start.left.skip(0) =~= start.left);
        while self.next < self.refs.len()
            invariant
                start == old(self)@,
                self.next <= self.refs@.len(),
                self.inv(),
                self@.reach == start.reach,
                self@.refs == start.refs,
                self@.handed == start.handed,
                self@.images == start.images,
                self@.left.len() <= start.left.len(),
                self@.left == start.left.skip(start.left.len() - self@.left.len()),
                image_steps(self@.left, start.reach) == image_steps(start.left, start.reach),
            decreases self.refs@.len() - self.next,
        {
            let ghost before = self@;
            let i: usize = self.next;
            let step = plan_image(&self.refs[i], self.reach);
            self.next = i + 1;
            assert(before.left[0] == self.refs@[i as int]@);
            assert(self@.left =~= before.left.skip(1));
            assert(self@.left =~= start.left.skip(start.left.len() - self@.left.len()));
            if let Some(found) = step {
                let dest: String = self.refs[i].clone();
                self.hand_out(dest, i);
                return Some(found);
            }
        }
        assert(self@.left =~= Seq::empty());
        None
    }

    /// Records a destination of the pass as handed out.
    fn hand_out(&mut self, dest: String, i: usize)
        requires
            i < old(self)@.refs.len(),
            dest@ == old(self)@.refs[i as int],
        ensures
            final(self)@ == (ResolverView {
                handed: old(self)@.handed.push(dest@),
                ..old(self)@
            }),
    {
        proof {
            use_type_invariant(&*self);
        }
        let ghost before = string_views(self.handed@);
        let mut images = ImageMap::new();
        std::mem::swap(&mut images, &mut self.images);
        let mut handed: Vec<String> = Vec::new();
        assert(string_views(handed@) =~= Seq::empty());
        std::mem::swap(&mut handed, &mut self.handed);
        handed.push(dest);
        proof {
            let after = string_views(handed@);
            assert(after =~= before.push(dest@));
            assert(after.to_set() =~= before.to_set().insert(dest@)) by {
                assert forall|d: Seq<char>| before.contains(d) || d == dest@ implies after.contains(
                    d,
                ) by {
                    if before.contains(d) {
                        let k = choose|k: int| 0 <= k < before.len() && before[k] == d;
                        assert(after[k] == d);
                    } else {
                        assert(after[before.len() as int] == d);
                    }
                }
            }
            assert(string_views(self.refs@)[i as int] == dest@);
            assert(string_views(self.refs@).to_set().contains(dest@));
        }
        self.handed = handed;
        self.images = images;
    }

    /// Keeps a decoded image. Only one for a destination that was handed out is taken.
    pub fn supply(&mut self, dest: String, bitmap: Bitmap)
        ensures
            final(self)@ == if old(self)@.handed.contains(dest@) {
                ResolverView {
                    images: old(self)@.images.insert(dest@, bitmap@),
                    ..old(self)@
                }
            } else {
                old(self)@
            },
    {
        proof {
            use_type_invariant(&*self);
        }
        let mut i: usize = 0;
        while i < self.handed.len()
            invariant
                i <= self.handed@.len(),
                self.inv(),
                self@ == old(self)@,
                forall|k: int| 0 <= k < i ==> #[trigger] self@.handed[k] != dest@,
            decreases self.handed.len() - i,
        {
            assert(self@.handed[i as int] == self.handed@[i as int]@);
            if self.handed[i] == dest {
                assert(self@.handed.to_set().contains(dest@));
                let mut images = ImageMap::new();
                std::mem::swap(&mut images, &mut self.images);
                images.insert(dest, bitmap);
                self.images = images;
                return;
            }
            i += 1;
        }
    }

    /// The images resolved so far: all of destinations of the pass that were handed out, and no
    /// more of them than [`MAX_IMAGE_REFS`].
    pub fn finish(self) -> (r: ImageMap)
        ensures
            r@ == self@.images,
            forall|dest: Seq<char>|
                #[trigger] r@.dom().contains(dest) ==> self@.handed.contains(dest)
                    && self@.refs.contains(dest),
            r@.dom().finite(),
            r@.dom().len() <= MAX_IMAGE_REFS,
    {
        proof {
            use_type_invariant(&self);
            let refs = self@.refs;
            refs.lemma_cardinality_of_set();
            vstd::set_lib::lemma_len_subset(self.images@.dom(), refs.to_set());
            assert forall|dest: Seq<char>| #[trigger]
                self.images@.dom().contains(dest) implies self@.handed.contains(dest)
                && refs.contains(dest) by {
                assert(self@.handed.to_set().contains(dest));
                assert(refs.to_set().contains(dest));
            }
        }
        self.images
    }
}

/// The destination that a step is about.
pub open spec fn step_dest(step: ImageStep<Seq<char>, Seq<u8>>) -> Seq<char> {
    match step {
        ImageStep::Inline(dest, bytes) => dest,
        ImageStep::Fetch(dest) => dest,
        ImageStep::Read(dest) => dest,
    }
}

/// A caller that may not read files is never told to read one, whatever the document says.
pub proof fn law_no_files_unless_allowed(refs: Seq<Seq<char>>, reach: Reach)
    requires
        !reach.local,
    ensures
        forall|i: int|
            0 <= i < image_steps(refs, reach).len() ==> !(#[trigger] image_steps(refs, reach)[i]
                is Read),
    decreases refs.len(),
{
    if refs.len() > 0 {
        law_no_files_unless_allowed(refs.skip(1), reach);
    }
}

/// A caller that may not fetch is never told to fetch, whatever the document says.
pub proof fn law_no_fetches_unless_allowed(refs: Seq<Seq<char>>, reach: Reach)
    requires
        !reach.remote,
    ensures
        forall|i: int|
            0 <= i < image_steps(refs, reach).len() ==> !(#[trigger] image_steps(refs, reach)[i]
                is Fetch),
    decreases refs.len(),
{
    if refs.len() > 0 {
        law_no_fetches_unless_allowed(refs.skip(1), reach);
    }
}

/// However many images a document references, at most [`MAX_IMAGE_REFS`] are resolved.
pub proof fn law_work_is_capped(refs: Seq<Seq<char>>, reach: Reach)
    ensures
        image_steps(capped(refs), reach).len() <= MAX_IMAGE_REFS,
{
    lemma_steps_at_most(capped(refs), reach);
}

proof fn lemma_steps_at_most(refs: Seq<Seq<char>>, reach: Reach)
    ensures
        image_steps(refs, reach).len() <= refs.len(),
    decreases refs.len(),
{
    if refs.len() > 0 {
        lemma_steps_at_most(refs.skip(1), reach);
    }
}

/// Only destinations of the document are touched: files by their path, URLs by their scheme.
pub proof fn law_steps_come_from_the_document(refs: Seq<Seq<char>>, reach: Reach)
    ensures
        forall|i: int|
            0 <= i < image_steps(refs, reach).len() ==> refs.contains(
                step_dest(#[trigger] image_steps(refs, reach)[i]),
            ),
        forall|i: int|
            0 <= i < image_steps(refs, reach).len() && (#[trigger] image_steps(refs, reach)[i])
                is Fetch ==> is_http_url(step_dest(image_steps(refs, reach)[i])),
    decreases refs.len(),
{
    if refs.len() > 0 {
        let rest = refs.skip(1);
        law_steps_come_from_the_document(rest, reach);
        assert forall|i: int| 0 <= i < image_steps(refs, reach).len() implies refs.contains(
            step_dest(#[trigger] image_steps(refs, reach)[i]),
        ) by {
            let step = image_steps(refs, reach)[i];
            match image_step(refs[0], reach) {
                Some(first) => {
                    if i == 0 {
                        assert(refs[0] == step_dest(step));
                    } else {
                        assert(step == image_steps(rest, reach)[i - 1]);
                        let k = choose|k: int| 0 <= k < rest.len() && rest[k] == step_dest(step);
                        assert(refs[k + 1] == step_dest(step));
                    }
                },
                None => {
                    let k = choose|k: int| 0 <= k < rest.len() && rest[k] == step_dest(step);
                    assert(refs[k + 1] == step_dest(step));
                },
            }
        }
    }
}

/// The bitmap that a step gives: `files` and `network` say what the file at a path and the answer
/// to a URL decode to, `decode` what bytes do. `None` where there is no image to be had.
pub open spec fn step_image(
    step: ImageStep<Seq<char>, Seq<u8>>,
    files: spec_fn(Seq<char>) -> Option<Seq<Seq<bool>>>,
    network: spec_fn(Seq<char>) -> Option<Seq<Seq<bool>>>,
    decode: spec_fn(Seq<u8>) -> Option<Seq<Seq<bool>>>,
) -> Option<Seq<Seq<bool>>> {
    match step {
        ImageStep::Inline(dest, bytes) => decode(bytes),
        ImageStep::Fetch(dest) => network(dest),
        ImageStep::Read(dest) => files(dest),
    }
}

/// The images after one more step: its own is kept where it gave one.
pub open spec fn kept(
    images: Map<Seq<char>, Seq<Seq<bool>>>,
    step: ImageStep<Seq<char>, Seq<u8>>,
    bitmap: Option<Seq<Seq<bool>>>,
) -> Map<Seq<char>, Seq<Seq<bool>>> {
    match bitmap {
        Some(rows) => images.insert(step_dest(step), rows),
        None => images,
    }
}

/// The images at the end of a pass that holds `images` and has `steps` before it.
pub open spec fn outcome(
    steps: Seq<ImageStep<Seq<char>, Seq<u8>>>,
    images: Map<Seq<char>, Seq<Seq<bool>>>,
    files: spec_fn(Seq<char>) -> Option<Seq<Seq<bool>>>,
    network: spec_fn(Seq<char>) -> Option<Seq<Seq<bool>>>,
    decode: spec_fn(Seq<u8>) -> Option<Seq<Seq<bool>>>,
) -> Map<Seq<char>, Seq<Seq<bool>>>
    decreases steps.len(),
{
    if steps.len() == 0 {
        images
    } else {
        let bitmap = step_image(steps[0], files, network, decode);
        outcome(steps.skip(1), kept(images, steps[0], bitmap), files, network, decode)
    }
}

/// A round of a pass, a step handed out and its bitmap supplied, leaves the outcome what it was.
/// With no step left, the outcome is what the pass holds.
pub proof fn law_rounds_lead_to_the_outcome(
    before: ResolverView,
    after: ResolverView,
    step: ImageStep<Seq<char>, Seq<u8>>,
    files: spec_fn(Seq<char>) -> Option<Seq<Seq<bool>>>,
    network: spec_fn(Seq<char>) -> Option<Seq<Seq<bool>>>,
    decode: spec_fn(Seq<u8>) -> Option<Seq<Seq<bool>>>,
)
    requires
        image_steps(before.left, before.reach) == seq![step] + image_steps(
            after.left,
            before.reach,
        ),
        after.reach == before.reach,
        after.images == kept(before.images, step, step_image(step, files, network, decode)),
    ensures
        outcome(
            image_steps(before.left, before.reach),
            before.images,
            files,
            network,
            decode,
        ) == outcome(
            image_steps(after.left, after.reach),
            after.images,
            files,
            network,
            decode,
        ),
        after.left.len() == 0 ==> outcome(
            image_steps(after.left, after.reach),
            after.images,
            files,
            network,
            decode,
        ) == after.images,
{
    let steps = image_steps(before.left, before.reach);
    assert(steps.skip(1) =~= image_steps(after.left, after.reach));
}

/// For a caller that may not read files, the images are the same whatever the files are.
pub proof fn law_files_do_not_count_unless_allowed(
    refs: Seq<Seq<char>>,
    reach: Reach,
    images: Map<Seq<char>, Seq<Seq<bool>>>,
    files: spec_fn(Seq<char>) -> Option<Seq<Seq<bool>>>,
    others: spec_fn(Seq<char>) -> Option<Seq<Seq<bool>>>,
    network: spec_fn(Seq<char>) -> Option<Seq<Seq<bool>>>,
    decode: spec_fn(Seq<u8>) -> Option<Seq<Seq<bool>>>,
)
    requires
        !reach.local,
    ensures
        outcome(image_steps(refs, reach), images, files, network, decode) == outcome(
            image_steps(refs, reach),
            images,
            others,
            network,
            decode,
        ),
{
    law_no_files_unless_allowed(refs, reach);
    lemma_same_outcome(
        image_steps(refs, reach),
        images,
        files,
        others,
        network,
        network,
        decode,
    );
}

/// For a caller that may not fetch, the images are the same whatever the network answers.
pub proof fn law_network_does_not_count_unless_allowed(
    refs: Seq<Seq<char>>,
    reach: Reach,
    images: Map<Seq<char>, Seq<Seq<bool>>>,
    files: spec_fn(Seq<char>) -> Option<Seq<Seq<bool>>>,
    network: spec_fn(Seq<char>) -> Option<Seq<Seq<bool>>>,
    others: spec_fn(Seq<char>) -> Option<Seq<Seq<bool>>>,
    decode: spec_fn(Seq<u8>) -> Option<Seq<Seq<bool>>>,
)
    requires
        !reach.remote,
    ensures
        outcome(image_steps(refs, reach), images, files, network, decode) == outcome(
            image_steps(refs, reach),
            images,
            files,
            others,
            decode,
        ),
{
    law_no_fetches_unless_allowed(refs, reach);
    lemma_same_outcome(
        image_steps(refs, reach),
        images,
        files,
        files,
        network,
        others,
        decode,
    );
}

proof fn lemma_same_outcome(
    steps: Seq<ImageStep<Seq<char>, Seq<u8>>>,
    images: Map<Seq<char>, Seq<Seq<bool>>>,
    files: spec_fn(Seq<char>) -> Option<Seq<Seq<bool>>>,
    other_files: spec_fn(Seq<char>) -> Option<Seq<Seq<bool>>>,
    network: spec_fn(Seq<char>) -> Option<Seq<Seq<bool>>>,
    other_network: spec_fn(Seq<char>) -> Option<Seq<Seq<bool>>>,
    decode: spec_fn(Seq<u8>) -> Option<Seq<Seq<bool>>>,
)
    requires
        forall|i: int|
            0 <= i < steps.len() ==> step_image(#[trigger] steps[i], files, network, decode)
                == step_image(steps[i], other_files, other_network, decode),
    ensures
        outcome(steps, images, files, network, decode) == outcome(
            steps,
            images,
            other_files,
            other_network,
            decode,
        ),
    decreases steps.len(),
{
    if steps.len() > 0 {
        let bitmap = step_image(steps[0], files, network, decode);
        assert(bitmap == step_image(steps[0], other_files, other_network, decode));
        let rest = steps.skip(1);
        assert forall|i: int| 0 <= i < rest.len() implies step_image(
            #[trigger] rest[i],
            files,
            network,
            decode,
        ) == step_image(rest[i], other_files, other_network, decode) by {
            assert(rest[i] == steps[i + 1]);
        }
        lemma_same_outcome(
            rest,
            kept(images, steps[0], bitmap),
            files,
            other_files,
            network,
            other_network,
            decode,
        );
    }
}

/// Whatever the files and the network hold, the images of a document are among its first
/// references: of destinations up to the limit, and no more of them.
pub proof fn law_images_are_of_the_first_references(
    refs: Seq<Seq<char>>,
    reach: Reach,
    files: spec_fn(Seq<char>) -> Option<Seq<Seq<bool>>>,
    network: spec_fn(Seq<char>) -> Option<Seq<Seq<bool>>>,
    decode: spec_fn(Seq<u8>) -> Option<Seq<Seq<bool>>>,
)
    ensures
        ({
            let images = outcome(
                image_steps(capped(refs), reach),
                Map::empty(),
                files,
                network,
                decode,
            );
            &&& forall|dest: Seq<char>| #[trigger]
                images.dom().contains(dest) ==> capped(refs).contains(dest)
            &&& images.dom().finite()
            &&& images.dom().len() <= MAX_IMAGE_REFS
        }),
{
    let first = capped(refs);
    let steps = image_steps(first, reach);
    let images = outcome(steps, Map::empty(), files, network, decode);
    law_steps_come_from_the_document(first, reach);
    lemma_outcome_within(steps, Map::empty(), first.to_set(), files, network, decode);
    first.lemma_cardinality_of_set();
    vstd::set_lib::lemma_len_subset(images.dom(), first.to_set());
    assert forall|dest: Seq<char>| #[trigger] images.dom().contains(dest) implies first.contains(
        dest,
    ) by {
        assert(first.to_set().contains(dest));
    }
}

proof fn lemma_outcome_within(
    steps: Seq<ImageStep<Seq<char>, Seq<u8>>>,
    images: Map<Seq<char>, Seq<Seq<bool>>>,
    within: Set<Seq<char>>,
    files: spec_fn(Seq<char>) -> Option<Seq<Seq<bool>>>,
    network: spec_fn(Seq<char>) -> Option<Seq<Seq<bool>>>,
    decode: spec_fn(Seq<u8>) -> Option<Seq<Seq<bool>>>,
)
    requires
        forall|i: int| 0 <= i < steps.len() ==> within.contains(step_dest(#[trigger] steps[i])),
        images.dom().subset_of(within),
    ensures
        outcome(steps, images, files, network, decode).dom().subset_of(within),
    decreases steps.len(),
{
    if steps.len() > 0 {
        let bitmap = step_image(steps[0], files, network, decode);
        let rest = steps.skip(1);
        assert(within.contains(step_dest(steps[0])));
        assert forall|i: int| 0 <= i < rest.len() implies within.contains(
            step_dest(#[trigger] rest[i]),
        ) by {
            assert(rest[i] == steps[i + 1]);
        }
        assert(kept(images, steps[0], bitmap).dom().subset_of(within));
        lemma_outcome_within(
            rest,
            kept(images, steps[0], bitmap),
            within,
            files,
            network,
            decode,
        );
    }
}

/// Inline images that are used are PNGs by their signature and within the byte limit.
pub proof fn law_inline_images_are_pngs(dest: Seq<char>)
    ensures
        embedded(dest) matches Ok(bytes) ==> is_png(bytes) && bytes.len() <= MAX_IMAGE_BYTES,
{
}

/// Letter case does not count in a URL's scheme: no spelling of a URL is taken for a file.
pub proof fn law_schemes_ignore_case(a: Seq<char>, b: Seq<char>)
    requires
        lowered(a) == lowered(b),
    ensures
        is_http_url(a) == is_http_url(b),
{
}

/// What is done for a destination goes by how it begins: `data:` is decoded here, `http://` and
/// `https://`, in any case, are fetched where that is allowed, and everything else is a file, read
/// where that is.
pub proof fn law_destinations_go_by_their_scheme(dest: Seq<char>, reach: Reach)
    ensures
        ({
            let inline = dest.len() >= 5 && dest.take(5) == "data:"@;
            let low = lowered(dest);
            let url = (low.len() >= 7 && low.take(7) == "http://"@) || (low.len() >= 8 && low.take(8)
                == "https://"@);
            let step = image_step(dest, reach);
            &&& inline ==> step == match embedded(dest) {
                Ok(bytes) => Some(ImageStep::Inline(dest, bytes)),
                Err(e) => None,
            }
            &&& !inline && url ==> step == if reach.remote {
                Some(ImageStep::<Seq<char>, Seq<u8>>::Fetch(dest))
            } else {
                None
            }
            &&& !inline && !url ==> step == if reach.local {
                Some(ImageStep::<Seq<char>, Seq<u8>>::Read(dest))
            } else {
                None
            }
        }),
{
    reveal_strlit("data:");
    reveal_strlit("http://");
    reveal_strlit("https://");
}

/// The steps of a pass come in the order of the references, one at most for each, and of more than
/// 32 references the first 32 count.
pub proof fn law_steps_come_in_order(refs: Seq<Seq<char>>, dest: Seq<char>, reach: Reach)
    ensures
        image_steps(Seq::empty(), reach).len() == 0,
        image_steps(refs.push(dest), reach) == match image_step(dest, reach) {
            Some(step) => image_steps(refs, reach).push(step),
            None => image_steps(refs, reach),
        },
        refs.len() <= 32 ==> capped(refs) == refs,
        refs.len() > 32 ==> capped(refs) == refs.take(32),
    decreases refs.len(),
{
    let all = refs.push(dest);
    if refs.len() == 0 {
        assert(all.skip(1) =~= Seq::empty());
        assert(image_steps(all.skip(1), reach).len() == 0);
    } else {
        law_steps_come_in_order(refs.skip(1), dest, reach);
        assert(all.skip(1) =~= refs.skip(1).push(dest));
    }
    assert(image_steps(all, reach) =~= match image_step(dest, reach) {
        Some(step) => image_steps(refs, reach).push(step),
        None => image_steps(refs, reach),
    });
}

/// An inline image is its label, which says that it is a base64 PNG, and the encoding of its
/// bytes: at most 6990508 bytes of text for at most 5 MiB of picture. The bytes have to begin like
/// a PNG. Each of these has an error of its own, in this order, and nothing else is wrong with one.
pub proof fn law_what_becomes_of_an_inline_image(dest: Seq<char>)
    ensures
        ({
            let label = "data:image/png;base64,"@;
            let labelled = dest.len() >= label.len() && dest.take(label.len() as int) == label;
            let encoded = dest.skip(label.len() as int);
            let large = vstd::utf8::encode_utf8(encoded).len() > 6990508;
            &&& !labelled ==> embedded(dest) == Err::<Seq<u8>, EmbedError>(EmbedError::Unsupported)
            &&& labelled && large ==> embedded(dest) == Err::<Seq<u8>, EmbedError>(
                EmbedError::TooLarge,
            )
            &&& labelled && !large ==> match base64_decoding(encoded) {
                Err(e) => embedded(dest) == Err::<Seq<u8>, EmbedError>(EmbedError::Encoding(e)),
                Ok(bytes) => {
                    &&& bytes.len() > 5242880 ==> embedded(dest) == Err::<Seq<u8>, EmbedError>(
                        EmbedError::TooLarge,
                    )
                    &&& bytes.len() <= 5242880 && bytes.len() >= 8 && bytes[0] == 0x89 && bytes[1]
                        == 0x50 && bytes[2] == 0x4e && bytes[3] == 0x47 && bytes[4] == 0x0d
                        && bytes[5] == 0x0a && bytes[6] == 0x1a && bytes[7] == 0x0a ==> embedded(
                        dest,
                    ) == Ok::<Seq<u8>, EmbedError>(bytes)
                    &&& bytes.len() <= 5242880 && !(bytes.len() >= 8 && bytes[0] == 0x89 && bytes[1]
                        == 0x50 && bytes[2] == 0x4e && bytes[3] == 0x47 && bytes[4] == 0x0d
                        && bytes[5] == 0x0a && bytes[6] == 0x1a && bytes[7] == 0x0a) ==> embedded(
                        dest,
                    ) == Err::<Seq<u8>, EmbedError>(EmbedError::NotPng)
                },
            }
        }),
{
    let encoded = dest.skip("data:image/png;base64,"@.len() as int);
    if let Ok(bytes) = base64_decoding(encoded) {
        if bytes.len() >= 8 {
            let t = bytes.take(8);
            let w = png_signature();
            assert(t[0] == bytes[0] && t[1] == bytes[1] && t[2] == bytes[2] && t[3] == bytes[3]
                && t[4] == bytes[4] && t[5] == bytes[5] && t[6] == bytes[6] && t[7] == bytes[7]);
            if bytes[0] == 0x89 && bytes[1] == 0x50 && bytes[2] == 0x4e && bytes[3] == 0x47
                && bytes[4] == 0x0d && bytes[5] == 0x0a && bytes[6] == 0x1a && bytes[7] == 0x0a {
                assert(t =~= w);
            }
        }
    }
}

/// Each way an inline image fails says what is wrong; a base64 error names the byte and its place,
/// in decimal.
pub proof fn law_embed_messages(offset: usize, byte: u8)
    ensures
        embed_message(EmbedError::Unsupported)
            == "only data:image/png;base64 images are supported"@,
        embed_message(EmbedError::TooLarge) == "embedded image exceeds byte limit"@,
        embed_message(EmbedError::NotPng) == "embedded image is not PNG"@,
        embed_message(EmbedError::Encoding(Base64Error::InvalidPadding)) == "Invalid padding"@,
        embed_message(EmbedError::Encoding(Base64Error::InvalidLength(offset)))
            == "Invalid input length: "@ + decimal(offset as nat),
        embed_message(EmbedError::Encoding(Base64Error::InvalidByte(offset, byte)))
            == "Invalid symbol "@ + decimal(byte as nat) + ", offset "@ + decimal(offset as nat)
            + "."@,
        embed_message(EmbedError::Encoding(Base64Error::InvalidLastSymbol(offset, byte)))
            == "Invalid last symbol "@ + decimal(byte as nat) + ", offset "@ + decimal(
            offset as nat,
        ) + "."@,
{
}


} // verus!
