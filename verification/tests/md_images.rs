use base64::engine::general_purpose::STANDARD;
use base64::Engine;
use printa_ble::bitmap::Bitmap;
use printa_ble::md_images::{
    accept_chunk, accept_decoding, check_response, decode_embedded_png, is_http, local_path,
    Base64Error, EmbedError, FetchError, ImageStep, LocalPath, Reach, Resolver, HTTP_TIMEOUT_SECS,
    MAX_ENCODED_BYTES, MAX_IMAGE_BYTES, MAX_IMAGE_REFS, TOTAL_BUDGET_SECS, USER_AGENT,
};

const PNG: &[u8] = b"\x89PNG\r\n\x1a\nrest of the picture";

const ALL: Reach = Reach { local: true, remote: true };
const NONE: Reach = Reach { local: false, remote: false };

fn embed(bytes: &[u8]) -> String {
    format!("data:image/png;base64,{}", STANDARD.encode(bytes))
}

/// The steps for a document, as words.
fn steps(md: &str, reach: Reach) -> Vec<String> {
    let mut resolver = Resolver::for_document(md, reach);
    let mut out = vec![];
    while let Some(step) = resolver.next_image() {
        out.push(match step {
            ImageStep::Inline(_, bytes) => format!("inline {}", bytes.len()),
            ImageStep::Fetch(dest) => format!("fetch {dest}"),
            ImageStep::Read(dest) => format!("read {dest}"),
        });
    }
    assert!(resolver.next_image().is_none());
    out
}

/// Pinned so a cleanup cannot silently drop the User-Agent: hosts with robot policies (Wikimedia)
/// reject anonymous fetches with HTTP 403.
#[test]
fn fetch_client_identifies_itself() {
    assert!(USER_AGENT.starts_with("printable/"));
    assert!(USER_AGENT.len() > "printable/".len());
}

#[test]
fn http_scheme_detection_is_case_insensitive() {
    assert!(is_http("HTTPS://example.com/a.png"));
    assert!(is_http("http://example.com/a.png"));
    assert!(!is_http("ftp://example.com/a.png"));
    assert!(!is_http("/etc/hosts"));
    assert!(!is_http("photo.png"));
}

#[test]
fn embedded_images_enforce_size_before_decoding() {
    assert!(decode_embedded_png(&format!(
        "data:image/png;base64,{}",
        "A".repeat(MAX_IMAGE_BYTES.div_ceil(3) * 4 + 4)
    ))
    .is_err());
}

#[test]
fn the_limits_are_those_of_a_receipt() {
    assert_eq!(MAX_IMAGE_BYTES, 5 * 1024 * 1024);
    assert_eq!(MAX_ENCODED_BYTES, MAX_IMAGE_BYTES.div_ceil(3) * 4);
    assert_eq!(MAX_IMAGE_REFS, 32);
    assert_eq!((HTTP_TIMEOUT_SECS, TOTAL_BUDGET_SECS), (15, 30));
}

#[test]
fn inline_pngs_are_decoded() {
    assert_eq!(decode_embedded_png(&embed(PNG)).unwrap(), PNG);
    assert_eq!(steps(&format!("![icon]({})", embed(PNG)), NONE), ["inline 27"]);
}

#[test]
fn inline_images_are_judged_by_their_bytes() {
    let error = |dest: &str| decode_embedded_png(dest).unwrap_err();
    for (dest, e, message) in [
        (
            "data:image/png;base64,!!!",
            EmbedError::Encoding(Base64Error::InvalidByte(0, 33)),
            "Invalid symbol 33, offset 0.",
        ),
        (
            "data:image/png;base64,aGkaa",
            EmbedError::Encoding(Base64Error::InvalidLength(5)),
            "Invalid input length: 5",
        ),
        (
            "data:image/png;base64,aGl=",
            EmbedError::Encoding(Base64Error::InvalidLastSymbol(2, 108)),
            "Invalid last symbol 108, offset 2.",
        ),
        (
            "data:image/png;base64,aGk",
            EmbedError::Encoding(Base64Error::InvalidPadding),
            "Invalid padding",
        ),
        (
            "data:text/plain;base64,aGk=",
            EmbedError::Unsupported,
            "only data:image/png;base64 images are supported",
        ),
        (
            "data:image/svg+xml;base64,aGk=",
            EmbedError::Unsupported,
            "only data:image/png;base64 images are supported",
        ),
        ("data:image/png;base64,aGk=", EmbedError::NotPng, "embedded image is not PNG"),
    ] {
        assert_eq!(error(dest), e, "{dest}");
        assert_eq!(error(dest).message(), message);
        assert!(steps(&format!("![icon]({dest})"), ALL).is_empty(), "{dest}");
    }
}

/// The outside crate words its errors the same way.
#[test]
fn base64_errors_read_like_the_decoders() {
    for text in ["!!!", "aGkaa", "aGl=", "aGk"] {
        let outside = STANDARD.decode(text).unwrap_err().to_string();
        let own = decode_embedded_png(&format!("data:image/png;base64,{text}")).unwrap_err();
        assert_eq!(own.message(), outside);
    }
}

/// The decoded limit is checked too: the encoded one lets a byte more through.
#[test]
fn decoded_images_are_limited() {
    let mut bytes = PNG.to_vec();
    bytes.resize(MAX_IMAGE_BYTES, 0);
    assert_eq!(accept_decoding(Ok(bytes.clone())).unwrap(), bytes);
    bytes.push(0);
    assert!(embed(&bytes).len() - "data:image/png;base64,".len() <= MAX_ENCODED_BYTES);
    let error = decode_embedded_png(&embed(&bytes)).unwrap_err();
    assert_eq!(error, EmbedError::TooLarge);
    assert_eq!(error.message(), "embedded image exceeds byte limit");
    assert_eq!(
        accept_decoding(Err(Base64Error::InvalidPadding)).unwrap_err(),
        EmbedError::Encoding(Base64Error::InvalidPadding)
    );
    assert_eq!(accept_decoding(Ok(vec![])).unwrap_err(), EmbedError::NotPng);
}

#[test]
fn a_document_is_planned_by_what_the_caller_may_do() {
    let md = "![a](photo.png) ![b](HTTP://h/x.png)\n\n![c](/etc/hosts) ![a](photo.png)";
    assert_eq!(
        steps(md, ALL),
        ["read photo.png", "fetch HTTP://h/x.png", "read /etc/hosts"]
    );
    assert_eq!(
        steps(md, Reach { local: false, remote: true }),
        ["fetch HTTP://h/x.png"]
    );
    assert_eq!(
        steps(md, Reach { local: true, remote: false }),
        ["read photo.png", "read /etc/hosts"]
    );
    assert!(steps(md, NONE).is_empty());
    assert!(steps("# hi\n\njust text", ALL).is_empty());
}

#[test]
fn a_client_is_built_only_for_remote_images() {
    let mut resolver = Resolver::for_document("![a](p.png) ![b](http://h/x.png)", ALL);
    assert!(resolver.needs_client());
    resolver.without_client();
    assert!(!resolver.needs_client());
    assert!(matches!(resolver.next_image(), Some(ImageStep::Read(_))));
    assert!(resolver.next_image().is_none());
    assert!(!Resolver::for_document("![a](p.png)", ALL).needs_client());
    let local = Reach { local: true, remote: false };
    assert!(!Resolver::for_document("![b](http://h/x.png)", local).needs_client());
}

#[test]
fn only_the_first_images_are_resolved() {
    let mut md = String::new();
    for i in 0..MAX_IMAGE_REFS + 8 {
        md.push_str(&format!("![pic](p{i}.png)\n\n"));
    }
    let steps = steps(&md, ALL);
    assert_eq!(steps.len(), MAX_IMAGE_REFS);
    assert_eq!(steps[0], "read p0.png");
    assert_eq!(steps[31], "read p31.png");
}

/// What was supplied before a pass is abandoned stays.
#[test]
fn supplied_images_are_kept() {
    let mut resolver = Resolver::for_document("![a](p.png) ![b](q.png)", ALL);
    let _ = resolver.next_image();
    resolver.supply("p.png".to_string(), Bitmap::new(3));
    let images = resolver.finish();
    assert_eq!(images.get("p.png").unwrap().height(), 3);
    assert!(images.get("q.png").is_none());
}

#[test]
fn local_paths_resolve_against_the_document() {
    assert!(matches!(
        local_path("a/b.png", true, Some("/docs")),
        LocalPath::Within(dir, dest) if dir == "/docs" && dest == "a/b.png"
    ));
    assert!(matches!(
        local_path("/a/b.png", false, Some("/docs")),
        LocalPath::AsGiven(dest) if dest == "/a/b.png"
    ));
    assert!(matches!(
        local_path("b.png", true, None),
        LocalPath::AsGiven(dest) if dest == "b.png"
    ));
}

#[test]
fn responses_are_judged_before_their_body() {
    assert_eq!(check_response(200, None), Ok(()));
    assert_eq!(check_response(204, Some(0)), Ok(()));
    assert_eq!(check_response(299, Some(5242880)), Ok(()));
    assert_eq!(check_response(200, Some(5242881)), Err(FetchError::Announced(5242881)));
    for status in [199, 301, 404, 500] {
        assert_eq!(check_response(status, None), Err(FetchError::Status(status)));
    }
    // The status comes first.
    assert_eq!(check_response(403, Some(u64::MAX)), Err(FetchError::Status(403)));
}

/// A missing or lying header cannot make the body grow over the limit.
#[test]
fn bodies_stop_at_the_limit() {
    let mut body = vec![];
    assert_eq!(accept_chunk(&mut body, &[1, 2, 3]), Ok(()));
    assert_eq!(accept_chunk(&mut body, &[]), Ok(()));
    assert_eq!(body, [1, 2, 3]);
    assert_eq!(accept_chunk(&mut body, &vec![0; 5242877]), Ok(()));
    assert_eq!(body.len(), 5242880);
    assert_eq!(accept_chunk(&mut body, &[9]), Err(FetchError::TooLarge));
    assert_eq!(body.len(), 5242880);
}

/// Only destinations that were handed out are kept, so a document never has more images than are
/// resolved for it.
#[test]
fn images_that_were_not_asked_for_are_dropped() {
    let md = "![a](p.png) ![b](http://h/x.png) ![c](q.png)";
    let mut resolver = Resolver::for_document(md, Reach { local: false, remote: true });
    resolver.supply("http://h/x.png".to_string(), Bitmap::new(1));
    assert!(matches!(resolver.next_image(), Some(ImageStep::Fetch(_))));
    for dest in ["p.png", "q.png", "other.png", "http://h/x.png"] {
        resolver.supply(dest.to_string(), Bitmap::new(2));
    }
    let images = resolver.finish();
    assert_eq!(images.get("http://h/x.png").unwrap().height(), 2);
    for dest in ["p.png", "q.png", "other.png"] {
        assert!(images.get(dest).is_none(), "{dest}");
    }
}

/// What files hold makes no difference to a caller that may not read them, nor what the network
/// answers to one that may not fetch.
#[test]
fn forbidden_sources_make_no_difference() {
    let md = format!("![a](p.png) ![b](http://h/x.png) ![c]({})", embed(PNG));
    let run = |reach: Reach, file: Option<usize>, answer: Option<usize>| {
        let mut resolver = Resolver::for_document(&md, reach);
        while let Some(step) = resolver.next_image() {
            let (dest, height) = match step {
                ImageStep::Inline(dest, bytes) => (dest, Some(bytes.len())),
                ImageStep::Fetch(dest) => (dest, answer),
                ImageStep::Read(dest) => (dest, file),
            };
            if let Some(height) = height {
                resolver.supply(dest, Bitmap::new(height));
            }
        }
        let images = resolver.finish();
        ["p.png", "http://h/x.png", embed(PNG).as_str()]
            .map(|dest| images.get(dest).map(|bitmap| bitmap.height()))
    };
    let remote = Reach { local: false, remote: true };
    assert_eq!(run(remote, Some(5), Some(6)), [None, Some(6), Some(27)]);
    assert_eq!(run(remote, Some(5), Some(6)), run(remote, None, Some(6)));
    let local = Reach { local: true, remote: false };
    assert_eq!(run(local, Some(5), Some(6)), [Some(5), None, Some(27)]);
    assert_eq!(run(local, Some(5), Some(6)), run(local, Some(5), None));
    assert_eq!(run(NONE, Some(5), Some(6)), run(NONE, None, None));
}
