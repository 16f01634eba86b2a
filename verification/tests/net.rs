//! What a fetch brought, drawn only as a raster image, and what the frame's network allows.

use mail_app::consent::Consent;
use mail_app::ids::{MessageId, ids};
use mail_app::net::{
    Got, MAX_BYTES, NetDecision, data_uri, decide, declared_too_long, embeddable, gather, sniff,
    ticket_for,
};

/// A 1 × 1 PNG's first bytes, and a little more.
fn png() -> Got {
    let mut bytes = b"\x89PNG\r\n\x1a\n".to_vec();
    bytes.extend_from_slice(&[0, 0, 0, 13, b'I', b'H', b'D', b'R']);
    Got { content_type: Some("image/png".to_owned()), bytes }
}

#[test]
fn only_a_raster_image_within_the_cap_becomes_a_data_uri() {
    let got = |content_type: Option<&str>, bytes: Vec<u8>| Got {
        content_type: content_type.map(str::to_owned),
        bytes,
    };
    let png_bytes = png().bytes;
    let jpeg = vec![0xff, 0xd8, 0xff, 0xe0, 0, 16];
    let gif = b"GIF89a\x01\x00\x01\x00".to_vec();
    let webp = b"RIFF\x10\x00\x00\x00WEBPVP8 ".to_vec();
    let svg = b"<svg xmlns=\"http://www.w3.org/2000/svg\"/>".to_vec();
    let mut huge = png_bytes.clone();
    huge.resize(16 * 1024 * 1024 + 1, 0);
    let cases: Vec<(&str, Got, Option<&str>)> = vec![
        ("png", got(Some("image/png"), png_bytes.clone()), Some("image/png")),
        ("jpeg with a parameter", got(Some("IMAGE/JPEG; q=1"), jpeg.clone()), Some("image/jpeg")),
        ("gif", got(Some("image/gif"), gif), Some("image/gif")),
        ("webp", got(Some("image/webp"), webp), Some("image/webp")),
        // The type written is what the bytes are, never the server's word for them.
        ("mislabelled raster", got(Some("image/png"), jpeg), Some("image/jpeg")),
        ("svg", got(Some("image/svg+xml"), svg.clone()), None),
        ("svg called a png", got(Some("image/png"), svg), None),
        ("html", got(Some("text/html"), b"<p>hi</p>".to_vec()), None),
        ("png called html", got(Some("text/html"), png_bytes.clone()), None),
        ("no type", got(None, png_bytes), None),
        ("empty", got(Some("image/png"), Vec::new()), None),
        ("past the cap", got(Some("image/png"), huge), None),
    ];
    for (name, got, want) in cases {
        let uri = data_uri(&got);
        match want {
            Some(kind) => assert!(
                uri.as_deref()
                    .is_some_and(|uri| uri.starts_with(&format!("data:{kind};base64,"))),
                "{name}: {:?}",
                uri.map(|uri| uri.chars().take(40).collect::<String>())
            ),
            None => assert!(uri.is_none(), "{name} was drawn"),
        }
    }
}

#[test]
fn the_bytes_are_base64_in_the_uri() {
    // The encoder's output, not its input: "GIF87a" encodes to "R0lGODdh".
    let got = Got { content_type: Some("image/gif".to_owned()), bytes: b"GIF87a".to_vec() };
    assert_eq!(data_uri(&got).as_deref(), Some("data:image/gif;base64,R0lGODdh"));
}

#[test]
fn the_magic_numbers_name_the_type() {
    assert_eq!(sniff(b"\x89PNG\r\n\x1a\nrest"), Some("image/png"));
    assert_eq!(sniff(&[0xff, 0xd8, 0xff]), Some("image/jpeg"));
    assert_eq!(sniff(b"GIF87a"), Some("image/gif"));
    assert_eq!(sniff(b"RIFF\0\0\0\0WEBP"), Some("image/webp"));
    assert_eq!(sniff(b"RIFF\0\0\0\0WEB"), None);
    assert_eq!(sniff(b"<svg"), None);
    assert_eq!(embeddable(" Image/WebP ; x=y"), Some("image/webp"));
    assert_eq!(embeddable("image/svg+xml"), None);
}

#[test]
fn the_window_s_own_document_fetches_nothing_and_a_frame_what_its_message_names() {
    let mut consent = Consent::new();
    let holder = consent.holder();
    let (thread, message, other) = ids(10);
    let url = "https://cdn.test/a.png";
    assert_eq!(decide(&consent, Some(message), url), NetDecision::Deny);
    consent.hold(holder, thread, Some(vec![(message, vec![url.to_owned()])]));
    assert_eq!(decide(&consent, Some(message), url), NetDecision::Allow);
    assert_eq!(decide(&consent, None, url), NetDecision::Deny);
    assert_eq!(decide(&consent, Some(other), url), NetDecision::Deny);
    assert_eq!(decide(&consent, Some(MessageId(77)), url), NetDecision::Deny);
    let ticket = ticket_for(&consent, Some(message), url).expect("admitted");
    assert!(consent.stands(ticket));
    assert_eq!(ticket_for(&consent, None, url), None);
}

#[test]
fn a_response_is_read_only_within_the_cap() {
    assert!(declared_too_long(Some(MAX_BYTES as u64 + 1)));
    assert!(!declared_too_long(Some(MAX_BYTES as u64)));
    assert!(!declared_too_long(None));
    let mut bytes = vec![1u8; MAX_BYTES - 2];
    assert!(gather(&mut bytes, &[2, 3]));
    assert_eq!(bytes.len(), MAX_BYTES);
    assert!(!gather(&mut bytes, &[4]));
    assert_eq!(bytes.len(), MAX_BYTES);
    assert_eq!(&bytes[MAX_BYTES - 2..], &[2, 3]);
}
