//! The Reader view's own image fetches: only what the consented reader draws, each once per
//! grant, kept only while the grant stands.

use mail_app::blocks::{Block, ImgSrc};
use mail_app::found::{Document, Shape};
use mail_app::ids::ThreadId;
use mail_app::net::Got;
use mail_app::remote::{Drawn, Picture, wanted};

const A: &str = "https://images.example.test/a.png";
const B: &str = "https://images.example.test/b.png";

fn png() -> Got {
    let mut bytes = b"\x89PNG\r\n\x1a\n".to_vec();
    bytes.extend_from_slice(&[0, 0, 0, 13, b'I', b'H', b'D', b'R']);
    Got { content_type: Some("image/png".to_owned()), bytes }
}

fn remote(url: &str) -> Block {
    Block::Image { src: ImgSrc::Remote(url.to_owned()), alt: String::new(), width: None, height: None }
}

fn urls(v: &[&str]) -> Vec<String> {
    v.iter().map(|u| (*u).to_owned()).collect()
}

#[test]
fn the_wanted_images_are_web_addresses_each_once_nested_ones_included() {
    let doc = Document {
        shape: Shape::Prose,
        primary: None,
        blocks: vec![
            remote(A),
            remote("cid:logo@here"),
            Block::Quote { attribution: None, blocks: vec![remote(B), remote(A)] },
            Block::List { ordered: true, items: vec![vec![remote("http://plain.test/c.gif")]] },
            Block::Image { src: ImgSrc::Blocked { host: "x.test".to_owned() }, alt: String::new(), width: None, height: None },
            Block::Signature(vec![remote("file:///etc/passwd")]),
        ],
    };
    let other = Document { shape: Shape::Prose, primary: None, blocks: vec![remote(B), remote("https://d.test/d.png")] };
    assert_eq!(
        wanted(&vec![&doc, &other]),
        urls(&[A, "http://plain.test/c.gif", B, "https://d.test/d.png"]),
        "a level's own images first, then its nested levels, the last one first"
    );
}

#[test]
fn nothing_is_fetched_before_consent() {
    let mut drawn = Drawn::new();
    let thread = ThreadId(1);
    drawn.hold(thread, false);
    let (_, fresh) = drawn.ask(thread, &urls(&[A]), true);
    assert!(fresh.is_empty());
    assert!(drawn.picture(A).is_none());
}

#[test]
fn consent_fetches_each_image_once() {
    let mut drawn = Drawn::new();
    let thread = ThreadId(1);
    drawn.hold(thread, true);
    let (generation, fresh) = drawn.ask(thread, &urls(&[A, B]), true);
    assert_eq!(fresh, urls(&[A, B]));
    assert!(matches!(drawn.picture(A), Some(Picture::Loading)));
    let (again, none) = drawn.ask(thread, &urls(&[A, B]), true);
    assert!(none.is_empty(), "an image was fetched twice");
    assert_eq!(again, generation);
    assert!(drawn.land(generation, A.to_owned(), Some(png())));
    match drawn.picture(A) {
        Some(Picture::Shown(uri)) => assert!(uri.starts_with("data:image/png;base64,")),
        other => panic!("{other:?}"),
    }
    let page = Got { content_type: Some("text/html".to_owned()), bytes: b"<script>".to_vec() };
    assert!(drawn.land(generation, B.to_owned(), Some(page)));
    assert!(matches!(drawn.picture(B), Some(Picture::Refused)));
}

#[test]
fn without_a_fetcher_an_image_asked_for_is_refused() {
    let mut drawn = Drawn::new();
    let thread = ThreadId(1);
    drawn.hold(thread, true);
    let (_, fresh) = drawn.ask(thread, &urls(&[A]), false);
    assert_eq!(fresh, urls(&[A]));
    assert!(matches!(drawn.picture(A), Some(Picture::Refused)));
}

#[test]
fn another_thread_drops_the_images_and_what_lands_late() {
    let mut drawn = Drawn::new();
    let (first, second) = (ThreadId(1), ThreadId(2));
    drawn.hold(first, true);
    let (generation, _) = drawn.ask(first, &urls(&[A]), true);
    drawn.hold(second, true);
    assert!(drawn.picture(A).is_none(), "a revoked image is still drawn");
    assert!(!drawn.stands(generation));
    assert!(!drawn.land(generation, A.to_owned(), Some(png())), "a late answer was kept");
    assert!(drawn.picture(A).is_none());
    let (_, fresh) = drawn.ask(second, &urls(&[A]), true);
    assert_eq!(fresh, urls(&[A]), "the new grant asks again");
}

#[test]
fn a_fetch_asks_only_for_what_the_grant_does_not_hold() {
    let mut drawn = Drawn::new();
    let thread = ThreadId(4);
    drawn.hold(thread, true);
    let (generation, first) = drawn.ask(thread, &urls(&[A]), true);
    assert_eq!(first, urls(&[A]));
    let (same, more) = drawn.ask(thread, &urls(&[A, B]), true);
    assert_eq!(more, urls(&[B]), "only what is not held yet");
    assert_eq!(same, generation, "the same grant");
    assert!(matches!(drawn.picture(B), Some(Picture::Loading)));
}
