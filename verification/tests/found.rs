//! Where a highlight lands: each text leaf under the key the renderer draws it with, and the
//! marks numbered across the thread.

use mail_app::found::{FindAct, FindStep, find_key};
use mail_app::blocks::{Block, ImgSrc, Span};
use mail_app::found::{
    Action, Document, Found, LeafMarks, Mark, Numbering, Shape, find_in, leaves,
};

fn text(s: &str) -> Span {
    Span::Text(s.to_owned())
}

fn document() -> Document {
    Document {
        shape: Shape::Machine,
        primary: Some(Action { label: "Track".to_owned(), url: "https://x.test".to_owned() }),
        blocks: vec![
            Block::Heading { level: 1, spans: vec![text("Hello")] },
            Block::Paragraph { spans: vec![text("a "), Span::Strong(vec![text("bold")]), Span::Break] },
            Block::Quote {
                attribution: Some(vec![text("Bea wrote")]),
                blocks: vec![Block::Paragraph { spans: vec![text("quoted")] }],
            },
            Block::Code { text: "let x;".to_owned(), lang: None },
            Block::Table {
                head: Some(vec![vec![text("Item")]]),
                rows: vec![vec![vec![text("Tea")], vec![text("3")]]],
            },
            Block::Facts(vec![(vec![text("Total")], vec![text("€3")])]),
            Block::Button { label: "Pay".to_owned(), url: "https://pay.test".to_owned() },
            Block::List { ordered: false, items: vec![vec![Block::Paragraph { spans: vec![text("one")] }]] },
            Block::Signature(vec![Block::Paragraph { spans: vec![text("--")] }]),
            Block::Image { src: ImgSrc::Remote("https://i.test/a.png".to_owned()), alt: String::new(), width: None, height: None },
            Block::Rule,
        ],
    }
}

#[test]
fn every_leaf_is_named_by_the_key_the_renderer_draws_it_under() {
    let got: Vec<(String, String)> = leaves(&document()).into_iter().map(|l| (l.key, l.text)).collect();
    let want: Vec<(&str, &str)> = vec![
        ("primary", "Track"),
        ("0.0/0", "Hello"),
        ("0.1/0", "a "),
        ("0.1/1/0", "bold"),
        ("0.2/who/0", "Bea wrote"),
        ("0.2.q.0/0", "quoted"),
        ("0.3/code", "let x;"),
        ("0.4/h0/0", "Item"),
        ("0.4/r0c0/0", "Tea"),
        ("0.4/r0c1/0", "3"),
        ("0.5/k0/0", "Total"),
        ("0.5/v0/0", "€3"),
        ("0.6/btn", "Pay"),
        ("0.7.0.0/0", "one"),
        ("0.8.s.0/0", "--"),
    ];
    let want: Vec<(String, String)> = want.into_iter().map(|(k, t)| (k.to_owned(), t.to_owned())).collect();
    assert_eq!(got, want);
}

#[test]
fn a_prose_body_has_no_primary_leaf() {
    let mut doc = document();
    doc.shape = Shape::Prose;
    assert_eq!(leaves(&doc)[0].key, "0.0/0");
}

fn marks(n: usize) -> Vec<Mark> {
    (0..n).map(|i| Mark { start: i, end: i + 1 }).collect()
}

fn leaf(key: &str, n: usize) -> LeafMarks {
    LeafMarks { key: key.to_owned(), marks: marks(n) }
}

#[test]
fn the_marks_are_numbered_across_the_thread() {
    let marked = vec![
        vec![leaf("0.0/0", 2), leaf("0.1/0", 0), leaf("0.2.q.0/0", 1)],
        vec![],
        vec![leaf("0.0/0", 3)],
    ];
    let (found, total) = find_in(&marked);
    assert_eq!(total, 6, "the count is every mark on the page");
    assert_eq!(found.len(), 3);
    let (first, numbering) = found[0].at("0.0/0");
    assert_eq!(first.len(), 2);
    assert_eq!(numbering, Numbering { first: 0, current: None });
    let (_, quoted) = found[0].at("0.2.q.0/0");
    assert_eq!(quoted.first, 2);
    let (none, default) = found[0].at("0.1/0");
    assert!(none.is_empty(), "a leaf with no mark has none");
    assert_eq!(default, Numbering { first: 0, current: None });
    let (third, numbering) = found[2].at("0.0/0");
    assert_eq!((third.len(), numbering.first), (3, 3));
    let found: Vec<Found> = found.into_iter().map(|f| f.with_current(Some(4))).collect();
    assert_eq!(found[2].at("0.0/0").1.current, Some(4));
}

#[test]
fn a_folded_quote_knows_a_match_is_inside() {
    let (found, _) = find_in(&vec![vec![leaf("0.2.q.0/0", 1), leaf("0.3/code", 1)]]);
    assert!(found[0].inside("0.2.q"));
    assert!(found[0].inside("0.2"));
    assert!(!found[0].inside("0.3"), "a leaf is not inside its own key");
    assert!(!found[0].inside("0.4"));
    assert!(!Found::default().inside("0"));
}

#[test]
fn keys_in_the_find_field_step_close_or_stay_there() {
    assert_eq!(find_key("Enter", false, false), FindAct::Step(FindStep::Next));
    assert_eq!(find_key("Enter", false, true), FindAct::Step(FindStep::Previous));
    assert_eq!(find_key("Escape", false, false), FindAct::Close);
    assert_eq!(find_key("f", true, false), FindAct::Select);
    assert_eq!(find_key("F", true, true), FindAct::Select);
    assert_eq!(find_key("t", true, false), FindAct::Pass, "Ctrl T is the window's");
    assert_eq!(find_key("Enter", true, false), FindAct::Pass);
    assert_eq!(find_key("a", false, false), FindAct::Keep, "a letter typed is not a shortcut");
    assert_eq!(find_key("f", false, false), FindAct::Select);
}
