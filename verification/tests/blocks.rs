//! A message's body as blocks: the text of spans, the amount columns of a table, and the quotes
//! a fold holds.

use mail_app::blocks::{
    Block, Span, earlier_messages, folded, looks_numeric, numeric_columns, quote_nodes, span_text,
};
use mail_app::found::{Found, LeafMarks, Mark, find_in};

fn text(s: &str) -> Span {
    Span::Text(s.to_owned())
}

fn cell(s: &str) -> Vec<Span> {
    vec![text(s)]
}

#[test]
fn the_text_of_spans_reads_a_break_as_a_space() {
    let spans = vec![
        text("Total"),
        Span::Break,
        Span::Strong(vec![text("€"), Span::Code("12".to_owned())]),
        Span::Link { spans: vec![text(" due")], href: "https://x.test".to_owned() },
    ];
    assert_eq!(span_text(&spans), "Total €12 due");
}

#[test]
fn an_amount_is_digits_past_its_currency_or_sign() {
    for yes in ["12", "€ 1,234.50", "-3", "−3", "×2", "12 %", "1\u{a0}000"] {
        assert!(looks_numeric(yes), "{yes}");
    }
    for no in ["", "€", "twelve", "12 kg", "v2", "-"] {
        assert!(!looks_numeric(no), "{no}");
    }
}

#[test]
fn a_column_of_amounts_is_set_right_and_a_word_keeps_it_left() {
    let rows = vec![
        vec![cell("Tea"), cell("€3.00"), cell("")],
        vec![cell("Cake"), cell("€4.50"), cell("note")],
        vec![cell("Total"), cell(""), cell("")],
        vec![cell("12")],
    ];
    assert_eq!(numeric_columns(&rows), vec![false, true, false]);
    let empty: Vec<Vec<Vec<Span>>> = Vec::new();
    assert!(numeric_columns(&empty).is_empty());
    assert_eq!(numeric_columns(&vec![vec![cell(" ")]]), vec![false], "an empty column holds no amount");
}

fn quote(blocks: Vec<Block>) -> Block {
    Block::Quote { attribution: None, blocks }
}

#[test]
fn a_fold_counts_the_quotes_it_holds() {
    let para = || Block::Paragraph { spans: vec![text("x")] };
    let blocks = vec![
        para(),
        quote(vec![quote(vec![para()])]),
        Block::List { ordered: false, items: vec![vec![quote(vec![])], vec![para()]] },
        Block::Signature(vec![quote(vec![])]),
    ];
    assert_eq!(quote_nodes(&blocks), 4);
    assert_eq!(earlier_messages(&vec![para()]), "1 earlier message");
    assert_eq!(earlier_messages(&blocks), "5 earlier messages");
}

#[test]
fn a_quote_within_a_quote_folds_unless_opened_or_a_match_is_inside() {
    let (found, _) = find_in(&vec![vec![LeafMarks {
        key: "0.1.q.0.q.0/0".to_owned(),
        marks: vec![Mark { start: 0, end: 1 }],
    }]]);
    let none = Found::default();
    assert!(folded(true, false, &none, "0.1.q.0"));
    assert!(!folded(false, false, &none, "0.1"), "a quote at the top is open");
    assert!(!folded(true, true, &none, "0.1.q.0"), "the reader opened it");
    assert!(!folded(true, false, &found[0], "0.1.q.0.q"), "a match inside opens it");
    assert!(folded(true, false, &found[0], "0.2.q"));
}
