//! Where a highlight lands in a thread's parsed bodies.
//!
//! The blocks are walked in reading order, one text leaf at a time, and each leaf is named by
//! the key the renderer gives it: the block path (`0.2.q.0`), then `/` and the span's index.
//! Marks are looked up by that key, so the order the page happens to be drawn in cannot
//! renumber a match, and "3 of 12" counts exactly the marks on the page.

use vstd::prelude::*;
use crate::blocks::{Block, Span};
use crate::text::{cat, cat3, dec, decimal};

verus! {

/// How a body is shaped: the receipt of a machine draws its primary action first.
#[derive(PartialEq, Eq, Structural, Clone, Copy, Debug)]
pub enum Shape {
    Prose,
    Machine,
    Layout,
}

/// A machine body's main action.
pub struct Action {
    pub label: String,
    pub url: String,
}

/// A parsed body.
pub struct Document {
    pub shape: Shape,
    pub primary: Option<Action>,
    pub blocks: Vec<Block>,
}

/// A text leaf: the key it is drawn under, and its text.
pub struct Leaf {
    pub key: String,
    pub text: String,
}

/// A leaf as plain values.
pub open spec fn leaf_view(leaf: Leaf) -> (Seq<char>, Seq<char>) {
    (leaf.key@, leaf.text@)
}

/// Leaves as plain values.
pub open spec fn leaf_views(leaves: Seq<Leaf>) -> Seq<(Seq<char>, Seq<char>)> {
    leaves.map_values(|leaf: Leaf| leaf_view(leaf))
}

/// The key of a machine body's primary action.
pub open spec fn primary_key() -> Seq<char> {
    seq!['p', 'r', 'i', 'm', 'a', 'r', 'y']
}

/// `path`, `sep`, then the decimal `i`.
pub open spec fn keyed(path: Seq<char>, sep: Seq<char>, i: int) -> Seq<char> {
    path + sep + dec(i as nat)
}

/// The leaves of `items`, span `i` under `key/i`.
pub open spec fn spans_leaves(items: Seq<Span>, key: Seq<char>) -> Seq<(Seq<char>, Seq<char>)>
    decreases items,
{
    if items.len() == 0 {
        seq![]
    } else {
        spans_leaves(items.drop_last(), key)
            + span_leaves(items.last(), keyed(key, seq!['/'], items.len() - 1))
    }
}

/// The leaves of one span drawn under `here`.
pub open spec fn span_leaves(span: Span, here: Seq<char>) -> Seq<(Seq<char>, Seq<char>)>
    decreases span,
{
    match span {
        Span::Text(t) => seq![(here, t@)],
        Span::Code(t) => seq![(here, t@)],
        Span::Break => seq![],
        Span::Strong(inner) => spans_leaves(inner@, here),
        Span::Emphasis(inner) => spans_leaves(inner@, here),
        Span::Link { spans, .. } => spans_leaves(spans@, here),
    }
}

/// The leaves of cells, cell `i` under `path` + `tag` + `i`.
pub open spec fn cells_leaves(cells: Seq<Vec<Span>>, path: Seq<char>, tag: Seq<char>) -> Seq<
    (Seq<char>, Seq<char>),
>
    decreases cells.len(),
{
    if cells.len() == 0 {
        seq![]
    } else {
        cells_leaves(cells.drop_last(), path, tag) + spans_leaves(
            cells.last()@,
            keyed(path, tag, cells.len() - 1),
        )
    }
}

/// The tag of row `r`'s cells: `/r{r}c`.
pub open spec fn row_tag(r: int) -> Seq<char> {
    seq!['/', 'r'] + dec(r as nat) + seq!['c']
}

/// The leaves of a table's rows, cell `c` of row `r` under `path/r{r}c{c}`.
pub open spec fn rows_leaves(rows: Seq<Vec<Vec<Span>>>, path: Seq<char>) -> Seq<
    (Seq<char>, Seq<char>),
>
    decreases rows.len(),
{
    if rows.len() == 0 {
        seq![]
    } else {
        rows_leaves(rows.drop_last(), path) + cells_leaves(
            rows.last()@,
            path,
            row_tag(rows.len() - 1),
        )
    }
}

/// The leaves of a list of facts, label `i` under `path/k{i}` and value `i` under `path/v{i}`.
pub open spec fn facts_leaves(pairs: Seq<(Vec<Span>, Vec<Span>)>, path: Seq<char>) -> Seq<
    (Seq<char>, Seq<char>),
>
    decreases pairs.len(),
{
    if pairs.len() == 0 {
        seq![]
    } else {
        let i = pairs.len() - 1;
        facts_leaves(pairs.drop_last(), path) + spans_leaves(
            pairs.last().0@,
            keyed(path, seq!['/', 'k'], i),
        ) + spans_leaves(pairs.last().1@, keyed(path, seq!['/', 'v'], i))
    }
}

/// The leaves of `blocks`, block `i` under `path.i`.
pub open spec fn blocks_leaves(blocks: Seq<Block>, path: Seq<char>) -> Seq<(Seq<char>, Seq<char>)>
    decreases blocks,
{
    if blocks.len() == 0 {
        seq![]
    } else {
        blocks_leaves(blocks.drop_last(), path) + block_leaves(
            blocks.last(),
            keyed(path, seq!['.'], blocks.len() - 1),
        )
    }
}

/// The leaves of a list's items, item `i` under `path.i`.
pub open spec fn items_leaves(items: Seq<Vec<Block>>, path: Seq<char>) -> Seq<
    (Seq<char>, Seq<char>),
>
    decreases items,
{
    if items.len() == 0 {
        seq![]
    } else {
        items_leaves(items.drop_last(), path) + blocks_leaves(
            items.last()@,
            keyed(path, seq!['.'], items.len() - 1),
        )
    }
}

/// The leaves of one block drawn under `path`.
pub open spec fn block_leaves(block: Block, path: Seq<char>) -> Seq<(Seq<char>, Seq<char>)>
    decreases block,
{
    match block {
        Block::Heading { spans, .. } => spans_leaves(spans@, path),
        Block::Paragraph { spans } => spans_leaves(spans@, path),
        Block::List { items, .. } => items_leaves(items@, path),
        Block::Quote { attribution, blocks } => {
            let who = match attribution {
                Some(who) => spans_leaves(who@, path + seq!['/', 'w', 'h', 'o']),
                None => seq![],
            };
            who + blocks_leaves(blocks@, path + seq!['.', 'q'])
        },
        Block::Code { text, .. } => seq![(path + seq!['/', 'c', 'o', 'd', 'e'], text@)],
        Block::Table { head, rows } => {
            let heads = match head {
                Some(cells) => cells_leaves(cells@, path, seq!['/', 'h']),
                None => seq![],
            };
            heads + rows_leaves(rows@, path)
        },
        Block::Facts(pairs) => facts_leaves(pairs@, path),
        Block::Button { label, .. } => seq![(path + seq!['/', 'b', 't', 'n'], label@)],
        Block::Signature(blocks) => blocks_leaves(blocks@, path + seq!['.', 's']),
        Block::Image { .. } => seq![],
        Block::Rule => seq![],
    }
}

/// Every text leaf of `document` in reading order: a machine body's primary action first,
/// then the blocks under `0`.
pub open spec fn document_leaves(document: Document) -> Seq<(Seq<char>, Seq<char>)> {
    let first = match document.primary {
        Some(action) => if document.shape == Shape::Machine {
            seq![(primary_key(), action.label@)]
        } else {
            seq![]
        },
        None => seq![],
    };
    first + blocks_leaves(document.blocks@, seq!['0'])
}

/// Pushing a leaf pushes its plain values.
proof fn lemma_leaf_push(leaves: Seq<Leaf>, leaf: Leaf)
    ensures
        leaf_views(leaves.push(leaf)) == leaf_views(leaves).push(leaf_view(leaf)),
{
    assert(leaf_views(leaves.push(leaf)) =~= leaf_views(leaves).push(leaf_view(leaf)));
}

fn push_leaf(out: &mut Vec<Leaf>, key: String, text: String)
    ensures
        leaf_views(final(out)@) == leaf_views(old(out)@).push((key@, text@)),
{
    let leaf = Leaf { key, text };
    proof {
        lemma_leaf_push(out@, leaf);
    }
    out.push(leaf);
}

/// `path`, `sep`, then the decimal `i`, as a string.
fn key_of(path: &str, sep: &str, i: usize) -> (r: String)
    ensures
        r@ == keyed(path@, sep@, i as int),
{
    let n = decimal(i as u64);
    cat3(path, sep, n.as_str())
}

fn walk_spans(items: &Vec<Span>, key: &str, out: &mut Vec<Leaf>)
    ensures
        leaf_views(final(out)@) == leaf_views(old(out)@) + spans_leaves(items@, key@),
    decreases items,
{
    let ghost start = leaf_views(out@);
    let mut i: usize = 0;
    while i < items.len()
        invariant
            i <= items.len(),
            leaf_views(out@) == start + spans_leaves(items@.subrange(0, i as int), key@),
        decreases items.len() - i,
    {
        let ghost before = leaf_views(out@);
        proof {
            reveal_strlit("/");
        }
        let here = key_of(key, "/", i);
        match &items[i] {
            Span::Text(t) => push_leaf(out, here, t.clone()),
            Span::Code(t) => push_leaf(out, here, t.clone()),
            Span::Break => {},
            Span::Strong(inner) => walk_spans(inner, here.as_str(), out),
            Span::Emphasis(inner) => walk_spans(inner, here.as_str(), out),
            Span::Link { spans, .. } => walk_spans(spans, here.as_str(), out),
        }
        assert(items@.subrange(0, i + 1).drop_last() =~= items@.subrange(0, i as int));
        assert(leaf_views(out@) =~= before + span_leaves(items@[i as int], here@));
        assert(here@ == keyed(key@, seq!['/'], i as int));
        assert(items@.subrange(0, i + 1).last() == items@[i as int]);
        assert(spans_leaves(items@.subrange(0, i + 1), key@) == spans_leaves(
            items@.subrange(0, i as int),
            key@,
        ) + span_leaves(items@[i as int], here@));
        i = i + 1;
    }
    assert(items@.subrange(0, items.len() as int) =~= items@);
}

fn walk_cells(cells: &Vec<Vec<Span>>, path: &str, tag: &str, out: &mut Vec<Leaf>)
    ensures
        leaf_views(final(out)@) == leaf_views(old(out)@) + cells_leaves(cells@, path@, tag@),
{
    let ghost start = leaf_views(out@);
    let mut i: usize = 0;
    while i < cells.len()
        invariant
            i <= cells.len(),
            leaf_views(out@) == start + cells_leaves(cells@.subrange(0, i as int), path@, tag@),
        decreases cells.len() - i,
    {
        let ghost before = leaf_views(out@);
        let here = key_of(path, tag, i);
        walk_spans(&cells[i], here.as_str(), out);
        assert(cells@.subrange(0, i + 1).drop_last() =~= cells@.subrange(0, i as int));
        assert(cells@.subrange(0, i + 1).last() == cells@[i as int]);
        assert(leaf_views(out@) =~= before + spans_leaves(cells@[i as int]@, here@));
        i = i + 1;
    }
    assert(cells@.subrange(0, cells.len() as int) =~= cells@);
}

fn walk_rows(rows: &Vec<Vec<Vec<Span>>>, path: &str, out: &mut Vec<Leaf>)
    ensures
        leaf_views(final(out)@) == leaf_views(old(out)@) + rows_leaves(rows@, path@),
{
    let ghost start = leaf_views(out@);
    let mut r: usize = 0;
    while r < rows.len()
        invariant
            r <= rows.len(),
            leaf_views(out@) == start + rows_leaves(rows@.subrange(0, r as int), path@),
        decreases rows.len() - r,
    {
        let ghost before = leaf_views(out@);
        proof {
            reveal_strlit("/r");
            reveal_strlit("c");
        }
        let n = decimal(r as u64);
        let tag = cat3("/r", n.as_str(), "c");
        assert(tag@ == row_tag(r as int));
        walk_cells(&rows[r], path, tag.as_str(), out);
        assert(rows@.subrange(0, r + 1).drop_last() =~= rows@.subrange(0, r as int));
        assert(rows@.subrange(0, r + 1).last() == rows@[r as int]);
        assert(leaf_views(out@) =~= before + cells_leaves(rows@[r as int]@, path@, tag@));
        r = r + 1;
    }
    assert(rows@.subrange(0, rows.len() as int) =~= rows@);
}

fn walk_facts(pairs: &Vec<(Vec<Span>, Vec<Span>)>, path: &str, out: &mut Vec<Leaf>)
    ensures
        leaf_views(final(out)@) == leaf_views(old(out)@) + facts_leaves(pairs@, path@),
{
    let ghost start = leaf_views(out@);
    let mut i: usize = 0;
    while i < pairs.len()
        invariant
            i <= pairs.len(),
            leaf_views(out@) == start + facts_leaves(pairs@.subrange(0, i as int), path@),
        decreases pairs.len() - i,
    {
        let ghost before = leaf_views(out@);
        proof {
            reveal_strlit("/k");
            reveal_strlit("/v");
        }
        let label_key = key_of(path, "/k", i);
        let value_key = key_of(path, "/v", i);
        walk_spans(&pairs[i].0, label_key.as_str(), out);
        let ghost middle = leaf_views(out@);
        walk_spans(&pairs[i].1, value_key.as_str(), out);
        assert(pairs@.subrange(0, i + 1).drop_last() =~= pairs@.subrange(0, i as int));
        assert(pairs@.subrange(0, i + 1).last() == pairs@[i as int]);
        assert(leaf_views(out@) =~= before + spans_leaves(pairs@[i as int].0@, label_key@)
            + spans_leaves(pairs@[i as int].1@, value_key@));
        assert(label_key@ == keyed(path@, seq!['/', 'k'], i as int));
        assert(value_key@ == keyed(path@, seq!['/', 'v'], i as int));
        assert(facts_leaves(pairs@.subrange(0, i + 1), path@) == facts_leaves(
            pairs@.subrange(0, i as int),
            path@,
        ) + spans_leaves(pairs@[i as int].0@, label_key@) + spans_leaves(
            pairs@[i as int].1@,
            value_key@,
        ));
        i = i + 1;
    }
    assert(pairs@.subrange(0, pairs.len() as int) =~= pairs@);
}

fn walk_blocks(blocks: &Vec<Block>, path: &str, out: &mut Vec<Leaf>)
    ensures
        leaf_views(final(out)@) == leaf_views(old(out)@) + blocks_leaves(blocks@, path@),
    decreases blocks,
{
    let ghost start = leaf_views(out@);
    let mut i: usize = 0;
    while i < blocks.len()
        invariant
            i <= blocks.len(),
            leaf_views(out@) == start + blocks_leaves(blocks@.subrange(0, i as int), path@),
        decreases blocks.len() - i,
    {
        let ghost before = leaf_views(out@);
        proof {
            reveal_strlit(".");
        }
        let here = key_of(path, ".", i);
        walk_block(&blocks[i], here.as_str(), out);
        assert(blocks@.subrange(0, i + 1).drop_last() =~= blocks@.subrange(0, i as int));
        assert(blocks@.subrange(0, i + 1).last() == blocks@[i as int]);
        assert(here@ == keyed(path@, seq!['.'], i as int));
        assert(leaf_views(out@) =~= before + block_leaves(blocks@[i as int], here@));
        i = i + 1;
    }
    assert(blocks@.subrange(0, blocks.len() as int) =~= blocks@);
}

fn walk_items(items: &Vec<Vec<Block>>, path: &str, out: &mut Vec<Leaf>)
    ensures
        leaf_views(final(out)@) == leaf_views(old(out)@) + items_leaves(items@, path@),
    decreases items,
{
    let ghost start = leaf_views(out@);
    let mut i: usize = 0;
    while i < items.len()
        invariant
            i <= items.len(),
            leaf_views(out@) == start + items_leaves(items@.subrange(0, i as int), path@),
        decreases items.len() - i,
    {
        let ghost before = leaf_views(out@);
        proof {
            reveal_strlit(".");
        }
        let here = key_of(path, ".", i);
        walk_blocks(&items[i], here.as_str(), out);
        assert(items@.subrange(0, i + 1).drop_last() =~= items@.subrange(0, i as int));
        assert(items@.subrange(0, i + 1).last() == items@[i as int]);
        assert(here@ == keyed(path@, seq!['.'], i as int));
        assert(leaf_views(out@) =~= before + blocks_leaves(items@[i as int]@, here@));
        i = i + 1;
    }
    assert(items@.subrange(0, items.len() as int) =~= items@);
}

fn walk_block(block: &Block, path: &str, out: &mut Vec<Leaf>)
    ensures
        leaf_views(final(out)@) == leaf_views(old(out)@) + block_leaves(*block, path@),
    decreases block,
{
    let ghost start = leaf_views(out@);
    proof {
        reveal_strlit("/who");
        reveal_strlit(".q");
        reveal_strlit("/code");
        reveal_strlit("/h");
        reveal_strlit("/btn");
        reveal_strlit(".s");
    }
    match block {
        Block::Heading { spans, .. } => {
            walk_spans(spans, path, out);
            assert(block_leaves(*block, path@) == spans_leaves(spans@, path@));
        },
        Block::Paragraph { spans } => {
            walk_spans(spans, path, out);
            assert(block_leaves(*block, path@) == spans_leaves(spans@, path@));
        },
        Block::List { items, .. } => {
            walk_items(items, path, out);
            assert(block_leaves(*block, path@) == items_leaves(items@, path@));
        },
        Block::Quote { attribution, blocks } => {
            match attribution {
                Some(who) => {
                    let key = cat(path, "/who");
                    assert(key@ == path@ + seq!['/', 'w', 'h', 'o']);
                    walk_spans(who, key.as_str(), out);
                },
                None => {
                    assert(leaf_views(out@) =~= start + seq![]);
                },
            }
            let ghost middle = leaf_views(out@);
            assert(middle =~= start + match attribution {
                Some(who) => spans_leaves(who@, path@ + seq!['/', 'w', 'h', 'o']),
                None => seq![],
            });
            let inner = cat(path, ".q");
            assert(inner@ == path@ + seq!['.', 'q']);
            walk_blocks(blocks, inner.as_str(), out);
            assert(leaf_views(out@) =~= start + block_leaves(*block, path@));
        },
        Block::Code { text, .. } => {
            let key = cat(path, "/code");
            assert(key@ == path@ + seq!['/', 'c', 'o', 'd', 'e']);
            assert(block_leaves(*block, path@) == seq![(key@, text@)]);
            push_leaf(out, key, text.clone());
            assert(leaf_views(out@) =~= start + block_leaves(*block, path@));
        },
        Block::Table { head, rows } => {
            match head {
                Some(cells) => {
                    assert("/h"@ == seq!['/', 'h']);
                    walk_cells(cells, path, "/h", out);
                },
                None => {
                    assert(leaf_views(out@) =~= start + seq![]);
                },
            }
            walk_rows(rows, path, out);
            assert(leaf_views(out@) =~= start + block_leaves(*block, path@));
        },
        Block::Facts(pairs) => {
            walk_facts(pairs, path, out);
            assert(block_leaves(*block, path@) == facts_leaves(pairs@, path@));
        },
        Block::Button { label, .. } => {
            let key = cat(path, "/btn");
            assert(key@ == path@ + seq!['/', 'b', 't', 'n']);
            push_leaf(out, key, label.clone());
            assert(leaf_views(out@) =~= start + block_leaves(*block, path@));
        },
        Block::Signature(blocks) => {
            let inner = cat(path, ".s");
            assert(inner@ == path@ + seq!['.', 's']);
            walk_blocks(blocks, inner.as_str(), out);
        },
        Block::Image { .. } => {
            assert(leaf_views(out@) =~= start + block_leaves(*block, path@));
        },
        Block::Rule => {
            assert(leaf_views(out@) =~= start + block_leaves(*block, path@));
        },
    }
}

/// Every text leaf in `document`, in reading order, with the key the renderer draws it under.
pub fn leaves(document: &Document) -> (r: Vec<Leaf>)
    ensures
        leaf_views(r@) == document_leaves(*document),
{
    let mut out: Vec<Leaf> = Vec::new();
    proof {
        reveal_strlit("primary");
        reveal_strlit("0");
    }
    assert(leaf_views(out@) =~= seq![]);
    if document.shape == Shape::Machine {
        match &document.primary {
            Some(action) => {
                let key = String::from_str("primary");
                assert(key@ == primary_key());
                push_leaf(&mut out, key, action.label.clone());
                assert(leaf_views(out@) =~= seq![(primary_key(), action.label@)]);
            },
            None => {},
        }
    }
    let ghost first = leaf_views(out@);
    assert(first =~= match document.primary {
        Some(action) => if document.shape == Shape::Machine {
            seq![(primary_key(), action.label@)]
        } else {
            seq![]
        },
        None => seq![],
    });
    assert("0"@ == seq!['0']);
    walk_blocks(&document.blocks, "0", &mut out);
    assert(leaf_views(out@) =~= document_leaves(*document));
    out
}

/// A highlight's match in a leaf's text, as a range of its positions.
#[derive(PartialEq, Eq, Structural, Clone, Copy, Debug)]
pub struct Mark {
    pub start: usize,
    pub end: usize,
}

/// How the marks of one leaf are numbered: the thread-wide number of its first, and the
/// current match, if a find picks one.
#[derive(PartialEq, Eq, Structural, Clone, Copy, Debug)]
pub struct Numbering {
    pub first: usize,
    pub current: Option<usize>,
}

/// A leaf's key and the marks a highlight gives its text.
pub struct LeafMarks {
    pub key: String,
    pub marks: Vec<Mark>,
}

struct Entry {
    key: String,
    first: usize,
    marks: Vec<Mark>,
}

/// One message's marks, by leaf key.
pub struct Found {
    entries: Vec<Entry>,
    current: Option<usize>,
}

/// One message's marks as plain values: each marked leaf's key, with the number of its first
/// mark and its marks; and the current match.
pub struct FoundView {
    pub leaves: Map<Seq<char>, (nat, Seq<Mark>)>,
    pub current: Option<usize>,
}

spec fn entry_view(e: Entry) -> (Seq<char>, nat, Seq<Mark>) {
    (e.key@, e.first as nat, e.marks@)
}

spec fn entry_views(entries: Seq<Entry>) -> Seq<(Seq<char>, nat, Seq<Mark>)> {
    entries.map_values(|e: Entry| entry_view(e))
}

/// Entries as a map from key; where a key comes twice, the later one stands.
pub open spec fn map_of(entries: Seq<(Seq<char>, nat, Seq<Mark>)>) -> Map<Seq<char>, (nat, Seq<Mark>)>
    decreases entries.len(),
{
    if entries.len() == 0 {
        Map::empty()
    } else {
        let last = entries.last();
        map_of(entries.drop_last()).insert(last.0, (last.1, last.2))
    }
}

impl View for Found {
    type V = FoundView;

    closed spec fn view(&self) -> FoundView {
        FoundView { leaves: map_of(entry_views(self.entries@)), current: self.current }
    }
}

/// The number of marks over `leaves`.
pub open spec fn count(leaves: Seq<LeafMarks>) -> nat
    decreases leaves.len(),
{
    if leaves.len() == 0 {
        0
    } else {
        count(leaves.drop_last()) + leaves.last().marks@.len()
    }
}

/// The number of marks over every document.
pub open spec fn docs_count(docs: Seq<Vec<LeafMarks>>) -> nat
    decreases docs.len(),
{
    if docs.len() == 0 {
        0
    } else {
        docs_count(docs.drop_last()) + count(docs.last()@)
    }
}

/// The leaves that have marks, each with the number of its first mark, counting from `start`.
pub open spec fn numbered(leaves: Seq<LeafMarks>, start: nat) -> Seq<(Seq<char>, nat, Seq<Mark>)>
    decreases leaves.len(),
{
    if leaves.len() == 0 {
        seq![]
    } else {
        let before = numbered(leaves.drop_last(), start);
        let last = leaves.last();
        if last.marks@.len() == 0 {
            before
        } else {
            before.push((last.key@, start + count(leaves.drop_last()), last.marks@))
        }
    }
}

/// What `find_in` gives document `d`: its marked leaves, numbered after every mark of the
/// documents before it.
pub open spec fn found_of(docs: Seq<Vec<LeafMarks>>, d: int) -> Map<Seq<char>, (nat, Seq<Mark>)> {
    map_of(numbered(docs[d]@, docs_count(docs.subrange(0, d))))
}

proof fn lemma_count_prefix(leaves: Seq<LeafMarks>, k: int)
    requires
        0 <= k <= leaves.len(),
    ensures
        count(leaves.subrange(0, k)) <= count(leaves),
    decreases leaves.len() - k,
{
    if k < leaves.len() {
        lemma_count_prefix(leaves, k + 1);
        assert(leaves.subrange(0, k + 1).drop_last() =~= leaves.subrange(0, k));
    } else {
        assert(leaves.subrange(0, k) =~= leaves);
    }
}

proof fn lemma_docs_count_prefix(docs: Seq<Vec<LeafMarks>>, k: int)
    requires
        0 <= k <= docs.len(),
    ensures
        docs_count(docs.subrange(0, k)) <= docs_count(docs),
    decreases docs.len() - k,
{
    if k < docs.len() {
        lemma_docs_count_prefix(docs, k + 1);
        assert(docs.subrange(0, k + 1).drop_last() =~= docs.subrange(0, k));
    } else {
        assert(docs.subrange(0, k) =~= docs);
    }
}

fn copy_marks(marks: &Vec<Mark>) -> (r: Vec<Mark>)
    ensures
        r@ == marks@,
{
    let mut out: Vec<Mark> = Vec::new();
    let mut i: usize = 0;
    while i < marks.len()
        invariant
            i <= marks.len(),
            out@ == marks@.subrange(0, i as int),
        decreases marks.len() - i,
    {
        out.push(marks[i]);
        i = i + 1;
        assert(out@ =~= marks@.subrange(0, i as int));
    }
    assert(marks@.subrange(0, marks.len() as int) =~= marks@);
    out
}

/// Number the marks of each document across all of them. The second value is the total,
/// which is what a find counts against; no match is current yet.
pub fn find_in(marked: &Vec<Vec<LeafMarks>>) -> (r: (Vec<Found>, usize))
    requires
        docs_count(marked@) <= usize::MAX,
    ensures
        r.1 == docs_count(marked@),
        r.0.len() == marked.len(),
        forall|d: int| 0 <= d < marked.len() ==> (#[trigger] r.0@[d])@.leaves == found_of(marked@, d),
        forall|d: int| 0 <= d < marked.len() ==> (#[trigger] r.0@[d])@.current is None,
{
    let mut total: usize = 0;
    let mut out: Vec<Found> = Vec::new();
    let mut d: usize = 0;
    while d < marked.len()
        invariant
            d <= marked.len(),
            docs_count(marked@) <= usize::MAX,
            total == docs_count(marked@.subrange(0, d as int)),
            out.len() == d,
            forall|e: int| 0 <= e < d ==> (#[trigger] out@[e])@.leaves == found_of(marked@, e),
            forall|e: int| 0 <= e < d ==> (#[trigger] out@[e])@.current is None,
        decreases marked.len() - d,
    {
        let leaves = &marked[d];
        let ghost start = total as nat;
        proof {
            lemma_docs_count_prefix(marked@, d + 1);
            assert(marked@.subrange(0, d + 1).drop_last() =~= marked@.subrange(0, d as int));
        }
        let mut entries: Vec<Entry> = Vec::new();
        let mut l: usize = 0;
        while l < leaves.len()
            invariant
                l <= leaves.len(),
                leaves == &marked@[d as int],
                start == docs_count(marked@.subrange(0, d as int)),
                start + count(leaves@) <= usize::MAX,
                total == start + count(leaves@.subrange(0, l as int)),
                entry_views(entries@) == numbered(leaves@.subrange(0, l as int), start),
            decreases leaves.len() - l,
        {
            let leaf = &leaves[l];
            proof {
                lemma_count_prefix(leaves@, l + 1);
                assert(leaves@.subrange(0, l + 1).drop_last() =~= leaves@.subrange(0, l as int));
                assert(leaves@.subrange(0, l + 1).last() == leaves@[l as int]);
            }
            if leaf.marks.len() > 0 {
                let entry = Entry { key: leaf.key.clone(), first: total, marks: copy_marks(&leaf.marks) };
                let ghost before = entries@;
                entries.push(entry);
                assert(entry_views(entries@) =~= entry_views(before).push(entry_view(entry)));
                total = total + leaf.marks.len();
            }
            l = l + 1;
        }
        assert(leaves@.subrange(0, leaves.len() as int) =~= leaves@);
        let found = Found { entries, current: None };
        out.push(found);
        d = d + 1;
    }
    assert(marked@.subrange(0, marked.len() as int) =~= marked@);
    (out, total)
}

proof fn lemma_map_of_dom(entries: Seq<(Seq<char>, nat, Seq<Mark>)>, key: Seq<char>)
    ensures
        map_of(entries).dom().contains(key) <==> exists|j: int|
            0 <= j < entries.len() && (#[trigger] entries[j]).0 == key,
    decreases entries.len(),
{
    if entries.len() > 0 {
        lemma_map_of_dom(entries.drop_last(), key);
        if map_of(entries.drop_last()).dom().contains(key) {
            let j = choose|j: int| 0 <= j < entries.drop_last().len() && (#[trigger] entries.drop_last()[j]).0 == key;
            assert(entries[j].0 == key);
        }
        if exists|j: int| 0 <= j < entries.len() && (#[trigger] entries[j]).0 == key {
            let j = choose|j: int| 0 <= j < entries.len() && (#[trigger] entries[j]).0 == key;
            if j < entries.len() - 1 {
                assert(entries.drop_last()[j].0 == key);
            }
        }
    }
}

proof fn lemma_map_of_tail(entries: Seq<(Seq<char>, nat, Seq<Mark>)>, k: int, key: Seq<char>)
    requires
        0 <= k <= entries.len(),
        forall|j: int| k <= j < entries.len() ==> (#[trigger] entries[j]).0 != key,
    ensures
        map_of(entries).dom().contains(key) == map_of(entries.subrange(0, k)).dom().contains(key),
        map_of(entries)[key] == map_of(entries.subrange(0, k))[key],
    decreases entries.len(),
{
    if k == entries.len() {
        assert(entries.subrange(0, k) =~= entries);
    } else {
        let rest = entries.drop_last();
        assert(rest.subrange(0, k) =~= entries.subrange(0, k));
        assert forall|j: int| k <= j < rest.len() implies (#[trigger] rest[j]).0 != key by {
            assert(rest[j] == entries[j]);
        }
        lemma_map_of_tail(rest, k, key);
        assert(entries.last().0 != key);
    }
}

impl Found {
    /// The marks for the leaf at `key`, and how to number them. No marks is an empty slice
    /// and the default numbering.
    pub fn at(&self, key: &str) -> (r: (&[Mark], Numbering))
        ensures
            self@.leaves.dom().contains(key@) ==> r.0@ == self@.leaves[key@].1 && r.1.first
                == self@.leaves[key@].0 && r.1.current == self@.current,
            !self@.leaves.dom().contains(key@) ==> r.0@.len() == 0 && r.1 == (Numbering {
                first: 0,
                current: None,
            }),
    {
        let ghost views = entry_views(self.entries@);
        let mut i: usize = self.entries.len();
        while i > 0
            invariant
                i <= self.entries.len(),
                views == entry_views(self.entries@),
                forall|j: int| i <= j < views.len() ==> (#[trigger] views[j]).0 != key@,
            decreases i,
        {
            let entry = &self.entries[i - 1];
            if crate::text::str_eq(entry.key.as_str(), key) {
                proof {
                    lemma_map_of_tail(views, i as int, key@);
                    assert(views.subrange(0, i as int).last() == views[i - 1]);
                    assert(views.subrange(0, i as int).drop_last() =~= views.subrange(0, i - 1));
                }
                return (entry.marks.as_slice(), Numbering { first: entry.first, current: self.current });
            }
            i = i - 1;
        }
        proof {
            lemma_map_of_dom(views, key@);
            assert forall|j: int| 0 <= j < views.len() implies (#[trigger] views[j]).0 != key@ by {}
        }
        let none: &[Mark] = &[];
        (none, Numbering { first: 0, current: None })
    }

    /// Whether any leaf under the block path `prefix` has a mark: a key that begins with
    /// `prefix` and a dot. A folded quote with a match inside opens, so every match counted
    /// is one that can be seen.
    pub fn inside(&self, prefix: &str) -> (r: bool)
        ensures
            r == exists|k: Seq<char>| #[trigger] self@.leaves.dom().contains(k)
                && crate::text::starts_with(k, prefix@ + seq!['.']),
    {
        let ghost views = entry_views(self.entries@);
        proof {
            reveal_strlit(".");
        }
        let dotted = cat(prefix, ".");
        let needle = crate::text::chars_of(dotted.as_str());
        let mut i: usize = 0;
        while i < self.entries.len()
            invariant
                i <= self.entries.len(),
                views == entry_views(self.entries@),
                needle@ == prefix@ + seq!['.'],
                forall|j: int| 0 <= j < i ==> !crate::text::starts_with(#[trigger] views[j].0, needle@),
            decreases self.entries.len() - i,
        {
            let key = crate::text::chars_of(self.entries[i].key.as_str());
            if crate::text::matches_at(key.as_slice(), needle.as_slice(), 0) {
                proof {
                    lemma_map_of_dom(views, views[i as int].0);
                    assert(views[i as int].0 == key@);
                    assert(self@.leaves.dom().contains(views[i as int].0));
                }
                return true;
            }
            assert(views[i as int].0 == key@);
            i = i + 1;
        }
        proof {
            assert forall|k: Seq<char>| #[trigger] self@.leaves.dom().contains(k)
                implies !crate::text::starts_with(k, needle@) by {
                lemma_map_of_dom(views, k);
                let j = choose|j: int| 0 <= j < views.len() && (#[trigger] views[j]).0 == k;
            }
        }
        false
    }

    /// This message's marks with `current` as the current match.
    pub fn with_current(self, current: Option<usize>) -> (r: Found)
        ensures
            r@.leaves == self@.leaves,
            r@.current == current,
    {
        Found { entries: self.entries, current }
    }
}

impl Default for Found {
    /// No marks.
    fn default() -> (r: Found)
        ensures
            r@.leaves == Map::<Seq<char>, (nat, Seq<Mark>)>::empty(),
            r@.current is None,
    {
        Found { entries: Vec::new(), current: None }
    }
}

proof fn lemma_numbered_dom(leaves: Seq<LeafMarks>, start: nat, k: Seq<char>)
    ensures
        map_of(numbered(leaves, start)).dom().contains(k) <==> exists|j: int|
            0 <= j < leaves.len() && (#[trigger] leaves[j]).key@ == k && leaves[j].marks@.len() > 0,
    decreases leaves.len(),
{
    if leaves.len() > 0 {
        let pre = leaves.drop_last();
        lemma_numbered_dom(pre, start, k);
        let last = leaves.last();
        let before = numbered(pre, start);
        if last.marks@.len() != 0 {
            let e = (last.key@, start + count(pre), last.marks@);
            assert(before.push(e).drop_last() =~= before);
        }
        if exists|j: int| 0 <= j < pre.len() && (#[trigger] pre[j]).key@ == k && pre[j].marks@.len() > 0 {
            let j = choose|j: int| 0 <= j < pre.len() && (#[trigger] pre[j]).key@ == k && pre[j].marks@.len() > 0;
            assert(leaves[j] == pre[j]);
        }
        if exists|j: int| 0 <= j < leaves.len() && (#[trigger] leaves[j]).key@ == k && leaves[j].marks@.len() > 0 {
            let j = choose|j: int| 0 <= j < leaves.len() && (#[trigger] leaves[j]).key@ == k && leaves[j].marks@.len() > 0;
            if j < leaves.len() - 1 {
                assert(pre[j] == leaves[j]);
            }
        }
    }
}

proof fn lemma_numbered_at(leaves: Seq<LeafMarks>, start: nat, i: int)
    requires
        0 <= i < leaves.len(),
        leaves[i].marks@.len() > 0,
        forall|j: int| 0 <= j < leaves.len() && j != i ==> (#[trigger] leaves[j]).key@ != leaves[i].key@,
    ensures
        map_of(numbered(leaves, start)).dom().contains(leaves[i].key@),
        map_of(numbered(leaves, start))[leaves[i].key@] == (start + count(leaves.subrange(0, i)), leaves[i].marks@),
    decreases leaves.len(),
{
    let pre = leaves.drop_last();
    let last = leaves.last();
    let before = numbered(pre, start);
    if last.marks@.len() != 0 {
        let e = (last.key@, start + count(pre), last.marks@);
        assert(before.push(e).drop_last() =~= before);
        assert(before.push(e).last() == e);
    }
    if i == leaves.len() - 1 {
        assert(leaves.subrange(0, i) =~= pre);
    } else {
        assert forall|j: int| 0 <= j < pre.len() && j != i implies (#[trigger] pre[j]).key@ != pre[i].key@ by {
            assert(pre[j] == leaves[j]);
        }
        assert(pre[i] == leaves[i]);
        lemma_numbered_at(pre, start, i);
        assert(pre.subrange(0, i) =~= leaves.subrange(0, i));
        assert(last.key@ != leaves[i].key@);
    }
}

/// A message's marks are exactly its marked leaves: a key has marks in what [`find_in`] gives
/// message `d` if and only if a leaf of that message under that key has a mark; so a key
/// without one reads back no marks and the default numbering ([`Found::at`]), and
/// [`Found::inside`] a block path is whether a marked leaf lies under it.
pub proof fn law_found_holds_exactly_the_marked_leaves(docs: Seq<Vec<LeafMarks>>, d: int, k: Seq<char>)
    requires
        0 <= d < docs.len(),
    ensures
        found_of(docs, d).dom().contains(k) <==> exists|j: int|
            0 <= j < docs[d]@.len() && (#[trigger] docs[d]@[j]).key@ == k && docs[d]@[j].marks@.len() > 0,
{
    lemma_numbered_dom(docs[d]@, docs_count(docs.subrange(0, d)), k);
}

/// A block path has a match inside exactly when a marked leaf lies under it: what
/// [`Found::inside`] answers of message `d` is whether a leaf of that message whose key begins
/// with the path and a dot has a mark.
pub proof fn law_a_match_inside_is_a_marked_leaf_under_the_path(docs: Seq<Vec<LeafMarks>>, d: int, prefix: Seq<char>)
    requires
        0 <= d < docs.len(),
    ensures
        (exists|k: Seq<char>| #[trigger] found_of(docs, d).dom().contains(k)
            && crate::text::starts_with(k, prefix + seq!['.']))
        <==> (exists|j: int| 0 <= j < docs[d]@.len() && docs[d]@[j].marks@.len() > 0
            && crate::text::starts_with(#[trigger] docs[d]@[j].key@, prefix + seq!['.'])),
{
    if exists|k: Seq<char>| #[trigger] found_of(docs, d).dom().contains(k) && crate::text::starts_with(k, prefix + seq!['.']) {
        let k = choose|k: Seq<char>| #[trigger] found_of(docs, d).dom().contains(k) && crate::text::starts_with(k, prefix + seq!['.']);
        law_found_holds_exactly_the_marked_leaves(docs, d, k);
        let j = choose|j: int| 0 <= j < docs[d]@.len() && (#[trigger] docs[d]@[j]).key@ == k && docs[d]@[j].marks@.len() > 0;
        assert(crate::text::starts_with(docs[d]@[j].key@, prefix + seq!['.']));
    }
    if exists|j: int| 0 <= j < docs[d]@.len() && docs[d]@[j].marks@.len() > 0 && crate::text::starts_with(#[trigger] docs[d]@[j].key@, prefix + seq!['.']) {
        let j = choose|j: int| 0 <= j < docs[d]@.len() && docs[d]@[j].marks@.len() > 0 && crate::text::starts_with(#[trigger] docs[d]@[j].key@, prefix + seq!['.']);
        let k = docs[d]@[j].key@;
        law_found_holds_exactly_the_marked_leaves(docs, d, k);
        assert(found_of(docs, d).dom().contains(k));
    }
}

/// Marks are numbered across the thread in reading order: the first mark of a marked leaf is
/// numbered after every mark of the messages before its own, and then of the leaves before it
/// in its message. (Each leaf has a key of its own, as the renderer keys them.)
pub proof fn law_a_leafs_first_mark_is_numbered_after_every_mark_before_it(docs: Seq<Vec<LeafMarks>>, d: int, i: int)
    requires
        0 <= d < docs.len(),
        0 <= i < docs[d]@.len(),
        docs[d]@[i].marks@.len() > 0,
        forall|j: int| 0 <= j < docs[d]@.len() && j != i ==> (#[trigger] docs[d]@[j]).key@ != docs[d]@[i].key@,
    ensures
        found_of(docs, d).dom().contains(docs[d]@[i].key@),
        found_of(docs, d)[docs[d]@[i].key@] == (
            docs_count(docs.subrange(0, d)) + count(docs[d]@.subrange(0, i)),
            docs[d]@[i].marks@,
        ),
{
    lemma_numbered_at(docs[d]@, docs_count(docs.subrange(0, d)), i);
}

/// Which way Enter moves through the matches.
#[derive(PartialEq, Eq, Structural, Clone, Copy, Debug)]
pub enum FindStep {
    Next,
    Previous,
}

/// What a key pressed in the find field does.
#[derive(PartialEq, Eq, Structural, Clone, Copy, Debug)]
pub enum FindAct {
    /// A chord that is the window's (Ctrl and any key but F): it passes on.
    Pass,
    /// Enter moves to the next match, Shift+Enter to the one before.
    Step(FindStep),
    /// Esc closes the field, and its marks go with it.
    Close,
    /// F again (Ctrl F) selects the field's text.
    Select,
    /// Anything else is the field's own: a letter typed there is not a shortcut.
    Keep,
}

/// What `key` does in the find field with Ctrl and Shift held or not.
pub open spec fn find_key_spec(key: Seq<char>, ctrl: bool, shift: bool) -> FindAct {
    let chord = key == "f"@ || key == "F"@;
    if ctrl && !chord {
        FindAct::Pass
    } else if key == "Enter"@ {
        FindAct::Step(if shift { FindStep::Previous } else { FindStep::Next })
    } else if key == "Escape"@ {
        FindAct::Close
    } else if chord {
        FindAct::Select
    } else {
        FindAct::Keep
    }
}

/// What a key pressed in the find field does: Ctrl chords other than F are the window's;
/// Enter and Shift+Enter step through the matches, Esc closes, F selects the field's text,
/// and every other key stays in the field.
pub fn find_key(key: &str, ctrl: bool, shift: bool) -> (r: FindAct)
    ensures
        r == find_key_spec(key@, ctrl, shift),
{
    let chord = crate::text::str_eq(key, "f") || crate::text::str_eq(key, "F");
    if ctrl && !chord {
        FindAct::Pass
    } else if crate::text::str_eq(key, "Enter") {
        FindAct::Step(if shift { FindStep::Previous } else { FindStep::Next })
    } else if crate::text::str_eq(key, "Escape") {
        FindAct::Close
    } else if chord {
        FindAct::Select
    } else {
        FindAct::Keep
    }
}

} // verus!
