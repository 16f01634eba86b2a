//! A message's body as blocks and spans, as the reader draws it: the structure the reader's
//! search walks, the table that right-aligns its amounts, and the remote images it fetches.

use vstd::prelude::*;
use crate::text::{dec, dec_chars, string_of, chars_of, extend_chars};

verus! {

/// A run of inline text.
pub enum Span {
    Text(String),
    Code(String),
    Break,
    Strong(Vec<Span>),
    Emphasis(Vec<Span>),
    Link { spans: Vec<Span>, href: String },
}

/// Where an image comes from.
#[derive(Debug, Clone)]
pub enum ImgSrc {
    /// A remote image the policy blocked; the host it would have reported to.
    Blocked { host: String },
    /// A picture the message holds, as a `data:` URI.
    Inline(String),
    /// A remote image the reader consented to.
    Remote(String),
}

/// A block of a message's body.
pub enum Block {
    Heading { level: u8, spans: Vec<Span> },
    Paragraph { spans: Vec<Span> },
    List { ordered: bool, items: Vec<Vec<Block>> },
    Quote { attribution: Option<Vec<Span>>, blocks: Vec<Block> },
    Code { text: String, lang: Option<String> },
    Table { head: Option<Vec<Vec<Span>>>, rows: Vec<Vec<Vec<Span>>> },
    Facts(Vec<(Vec<Span>, Vec<Span>)>),
    Button { label: String, url: String },
    Signature(Vec<Block>),
    Image { src: ImgSrc, alt: String, width: Option<u32>, height: Option<u32> },
    Rule,
}

/// The text of `items`, with a break as a space.
pub open spec fn span_text_spec(items: Seq<Span>) -> Seq<char>
    decreases items,
{
    if items.len() == 0 {
        seq![]
    } else {
        span_text_spec(items.drop_last()) + one_text(items.last())
    }
}

/// The text of one span.
pub open spec fn one_text(span: Span) -> Seq<char>
    decreases span,
{
    match span {
        Span::Text(t) => t@,
        Span::Code(t) => t@,
        Span::Break => seq![' '],
        Span::Strong(inner) => span_text_spec(inner@),
        Span::Emphasis(inner) => span_text_spec(inner@),
        Span::Link { spans, .. } => span_text_spec(spans@),
    }
}

/// The text of `items`, with a break as a space, onto `out`.
fn walk_text(out: &mut Vec<char>, items: &Vec<Span>)
    ensures
        final(out)@ == old(out)@ + span_text_spec(items@),
    decreases items,
{
    let mut i: usize = 0;
    let ghost start = out@;
    while i < items.len()
        invariant
            i <= items.len(),
            out@ == start + span_text_spec(items@.subrange(0, i as int)),
        decreases items.len() - i,
    {
        let ghost before = out@;
        match &items[i] {
            Span::Text(t) => {
                let c = chars_of(t.as_str());
                extend_chars(out, c.as_slice());
            },
            Span::Code(t) => {
                let c = chars_of(t.as_str());
                extend_chars(out, c.as_slice());
            },
            Span::Break => {
                out.push(' ');
            },
            Span::Strong(inner) => {
                walk_text(out, inner);
            },
            Span::Emphasis(inner) => {
                walk_text(out, inner);
            },
            Span::Link { spans, .. } => {
                walk_text(out, spans);
            },
        }
        assert(items@.subrange(0, i + 1).drop_last() =~= items@.subrange(0, i as int));
        assert(out@ =~= before + one_text(items@[i as int]));
        i = i + 1;
    }
    assert(items@.subrange(0, items.len() as int) =~= items@);
}

/// The text of `items`, with a break as a space.
pub fn span_text(items: &Vec<Span>) -> (r: String)
    ensures
        r@ == span_text_spec(items@),
{
    let mut out: Vec<char> = Vec::new();
    walk_text(&mut out, items);
    assert(out@ =~= span_text_spec(items@));
    string_of(out.as_slice())
}

/// What may lead an amount: a currency, a sign, a multiplication, or a space.
pub open spec fn leads_amount(c: char) -> bool {
    c == '€' || c == '$' || c == '£' || c == '¥' || c == '+' || c == '-' || c == '\u{2212}'
        || c == '\u{2013}' || c == '×' || c == 'x' || c == ' '
}

/// What may stand between an amount's digits: grouping, a decimal point, a per cent, spaces.
pub open spec fn within_amount(c: char) -> bool {
    c == ',' || c == '.' || c == '%' || c == ' ' || c == '\u{a0}' || c == '\u{202f}'
}

/// An ASCII digit.
pub open spec fn is_digit(c: char) -> bool {
    '0' <= c && c <= '9'
}

/// `s` without what may lead an amount.
pub open spec fn strip_lead(s: Seq<char>) -> Seq<char>
    decreases s.len(),
{
    if s.len() > 0 && leads_amount(s[0]) { strip_lead(s.drop_first()) } else { s }
}

/// Whether a cell's text reads as an amount: past its currency or sign, nothing but digits
/// and what stands between them, and at least one digit.
pub open spec fn looks_numeric_spec(text: Seq<char>) -> bool {
    let t = crate::text::trimmed(strip_lead(text));
    (forall|i: int| 0 <= i < t.len() ==> is_digit(t[i]) || within_amount(t[i]))
        && exists|i: int| 0 <= i < t.len() && is_digit(t[i])
}

fn leading(c: char) -> (r: bool)
    ensures
        r == leads_amount(c),
{
    c == '€' || c == '$' || c == '£' || c == '¥' || c == '+' || c == '-' || c == '\u{2212}'
        || c == '\u{2013}' || c == '×' || c == 'x' || c == ' '
}

/// Whether a cell's text reads as an amount.
pub fn looks_numeric(text: &str) -> (r: bool)
    ensures
        r == looks_numeric_spec(text@),
{
    let chars = chars_of(text);
    let mut start: usize = 0;
    assert(chars@.subrange(0, chars.len() as int) =~= chars@);
    while start < chars.len() && leading(chars[start])
        invariant
            start <= chars.len(),
            strip_lead(chars@) == strip_lead(chars@.subrange(start as int, chars.len() as int)),
        decreases chars.len() - start,
    {
        assert(chars@.subrange(start as int, chars.len() as int).drop_first() =~= chars@.subrange(start + 1, chars.len() as int));
        start = start + 1;
    }
    let mut rest: Vec<char> = Vec::new();
    let mut k = start;
    while k < chars.len()
        invariant
            start <= k <= chars.len(),
            rest@ == chars@.subrange(start as int, k as int),
        decreases chars.len() - k,
    {
        rest.push(chars[k]);
        k = k + 1;
        assert(chars@.subrange(start as int, k as int) =~= chars@.subrange(start as int, k - 1).push(chars@[k - 1]));
    }
    assert(strip_lead(chars@.subrange(start as int, chars.len() as int)) == chars@.subrange(start as int, chars.len() as int));
    assert(rest@ == strip_lead(text@));
    let t = crate::text::trim_chars(rest.as_slice());
    assert(t@ == crate::text::trimmed(strip_lead(text@)));
    let mut digit = false;
    let mut i: usize = 0;
    while i < t.len()
        invariant
            i <= t.len(),
            t@ == crate::text::trimmed(strip_lead(text@)),
            forall|j: int| 0 <= j < i ==> is_digit(t@[j]) || within_amount(t@[j]),
            digit == exists|j: int| 0 <= j < i && is_digit(t@[j]),
        decreases t.len() - i,
    {
        let c = t[i];
        if '0' <= c && c <= '9' {
            digit = true;
        } else if !(c == ',' || c == '.' || c == '%' || c == ' ' || c == '\u{a0}' || c == '\u{202f}') {
            assert(!(is_digit(t@[i as int]) || within_amount(t@[i as int])));
            assert(!looks_numeric_spec(text@)) by {
                let u = crate::text::trimmed(strip_lead(text@));
                assert(u == t@);
                assert(!(is_digit(u[i as int]) || within_amount(u[i as int])));
            }
            return false;
        }
        i = i + 1;
    }
    digit
}

/// The widest row's number of cells.
pub open spec fn width_spec(rows: Seq<Vec<Vec<Span>>>) -> nat
    decreases rows.len(),
{
    if rows.len() == 0 {
        0
    } else {
        let rest = width_spec(rows.drop_last());
        if rows.last()@.len() > rest { rows.last()@.len() } else { rest }
    }
}

/// A cell's text, trimmed.
pub open spec fn cell_text(rows: Seq<Vec<Vec<Span>>>, row: int, column: int) -> Seq<char> {
    crate::text::trimmed(span_text_spec(rows[row]@[column]@))
}

/// Whether a row has a non-empty cell in `column`: an empty one does not count either way.
pub open spec fn counts(rows: Seq<Vec<Vec<Span>>>, row: int, column: int) -> bool {
    0 <= row < rows.len() && column < rows[row]@.len() && cell_text(rows, row, column).len() > 0
}

/// A column of amounts: some cell reads as one, and none reads as words.
pub open spec fn numeric_column(rows: Seq<Vec<Vec<Span>>>, column: int) -> bool {
    (exists|r: int| counts(rows, r, column) && looks_numeric_spec(cell_text(rows, r, column)))
        && !(exists|r: int| counts(rows, r, column) && !looks_numeric_spec(cell_text(rows, r, column)))
}

/// Which columns hold amounts. Empty cells do not count against a column; a word does.
pub fn numeric_columns(rows: &Vec<Vec<Vec<Span>>>) -> (r: Vec<bool>)
    ensures
        r.len() == width_spec(rows@),
        forall|c: int| 0 <= c < r.len() ==> r@[c] == numeric_column(rows@, c),
{
    let mut width: usize = 0;
    let mut i: usize = 0;
    while i < rows.len()
        invariant
            i <= rows.len(),
            width == width_spec(rows@.subrange(0, i as int)),
        decreases rows.len() - i,
    {
        assert(rows@.subrange(0, i + 1).drop_last() =~= rows@.subrange(0, i as int));
        if rows[i].len() > width {
            width = rows[i].len();
        }
        i = i + 1;
    }
    assert(rows@.subrange(0, rows.len() as int) =~= rows@);
    let mut out: Vec<bool> = Vec::new();
    let mut column: usize = 0;
    while column < width
        invariant
            column <= width,
            width == width_spec(rows@),
            out.len() == column,
            forall|c: int| 0 <= c < column ==> out@[c] == numeric_column(rows@, c),
        decreases width - column,
    {
        let mut saw_digit = false;
        let mut words = false;
        let mut row: usize = 0;
        while row < rows.len()
            invariant
                row <= rows.len(),
                saw_digit == exists|r: int| 0 <= r < row && counts(rows@, r, column as int)
                    && looks_numeric_spec(cell_text(rows@, r, column as int)),
                words == exists|r: int| 0 <= r < row && counts(rows@, r, column as int)
                    && !looks_numeric_spec(cell_text(rows@, r, column as int)),
            decreases rows.len() - row,
        {
            let ghost was_digit = saw_digit;
            let ghost was_words = words;
            if column < rows[row].len() {
                let text = span_text(&rows[row][column]);
                let t = crate::text::trim_str(text.as_str());
                assert(t@ == cell_text(rows@, row as int, column as int));
                if !t.as_str().is_empty() {
                    assert(counts(rows@, row as int, column as int));
                    if looks_numeric(t.as_str()) {
                        saw_digit = true;
                    } else {
                        words = true;
                    }
                } else {
                    assert(!counts(rows@, row as int, column as int));
                }
            } else {
                assert(!counts(rows@, row as int, column as int));
            }
            assert(saw_digit == (was_digit || (counts(rows@, row as int, column as int)
                && looks_numeric_spec(cell_text(rows@, row as int, column as int)))));
            assert(words == (was_words || (counts(rows@, row as int, column as int)
                && !looks_numeric_spec(cell_text(rows@, row as int, column as int)))));
            row = row + 1;
        }
        out.push(saw_digit && !words);
        proof {
            assert forall|r: int| #[trigger] counts(rows@, r, column as int) implies 0 <= r < rows.len() by {}
            assert(out@[column as int] == numeric_column(rows@, column as int));
        }
        column = column + 1;
    }
    out
}

/// How many quotes `blocks` hold, nested ones included.
pub open spec fn quotes_in(blocks: Seq<Block>) -> nat
    decreases blocks,
{
    if blocks.len() == 0 {
        0
    } else {
        quotes_in(blocks.drop_last()) + quotes_in_one(blocks.last())
    }
}

/// How many quotes a list's items hold.
pub open spec fn quotes_in_items(items: Seq<Vec<Block>>) -> nat
    decreases items,
{
    if items.len() == 0 {
        0
    } else {
        quotes_in_items(items.drop_last()) + quotes_in(items.last()@)
    }
}

/// How many quotes one block is and holds.
pub open spec fn quotes_in_one(block: Block) -> nat
    decreases block,
{
    match block {
        Block::Quote { blocks, .. } => 1 + quotes_in(blocks@),
        Block::List { items, .. } => quotes_in_items(items@),
        Block::Signature(blocks) => quotes_in(blocks@),
        _ => 0,
    }
}

/// `n`, or `u64::MAX` when it is past it.
pub open spec fn capped(n: nat) -> u64 {
    if n > u64::MAX as nat {
        u64::MAX
    } else {
        n as u64
    }
}

fn count_blocks(blocks: &Vec<Block>) -> (r: u64)
    ensures
        r == capped(quotes_in(blocks@)),
    decreases blocks,
{
    let mut total: u64 = 0;
    let mut i: usize = 0;
    while i < blocks.len()
        invariant
            i <= blocks.len(),
            total == capped(quotes_in(blocks@.subrange(0, i as int))),
        decreases blocks.len() - i,
    {
        let one = count_one(&blocks[i]);
        proof {
            assert(blocks@.subrange(0, i + 1).drop_last() =~= blocks@.subrange(0, i as int));
            assert(blocks@.subrange(0, i + 1).last() == blocks@[i as int]);
        }
        total = total.saturating_add(one);
        i = i + 1;
    }
    assert(blocks@.subrange(0, blocks.len() as int) =~= blocks@);
    total
}

fn count_items(items: &Vec<Vec<Block>>) -> (r: u64)
    ensures
        r == capped(quotes_in_items(items@)),
    decreases items,
{
    let mut total: u64 = 0;
    let mut i: usize = 0;
    while i < items.len()
        invariant
            i <= items.len(),
            total == capped(quotes_in_items(items@.subrange(0, i as int))),
        decreases items.len() - i,
    {
        let one = count_blocks(&items[i]);
        proof {
            assert(items@.subrange(0, i + 1).drop_last() =~= items@.subrange(0, i as int));
            assert(items@.subrange(0, i + 1).last() == items@[i as int]);
        }
        total = total.saturating_add(one);
        i = i + 1;
    }
    assert(items@.subrange(0, items.len() as int) =~= items@);
    total
}

fn count_one(block: &Block) -> (r: u64)
    ensures
        r == capped(quotes_in_one(*block)),
    decreases block,
{
    match block {
        Block::Quote { blocks, .. } => 1u64.saturating_add(count_blocks(blocks)),
        Block::List { items, .. } => count_items(items),
        Block::Signature(blocks) => count_blocks(blocks),
        _ => 0,
    }
}

/// How many quotes `blocks` hold, nested ones included, up to `u64::MAX`.
pub fn quote_nodes(blocks: &Vec<Block>) -> (r: u64)
    ensures
        r == capped(quotes_in(blocks@)),
{
    count_blocks(blocks)
}

/// What a folded quote's button says: how many earlier messages it holds, itself included.
pub open spec fn earlier_spec(count: nat) -> Seq<char> {
    if count == 1 {
        "1 earlier message"@
    } else {
        dec(count) + " earlier messages"@
    }
}

/// What a folded quote holding `blocks` says: "1 earlier message", or how many.
pub fn earlier_messages(blocks: &Vec<Block>) -> (r: String)
    ensures
        r@ == earlier_spec(capped(1 + quotes_in(blocks@)) as nat),
{
    let count = 1u64.saturating_add(quote_nodes(blocks));
    if count == 1 {
        String::from_str("1 earlier message")
    } else {
        let n = crate::text::decimal(count);
        crate::text::cat(n.as_str(), " earlier messages")
    }
}

/// Whether a quote starts folded: one inside another quote is earlier in the chain and starts
/// folded, unless the reader opened it, or a search or a find has a match inside it, which
/// opens it so that every match counted is one that can be seen.
pub fn folded(in_quote: bool, opened: bool, found: &crate::found::Found, inner: &str) -> (r: bool)
    ensures
        r == (in_quote && !opened && !exists|k: Seq<char>| #[trigger] found@.leaves.dom().contains(k)
            && crate::text::starts_with(k, inner@ + seq!['.'])),
{
    in_quote && !opened && !found.inside(inner)
}

/// A currency sign among € $ £ ¥, followed by digits with any grouping commas or decimal
/// points, reads as an amount: such a cell sets its column right.
pub proof fn law_a_currency_and_its_digits_read_as_an_amount(c: char, d: Seq<char>)
    requires
        c == '€' || c == '$' || c == '£' || c == '¥',
        d.len() > 0,
        forall|i: int| 0 <= i < d.len() ==> ('0' <= #[trigger] d[i] && d[i] <= '9') || d[i] == ',' || d[i] == '.',
        exists|i: int| 0 <= i < d.len() && '0' <= #[trigger] d[i] && d[i] <= '9',
    ensures
        looks_numeric_spec(seq![c] + d),
{
    let t = seq![c] + d;
    assert(t.drop_first() =~= d);
    assert(t[0] == c);
    assert(d[0] == d[0]);
    assert(!leads_amount(d[0]));
    assert(strip_lead(t) == strip_lead(d));
    assert(strip_lead(d) == d);
    assert(!crate::text::is_ws(d[0]));
    assert(crate::text::trim_start(d) == d);
    assert(d.last() == d[d.len() - 1]);
    assert(!crate::text::is_ws(d.last()));
    assert(crate::text::trim_end(d) == d);
    assert(crate::text::trimmed(strip_lead(t)) == d);
    let k = choose|i: int| 0 <= i < d.len() && '0' <= #[trigger] d[i] && d[i] <= '9';
    assert(is_digit(d[k]));
}

} // verus!
