//! A message's source: its stored raw bytes, every header included, as plain text.
//!
//! Nothing in it is parsed as HTML or as MIME: the bytes are decoded as UTF-8 and drawn as
//! text. What cannot be shown as itself says so rather than being dropped: a control character
//! is drawn as its Unicode control picture, a bidi or other format control as its code point
//! (so a sender's right-to-left override cannot reorder what the source says), and a byte
//! sequence that is not UTF-8 as U+FFFD, counted.

use vstd::prelude::*;

verus! {

/// std's UTF-8 decoding of `bytes`, chunk by chunk: each chunk's valid characters, and how many
/// bytes of an invalid sequence follow them.
pub uninterp spec fn utf8_chunks_spec(bytes: Seq<u8>) -> Seq<(Seq<char>, usize)>;

/// The chunks as values.
pub open spec fn chunks_view(v: Seq<(Vec<char>, usize)>) -> Seq<(Seq<char>, usize)> {
    v.map_values(|c: (Vec<char>, usize)| (c.0@, c.1))
}

/// `<[u8]>::utf8_chunks`, each chunk read back as its valid characters and the length of its
/// invalid part.
///
/// Claims only that this is std's decoding of `bytes` (named `utf8_chunks_spec`).
#[verifier::external_body]
fn utf8_chunks(bytes: &[u8]) -> (r: Vec<(Vec<char>, usize)>)
    ensures
        chunks_view(r@) == utf8_chunks_spec(bytes@),
{
    bytes.utf8_chunks().map(|chunk| (chunk.valid().chars().collect(), chunk.invalid().len())).collect()
}

/// The character whose scalar value is `n`: std's `char::from_u32`, which answers `Some`
/// exactly for a Unicode scalar value.
#[verifier::external_body]
fn char_from_u32(n: u32) -> (r: Option<char>)
    ensures
        r matches Some(c) ==> c as u32 == n,
        (n < 0xD800 || (0xE000 <= n && n <= 0x10FFFF)) ==> r is Some,
{
    char::from_u32(n)
}

/// One step of the decoded text: a character, or a byte sequence that is not UTF-8.
#[derive(Debug, Clone, Copy, PartialEq, Eq, Structural)]
pub enum Piece {
    Char(char),
    Bad,
}

/// A character as a piece.
pub open spec fn as_piece(c: char) -> Piece {
    Piece::Char(c)
}

/// One chunk's pieces.
pub open spec fn chunk_pieces(chunk: (Seq<char>, usize)) -> Seq<Piece> {
    chunk.0.map_values(|c: char| as_piece(c)) + if chunk.1 > 0 { seq![Piece::Bad] } else { seq![] }
}

/// Every piece of the decoded bytes, in order.
pub open spec fn pieces(chunks: Seq<(Seq<char>, usize)>) -> Seq<Piece>
    decreases chunks.len(),
{
    if chunks.len() == 0 {
        seq![]
    } else {
        pieces(chunks.drop_last()) + chunk_pieces(chunks.last())
    }
}

/// A character that changes how the text around it is drawn, or draws as nothing: C1 controls,
/// and the bidi and zero-width format characters.
pub open spec fn hides_or_reorders_spec(c: char) -> bool {
    ('\u{80}' <= c && c <= '\u{9F}') || c == '\u{AD}' || c == '\u{061C}' || c == '\u{180E}'
        || ('\u{200B}' <= c && c <= '\u{200F}') || ('\u{202A}' <= c && c <= '\u{202E}')
        || ('\u{2060}' <= c && c <= '\u{2064}') || ('\u{2066}' <= c && c <= '\u{206F}')
        || c == '\u{FEFF}' || ('\u{FFF9}' <= c && c <= '\u{FFFB}')
}

/// [`hides_or_reorders_spec`], computed.
pub fn hides_or_reorders(c: char) -> (r: bool)
    ensures
        r == hides_or_reorders_spec(c),
{
    ('\u{80}' <= c && c <= '\u{9F}') || c == '\u{AD}' || c == '\u{061C}' || c == '\u{180E}'
        || ('\u{200B}' <= c && c <= '\u{200F}') || ('\u{202A}' <= c && c <= '\u{202E}')
        || ('\u{2060}' <= c && c <= '\u{2064}') || ('\u{2066}' <= c && c <= '\u{206F}')
        || c == '\u{FEFF}' || ('\u{FFF9}' <= c && c <= '\u{FFFB}')
}

/// An upper-case hexadecimal digit.
pub open spec fn hex_digit(d: nat) -> char {
    if d < 10 {
        crate::text::digit(d)
    } else if d == 10 {
        'A'
    } else if d == 11 {
        'B'
    } else if d == 12 {
        'C'
    } else if d == 13 {
        'D'
    } else if d == 14 {
        'E'
    } else {
        'F'
    }
}

/// The control picture of a C0 control: the character at U+2400 plus its code.
pub open spec fn picture(c: char) -> char {
    ((0x2400 + c as u32) as u32) as char
}

/// `n` in upper-case hexadecimal.
pub open spec fn hex(n: nat) -> Seq<char>
    decreases n,
{
    if n < 16 { seq![hex_digit(n)] } else { hex(n / 16).push(hex_digit(n % 16)) }
}

/// `n` in upper-case hexadecimal, zero-padded to four digits: what `{:04X}` writes.
pub open spec fn hex4(n: nat) -> Seq<char> {
    let h = hex(n);
    if h.len() >= 4 { h } else { Seq::new((4 - h.len()) as nat, |i: int| '0') + h }
}

/// How one character that is not a CR is drawn: a line end or tab as itself, a C0 control as
/// its control picture, DEL as its picture, a hiding or reordering character as `<U+XXXX>`,
/// anything else as itself.
pub open spec fn drawn(c: char) -> Seq<char> {
    if c == '\n' || c == '\t' {
        seq![c]
    } else if c <= '\u{1F}' {
        seq![picture(c)]
    } else if c == '\u{7F}' {
        seq!['\u{2421}']
    } else if hides_or_reorders_spec(c) {
        "<U+"@ + hex4(c as nat) + ">"@
    } else {
        seq![c]
    }
}

/// The text the pieces draw as, given whether a CR is waiting: a CR followed by LF is one line
/// end; any other CR is drawn as its picture, U+240D.
pub open spec fn render(ps: Seq<Piece>, pending: bool) -> Seq<char>
    decreases ps.len(),
{
    if ps.len() == 0 {
        if pending { seq!['\u{240D}'] } else { seq![] }
    } else {
        let rest = ps.drop_first();
        match ps[0] {
            Piece::Char(c) => if pending && c == '\n' {
                seq!['\n'] + render(rest, false)
            } else {
                let flushed: Seq<char> = if pending { seq!['\u{240D}'] } else { seq![] };
                if c == '\r' {
                    flushed + render(rest, true)
                } else {
                    flushed + drawn(c) + render(rest, false)
                }
            },
            Piece::Bad => {
                let flushed: Seq<char> = if pending { seq!['\u{240D}'] } else { seq![] };
                flushed + seq!['\u{FFFD}'] + render(rest, false)
            },
        }
    }
}

/// How many byte sequences were not UTF-8.
pub open spec fn count_bad(ps: Seq<Piece>) -> nat
    decreases ps.len(),
{
    if ps.len() == 0 {
        0
    } else {
        count_bad(ps.drop_last()) + if ps.last() == Piece::Bad { 1nat } else { 0nat }
    }
}

/// Where the last LF of `bytes` is.
pub open spec fn last_newline(bytes: Seq<u8>) -> Option<int>
    decreases bytes.len(),
{
    if bytes.len() == 0 {
        None
    } else if bytes.last() == 10 {
        Some(bytes.len() - 1)
    } else {
        last_newline(bytes.drop_last())
    }
}

/// The last line end lies within the bytes.
proof fn lemma_last_newline_in(bytes: Seq<u8>)
    ensures
        last_newline(bytes) matches Some(e) ==> 0 <= e < bytes.len(),
    decreases bytes.len(),
{
    if bytes.len() > 0 && bytes.last() != 10 {
        lemma_last_newline_in(bytes.drop_last());
    }
}

/// The first `limit` bytes of `raw`, cut after its last line end where there is one; all of
/// `raw` when it fits.
pub open spec fn shown_spec(raw: Seq<u8>, limit: nat) -> Seq<u8> {
    if raw.len() > limit {
        let head = raw.subrange(0, limit as int);
        match last_newline(head) {
            Some(end) => head.subrange(0, end + 1),
            None => head,
        }
    } else {
        raw
    }
}

/// The source as text, and how many byte sequences in it were not UTF-8.
pub open spec fn as_text_spec(raw: Seq<u8>, limit: nat) -> (Seq<char>, nat) {
    let ps = pieces(utf8_chunks_spec(shown_spec(raw, limit)));
    (render(ps, false), count_bad(ps))
}

fn hex_char(d: u32) -> (c: char)
    requires
        d < 16,
    ensures
        c == hex_digit(d as nat),
{
    if d < 10 {
        crate::text::digit_of(d as u64)
    } else if d == 10 {
        'A'
    } else if d == 11 {
        'B'
    } else if d == 12 {
        'C'
    } else if d == 13 {
        'D'
    } else if d == 14 {
        'E'
    } else {
        'F'
    }
}

fn hex_chars(n: u32) -> (r: Vec<char>)
    ensures
        r@ == hex(n as nat),
    decreases n,
{
    if n < 16 {
        vec![hex_char(n)]
    } else {
        let mut v = hex_chars(n / 16);
        v.push(hex_char(n % 16));
        v
    }
}

proof fn lemma_char_of_code(p: char, n: u32)
    requires
        p as u32 == n,
    ensures
        (n as char) == p,
{
}

fn drawn_into(out: &mut Vec<char>, c: char)
    requires
        c != '\r',
    ensures
        final(out)@ == old(out)@ + drawn(c),
{
    if c == '\n' || c == '\t' {
        out.push(c);
    } else if c <= '\u{1F}' {
        let n: u32 = 0x2400 + c as u32;
        assert(c as u32 <= 0x1F);
        assert(n < 0xD800);
        match char_from_u32(n) {
            Some(p) => {
                assert(p as u32 == n);
                proof { lemma_char_of_code(p, n); }
                assert(p == picture(c));
                out.push(p);
            },
            None => {
                assert(false);
            },
        }
    } else if c == '\u{7F}' {
        out.push('\u{2421}');
    } else if hides_or_reorders(c) {
        let h = hex_chars(c as u32);
        let mut padded: Vec<char> = Vec::new();
        let count: usize = if h.len() < 4 { 4 - h.len() } else { 0 };
        let mut k: usize = 0;
        while k < count
            invariant
                k <= count,
                padded@ == Seq::new(k as nat, |i: int| '0'),
            decreases count - k,
        {
            padded.push('0');
            k = k + 1;
            assert(padded@ =~= Seq::new(k as nat, |i: int| '0'));
        }
        proof {
            if h@.len() >= 4 {
                assert(padded@ =~= Seq::<char>::empty());
            }
        }
        crate::text::extend_chars(&mut padded, h.as_slice());
        let ghost before = out@;
        out.push('<');
        out.push('U');
        out.push('+');
        crate::text::extend_chars(out, padded.as_slice());
        out.push('>');
        proof {
            reveal_strlit("<U+");
            reveal_strlit(">");
            assert(padded@ =~= hex4(c as nat));
            assert(out@ =~= before + drawn(c));
        }
    } else {
        out.push(c);
    }
}

/// The first `limit` bytes of `raw` (cut at a line end where there is one) as text to draw,
/// and how many byte sequences in them were not UTF-8.
///
/// CRLF and LF end a line. Every other control character is drawn as its control picture, so
/// a bare CR or an escape is seen and never acted on; a C1 control or a format character that
/// reorders or hides text is drawn as `<U+XXXX>`.
pub fn as_text(raw: &[u8], limit: usize) -> (r: (String, usize))
    ensures
        r.0@ == as_text_spec(raw@, limit as nat).0,
        r.1 as nat == as_text_spec(raw@, limit as nat).1,
{
    let mut end = raw.len();
    if raw.len() > limit {
        let ghost head = raw@.subrange(0, limit as int);
        let mut i = limit;
        let mut found: Option<usize> = None;
        assert(raw@.subrange(0, limit as int) =~= head);
        while i > 0 && found.is_none()
            invariant
                i <= limit < raw.len(),
                head == raw@.subrange(0, limit as int),
                found is None ==> last_newline(head) == last_newline(raw@.subrange(0, i as int)),
                found matches Some(e) ==> last_newline(head) == Some(e as int),
            decreases i + if found is None { 1int } else { 0int },
        {
            if raw[i - 1] == 10 {
                assert(raw@.subrange(0, i as int).last() == 10);
                found = Some(i - 1);
            } else {
                assert(raw@.subrange(0, i as int).drop_last() =~= raw@.subrange(0, i - 1));
                i = i - 1;
            }
        }
        proof {
            lemma_last_newline_in(head);
            if found is None {
                assert(raw@.subrange(0, 0) =~= Seq::<u8>::empty());
            }
        }
        end = match found {
            Some(e) => e + 1,
            None => limit,
        };
        assert(raw@.subrange(0, end as int) =~= shown_spec(raw@, limit as nat));
    } else {
        assert(raw@.subrange(0, end as int) =~= raw@);
    }
    let mut shown: Vec<u8> = Vec::new();
    let mut j: usize = 0;
    while j < end
        invariant
            j <= end <= raw.len(),
            shown@ == raw@.subrange(0, j as int),
        decreases end - j,
    {
        shown.push(raw[j]);
        j = j + 1;
        assert(raw@.subrange(0, j as int) =~= raw@.subrange(0, j - 1).push(raw@[j - 1]));
    }
    let chunks = utf8_chunks(shown.as_slice());
    let mut ps: Vec<Piece> = Vec::new();
    let mut c: usize = 0;
    while c < chunks.len()
        invariant
            c <= chunks.len(),
            ps@ == pieces(chunks_view(chunks@).subrange(0, c as int)),
        decreases chunks.len() - c,
    {
        let ghost before = ps@;
        let valid = &chunks[c].0;
        let mut k: usize = 0;
        assert(valid@.subrange(0, 0).map_values(|c: char| as_piece(c)) =~= Seq::<Piece>::empty());
        assert(ps@ =~= before + valid@.subrange(0, 0).map_values(|c: char| as_piece(c)));
        while k < valid.len()
            invariant
                k <= valid.len(),
                ps@ == before + valid@.subrange(0, k as int).map_values(|c: char| as_piece(c)),
            decreases valid.len() - k,
        {
            ps.push(Piece::Char(valid[k]));
            proof {
                crate::text::lemma_map_prefix(valid@, k as int, |c: char| as_piece(c));
            }
            k = k + 1;
            assert(ps@ =~= before + valid@.subrange(0, k as int).map_values(|c: char| as_piece(c)));
        }
        if chunks[c].1 > 0 {
            ps.push(Piece::Bad);
        }
        proof {
            let cv = chunks_view(chunks@);
            assert(cv.subrange(0, c + 1).drop_last() =~= cv.subrange(0, c as int));
            assert(valid@.subrange(0, valid.len() as int) =~= valid@);
            assert(cv[c as int] == (valid@, chunks@[c as int].1));
            assert(ps@ =~= before + chunk_pieces(cv[c as int]));
        }
        c = c + 1;
    }
    assert(chunks_view(chunks@).subrange(0, chunks.len() as int) =~= chunks_view(chunks@));
    let ghost all = ps@;
    let mut out: Vec<char> = Vec::new();
    let mut pending = false;
    let mut bad: usize = 0;
    let mut i: usize = 0;
    assert(ps@.subrange(0, ps.len() as int) =~= ps@);
    assert(ps@.subrange(0, 0) =~= Seq::<Piece>::empty());
    while i < ps.len()
        invariant
            i <= ps.len(),
            ps@ == all,
            out@ + render(all.subrange(i as int, all.len() as int), pending) == render(all, false),
            bad as nat == count_bad(all.subrange(0, i as int)),
            bad <= i,
        decreases ps.len() - i,
    {
        let ghost rest = all.subrange(i as int, all.len() as int);
        assert(rest.drop_first() =~= all.subrange(i + 1, all.len() as int));
        assert(all.subrange(0, i + 1).drop_last() =~= all.subrange(0, i as int));
        let ghost before = out@;
        match ps[i] {
            Piece::Char(ch) => {
                if pending && ch == '\n' {
                    out.push('\n');
                    pending = false;
                    assert(out@ + render(all.subrange(i + 1, all.len() as int), pending) =~= before + render(rest, true));
                } else {
                    let ghost was = pending;
                    if pending {
                        out.push('\u{240D}');
                        pending = false;
                    }
                    if ch == '\r' {
                        pending = true;
                        assert(out@ + render(all.subrange(i + 1, all.len() as int), pending) =~= before + render(rest, was));
                    } else {
                        let ghost mid = out@;
                        drawn_into(&mut out, ch);
                        assert(out@ + render(all.subrange(i + 1, all.len() as int), pending) =~= before + render(rest, was));
                    }
                }
            },
            Piece::Bad => {
                let ghost was = pending;
                if pending {
                    out.push('\u{240D}');
                    pending = false;
                }
                out.push('\u{FFFD}');
                bad = bad + 1;
                assert(out@ + render(all.subrange(i + 1, all.len() as int), pending) =~= before + render(rest, was));
            },
        }
        i = i + 1;
    }
    if pending {
        out.push('\u{240D}');
    }
    assert(out@ =~= render(all, false)) by {
        assert(all.subrange(i as int, all.len() as int) =~= Seq::<Piece>::empty());
    }
    (crate::text::string_of(out.as_slice()), bad)
}

/// A long source is cut within the limit, at a line end where there is one: what is shown is
/// never more than `limit` bytes, is the start of the source, and ends with a line end when the
/// first `limit` bytes hold one.
pub proof fn law_a_long_source_is_cut_at_a_line_end_within_the_limit(raw: Seq<u8>, limit: nat)
    ensures
        shown_spec(raw, limit).len() <= raw.len(),
        raw.len() > limit ==> shown_spec(raw, limit).len() <= limit,
        shown_spec(raw, limit) == raw.subrange(0, shown_spec(raw, limit).len() as int),
        raw.len() > limit && last_newline(raw.subrange(0, limit as int)) is Some ==> shown_spec(raw, limit).last() == 10,
{
    if raw.len() > limit {
        let head = raw.subrange(0, limit as int);
        lemma_last_newline_in(head);
        lemma_last_newline_is_lf(head);
        match last_newline(head) {
            Some(end) => {
                assert(head.subrange(0, end + 1) =~= raw.subrange(0, end + 1));
            },
            None => {},
        }
    } else {
        assert(raw.subrange(0, raw.len() as int) =~= raw);
    }
}

proof fn lemma_last_newline_is_lf(bytes: Seq<u8>)
    ensures
        last_newline(bytes) matches Some(e) ==> bytes[e] == 10,
    decreases bytes.len(),
{
    if bytes.len() > 0 && bytes.last() != 10 {
        lemma_last_newline_is_lf(bytes.drop_last());
        lemma_last_newline_in(bytes.drop_last());
    }
}

} // verus!
