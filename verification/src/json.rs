//! JSON string literals: how `serde_json` writes one, how one is read back, and that reading
//! what was written gives the string back and stops at its closing quote, whatever follows.

use vstd::prelude::*;

verus! {

/// The lower-case hexadecimal digit for `n`, below 16.
pub open spec fn hex_digit(n: int) -> char {
    if n < 10 {
        (('0' as int) + n) as char
    } else {
        (('a' as int) + n - 10) as char
    }
}

/// The value of a hexadecimal digit, either case.
pub open spec fn hex_value(c: char) -> Option<int> {
    if '0' <= c && c <= '9' {
        Some(c as int - '0' as int)
    } else if 'a' <= c && c <= 'f' {
        Some(c as int - 'a' as int + 10)
    } else if 'A' <= c && c <= 'F' {
        Some(c as int - 'A' as int + 10)
    } else {
        None
    }
}

/// How `serde_json` writes `c` inside a string: `"` and `\` after a backslash; backspace, form
/// feed, line feed, carriage return and tab as `\b`, `\f`, `\n`, `\r`, `\t`; every other
/// character below U+0020 as `\u00` and two lower-case hex digits; any other as itself.
pub open spec fn json_escape(c: char) -> Seq<char> {
    if c == '"' {
        seq!['\\', '"']
    } else if c == '\\' {
        seq!['\\', '\\']
    } else if c == '\u{8}' {
        seq!['\\', 'b']
    } else if c == '\u{c}' {
        seq!['\\', 'f']
    } else if c == '\n' {
        seq!['\\', 'n']
    } else if c == '\r' {
        seq!['\\', 'r']
    } else if c == '\t' {
        seq!['\\', 't']
    } else if (c as int) < 0x20 {
        seq!['\\', 'u', '0', '0', hex_digit((c as int) / 16), hex_digit((c as int) % 16)]
    } else {
        seq![c]
    }
}

/// The characters of `s`, each as [`json_escape`] writes it.
pub open spec fn json_body(s: Seq<char>) -> Seq<char>
    decreases s.len(),
{
    if s.len() == 0 {
        seq![]
    } else {
        json_escape(s[0]) + json_body(s.drop_first())
    }
}

/// What `serde_json` writes for a string: a quote, its escaped characters, a quote.
pub open spec fn json_string(s: Seq<char>) -> Seq<char> {
    seq!['"'] + json_body(s) + seq!['"']
}

/// `c` in front of what a read gave, if it gave anything.
pub open spec fn read_cons(c: char, read: Option<(Seq<char>, Seq<char>)>) -> Option<(Seq<char>, Seq<char>)> {
    match read {
        Some((s, rest)) => Some((seq![c] + s, rest)),
        None => None,
    }
}

/// The character a backslash escape stands for, and how many characters the escape takes after
/// the backslash; nothing for an escape JSON does not have (a `\u` escape is read for the
/// characters before the surrogates).
pub open spec fn unescape(t: Seq<char>) -> Option<(char, int)> {
    if t.len() == 0 {
        None
    } else if t[0] == '"' {
        Some(('"', 1))
    } else if t[0] == '\\' {
        Some(('\\', 1))
    } else if t[0] == '/' {
        Some(('/', 1))
    } else if t[0] == 'b' {
        Some(('\u{8}', 1))
    } else if t[0] == 'f' {
        Some(('\u{c}', 1))
    } else if t[0] == 'n' {
        Some(('\n', 1))
    } else if t[0] == 'r' {
        Some(('\r', 1))
    } else if t[0] == 't' {
        Some(('\t', 1))
    } else if t[0] == 'u' && t.len() >= 5 {
        match (hex_value(t[1]), hex_value(t[2]), hex_value(t[3]), hex_value(t[4])) {
            (Some(a), Some(b), Some(c), Some(d)) => {
                let v = a * 4096 + b * 256 + c * 16 + d;
                if v < 0xD800 {
                    Some((v as char, 5))
                } else {
                    None
                }
            },
            _ => None,
        }
    } else {
        None
    }
}

/// Reads the inside of a JSON string from the start of `t`, up to and including its closing
/// quote: the string it stands for, and what follows the quote. Nothing when `t` ends first, or
/// holds a raw control character or an escape JSON does not have.
pub open spec fn read_body(t: Seq<char>) -> Option<(Seq<char>, Seq<char>)>
    decreases t.len(),
{
    if t.len() == 0 {
        None
    } else if t[0] == '"' {
        Some((seq![], t.drop_first()))
    } else if t[0] == '\\' {
        match unescape(t.drop_first()) {
            Some((c, n)) => if 1 + n <= t.len() {
                read_cons(c, read_body(t.subrange(1 + n, t.len() as int)))
            } else {
                None
            },
            None => None,
        }
    } else if (t[0] as int) < 0x20 {
        None
    } else {
        read_cons(t[0], read_body(t.drop_first()))
    }
}

/// Reads a JSON string literal from the start of `t`: the string it stands for, and what
/// follows its closing quote.
pub open spec fn read_string(t: Seq<char>) -> Option<(Seq<char>, Seq<char>)> {
    if t.len() > 0 && t[0] == '"' {
        read_body(t.drop_first())
    } else {
        None
    }
}

proof fn lemma_hex(n: int)
    requires
        0 <= n < 16,
    ensures
        hex_value(hex_digit(n)) == Some(n),
{
}

proof fn lemma_read_escape(c: char, t: Seq<char>)
    ensures
        read_body(json_escape(c) + t) == read_cons(c, read_body(t)),
{
    let e = json_escape(c);
    let whole = e + t;
    assert(whole.drop_first() =~= e.drop_first() + t);
    if c == '"' || c == '\\' || c == '\u{8}' || c == '\u{c}' || c == '\n' || c == '\r' || c == '\t' {
        assert(whole[0] == '\\');
        assert(whole.drop_first()[0] == e[1]);
        assert(unescape(whole.drop_first()) == Some((c, 1int)));
        assert(whole.subrange(2, whole.len() as int) =~= t);
    } else if (c as int) < 0x20 {
        let v = c as int;
        lemma_hex(v / 16);
        lemma_hex(v % 16);
        let u = whole.drop_first();
        assert(u[0] == 'u');
        assert(u[1] == '0' && u[2] == '0');
        assert(u[3] == hex_digit(v / 16) && u[4] == hex_digit(v % 16));
        assert(hex_value('0') == Some(0int));
        assert(0 * 4096 + 0 * 256 + (v / 16) * 16 + v % 16 == v);
        assert((v as char) == c);
        assert(unescape(u) == Some((c, 5int)));
        assert(whole.subrange(6, whole.len() as int) =~= t);
    } else {
        assert(whole[0] == c);
        assert(whole.drop_first() =~= t);
    }
}

proof fn lemma_read_body(s: Seq<char>, more: Seq<char>)
    ensures
        read_body(json_body(s) + seq!['"'] + more) == Some((s, more)),
    decreases s.len(),
{
    if s.len() == 0 {
        let t = json_body(s) + seq!['"'] + more;
        assert(t =~= seq!['"'] + more);
        assert(t.drop_first() =~= more);
    } else {
        let rest = s.drop_first();
        lemma_read_body(rest, more);
        lemma_read_escape(s[0], json_body(rest) + seq!['"'] + more);
        assert(json_body(s) + seq!['"'] + more =~= json_escape(s[0]) + (json_body(rest) + seq!['"'] + more));
        assert(seq![s[0]] + rest =~= s);
    }
}

/// What `serde_json` writes for a string reads back as that string, and the read stops at the
/// string's own closing quote, whatever follows it: no string, however it is made (quotes,
/// backslashes, line ends, `");"`), can end the literal early or carry text past it.
pub proof fn law_a_json_string_reads_back_and_ends_at_its_quote(s: Seq<char>, more: Seq<char>)
    ensures
        read_string(json_string(s) + more) == Some((s, more)),
{
    let t = json_string(s) + more;
    assert(t.drop_first() =~= json_body(s) + seq!['"'] + more);
    lemma_read_body(s, more);
}

} // verus!
