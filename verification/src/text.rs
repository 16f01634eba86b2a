//! Characters and strings: the few std calls the library makes on text, and the verified
//! pieces built on them (decimal numbers, comparison, searching, replacing).

use vstd::prelude::*;

verus! {

/// The characters of `s`, in order.
pub(crate) fn chars_of(s: &str) -> (r: Vec<char>)
    ensures
        r@ == s@,
{
    broadcast use vstd::string::axiom_spec_iter;
    let mut out: Vec<char> = Vec::new();
    for c in it: s.chars()
        invariant
            out@ == it.seq().subrange(0, it.index() as int),
    {
        out.push(c);
    }
    out
}

/// A string of `chars`, in order.
pub(crate) fn string_of(chars: &[char]) -> (r: String)
    ensures
        r@ == chars@,
{
    let mut out = String::new();
    let mut i: usize = 0;
    while i < chars.len()
        invariant
            i <= chars.len(),
            out@ == chars@.subrange(0, i as int),
        decreases chars.len() - i,
    {
        push_char(&mut out, chars[i]);
        i = i + 1;
        assert(out@ =~= chars@.subrange(0, i as int));
    }
    assert(chars@.subrange(0, chars.len() as int) =~= chars@);
    out
}

/// `s` with `c` at its end: std's `String::push`.
#[verifier::external_body]
pub(crate) fn push_char(s: &mut String, c: char)
    ensures
        final(s)@ == old(s)@.push(c),
{
    s.push(c);
}

/// The decimal digit for `d`, which is below ten.
pub open spec fn digit(d: nat) -> char {
    if d == 0 { '0' }
    else if d == 1 { '1' }
    else if d == 2 { '2' }
    else if d == 3 { '3' }
    else if d == 4 { '4' }
    else if d == 5 { '5' }
    else if d == 6 { '6' }
    else if d == 7 { '7' }
    else if d == 8 { '8' }
    else { '9' }
}

/// `n` in decimal, with no leading zero: what `{}` writes for an unsigned integer.
pub open spec fn dec(n: nat) -> Seq<char>
    decreases n,
{
    if n < 10 {
        seq![digit(n)]
    } else {
        dec(n / 10).push(digit(n % 10))
    }
}

/// `n` in decimal, left-padded with zeros to at least `width` digits: what `{:0width$}` writes.
pub open spec fn dec_padded(n: nat, width: nat) -> Seq<char>
    decreases width,
{
    if dec(n).len() >= width {
        dec(n)
    } else {
        seq!['0'] + dec_padded(n, (width - 1) as nat)
    }
}

pub fn digit_of(d: u64) -> (c: char)
    requires
        d < 10,
    ensures
        c == digit(d as nat),
{
    if d == 0 { '0' }
    else if d == 1 { '1' }
    else if d == 2 { '2' }
    else if d == 3 { '3' }
    else if d == 4 { '4' }
    else if d == 5 { '5' }
    else if d == 6 { '6' }
    else if d == 7 { '7' }
    else if d == 8 { '8' }
    else { '9' }
}

/// The digits of `n` in decimal, as characters.
pub fn dec_chars(n: u64) -> (r: Vec<char>)
    ensures
        r@ == dec(n as nat),
    decreases n,
{
    if n < 10 {
        let mut v = Vec::new();
        v.push(digit_of(n));
        v
    } else {
        let mut v = dec_chars(n / 10);
        v.push(digit_of(n % 10));
        v
    }
}

/// `n` written in decimal.
pub fn decimal(n: u64) -> (r: String)
    ensures
        r@ == dec(n as nat),
{
    let v = dec_chars(n);
    string_of(v.as_slice())
}

/// Whether `a` and `b` hold the same characters.
pub fn same_chars(a: &[char], b: &[char]) -> (r: bool)
    ensures
        r == (a@ == b@),
{
    if a.len() != b.len() {
        return false;
    }
    let mut i: usize = 0;
    while i < a.len()
        invariant
            a.len() == b.len(),
            i <= a.len(),
            forall|j: int| 0 <= j < i ==> a@[j] == b@[j],
        decreases a.len() - i,
    {
        if a[i] != b[i] {
            return false;
        }
        i = i + 1;
    }
    assert(a@ =~= b@);
    true
}

/// Whether `a` and `b` are the same text.
pub fn str_eq(a: &str, b: &str) -> (r: bool)
    ensures
        r == (a@ == b@),
{
    let x = chars_of(a);
    let y = chars_of(b);
    same_chars(x.as_slice(), y.as_slice())
}

/// Whether `s` begins with `prefix`.
pub open spec fn starts_with(s: Seq<char>, prefix: Seq<char>) -> bool {
    prefix.len() <= s.len() && s.subrange(0, prefix.len() as int) == prefix
}

/// Whether `needle` stands in `s` at `at`.
pub open spec fn occurs_at(s: Seq<char>, needle: Seq<char>, at: int) -> bool {
    0 <= at && at + needle.len() <= s.len() && s.subrange(at, at + needle.len()) == needle
}

/// Whether `needle` stands in `s` at `at`, for characters held in slices.
pub fn matches_at(s: &[char], needle: &[char], at: usize) -> (r: bool)
    ensures
        r == occurs_at(s@, needle@, at as int),
{
    if at > s.len() || needle.len() > s.len() - at {
        return false;
    }
    let mut i: usize = 0;
    while i < needle.len()
        invariant
            at + needle.len() <= s.len(),
            i <= needle.len(),
            forall|j: int| 0 <= j < i ==> s@[at + j] == needle@[j],
        decreases needle.len() - i,
    {
        if s[at + i] != needle[i] {
            return false;
        }
        i = i + 1;
    }
    assert(s@.subrange(at as int, at + needle.len()) =~= needle@);
    true
}

/// Where `needle` first stands in `s` at or after `from`, if anywhere.
pub open spec fn first_from(s: Seq<char>, needle: Seq<char>, from: int) -> Option<int>
    decreases s.len() + 1 - from,
{
    if from < 0 || from + needle.len() > s.len() {
        None
    } else if occurs_at(s, needle, from) {
        Some(from)
    } else {
        first_from(s, needle, from + 1)
    }
}

/// Where `needle` first stands in `s`, as `str::find` answers.
pub open spec fn first(s: Seq<char>, needle: Seq<char>) -> Option<int> {
    first_from(s, needle, 0)
}

/// [`first_from`], computed.
pub fn find_from(s: &[char], needle: &[char], from: usize) -> (r: Option<usize>)
    ensures
        r matches Some(at) ==> first_from(s@, needle@, from as int) == Some(at as int),
        r is None ==> first_from(s@, needle@, from as int) is None,
    decreases s.len() + 1 - from,
{
    if from > s.len() || needle.len() > s.len() - from {
        return None;
    }
    if matches_at(s, needle, from) {
        Some(from)
    } else if from >= s.len() {
        assert(first_from(s@, needle@, from + 1) is None);
        None
    } else {
        find_from(s, needle, from + 1)
    }
}

/// `s` with every `pattern` replaced by `with`, left to right and never overlapping: what
/// `str::replace` does for a non-empty pattern.
pub open spec fn replace_from(s: Seq<char>, pattern: Seq<char>, with: Seq<char>, from: int) -> Seq<char>
    recommends
        pattern.len() > 0,
    decreases s.len() + 1 - from,
{
    if from < 0 || from >= s.len() || pattern.len() == 0 {
        if 0 <= from <= s.len() { s.subrange(from, s.len() as int) } else { Seq::empty() }
    } else if occurs_at(s, pattern, from) {
        with + replace_from(s, pattern, with, from + pattern.len())
    } else {
        seq![s[from]] + replace_from(s, pattern, with, from + 1)
    }
}

/// [`replace_from`] from the start.
pub open spec fn replaced(s: Seq<char>, pattern: Seq<char>, with: Seq<char>) -> Seq<char> {
    replace_from(s, pattern, with, 0)
}

/// [`replaced`], computed on characters.
pub fn replace_chars(s: &[char], pattern: &[char], with: &[char]) -> (r: Vec<char>)
    requires
        pattern.len() > 0,
    ensures
        r@ == replaced(s@, pattern@, with@),
{
    let mut out: Vec<char> = Vec::new();
    let mut at: usize = 0;
    while at < s.len()
        invariant
            pattern.len() > 0,
            at <= s.len(),
            out@ + replace_from(s@, pattern@, with@, at as int) == replaced(s@, pattern@, with@),
        decreases s.len() - at,
    {
        if matches_at(s, pattern, at) {
            let mut k: usize = 0;
            let ghost before = out@;
            while k < with.len()
                invariant
                    k <= with.len(),
                    out@ == before + with@.subrange(0, k as int),
                decreases with.len() - k,
            {
                out.push(with[k]);
                k = k + 1;
                assert(with@.subrange(0, k as int) =~= with@.subrange(0, k - 1).push(with@[k - 1]));
            }
            assert(with@.subrange(0, with.len() as int) =~= with@);
            assert(out@ + replace_from(s@, pattern@, with@, at + pattern.len()) =~= before + (with@ + replace_from(s@, pattern@, with@, at + pattern.len())));
            at = at + pattern.len();
        } else {
            let ghost before = out@;
            out.push(s[at]);
            assert(out@ + replace_from(s@, pattern@, with@, at + 1) =~= before + (seq![s@[at as int]] + replace_from(s@, pattern@, with@, at + 1)));
            at = at + 1;
        }
    }
    assert(replace_from(s@, pattern@, with@, at as int) =~= Seq::<char>::empty());
    assert(out@ =~= out@ + Seq::<char>::empty());
    out
}

/// `s` with `piece` put in at `at`, as `String::insert_str` does.
pub fn insert_chars(s: &[char], at: usize, piece: &[char]) -> (r: Vec<char>)
    requires
        at <= s.len(),
    ensures
        r@ == s@.subrange(0, at as int) + piece@ + s@.subrange(at as int, s.len() as int),
{
    let mut out: Vec<char> = Vec::new();
    let mut i: usize = 0;
    while i < at
        invariant
            i <= at <= s.len(),
            out@ == s@.subrange(0, i as int),
        decreases at - i,
    {
        out.push(s[i]);
        i = i + 1;
        assert(s@.subrange(0, i as int) =~= s@.subrange(0, i - 1).push(s@[i - 1]));
    }
    let mut k: usize = 0;
    while k < piece.len()
        invariant
            k <= piece.len(),
            out@ == s@.subrange(0, at as int) + piece@.subrange(0, k as int),
        decreases piece.len() - k,
    {
        out.push(piece[k]);
        k = k + 1;
        assert(piece@.subrange(0, k as int) =~= piece@.subrange(0, k - 1).push(piece@[k - 1]));
    }
    assert(piece@.subrange(0, piece.len() as int) =~= piece@);
    let mut j: usize = at;
    while j < s.len()
        invariant
            at <= j <= s.len(),
            out@ == s@.subrange(0, at as int) + piece@ + s@.subrange(at as int, j as int),
        decreases s.len() - j,
    {
        out.push(s[j]);
        j = j + 1;
        assert(s@.subrange(at as int, j as int) =~= s@.subrange(at as int, j - 1).push(s@[j - 1]));
    }
    out
}

/// Every character of `more` after `out`'s.
pub fn extend_chars(out: &mut Vec<char>, more: &[char])
    ensures
        final(out)@ == old(out)@ + more@,
{
    let mut k: usize = 0;
    while k < more.len()
        invariant
            k <= more.len(),
            out@ == old(out)@ + more@.subrange(0, k as int),
        decreases more.len() - k,
    {
        out.push(more[k]);
        k = k + 1;
        assert(more@.subrange(0, k as int) =~= more@.subrange(0, k - 1).push(more@[k - 1]));
    }
    assert(more@.subrange(0, more.len() as int) =~= more@);
}

} // verus!

verus! {

/// `lines` joined with `sep` between each two, as `[String]::join` does.
pub open spec fn join(lines: Seq<Seq<char>>, sep: Seq<char>) -> Seq<char>
    decreases lines.len(),
{
    if lines.len() == 0 {
        seq![]
    } else if lines.len() == 1 {
        lines[0]
    } else {
        join(lines.drop_last(), sep) + sep + lines.last()
    }
}

/// The strings' characters, each.
pub open spec fn views(v: Seq<String>) -> Seq<Seq<char>> {
    v.map_values(|s: String| s@)
}

/// [`join`], computed.
pub fn join_strings(lines: &Vec<String>, sep: &str) -> (r: String)
    ensures
        r@ == join(views(lines@), sep@),
{
    let mut out = String::new();
    let mut i: usize = 0;
    while i < lines.len()
        invariant
            i <= lines.len(),
            out@ == join(views(lines@).subrange(0, i as int), sep@),
        decreases lines.len() - i,
    {
        let ghost part = views(lines@).subrange(0, i + 1);
        assert(part.drop_last() =~= views(lines@).subrange(0, i as int));
        if i > 0 {
            out.append(sep);
        }
        out.append(lines[i].as_str());
        assert(part.last() == lines@[i as int]@);
        if i == 0 {
            assert(part.len() == 1);
        }
        i = i + 1;
    }
    assert(views(lines@).subrange(0, lines.len() as int) =~= views(lines@));
    out
}

/// `a` then `b`.
pub fn cat(a: &str, b: &str) -> (r: String)
    ensures
        r@ == a@ + b@,
{
    let mut s = String::from_str(a);
    s.append(b);
    s
}

/// `a`, `b`, then `c`.
pub fn cat3(a: &str, b: &str, c: &str) -> (r: String)
    ensures
        r@ == a@ + b@ + c@,
{
    let mut s = String::from_str(a);
    s.append(b);
    s.append(c);
    s
}

} // verus!

verus! {

/// Pushing a string pushes its characters onto the views.
pub proof fn lemma_views_push(v: Seq<String>, s: String)
    ensures
        views(v.push(s)) == views(v).push(s@),
{
    assert(views(v.push(s)) =~= views(v).push(s@));
}

/// The first `i + 1` of a sequence, mapped, are the first `i` mapped and one more.
pub proof fn lemma_map_prefix<A, B>(s: Seq<A>, i: int, f: spec_fn(A) -> B)
    requires
        0 <= i < s.len(),
    ensures
        s.subrange(0, i + 1).map_values(f) == s.subrange(0, i).map_values(f).push(f(s[i])),
{
    assert(s.subrange(0, i + 1).map_values(f) =~= s.subrange(0, i).map_values(f).push(f(s[i])));
}

} // verus!

verus! {

/// Whether `c` is white space as Unicode's `White_Space` property lists it, which is what
/// `char::is_whitespace` and `str::trim` go by.
pub open spec fn is_ws(c: char) -> bool {
    ('\u{9}' <= c && c <= '\u{d}') || c == ' ' || c == '\u{85}' || c == '\u{a0}' || c == '\u{1680}'
        || ('\u{2000}' <= c && c <= '\u{200a}') || c == '\u{2028}' || c == '\u{2029}'
        || c == '\u{202f}' || c == '\u{205f}' || c == '\u{3000}'
}

/// [`is_ws`], computed.
pub fn whitespace(c: char) -> (r: bool)
    ensures
        r == is_ws(c),
{
    ('\u{9}' <= c && c <= '\u{d}') || c == ' ' || c == '\u{85}' || c == '\u{a0}' || c == '\u{1680}'
        || ('\u{2000}' <= c && c <= '\u{200a}') || c == '\u{2028}' || c == '\u{2029}'
        || c == '\u{202f}' || c == '\u{205f}' || c == '\u{3000}'
}

/// `s` without the white space it starts with.
pub open spec fn trim_start(s: Seq<char>) -> Seq<char>
    decreases s.len(),
{
    if s.len() > 0 && is_ws(s[0]) { trim_start(s.drop_first()) } else { s }
}

/// `s` without the white space it ends with.
pub open spec fn trim_end(s: Seq<char>) -> Seq<char>
    decreases s.len(),
{
    if s.len() > 0 && is_ws(s.last()) { trim_end(s.drop_last()) } else { s }
}

/// `s` without white space at either end, as `str::trim` gives it.
pub open spec fn trimmed(s: Seq<char>) -> Seq<char> {
    trim_end(trim_start(s))
}

/// [`trimmed`], computed on characters.
pub fn trim_chars(s: &[char]) -> (r: Vec<char>)
    ensures
        r@ == trimmed(s@),
{
    let mut start: usize = 0;
    assert(s@.subrange(0, s.len() as int) =~= s@);
    while start < s.len() && whitespace(s[start])
        invariant
            start <= s.len(),
            trim_start(s@) == trim_start(s@.subrange(start as int, s.len() as int)),
        decreases s.len() - start,
    {
        assert(s@.subrange(start as int, s.len() as int).drop_first() =~= s@.subrange(start + 1, s.len() as int));
        start = start + 1;
    }
    let mut end: usize = s.len();
    let ghost rest = s@.subrange(start as int, s.len() as int);
    assert(trim_start(s@) == rest);
    while end > start && whitespace(s[end - 1])
        invariant
            start <= end <= s.len(),
            trim_end(rest) == trim_end(s@.subrange(start as int, end as int)),
        decreases end,
    {
        assert(s@.subrange(start as int, end as int).drop_last() =~= s@.subrange(start as int, end - 1));
        end = end - 1;
    }
    let mut out: Vec<char> = Vec::new();
    let mut i: usize = start;
    while i < end
        invariant
            start <= i <= end <= s.len(),
            out@ == s@.subrange(start as int, i as int),
        decreases end - i,
    {
        out.push(s[i]);
        i = i + 1;
        assert(s@.subrange(start as int, i as int) =~= s@.subrange(start as int, i - 1).push(s@[i - 1]));
    }
    out
}

/// [`trimmed`] of a string.
pub fn trim_str(s: &str) -> (r: String)
    ensures
        r@ == trimmed(s@),
{
    let v = chars_of(s);
    let t = trim_chars(v.as_slice());
    string_of(t.as_slice())
}

} // verus!

verus! {

/// Where a needle is found, it lies within the text.
pub proof fn lemma_first_in_range(s: Seq<char>, needle: Seq<char>, from: int)
    ensures
        first_from(s, needle, from) matches Some(at) ==> from <= at && at + needle.len() <= s.len()
            && occurs_at(s, needle, at),
    decreases s.len() + 1 - from,
{
    if from < 0 || from + needle.len() > s.len() {
    } else if occurs_at(s, needle, from) {
    } else {
        lemma_first_in_range(s, needle, from + 1);
    }
}

} // verus!
