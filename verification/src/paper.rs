//! The printout on paper: the sheet the locale asks for, the CJK face that leads, and the
//! document's markup made ready for a layout engine that reads markers instead of CSS
//! fragmentation.
//!
//! A message that starts a page carries `data-break-before="page"`; a message's headers and its
//! list of attachments carry `data-break-inside="avoid"`, so neither is cut by a page's end. The
//! faces are named, CJK included, ahead of the generic family, and the top of the printout says
//! once that pictures it does not hold are named where they were.
//!
//! Every piece of text the document builder writes is escaped, `<`, `>` and `"` included, so
//! the tags matched here can only be the ones the builder wrote itself.

use vstd::prelude::*;
use crate::text::{
    chars_of, extend_chars, find_from, first, first_from, insert_chars, is_ws, join, join_strings,
    replace_chars, replace_from, replaced, same_chars, starts_with, occurs_at, string_of, trim_chars, trim_str, trimmed, views,
};

verus! {

/// Which regional CJK face leads: the ideographs are shared, their shapes are not.
#[derive(Debug, Clone, Copy, PartialEq, Eq, Structural)]
pub enum Cjk {
    /// Traditional Chinese, as in Taiwan: the default when the locale does not say.
    Tc,
    /// Traditional Chinese, as in Hong Kong and Macau.
    Hk,
    /// Simplified Chinese.
    Sc,
    Jp,
    Kr,
}

/// The five faces, in their standing order.
pub open spec fn all_cjk() -> Seq<Cjk> {
    seq![Cjk::Tc, Cjk::Hk, Cjk::Sc, Cjk::Jp, Cjk::Kr]
}

/// Where `c` stands among [`all_cjk`].
pub open spec fn cjk_index(c: Cjk) -> int {
    match c {
        Cjk::Tc => 0,
        Cjk::Hk => 1,
        Cjk::Sc => 2,
        Cjk::Jp => 3,
        Cjk::Kr => 4,
    }
}

/// The suffix Noto's CJK families carry.
pub open spec fn suffix_spec(c: Cjk) -> Seq<char> {
    match c {
        Cjk::Tc => "TC"@,
        Cjk::Hk => "HK"@,
        Cjk::Sc => "SC"@,
        Cjk::Jp => "JP"@,
        Cjk::Kr => "KR"@,
    }
}

/// The five, `c` first and the rest in their standing order.
pub open spec fn order_spec(c: Cjk) -> Seq<Cjk> {
    seq![c] + all_cjk().remove(cjk_index(c))
}

impl Cjk {
    /// The suffix Noto's CJK families carry: `Noto Sans CJK TC`.
    pub fn suffix(self) -> (r: &'static str)
        ensures
            r@ == suffix_spec(self),
    {
        match self {
            Cjk::Tc => "TC",
            Cjk::Hk => "HK",
            Cjk::Sc => "SC",
            Cjk::Jp => "JP",
            Cjk::Kr => "KR",
        }
    }

    /// The five, `self` first: the first one installed wins.
    pub fn order(self) -> (r: [Cjk; 5])
        ensures
            r@ == order_spec(self),
    {
        let r = match self {
            Cjk::Tc => [Cjk::Tc, Cjk::Hk, Cjk::Sc, Cjk::Jp, Cjk::Kr],
            Cjk::Hk => [Cjk::Hk, Cjk::Tc, Cjk::Sc, Cjk::Jp, Cjk::Kr],
            Cjk::Sc => [Cjk::Sc, Cjk::Tc, Cjk::Hk, Cjk::Jp, Cjk::Kr],
            Cjk::Jp => [Cjk::Jp, Cjk::Tc, Cjk::Hk, Cjk::Sc, Cjk::Kr],
            Cjk::Kr => [Cjk::Kr, Cjk::Tc, Cjk::Hk, Cjk::Sc, Cjk::Jp],
        };
        assert(r@ =~= order_spec(self));
        r
    }
}

/// A sheet of paper.
#[derive(Debug, Clone, Copy, PartialEq, Eq, Structural)]
pub enum PageSize {
    A4,
    Letter,
}

/// A page's margins, in millimetres.
#[derive(Debug, Clone, Copy, PartialEq, Eq, Structural)]
pub struct Margins {
    pub top: u32,
    pub right: u32,
    pub bottom: u32,
    pub left: u32,
}

/// The sheet and its margins.
#[derive(Debug, Clone, Copy, PartialEq, Eq, Structural)]
pub struct PageSpec {
    pub size: PageSize,
    pub margins: Margins,
}

/// How a printout is put on paper: the sheet, and the CJK face that leads.
#[derive(Debug, Clone, Copy, PartialEq, Eq, Structural)]
pub struct Paper {
    pub spec: PageSpec,
    pub cjk: Cjk,
}

/// 18 mm above and below, 16 mm at the sides: what the document's own `@page` asks for, and
/// the numbers the print module's notes give for quire's (`ds_native`) default `Margins`. That
/// crate is not to hand here, so these are the numbers as those notes state them, not read
/// from quire's source or from any version of it.
pub open spec fn margins_spec() -> Margins {
    Margins { top: 18, right: 16, bottom: 18, left: 16 }
}

/// The POSIX locale variables the paper is read from, as the environment holds them.
pub struct LocaleVars {
    pub lc_all: Option<String>,
    pub lc_paper: Option<String>,
    pub lc_ctype: Option<String>,
    pub lang: Option<String>,
}

/// An optional string as characters.
pub open spec fn opt_view(v: Option<String>) -> Option<Seq<char>> {
    match v {
        Some(s) => Some(s@),
        None => None,
    }
}

/// Where US Letter is the paper in the shops: glibc's `LC_PAPER` letter territories.
pub open spec fn letter_spec() -> Seq<Seq<char>> {
    seq!["US"@, "CA"@, "MX"@, "PH"@, "CL"@, "CO"@, "VE"@, "CR"@, "PR"@, "GT"@, "SV"@, "NI"@, "PA"@, "DO"@]
}

/// Whether a locale value says anything: it is not blank, and it is not the portable `C` or
/// `POSIX`, which say nothing about paper or script.
pub open spec fn says_something(v: Seq<char>) -> bool {
    v != "C"@ && v != "POSIX"@ && !(v.len() >= 2 && v[0] == 'C' && v[1] == '.')
}

/// Whether `v` is all white space.
pub open spec fn blank(v: Seq<char>) -> bool {
    trimmed(v).len() == 0
}

/// The first of the three that is set and not blank.
pub open spec fn first_set(a: Option<Seq<char>>, b: Option<Seq<char>>, c: Option<Seq<char>>) -> Option<Seq<char>> {
    if a is Some && !blank(a->0) {
        a
    } else if b is Some && !blank(b->0) {
        b
    } else if c is Some && !blank(c->0) {
        c
    } else {
        None
    }
}

/// The locale a category is in: `LC_ALL`, else the category's own variable, else `LANG`;
/// nothing when that says nothing.
pub open spec fn locale_spec(lc_all: Option<Seq<char>>, category: Option<Seq<char>>, lang: Option<Seq<char>>) -> Option<Seq<char>> {
    match first_set(lc_all, category, lang) {
        Some(v) => if says_something(v) { Some(v) } else { None },
        None => None,
    }
}

/// Where `c` first stands in `s` at or after `from`, by character.
pub open spec fn index_of_char(s: Seq<char>, c: char) -> Option<int> {
    first(s, seq![c])
}

/// Where the first of `a` or `b` stands in `s`.
pub open spec fn index_of_either(s: Seq<char>, a: char, b: char) -> Option<int> {
    match (first(s, seq![a]), first(s, seq![b])) {
        (Some(x), Some(y)) => Some(if x <= y { x } else { y }),
        (Some(x), None) => Some(x),
        (None, Some(y)) => Some(y),
        (None, None) => None,
    }
}

/// `en_US.UTF-8@euro` → `US`: what follows the first `_`, up to a `.` or `@`.
pub open spec fn territory_spec(locale: Seq<char>) -> Option<Seq<char>> {
    match index_of_char(locale, '_') {
        Some(u) => {
            let rest = locale.subrange(u + 1, locale.len() as int);
            let end = match index_of_either(rest, '.', '@') {
                Some(e) => e,
                None => rest.len() as int,
            };
            Some(rest.subrange(0, end))
        },
        None => None,
    }
}

/// The language of a locale: what comes before any `_`, `.` or `@`.
pub open spec fn language_spec(locale: Seq<char>) -> Seq<char> {
    let a = index_of_either(locale, '_', '.');
    let b = index_of_char(locale, '@');
    let end = match (a, b) {
        (Some(x), Some(y)) => if x <= y { x } else { y },
        (Some(x), None) => x,
        (None, Some(y)) => y,
        (None, None) => locale.len() as int,
    };
    locale.subrange(0, end)
}

/// The CJK face a locale reads with, when it is a CJK one.
pub open spec fn cjk_of_spec(locale: Seq<char>) -> Option<Cjk> {
    let language = language_spec(locale);
    let place = territory_spec(locale);
    if language == "zh"@ {
        if place == Some("CN"@) || place == Some("SG"@) {
            Some(Cjk::Sc)
        } else if place == Some("HK"@) || place == Some("MO"@) {
            Some(Cjk::Hk)
        } else {
            Some(Cjk::Tc)
        }
    } else if language == "ja"@ {
        Some(Cjk::Jp)
    } else if language == "ko"@ {
        Some(Cjk::Kr)
    } else {
        None
    }
}

/// The paper the locale variables ask for: the sheet from `LC_PAPER`, the CJK face from
/// `LC_CTYPE`, each overridden by `LC_ALL` and defaulting to `LANG`.
pub open spec fn from_locale_spec(lc_all: Option<Seq<char>>, lc_paper: Option<Seq<char>>, lc_ctype: Option<Seq<char>>, lang: Option<Seq<char>>) -> Paper {
    let size = match locale_spec(lc_all, lc_paper, lang) {
        Some(l) => match territory_spec(l) {
            Some(place) => if letter_spec().contains(place) { PageSize::Letter } else { PageSize::A4 },
            None => PageSize::A4,
        },
        None => PageSize::A4,
    };
    let cjk = match locale_spec(lc_all, lc_ctype, lang) {
        Some(l) => match cjk_of_spec(l) {
            Some(c) => c,
            None => Cjk::Tc,
        },
        None => Cjk::Tc,
    };
    Paper { spec: PageSpec { size, margins: margins_spec() }, cjk }
}

impl Paper {
    /// A4, and Traditional Chinese first: what a printout gets when the locale says nothing.
    pub fn plain() -> (r: Paper)
        ensures
            r == (Paper { spec: PageSpec { size: PageSize::A4, margins: margins_spec() }, cjk: Cjk::Tc }),
    {
        Paper {
            spec: PageSpec { size: PageSize::A4, margins: Margins { top: 18, right: 16, bottom: 18, left: 16 } },
            cjk: Cjk::Tc,
        }
    }

    /// The paper the POSIX locale variables ask for.
    pub fn from_locale(vars: &LocaleVars) -> (r: Paper)
        ensures
            r == from_locale_spec(opt_view(vars.lc_all), opt_view(vars.lc_paper), opt_view(vars.lc_ctype), opt_view(vars.lang)),
    {
        let plain = Paper::plain();
        let size = match locale(&vars.lc_all, &vars.lc_paper, &vars.lang) {
            Some(l) => match territory(l.as_str()) {
                Some(place) => if is_letter(place.as_str()) { PageSize::Letter } else { PageSize::A4 },
                None => PageSize::A4,
            },
            None => PageSize::A4,
        };
        let cjk = match locale(&vars.lc_all, &vars.lc_ctype, &vars.lang) {
            Some(l) => match cjk_of(l.as_str()) {
                Some(c) => c,
                None => plain.cjk,
            },
            None => plain.cjk,
        };
        Paper { spec: PageSpec { size, margins: plain.spec.margins }, cjk }
    }
}

fn is_letter(place: &str) -> (r: bool)
    ensures
        r == letter_spec().contains(place@),
{
    let all = vec!["US", "CA", "MX", "PH", "CL", "CO", "VE", "CR", "PR", "GT", "SV", "NI", "PA", "DO"];
    assert(all@.map_values(|s: &str| s@) =~= letter_spec());
    let p = chars_of(place);
    let mut i: usize = 0;
    while i < all.len()
        invariant
            i <= all.len(),
            all@.map_values(|s: &str| s@) == letter_spec(),
            p@ == place@,
            forall|j: int| 0 <= j < i ==> letter_spec()[j] != place@,
        decreases all.len() - i,
    {
        let q = chars_of(all[i]);
        if same_chars(q.as_slice(), p.as_slice()) {
            assert(letter_spec()[i as int] == place@);
            return true;
        }
        i = i + 1;
    }
    false
}

/// Whether the value says something: not blank, not `C`, `POSIX` or `C.`-anything.
fn said(v: &String) -> (r: bool)
    ensures
        r == (!blank(v@) && says_something(v@)),
{
    let chars = chars_of(v.as_str());
    let t = trim_chars(chars.as_slice());
    if t.len() == 0 {
        return false;
    }
    let c = vec!['C'];
    let posix = vec!['P', 'O', 'S', 'I', 'X'];
    proof {
        reveal_strlit("C");
        reveal_strlit("POSIX");
    }
    assert(c@ =~= "C"@);
    assert(posix@ =~= "POSIX"@);
    if same_chars(chars.as_slice(), c.as_slice()) || same_chars(chars.as_slice(), posix.as_slice()) {
        return false;
    }
    if chars.len() >= 2 && chars[0] == 'C' && chars[1] == '.' {
        return false;
    }
    true
}

fn is_blank(v: &String) -> (r: bool)
    ensures
        r == blank(v@),
{
    let chars = chars_of(v.as_str());
    trim_chars(chars.as_slice()).len() == 0
}

/// The locale a category is in: `LC_ALL`, else the category's own variable, else `LANG`. The
/// portable `C` and `POSIX` say nothing about paper or script.
pub fn locale(lc_all: &Option<String>, category: &Option<String>, lang: &Option<String>) -> (r: Option<String>)
    ensures
        opt_view(r) == locale_spec(opt_view(*lc_all), opt_view(*category), opt_view(*lang)),
{
    let chosen = match lc_all {
        Some(v) if !is_blank(v) => Some(v),
        _ => match category {
            Some(v) if !is_blank(v) => Some(v),
            _ => match lang {
                Some(v) if !is_blank(v) => Some(v),
                _ => None,
            },
        },
    };
    match chosen {
        Some(v) => if said(v) { Some(v.clone()) } else { None },
        None => None,
    }
}

/// Where the first of `a` or `b` stands in `s`.
fn either(s: &[char], a: char, b: char) -> (r: Option<usize>)
    ensures
        match r {
            Some(i) => index_of_either(s@, a, b) == Some(i as int),
            None => index_of_either(s@, a, b) is None,
        },
{
    let x = find_from(s, &[a], 0);
    let y = find_from(s, &[b], 0);
    proof {
        assert([a]@ =~= seq![a]);
        assert([b]@ =~= seq![b]);
    }
    match (x, y) {
        (Some(i), Some(j)) => Some(if i <= j { i } else { j }),
        (Some(i), None) => Some(i),
        (None, Some(j)) => Some(j),
        (None, None) => None,
    }
}

/// Characters `from..to` of `s`.
fn slice_chars(s: &[char], from: usize, to: usize) -> (r: Vec<char>)
    requires
        from <= to <= s.len(),
    ensures
        r@ == s@.subrange(from as int, to as int),
{
    let mut out: Vec<char> = Vec::new();
    let mut i = from;
    while i < to
        invariant
            from <= i <= to <= s.len(),
            out@ == s@.subrange(from as int, i as int),
        decreases to - i,
    {
        out.push(s[i]);
        i = i + 1;
        assert(s@.subrange(from as int, i as int) =~= s@.subrange(from as int, i - 1).push(s@[i - 1]));
    }
    out
}

fn territory_chars(l: &[char]) -> (r: Option<Vec<char>>)
    ensures
        match r {
            Some(t) => territory_spec(l@) == Some(t@),
            None => territory_spec(l@) is None,
        },
{
    let under = find_from(l, &['_'], 0);
    proof {
        assert(['_']@ =~= seq!['_']);
        crate::text::lemma_first_in_range(l@, seq!['_'], 0);
    }
    match under {
        Some(u) => {
            assert(first_from(l@, seq!['_'], 0) == Some(u as int));
            let n = l.len();
            assert(u + 1 <= n);
            let rest = slice_chars(l, u + 1, n);
            let end = match either(rest.as_slice(), '.', '@') {
                Some(e) => e,
                None => rest.len(),
            };
            proof {
                if let Some(e) = index_of_either(rest@, '.', '@') {
                    crate::text::lemma_first_in_range(rest@, seq!['.'], 0);
                    crate::text::lemma_first_in_range(rest@, seq!['@'], 0);
                }
            }
            Some(slice_chars(rest.as_slice(), 0, end))
        },
        None => None,
    }
}

/// `en_US.UTF-8@euro` → `US`.
pub fn territory(locale: &str) -> (r: Option<String>)
    ensures
        opt_view(r) == territory_spec(locale@),
{
    let l = chars_of(locale);
    match territory_chars(l.as_slice()) {
        Some(t) => Some(string_of(t.as_slice())),
        None => None,
    }
}

/// The CJK face a locale reads with, when it is a CJK one.
pub fn cjk_of(locale: &str) -> (r: Option<Cjk>)
    ensures
        r == cjk_of_spec(locale@),
{
    let l = chars_of(locale);
    let a = either(l.as_slice(), '_', '.');
    let b = find_from(l.as_slice(), &['@'], 0);
    proof {
        assert(['@']@ =~= seq!['@']);
        crate::text::lemma_first_in_range(l@, seq!['_'], 0);
        crate::text::lemma_first_in_range(l@, seq!['.'], 0);
        crate::text::lemma_first_in_range(l@, seq!['@'], 0);
    }
    let end = match (a, b) {
        (Some(x), Some(y)) => if x <= y { x } else { y },
        (Some(x), None) => x,
        (None, Some(y)) => y,
        (None, None) => l.len(),
    };
    let language = slice_chars(l.as_slice(), 0, end);
    let place = territory_chars(l.as_slice());
    proof {
        reveal_strlit("zh");
        reveal_strlit("ja");
        reveal_strlit("ko");
        reveal_strlit("CN");
        reveal_strlit("SG");
        reveal_strlit("HK");
        reveal_strlit("MO");
    }
    let zh = vec!['z', 'h'];
    let ja = vec!['j', 'a'];
    let ko = vec!['k', 'o'];
    assert(zh@ =~= "zh"@);
    assert(ja@ =~= "ja"@);
    assert(ko@ =~= "ko"@);
    if same_chars(language.as_slice(), zh.as_slice()) {
        let (sc, hk) = match &place {
            Some(p) => {
                let cn = vec!['C', 'N'];
                let sg = vec!['S', 'G'];
                let hkv = vec!['H', 'K'];
                let mo = vec!['M', 'O'];
                assert(cn@ =~= "CN"@);
                assert(sg@ =~= "SG"@);
                assert(hkv@ =~= "HK"@);
                assert(mo@ =~= "MO"@);
                (
                    same_chars(p.as_slice(), cn.as_slice()) || same_chars(p.as_slice(), sg.as_slice()),
                    same_chars(p.as_slice(), hkv.as_slice()) || same_chars(p.as_slice(), mo.as_slice()),
                )
            },
            None => (false, false),
        };
        if sc {
            Some(Cjk::Sc)
        } else if hk {
            Some(Cjk::Hk)
        } else {
            Some(Cjk::Tc)
        }
    } else if same_chars(language.as_slice(), ja.as_slice()) {
        Some(Cjk::Jp)
    } else if same_chars(language.as_slice(), ko.as_slice()) {
        Some(Cjk::Kr)
    } else {
        None
    }
}

/// A family's name in quotes, as CSS names it.
pub open spec fn quoted(f: Seq<char>) -> Seq<char> {
    "'"@ + f + "'"@
}

/// The families the printout names: Latin first (so Latin text keeps its face), then the CJK
/// faces in `cjk`'s order, then the generic family.
pub open spec fn stack_spec(latin: Seq<Seq<char>>, family: Seq<char>, cjk: Cjk, generic: Seq<char>) -> Seq<char> {
    join(
        latin.map_values(|f: Seq<char>| quoted(f))
            + order_spec(cjk).map_values(|r: Cjk| quoted(family + " "@ + suffix_spec(r)))
            + seq![generic],
        ", "@,
    )
}

/// The families of a stack, in order.
pub fn stack(latin: &[&str], cjk_family: &str, cjk: Cjk, generic: &str) -> (r: String)
    ensures
        r@ == stack_spec(latin@.map_values(|f: &str| f@), cjk_family@, cjk, generic@),
{
    let mut families: Vec<String> = Vec::new();
    let mut i: usize = 0;
    while i < latin.len()
        invariant
            i <= latin.len(),
            views(families@) == latin@.map_values(|f: &str| f@).subrange(0, i as int).map_values(|f: Seq<char>| quoted(f)),
        decreases latin.len() - i,
    {
        let f = crate::text::cat3("'", latin[i], "'");
        let ghost before = families@;
        families.push(f);
        proof {
            crate::text::lemma_views_push(before, f);
            assert(latin@.map_values(|f: &str| f@)[i as int] == latin@[i as int]@);
            crate::text::lemma_map_prefix(latin@.map_values(|f: &str| f@), i as int, |f: Seq<char>| quoted(f));
        }
        i = i + 1;
    }
    assert(latin@.map_values(|f: &str| f@).subrange(0, latin.len() as int) =~= latin@.map_values(|f: &str| f@));
    let ghost head = views(families@);
    let order = cjk.order();
    let mut k: usize = 0;
    while k < 5
        invariant
            k <= 5,
            order@ == order_spec(cjk),
            views(families@) == head + order_spec(cjk).subrange(0, k as int).map_values(|r: Cjk| quoted(cjk_family@ + " "@ + suffix_spec(r))),
        decreases 5 - k,
    {
        let mut f = String::from_str("'");
        f.append(cjk_family);
        f.append(" ");
        f.append(order[k].suffix());
        f.append("'");
        let ghost before = families@;
        families.push(f);
        proof {
            crate::text::lemma_views_push(before, f);
            crate::text::lemma_map_prefix(order_spec(cjk), k as int, |r: Cjk| quoted(cjk_family@ + " "@ + suffix_spec(r)));
            assert(quoted(cjk_family@ + " "@ + suffix_spec(order_spec(cjk)[k as int])) =~= f@);
        }
        k = k + 1;
    }
    assert(order_spec(cjk).subrange(0, 5) =~= order_spec(cjk));
    let ghost mid = views(families@);
    let g = String::from_str(generic);
    families.push(g);
    proof {
        crate::text::lemma_views_push(families@.drop_last(), g);
        assert(families@.drop_last() =~= families@.subrange(0, families@.len() - 1));
    }
    assert(views(families@) =~= latin@.map_values(|f: &str| f@).map_values(|f: Seq<char>| quoted(f))
        + order_spec(cjk).map_values(|r: Cjk| quoted(cjk_family@ + " "@ + suffix_spec(r)))
        + seq![generic@]);
    join_strings(&families, ", ")
}

/// The rules the printout adds after the document's own: only `font-family`, so every size
/// and weight the document sets stays.
pub open spec fn paper_css_spec(cjk: Cjk) -> Seq<char> {
    let serif = stack_spec(seq!["Georgia"@, "Times New Roman"@, "Noto Serif"@], "Noto Serif CJK"@, cjk, "serif"@);
    let sans = stack_spec(seq!["Noto Sans"@], "Noto Sans CJK"@, cjk, "sans-serif"@);
    let mono = stack_spec(seq!["Noto Sans Mono"@], "Noto Sans Mono CJK"@, cjk, "monospace"@);
    "body { font-family: "@ + serif + "; }\n"@
        + ".printed, .paper-note, h1.thread, .headers, .headers h2, .note, .attachments { font-family: "@
        + sans + "; }\n"@ + ".body pre, .body code { font-family: "@ + mono + "; }\n"@
        + ".paper-note { font-size: 8pt; color: #555; margin: 0 0 1em; }\n"@
}

/// The rules [`for_paper`] adds after the document's own: faces named, CJK included.
pub fn paper_css(cjk: Cjk) -> (r: String)
    ensures
        r@ == paper_css_spec(cjk),
{
    let serif_latin: [&str; 3] = ["Georgia", "Times New Roman", "Noto Serif"];
    let sans_latin: [&str; 1] = ["Noto Sans"];
    let mono_latin: [&str; 1] = ["Noto Sans Mono"];
    assert(serif_latin@.map_values(|f: &str| f@) =~= seq!["Georgia"@, "Times New Roman"@, "Noto Serif"@]);
    assert(sans_latin@.map_values(|f: &str| f@) =~= seq!["Noto Sans"@]);
    assert(mono_latin@.map_values(|f: &str| f@) =~= seq!["Noto Sans Mono"@]);
    let serif = stack(&serif_latin, "Noto Serif CJK", cjk, "serif");
    let sans = stack(&sans_latin, "Noto Sans CJK", cjk, "sans-serif");
    let mono = stack(&mono_latin, "Noto Sans Mono CJK", cjk, "monospace");
    let mut out = String::from_str("body { font-family: ");
    out.append(serif.as_str());
    out.append("; }\n");
    out.append(".printed, .paper-note, h1.thread, .headers, .headers h2, .note, .attachments { font-family: ");
    out.append(sans.as_str());
    out.append("; }\n");
    out.append(".body pre, .body code { font-family: ");
    out.append(mono.as_str());
    out.append("; }\n");
    out.append(".paper-note { font-size: 8pt; color: #555; margin: 0 0 1em; }\n");
    out
}

/// What the top of a printout says when it names a picture instead of drawing it.
pub open spec fn pictures_note() -> Seq<char> {
    "Pictures that are not part of the message are not printed; each is named where it appears."@
}

/// The document with the page markers on the builder's own tags.
pub open spec fn marked_spec(html: Seq<char>) -> Seq<char> {
    replaced(
        replaced(
            replaced(html, "<article class=\"message new-page\">"@, "<article class=\"message new-page\" data-break-before=\"page\">"@),
            "<header class=\"headers\">"@,
            "<header class=\"headers\" data-break-inside=\"avoid\">"@,
        ),
        "<section class=\"attachments\">"@,
        "<section class=\"attachments\" data-break-inside=\"avoid\">"@,
    )
}

/// The document with the named faces put before its `</head>`, when it has one.
pub open spec fn styled_spec(marked: Seq<char>, cjk: Cjk) -> Seq<char> {
    match first(marked, "</head>"@) {
        Some(at) => marked.subrange(0, at) + "<style>\n"@ + paper_css_spec(cjk) + "</style>\n"@
            + marked.subrange(at, marked.len() as int),
        None => marked,
    }
}

/// `mail_mime::print`'s document, ready for paper: the page markers, the named faces, and,
/// when a picture is named rather than drawn, the note on pictures after the "Printed" line.
pub open spec fn for_paper_spec(html: Seq<char>, cjk: Cjk) -> Seq<char> {
    let out = styled_spec(marked_spec(html), cjk);
    let note = "\n<p class=\"paper-note\">"@ + pictures_note() + "</p>"@;
    if first(out, "<p class=\"missing\">"@) is Some {
        match first(out, "<p class=\"printed\">"@) {
            Some(line) => match first_from(out, "</p>"@, line) {
                Some(end) => out.subrange(0, end + 4) + note + out.subrange(end + 4, out.len() as int),
                None => out,
            },
            None => out,
        }
    } else {
        out
    }
}

/// `html` ready for paper; see the module notes for what each change is and why editing is safe.
pub fn for_paper(html: &str, cjk: Cjk) -> (r: String)
    ensures
        r@ == for_paper_spec(html@, cjk),
{
    let h = chars_of(html);
    let p1 = chars_of("<article class=\"message new-page\">");
    let w1 = chars_of("<article class=\"message new-page\" data-break-before=\"page\">");
    let p2 = chars_of("<header class=\"headers\">");
    let w2 = chars_of("<header class=\"headers\" data-break-inside=\"avoid\">");
    let p3 = chars_of("<section class=\"attachments\">");
    let w3 = chars_of("<section class=\"attachments\" data-break-inside=\"avoid\">");
    proof {
        reveal_strlit("<article class=\"message new-page\">");
        reveal_strlit("<header class=\"headers\">");
        reveal_strlit("<section class=\"attachments\">");
    }
    let a = replace_chars(h.as_slice(), p1.as_slice(), w1.as_slice());
    let b = replace_chars(a.as_slice(), p2.as_slice(), w2.as_slice());
    let mut out = replace_chars(b.as_slice(), p3.as_slice(), w3.as_slice());
    assert(out@ == marked_spec(html@));
    let head = chars_of("</head>");
    match find_from(out.as_slice(), head.as_slice(), 0) {
        Some(at) => {
            proof {
                crate::text::lemma_first_in_range(out@, head@, 0);
            }
            let mut style = chars_of("<style>\n");
            let css = chars_of(paper_css(cjk).as_str());
            extend_chars(&mut style, css.as_slice());
            let close = chars_of("</style>\n");
            extend_chars(&mut style, close.as_slice());
            let ghost before = out@;
            out = insert_chars(out.as_slice(), at, style.as_slice());
            assert(out@ =~= styled_spec(marked_spec(html@), cjk));
        },
        None => {},
    }
    assert(out@ == styled_spec(marked_spec(html@), cjk));
    let missing = chars_of("<p class=\"missing\">");
    let printed = chars_of("<p class=\"printed\">");
    let close_p = chars_of("</p>");
    proof {
        reveal_strlit("</p>");
    }
    if find_from(out.as_slice(), missing.as_slice(), 0).is_some() {
        if let Some(line) = find_from(out.as_slice(), printed.as_slice(), 0) {
            proof {
                crate::text::lemma_first_in_range(out@, printed@, 0);
            }
            if let Some(end) = find_from(out.as_slice(), close_p.as_slice(), line) {
                proof {
                    crate::text::lemma_first_in_range(out@, close_p@, line as int);
                }
                let mut note = chars_of("\n<p class=\"paper-note\">");
                let words = chars_of("Pictures that are not part of the message are not printed; each is named where it appears.");
                extend_chars(&mut note, words.as_slice());
                extend_chars(&mut note, close_p.as_slice());
                let n = out.len();
                assert(close_p@.len() == 4);
                assert(end + 4 <= n);
                out = insert_chars(out.as_slice(), end + 4, note.as_slice());
            }
        }
    }
    string_of(out.as_slice())
}

/// A document the print builder made: its markup, and the thread's subject.
pub struct Printed {
    pub html: String,
    pub subject: String,
}

/// What a print dialog, and a PDF file, are titled: the subject, or "(no subject)".
pub open spec fn title_spec(subject: Seq<char>) -> Seq<char> {
    if trimmed(subject).len() == 0 { "(no subject)"@ } else { trimmed(subject) }
}

/// What a print dialog, and a PDF file, are titled: the subject, or "(no subject)".
pub fn title(printed: &Printed) -> (r: String)
    ensures
        r@ == title_spec(printed.subject@),
{
    let subject = trim_str(printed.subject.as_str());
    if subject.as_str().is_empty() {
        String::from_str("(no subject)")
    } else {
        subject
    }
}

/// `LC_ALL` overrides both categories, and `LANG` is only the default: when `LC_ALL` says
/// anything, the other variables change nothing; when it is unset, a category's own variable
/// wins over `LANG`.
pub proof fn law_lc_all_over_the_category_over_lang(
    all: Seq<char>,
    paper: Option<Seq<char>>,
    ctype: Option<Seq<char>>,
    lang: Option<Seq<char>>,
    other_paper: Option<Seq<char>>,
    other_ctype: Option<Seq<char>>,
    other_lang: Option<Seq<char>>,
    category: Seq<char>,
    some_lang: Option<Seq<char>>,
)
    requires
        !blank(all),
        !blank(category),
    ensures
        from_locale_spec(Some(all), paper, ctype, lang) == from_locale_spec(Some(all), other_paper, other_ctype, other_lang),
        locale_spec(None, Some(category), some_lang) == locale_spec(None, Some(category), None),
{
}

/// The marker on a message that starts a page.
pub open spec fn break_before() -> Seq<char> {
    " data-break-before=\"page\""@
}

/// The marker on what a page's end must not cut.
pub open spec fn break_inside() -> Seq<char> {
    " data-break-inside=\"avoid\""@
}

/// `t` with every page marker taken out, read from the start.
pub open spec fn unmarked(t: Seq<char>) -> Seq<char>
    decreases t.len(),
{
    if t.len() == 0 {
        seq![]
    } else if starts_with(t, break_before()) {
        proof {
            reveal_strlit(" data-break-before=\"page\"");
        }
        unmarked(t.subrange(break_before().len() as int, t.len() as int))
    } else if starts_with(t, break_inside()) {
        proof {
            reveal_strlit(" data-break-inside=\"avoid\"");
        }
        unmarked(t.subrange(break_inside().len() as int, t.len() as int))
    } else {
        seq![t[0]] + unmarked(t.drop_first())
    }
}

/// Whether `c` is nowhere in `s`.
pub open spec fn free_of(s: Seq<char>, c: char) -> bool
    decreases s.len(),
{
    s.len() == 0 || (s[0] != c && free_of(s.drop_first(), c))
}

/// Whether no page marker can start inside `x`: every space in it is followed by something
/// other than `d`.
pub open spec fn no_marker_start(x: Seq<char>) -> bool
    decreases x.len(),
{
    x.len() == 0 || ((x[0] != ' ' || (x.len() > 1 && x[1] != 'd')) && no_marker_start(x.drop_first()))
}

proof fn lemma_free_of(s: Seq<char>, c: char)
    requires
        free_of(s, c),
    ensures
        forall|k: int| 0 <= k < s.len() ==> s[k] != c,
    decreases s.len(),
{
    if s.len() > 0 {
        lemma_free_of(s.drop_first(), c);
        assert forall|k: int| 0 <= k < s.len() implies s[k] != c by {
            if k > 0 {
                assert(s.drop_first()[k - 1] == s[k]);
            }
        }
    }
}

proof fn lemma_markers()
    ensures
        break_before().len() == 25,
        break_inside().len() == 26,
        break_before()[0] == ' ' && break_before()[1] == 'd',
        break_inside()[0] == ' ' && break_inside()[1] == 'd',
        break_before()[12] == 'b' && break_inside()[12] == 'i',
        forall|k: int| 0 <= k < break_before().len() ==> break_before()[k] != '<' && break_before()[k] != '>',
        forall|k: int| 0 <= k < break_inside().len() ==> break_inside()[k] != '<' && break_inside()[k] != '>',
{
    reveal_strlit(" data-break-before=\"page\"");
    reveal_strlit(" data-break-inside=\"avoid\"");
    reveal_with_fuel(free_of, 30);
    assert(free_of(break_before(), '<'));
    assert(free_of(break_before(), '>'));
    assert(free_of(break_inside(), '<'));
    assert(free_of(break_inside(), '>'));
    lemma_free_of(break_before(), '<');
    lemma_free_of(break_before(), '>');
    lemma_free_of(break_inside(), '<');
    lemma_free_of(break_inside(), '>');
}

proof fn lemma_not_a_marker(t: Seq<char>)
    requires
        t.len() > 0,
        t[0] != ' ' || (t.len() > 1 && t[1] != 'd'),
    ensures
        !starts_with(t, break_before()),
        !starts_with(t, break_inside()),
{
    lemma_markers();
    if starts_with(t, break_before()) {
        assert(t[0] == t.subrange(0, 25)[0]);
        assert(t[1] == t.subrange(0, 25)[1]);
    }
    if starts_with(t, break_inside()) {
        assert(t[0] == t.subrange(0, 26)[0]);
        assert(t[1] == t.subrange(0, 26)[1]);
    }
}

proof fn lemma_unmarked_keeps(x: Seq<char>, rest: Seq<char>)
    requires
        no_marker_start(x),
    ensures
        unmarked(x + rest) == x + unmarked(rest),
    decreases x.len(),
{
    if x.len() > 0 {
        let t = x + rest;
        assert(t[0] == x[0]);
        if x.len() > 1 {
            assert(t[1] == x[1]);
        }
        lemma_not_a_marker(t);
        assert(t.drop_first() =~= x.drop_first() + rest);
        lemma_unmarked_keeps(x.drop_first(), rest);
        assert(x + unmarked(rest) =~= seq![x[0]] + (x.drop_first() + unmarked(rest)));
    } else {
        assert(x + rest =~= rest);
        assert(x + unmarked(rest) =~= unmarked(rest));
    }
}

proof fn lemma_unmarked_drops(m: Seq<char>, rest: Seq<char>)
    requires
        m == break_before() || m == break_inside(),
    ensures
        unmarked(m + rest) == unmarked(rest),
{
    lemma_markers();
    let t = m + rest;
    assert(t.subrange(0, m.len() as int) =~= m);
    assert(t.subrange(m.len() as int, t.len() as int) =~= rest);
    if m == break_inside() {
        if starts_with(t, break_before()) {
            assert(t.subrange(0, 25)[12] == t[12]);
        }
    }
}

proof fn lemma_replace_plain(s: Seq<char>, p: Seq<char>, w: Seq<char>, from: int, l: int)
    requires
        p.len() > 0,
        p[0] == '<',
        0 <= from,
        0 <= l,
        from + l <= s.len(),
        forall|j: int| from <= j < from + l ==> s[j] != '<',
    ensures
        replace_from(s, p, w, from) == s.subrange(from, from + l) + replace_from(s, p, w, from + l),
    decreases l,
{
    if l == 0 {
        assert(s.subrange(from, from) =~= Seq::<char>::empty());
        assert(Seq::<char>::empty() + replace_from(s, p, w, from) =~= replace_from(s, p, w, from));
    } else {
        assert(s[from] != '<');
        if occurs_at(s, p, from) {
            assert(s.subrange(from, from + p.len())[0] == s[from]);
        }
        lemma_replace_plain(s, p, w, from + 1, l - 1);
        assert(s.subrange(from, from + l) =~= seq![s[from]] + s.subrange(from + 1, from + l));
    }
}

proof fn lemma_replace_back(s: Seq<char>, p: Seq<char>, w: Seq<char>, from: int, l: int)
    requires
        p.len() > 0,
        w.len() > 0,
        w[0] == '<',
        0 <= from <= s.len(),
        0 <= l <= replace_from(s, p, w, from).len(),
        forall|k: int| 0 <= k < l ==> replace_from(s, p, w, from)[k] != '<',
    ensures
        from + l <= s.len(),
        s.subrange(from, from + l) == replace_from(s, p, w, from).subrange(0, l),
    decreases l,
{
    let o = replace_from(s, p, w, from);
    if l == 0 {
        assert(s.subrange(from, from) =~= o.subrange(0, 0));
    } else {
        if from >= s.len() {
            assert(o =~= s.subrange(from, s.len() as int));
            assert(o.len() == 0);
        }
        if occurs_at(s, p, from) {
            assert(o == w + replace_from(s, p, w, from + p.len()));
            assert(o[0] == w[0]);
            assert(o[0] != '<');
        }
        let o2 = replace_from(s, p, w, from + 1);
        assert(o == seq![s[from]] + o2);
        assert forall|k: int| 0 <= k < l - 1 implies o2[k] != '<' by {
            assert(o[k + 1] == o2[k]);
        }
        lemma_replace_back(s, p, w, from + 1, l - 1);
        assert forall|k: int| 0 <= k < l implies s.subrange(from, from + l)[k] == o.subrange(0, l)[k] by {
            if k > 0 {
                assert(s.subrange(from + 1, from + l)[k - 1] == o2.subrange(0, l - 1)[k - 1]);
                assert(o[k] == o2[k - 1]);
            }
        }
        assert(s.subrange(from, from + l) =~= o.subrange(0, l));
    }
}

proof fn lemma_marker_in_output(s: Seq<char>, p: Seq<char>, w: Seq<char>, from: int, mk: Seq<char>)
    requires
        p.len() > 0,
        w.len() > 0,
        w[0] == '<',
        0 <= from <= s.len(),
        mk == break_before() || mk == break_inside(),
        starts_with(replace_from(s, p, w, from), mk),
    ensures
        starts_with(s.subrange(from, s.len() as int), mk),
{
    lemma_markers();
    let o = replace_from(s, p, w, from);
    let l = mk.len() as int;
    assert forall|k: int| 0 <= k < l implies o[k] != '<' by {
        assert(o.subrange(0, l)[k] == o[k]);
    }
    lemma_replace_back(s, p, w, from, l);
    assert(s.subrange(from, s.len() as int).subrange(0, l) =~= s.subrange(from, from + l));
}

proof fn lemma_unmarked_replace(s: Seq<char>, p: Seq<char>, w: Seq<char>, x: Seq<char>, m: Seq<char>, from: int)
    requires
        p == x + seq!['>'],
        w == x + m + seq!['>'],
        x.len() > 0,
        x[0] == '<',
        no_marker_start(x),
        m == break_before() || m == break_inside(),
        0 <= from <= s.len(),
    ensures
        unmarked(replace_from(s, p, w, from)) == unmarked(s.subrange(from, s.len() as int)),
    decreases s.len() - from,
{
    lemma_markers();
    let o = replace_from(s, p, w, from);
    let ss = s.subrange(from, s.len() as int);
    if from == s.len() {
    } else if occurs_at(s, p, from) {
        let r = replace_from(s, p, w, from + p.len());
        let rest = s.subrange(from + p.len(), s.len() as int);
        assert(o == w + r);
        assert(ss =~= p + rest);
        lemma_unmarked_replace(s, p, w, x, m, from + p.len());
        assert(seq!['>'].drop_first() =~= Seq::<char>::empty());
        assert(no_marker_start(Seq::<char>::empty()));
        assert(seq!['>'][0] == '>');
        assert(no_marker_start(seq!['>']));
        lemma_unmarked_keeps(seq!['>'], r);
        lemma_unmarked_keeps(seq!['>'], rest);
        lemma_unmarked_drops(m, seq!['>'] + r);
        lemma_unmarked_keeps(x, m + (seq!['>'] + r));
        lemma_unmarked_keeps(x, seq!['>'] + rest);
        assert(w + r =~= x + (m + (seq!['>'] + r)));
        assert(p + rest =~= x + (seq!['>'] + rest));
    } else if starts_with(ss, break_before()) || starts_with(ss, break_inside()) {
        let mk = if starts_with(ss, break_before()) { break_before() } else { break_inside() };
        let l = mk.len() as int;
        assert(ss.subrange(0, l) == mk);
        assert forall|j: int| from <= j < from + l implies s[j] != '<' by {
            assert(ss.subrange(0, l)[j - from] == s[j]);
        }
        lemma_replace_plain(s, p, w, from, l);
        assert(s.subrange(from, from + l) =~= mk);
        let r = replace_from(s, p, w, from + l);
        let rest = s.subrange(from + l, s.len() as int);
        assert(ss =~= mk + rest);
        lemma_unmarked_drops(mk, r);
        lemma_unmarked_drops(mk, rest);
        lemma_unmarked_replace(s, p, w, x, m, from + l);
    } else {
        let r = replace_from(s, p, w, from + 1);
        assert(o == seq![s[from]] + r);
        assert(w[0] == x[0]);
        if starts_with(o, break_before()) {
            lemma_marker_in_output(s, p, w, from, break_before());
        }
        if starts_with(o, break_inside()) {
            lemma_marker_in_output(s, p, w, from, break_inside());
        }
        assert(o.drop_first() =~= r);
        assert(ss.drop_first() =~= s.subrange(from + 1, s.len() as int));
        assert(ss[0] == s[from]);
        lemma_unmarked_replace(s, p, w, x, m, from + 1);
    }
}

proof fn lemma_first_none(s: Seq<char>, needle: Seq<char>, from: int)
    requires
        0 <= from,
        first_from(s, needle, from) is None,
    ensures
        forall|k: int| from <= k ==> !occurs_at(s, needle, k),
    decreases s.len() + 1 - from,
{
    if from + needle.len() <= s.len() {
        lemma_first_none(s, needle, from + 1);
    }
}

proof fn lemma_unmarked_plain(t: Seq<char>, from: int)
    requires
        0 <= from <= t.len(),
        forall|k: int| from <= k ==> !occurs_at(t, break_before(), k),
        forall|k: int| from <= k ==> !occurs_at(t, break_inside(), k),
    ensures
        unmarked(t.subrange(from, t.len() as int)) == t.subrange(from, t.len() as int),
    decreases t.len() - from,
{
    let u = t.subrange(from, t.len() as int);
    if from < t.len() {
        lemma_markers();
        if starts_with(u, break_before()) {
            assert(t.subrange(from, from + 25) =~= u.subrange(0, 25));
            assert(occurs_at(t, break_before(), from));
        }
        if starts_with(u, break_inside()) {
            assert(t.subrange(from, from + 26) =~= u.subrange(0, 26));
            assert(occurs_at(t, break_inside(), from));
        }
        lemma_unmarked_plain(t, from + 1);
        assert(u.drop_first() =~= t.subrange(from + 1, t.len() as int));
        assert(u =~= seq![u[0]] + u.drop_first());
    }
}

proof fn lemma_unmarked_one(s: Seq<char>, p: Seq<char>, w: Seq<char>, x: Seq<char>, m: Seq<char>)
    requires
        p == x + seq!['>'],
        w == x + m + seq!['>'],
        x.len() > 0,
        x[0] == '<',
        no_marker_start(x),
        m == break_before() || m == break_inside(),
    ensures
        unmarked(replaced(s, p, w)) == unmarked(s),
{
    lemma_unmarked_replace(s, p, w, x, m, 0);
    assert(s.subrange(0, s.len() as int) =~= s);
}

/// `<article class="message new-page"` and the two others before their `>`: no marker can
/// start inside them.
proof fn lemma_builder_tags()
    ensures
        "<article class=\"message new-page\">"@ == "<article class=\"message new-page\""@ + seq!['>'],
        "<article class=\"message new-page\" data-break-before=\"page\">"@
            == "<article class=\"message new-page\""@ + break_before() + seq!['>'],
        "<header class=\"headers\">"@ == "<header class=\"headers\""@ + seq!['>'],
        "<header class=\"headers\" data-break-inside=\"avoid\">"@ == "<header class=\"headers\""@ + break_inside() + seq!['>'],
        "<section class=\"attachments\">"@ == "<section class=\"attachments\""@ + seq!['>'],
        "<section class=\"attachments\" data-break-inside=\"avoid\">"@
            == "<section class=\"attachments\""@ + break_inside() + seq!['>'],
        no_marker_start("<article class=\"message new-page\""@),
        no_marker_start("<header class=\"headers\""@),
        no_marker_start("<section class=\"attachments\""@),
        "<article class=\"message new-page\""@.len() > 0 && "<article class=\"message new-page\""@[0] == '<',
        "<header class=\"headers\""@.len() > 0 && "<header class=\"headers\""@[0] == '<',
        "<section class=\"attachments\""@.len() > 0 && "<section class=\"attachments\""@[0] == '<',
{
    reveal_strlit(" data-break-before=\"page\"");
    reveal_strlit(" data-break-inside=\"avoid\"");
    reveal_strlit("<article class=\"message new-page\">");
    reveal_strlit("<article class=\"message new-page\"");
    reveal_strlit("<article class=\"message new-page\" data-break-before=\"page\">");
    reveal_strlit("<header class=\"headers\">");
    reveal_strlit("<header class=\"headers\"");
    reveal_strlit("<header class=\"headers\" data-break-inside=\"avoid\">");
    reveal_strlit("<section class=\"attachments\">");
    reveal_strlit("<section class=\"attachments\"");
    reveal_strlit("<section class=\"attachments\" data-break-inside=\"avoid\">");
    assert("<article class=\"message new-page\">"@ =~= "<article class=\"message new-page\""@ + seq!['>']);
    assert("<article class=\"message new-page\" data-break-before=\"page\">"@
        =~= "<article class=\"message new-page\""@ + break_before() + seq!['>']);
    assert("<header class=\"headers\">"@ =~= "<header class=\"headers\""@ + seq!['>']);
    assert("<header class=\"headers\" data-break-inside=\"avoid\">"@ =~= "<header class=\"headers\""@ + break_inside() + seq!['>']);
    assert("<section class=\"attachments\">"@ =~= "<section class=\"attachments\""@ + seq!['>']);
    assert("<section class=\"attachments\" data-break-inside=\"avoid\">"@
        =~= "<section class=\"attachments\""@ + break_inside() + seq!['>']);
    reveal_with_fuel(no_marker_start, 40);
}

/// The page markers come off again: taking every `data-break-before="page"` and
/// `data-break-inside="avoid"` marker out of what [`marked_spec`] makes of a document that had
/// none gives the document back exactly. Only the builder's own tags gain a marker, and nothing
/// else is touched.
pub proof fn law_the_page_markers_come_off(html: Seq<char>)
    requires
        first(html, break_before()) is None,
        first(html, break_inside()) is None,
    ensures
        unmarked(marked_spec(html)) == html,
{
    lemma_builder_tags();
    let x1 = "<article class=\"message new-page\""@;
    let x2 = "<header class=\"headers\""@;
    let x3 = "<section class=\"attachments\""@;
    let a = replaced(html, x1 + seq!['>'], x1 + break_before() + seq!['>']);
    let b = replaced(a, x2 + seq!['>'], x2 + break_inside() + seq!['>']);
    lemma_unmarked_one(b, x3 + seq!['>'], x3 + break_inside() + seq!['>'], x3, break_inside());
    lemma_unmarked_one(a, x2 + seq!['>'], x2 + break_inside() + seq!['>'], x2, break_inside());
    lemma_unmarked_one(html, x1 + seq!['>'], x1 + break_before() + seq!['>'], x1, break_before());
    lemma_first_none(html, break_before(), 0);
    lemma_first_none(html, break_inside(), 0);
    lemma_unmarked_plain(html, 0);
    assert(html.subrange(0, html.len() as int) =~= html);
}

/// The rules [`for_paper`] puts before `</head>`.
pub open spec fn style_block(cjk: Cjk) -> Seq<char> {
    "<style>\n"@ + paper_css_spec(cjk) + "</style>\n"@
}

/// The note [`for_paper`] puts after the "Printed" line.
pub open spec fn paper_note() -> Seq<char> {
    "\n<p class=\"paper-note\">"@ + pictures_note() + "</p>"@
}

/// `t` without the `len` characters at `at`.
pub open spec fn cut(t: Seq<char>, at: int, len: int) -> Seq<char> {
    t.subrange(0, at) + t.subrange(at + len, t.len() as int)
}

/// What [`for_paper`] adds comes off again, and gives the document back exactly: cut the note
/// from where it was put (if it was), then the style block from before the first `</head>` (if
/// there is one), then take out every page marker. Editing the markup adds and never changes.
pub proof fn law_what_for_paper_adds_comes_off(html: Seq<char>, cjk: Cjk)
    requires
        first(html, break_before()) is None,
        first(html, break_inside()) is None,
    ensures
        unmarked(marked_spec(html)) == html,
        match first(marked_spec(html), "</head>"@) {
            Some(at) => styled_spec(marked_spec(html), cjk).subrange(at, at + style_block(cjk).len()) == style_block(cjk)
                && cut(styled_spec(marked_spec(html), cjk), at, style_block(cjk).len() as int) == marked_spec(html),
            None => styled_spec(marked_spec(html), cjk) == marked_spec(html),
        },
        for_paper_spec(html, cjk) == styled_spec(marked_spec(html), cjk) || exists|e: int|
            0 <= e <= styled_spec(marked_spec(html), cjk).len()
            && #[trigger] for_paper_spec(html, cjk).subrange(e, e + paper_note().len()) == paper_note()
            && cut(for_paper_spec(html, cjk), e, paper_note().len() as int) == styled_spec(marked_spec(html), cjk),
{
    law_the_page_markers_come_off(html);
    let marked = marked_spec(html);
    let styled = styled_spec(marked, cjk);
    let block = style_block(cjk);
    match first(marked, "</head>"@) {
        Some(at) => {
            crate::text::lemma_first_in_range(marked, "</head>"@, 0);
            assert(styled =~= marked.subrange(0, at) + block + marked.subrange(at, marked.len() as int));
            assert(styled.subrange(at, at + block.len()) =~= block);
            assert(cut(styled, at, block.len() as int) =~= marked);
        },
        None => {},
    }
    let out = for_paper_spec(html, cjk);
    let note = paper_note();
    if out != styled {
        reveal_strlit("</p>");
        let line = first(styled, "<p class=\"printed\">"@)->0;
        let end = first_from(styled, "</p>"@, line)->0;
        crate::text::lemma_first_in_range(styled, "</p>"@, line);
        crate::text::lemma_first_in_range(styled, "<p class=\"printed\">"@, 0);
        let e = end + 4;
        assert(out =~= styled.subrange(0, e) + note + styled.subrange(e, styled.len() as int));
        assert(out.subrange(e, e + note.len()) =~= note);
        assert(cut(out, e, note.len() as int) =~= styled);
    }
}

/// Whether `t` is one of the territories where Letter is the paper in the shops, as glibc's
/// `LC_PAPER` data has it, written out.
pub open spec fn letter_territory(t: Seq<char>) -> bool {
    t == "US"@ || t == "CA"@ || t == "MX"@ || t == "PH"@ || t == "CL"@ || t == "CO"@ || t == "VE"@
        || t == "CR"@ || t == "PR"@ || t == "GT"@ || t == "SV"@ || t == "NI"@ || t == "PA"@ || t == "DO"@
}

/// The paper is Letter exactly when the paper locale names one of US, CA, MX, PH, CL, CO, VE,
/// CR, PR, GT, SV, NI, PA, DO as its territory; A4 everywhere else, and when the locale names
/// none.
pub proof fn law_letter_exactly_in_the_letter_territories(
    lc_all: Option<Seq<char>>,
    lc_paper: Option<Seq<char>>,
    lc_ctype: Option<Seq<char>>,
    lang: Option<Seq<char>>,
)
    ensures
        from_locale_spec(lc_all, lc_paper, lc_ctype, lang).spec.size == PageSize::Letter <==> (
            locale_spec(lc_all, lc_paper, lang) matches Some(l) && territory_spec(l) matches Some(t)
                && letter_territory(t)),
        from_locale_spec(lc_all, lc_paper, lc_ctype, lang).spec.size == PageSize::Letter
            || from_locale_spec(lc_all, lc_paper, lc_ctype, lang).spec.size == PageSize::A4,
{
    match locale_spec(lc_all, lc_paper, lang) {
        Some(l) => match territory_spec(l) {
            Some(t) => {
                let all = letter_spec();
                if letter_territory(t) {
                    if t == "US"@ { assert(all[0] == t); }
                    else if t == "CA"@ { assert(all[1] == t); }
                    else if t == "MX"@ { assert(all[2] == t); }
                    else if t == "PH"@ { assert(all[3] == t); }
                    else if t == "CL"@ { assert(all[4] == t); }
                    else if t == "CO"@ { assert(all[5] == t); }
                    else if t == "VE"@ { assert(all[6] == t); }
                    else if t == "CR"@ { assert(all[7] == t); }
                    else if t == "PR"@ { assert(all[8] == t); }
                    else if t == "GT"@ { assert(all[9] == t); }
                    else if t == "SV"@ { assert(all[10] == t); }
                    else if t == "NI"@ { assert(all[11] == t); }
                    else if t == "PA"@ { assert(all[12] == t); }
                    else { assert(all[13] == t); }
                }
                if all.contains(t) {
                    let i = choose|i: int| 0 <= i < all.len() && all[i] == t;
                    assert(0 <= i < 14);
                    assert(letter_territory(t)) by {
                        if i == 0 {} else if i == 1 {} else if i == 2 {} else if i == 3 {}
                        else if i == 4 {} else if i == 5 {} else if i == 6 {} else if i == 7 {}
                        else if i == 8 {} else if i == 9 {} else if i == 10 {} else if i == 11 {}
                        else if i == 12 {} else {}
                    }
                }
            },
            None => {},
        },
        None => {},
    }
}

} // verus!
