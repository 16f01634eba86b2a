//! The menus a row opens when a click needs a payload: what the label menu offers to create,
//! and how a time to come is said inside a sentence.

use vstd::prelude::*;
use crate::page::LabelId;
use crate::text::{cat, cat3, chars_of, starts_with, string_of, trim_str, trimmed, views};

verus! {

/// `c` in ASCII lower case.
pub open spec fn ascii_lower(c: char) -> char {
    if 'A' <= c && c <= 'Z' {
        ((c as u32) + 32) as char
    } else {
        c
    }
}

/// Whether `a` and `b` are the same with ASCII case ignored, as `eq_ignore_ascii_case` says.
pub open spec fn same_ignoring_case(a: Seq<char>, b: Seq<char>) -> bool {
    a.len() == b.len() && forall|i: int| 0 <= i < a.len() ==> ascii_lower(a[i]) == ascii_lower(b[i])
}

fn lower(c: char) -> (r: char)
    ensures
        r == ascii_lower(c),
{
    if 'A' <= c && c <= 'Z' {
        ((c as u8) + 32) as char
    } else {
        c
    }
}

fn same_ignoring_case_exec(a: &[char], b: &[char]) -> (r: bool)
    ensures
        r == same_ignoring_case(a@, b@),
{
    if a.len() != b.len() {
        return false;
    }
    let mut i: usize = 0;
    while i < a.len()
        invariant
            a.len() == b.len(),
            i <= a.len(),
            forall|j: int| 0 <= j < i ==> ascii_lower(a@[j]) == ascii_lower(b@[j]),
        decreases a.len() - i,
    {
        if lower(a[i]) != lower(b[i]) {
            return false;
        }
        i = i + 1;
    }
    true
}

/// The label menu's "Create" row for what was typed: its key and its name.
pub open spec fn create_item_spec(known: Seq<Seq<char>>, typed: Seq<char>) -> Option<(Seq<char>, Seq<char>)> {
    let t = trimmed(typed);
    if t.len() > 0 && !exists|i: int| 0 <= i < known.len() && same_ignoring_case(known[i], t) {
        Some(("create:"@ + t, "Create \u{201c}"@ + t + "\u{201d}"@))
    } else {
        None
    }
}

/// The label menu's "Create “…”" row, when what was typed (trimmed) names no label we have,
/// with ASCII case ignored: its key and its name. Nothing for an empty name or a known one.
pub fn create_item(known: &Vec<String>, typed: &str) -> (r: Option<(String, String)>)
    ensures
        match r {
            Some((key, name)) => create_item_spec(crate::text::views(known@), typed@) == Some((key@, name@)),
            None => create_item_spec(crate::text::views(known@), typed@) is None,
        },
{
    let t = trim_str(typed);
    let tc = chars_of(t.as_str());
    let ghost names = crate::text::views(known@);
    if tc.len() == 0 {
        return None;
    }
    let mut i: usize = 0;
    while i < known.len()
        invariant
            i <= known.len(),
            names == crate::text::views(known@),
            tc@ == trimmed(typed@),
            forall|j: int| 0 <= j < i ==> !same_ignoring_case(#[trigger] names[j], tc@),
        decreases known.len() - i,
    {
        let k = chars_of(known[i].as_str());
        assert(names[i as int] == known@[i as int]@);
        if same_ignoring_case_exec(k.as_slice(), tc.as_slice()) {
            return None;
        }
        i = i + 1;
    }
    let key = cat("create:", t.as_str());
    let name = cat3("Create \u{201c}", t.as_str(), "\u{201d}");
    Some((key, name))
}

/// A day word that leads a time said on its own, and how it reads inside a sentence.
pub open spec fn day_words() -> Seq<(Seq<char>, Seq<char>)> {
    seq![("Yesterday"@, "yesterday"@), ("Today"@, "today"@), ("Tomorrow"@, "tomorrow"@)]
}

/// `words` inside a sentence: a leading day word in lower case, the rest as it is.
pub open spec fn in_sentence_spec(words: Seq<char>) -> Seq<char> {
    let days = day_words();
    if starts_with(words, days[0].0) {
        days[0].1 + words.subrange(days[0].0.len() as int, words.len() as int)
    } else if starts_with(words, days[1].0) {
        days[1].1 + words.subrange(days[1].0.len() as int, words.len() as int)
    } else if starts_with(words, days[2].0) {
        days[2].1 + words.subrange(days[2].0.len() as int, words.len() as int)
    } else {
        words
    }
}

fn rest_after(words: &Vec<char>, day: &str, lower_day: &str) -> (r: Option<String>)
    ensures
        match r {
            Some(s) => starts_with(words@, day@) && s@ == lower_day@ + words@.subrange(day@.len() as int, words.len() as int),
            None => !starts_with(words@, day@),
        },
{
    let d = chars_of(day);
    if !crate::text::matches_at(words.as_slice(), d.as_slice(), 0) {
        return None;
    }
    let mut out = String::from_str(lower_day);
    let mut k = d.len();
    let ghost head = out@;
    while k < words.len()
        invariant
            d.len() <= k <= words.len(),
            d@ == day@,
            out@ == head + words@.subrange(d.len() as int, k as int),
        decreases words.len() - k,
    {
        crate::text::push_char(&mut out, words[k]);
        k = k + 1;
        assert(out@ =~= head + words@.subrange(d.len() as int, k as int));
    }
    Some(out)
}

/// A time to come said inside a sentence: "Scheduled for tomorrow 08:00".
pub fn when_in_sentence(words: &str) -> (r: String)
    ensures
        r@ == in_sentence_spec(words@),
{
    proof {
        reveal_strlit("Yesterday");
        reveal_strlit("yesterday");
        reveal_strlit("Today");
        reveal_strlit("today");
        reveal_strlit("Tomorrow");
        reveal_strlit("tomorrow");
    }
    let w = chars_of(words);
    match rest_after(&w, "Yesterday", "yesterday") {
        Some(s) => return s,
        None => {},
    }
    match rest_after(&w, "Today", "today") {
        Some(s) => return s,
        None => {},
    }
    match rest_after(&w, "Tomorrow", "tomorrow") {
        Some(s) => return s,
        None => {},
    }
    string_of(w.as_slice())
}

/// A time to come as a person says it, `days` days from today in the window's time zone: the
/// day word for yesterday, today and tomorrow; the weekday within the week; past it the weekday
/// and the date, with the year only when it is not this one. The clock follows.
pub open spec fn when_words_spec(days: i64, same_year: bool, clock: Seq<char>, weekday: Seq<char>, day_month: Seq<char>, year: Seq<char>) -> Seq<char> {
    if days == -1 {
        "Yesterday "@ + clock
    } else if days == 0 {
        "Today "@ + clock
    } else if days == 1 {
        "Tomorrow "@ + clock
    } else if 2 <= days <= 6 {
        weekday + " "@ + clock
    } else if same_year {
        weekday + " "@ + day_month + " "@ + clock
    } else {
        weekday + " "@ + day_month + " "@ + year + " "@ + clock
    }
}

/// A time to come in words: `Today 17:00`, `Tomorrow 08:00`, `Tue 08:00` within the week,
/// `Tue 6 Oct 08:00` past it, `Tue 6 Oct 2027 08:00` in another year. `clock`, `weekday`,
/// `day_month` and `year` are the time written in the window's time zone.
pub fn when_words(days: i64, same_year: bool, clock: &str, weekday: &str, day_month: &str, year: &str) -> (r: String)
    ensures
        r@ == when_words_spec(days, same_year, clock@, weekday@, day_month@, year@),
{
    if days == -1 {
        cat("Yesterday ", clock)
    } else if days == 0 {
        cat("Today ", clock)
    } else if days == 1 {
        cat("Tomorrow ", clock)
    } else if 2 <= days && days <= 6 {
        cat3(weekday, " ", clock)
    } else if same_year {
        let mut out = cat3(weekday, " ", day_month);
        out.append(" ");
        out.append(clock);
        out
    } else {
        let mut out = cat3(weekday, " ", day_month);
        out.append(" ");
        out.append(year);
        out.append(" ");
        out.append(clock);
        out
    }
}

/// A row of the label menu.
#[derive(Debug, PartialEq, Eq)]
pub enum LabelRow {
    /// A label the account has, checked when the thread wears it.
    Label { id: LabelId, name: String, checked: bool },
    /// Make a new label of what was typed.
    Create { key: String, name: String },
}

/// A row as plain values.
pub enum LabelRowView {
    Label(LabelId, Seq<char>, bool),
    Create(Seq<char>, Seq<char>),
}

/// A row as plain values.
pub open spec fn label_row_view(r: LabelRow) -> LabelRowView {
    match r {
        LabelRow::Label { id, name, checked } => LabelRowView::Label(id, name@, checked),
        LabelRow::Create { key, name } => LabelRowView::Create(key@, name@),
    }
}

/// The names of the known labels, in order.
pub open spec fn known_names(known: Seq<(String, LabelId)>) -> Seq<Seq<char>> {
    known.map_values(|k: (String, LabelId)| k.0@)
}

/// The label menu: one row per known label, in the order they are known, checked exactly when
/// the thread wears it; then the "Create “…”" row for what was typed, when it names none of them.
pub open spec fn label_items_spec(known: Seq<(String, LabelId)>, wearing: Seq<LabelId>, typed: Seq<char>) -> Seq<LabelRowView> {
    known.map_values(|k: (String, LabelId)| LabelRowView::Label(k.1, k.0@, wearing.contains(k.1)))
        + match create_item_spec(known_names(known), typed) {
            Some((key, name)) => seq![LabelRowView::Create(key, name)],
            None => seq![],
        }
}

fn wears(wearing: &Vec<LabelId>, id: LabelId) -> (r: bool)
    ensures
        r == wearing@.contains(id),
{
    let mut i: usize = 0;
    while i < wearing.len()
        invariant
            i <= wearing.len(),
            forall|j: int| 0 <= j < i ==> wearing@[j] != id,
        decreases wearing.len() - i,
    {
        if wearing[i] == id {
            assert(wearing@[i as int] == id);
            return true;
        }
        i = i + 1;
    }
    false
}

/// The label menu's rows for a thread wearing `wearing`, with `typed` in its filter.
pub fn label_items(known: &Vec<(String, LabelId)>, wearing: &Vec<LabelId>, typed: &str) -> (r: Vec<LabelRow>)
    ensures
        r@.map_values(|x: LabelRow| label_row_view(x)) == label_items_spec(known@, wearing@, typed@),
{
    let mut rows: Vec<LabelRow> = Vec::new();
    let mut names: Vec<String> = Vec::new();
    let ghost f = |k: (String, LabelId)| LabelRowView::Label(k.1, k.0@, wearing@.contains(k.1));
    let mut i: usize = 0;
    while i < known.len()
        invariant
            i <= known.len(),
            names.len() == i,
            rows.len() == i,
            rows@.map_values(|x: LabelRow| label_row_view(x)) == known@.subrange(0, i as int).map_values(f),
            views(names@) == known_names(known@.subrange(0, i as int)),
            f == (|k: (String, LabelId)| LabelRowView::Label(k.1, k.0@, wearing@.contains(k.1))),
        decreases known.len() - i,
    {
        let name: String = known[i].0.clone();
        let id: LabelId = known[i].1;
        let checked = wears(wearing, id);
        let ghost before = rows@;
        let ghost nbefore = names@;
        names.push(known[i].0.clone());
        proof {
            crate::text::lemma_views_push(nbefore, names@[i as int]);
            assert(names@ =~= nbefore.push(names@[i as int]));
        }
        rows.push(LabelRow::Label { id, name, checked });
        proof {
            assert(known@.subrange(0, i + 1) =~= known@.subrange(0, i as int).push(known@[i as int]));
            assert(rows@.map_values(|x: LabelRow| label_row_view(x)) =~= before.map_values(|x: LabelRow| label_row_view(x)).push(label_row_view(rows@[i as int])));
            assert(known_names(known@.subrange(0, i + 1)) =~= known_names(known@.subrange(0, i as int)).push(known@[i as int].0@));
            assert(known@.subrange(0, i + 1).map_values(f) =~= known@.subrange(0, i as int).map_values(f).push(f(known@[i as int])));
        }
        i = i + 1;
    }
    assert(known@.subrange(0, known.len() as int) =~= known@);
    let ghost labels = rows@;
    match create_item(&names, typed) {
        Some((key, name)) => {
            rows.push(LabelRow::Create { key, name });
            assert(rows@.map_values(|x: LabelRow| label_row_view(x)) =~= labels.map_values(|x: LabelRow| label_row_view(x)).push(label_row_view(rows@[rows.len() - 1])));
        },
        None => {},
    }
    assert(rows@.map_values(|x: LabelRow| label_row_view(x)) =~= label_items_spec(known@, wearing@, typed@));
    rows
}

} // verus!
