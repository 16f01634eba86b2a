//! Group, applied to the loaded page only: the list cut into titled bands, in list order.
//!
//! Nothing here asks the store for a different query; a band holds the threads the page
//! already has, in the order the list has them.

use vstd::prelude::*;
use crate::ids::ThreadId;
use crate::text::str_eq;

verus! {

/// A label, by its id's 128 bits.
#[derive(Debug, Clone, Copy, PartialEq, Eq, Hash, Structural)]
pub struct LabelId(pub u128);

/// How the page is grouped.
#[derive(Debug, Clone, Copy, PartialEq, Eq, Structural)]
pub enum PageGroup {
    /// One list, with no header.
    Ungrouped,
    Sender,
    Date,
    Label,
    Unread,
}

/// What grouping reads of a thread in the list.
pub struct Summary {
    pub id: ThreadId,
    /// The sender's display name, if it has one.
    pub from_name: Option<String>,
    pub from_email: String,
    pub labels: Vec<LabelId>,
    pub unread: bool,
    /// The day of its last message, counted in days in the window's time zone.
    pub last_day: i64,
}

/// One band of the loaded page.
pub struct Band {
    pub title: Option<String>,
    pub threads: Vec<Summary>,
}

/// A band as plain values: its title and its threads.
pub open spec fn band_view(b: Band) -> (Option<Seq<char>>, Seq<Summary>) {
    (
        match b.title {
            Some(t) => Some(t@),
            None => None,
        },
        b.threads@,
    )
}

/// Bands as plain values.
pub open spec fn bands_view(bands: Seq<Band>) -> Seq<(Option<Seq<char>>, Seq<Summary>)> {
    bands.map_values(|b: Band| band_view(b))
}

/// The key a menu item names a grouping by.
pub open spec fn group_key_spec(group: PageGroup) -> Seq<char> {
    match group {
        PageGroup::Ungrouped => "none"@,
        PageGroup::Sender => "sender"@,
        PageGroup::Date => "date"@,
        PageGroup::Label => "label"@,
        PageGroup::Unread => "unread"@,
    }
}

/// The key a menu item names `group` by.
pub fn group_key(group: PageGroup) -> (r: &'static str)
    ensures
        r@ == group_key_spec(group),
{
    match group {
        PageGroup::Ungrouped => "none",
        PageGroup::Sender => "sender",
        PageGroup::Date => "date",
        PageGroup::Label => "label",
        PageGroup::Unread => "unread",
    }
}

/// The grouping a picked menu item names, if it names one.
pub fn group_from(key: &str) -> (r: Option<PageGroup>)
    ensures
        r matches Some(g) ==> group_key_spec(g) == key@,
        r is None ==> forall|g: PageGroup| group_key_spec(g) != key@,
{
    if str_eq(key, "none") {
        Some(PageGroup::Ungrouped)
    } else if str_eq(key, "sender") {
        Some(PageGroup::Sender)
    } else if str_eq(key, "date") {
        Some(PageGroup::Date)
    } else if str_eq(key, "label") {
        Some(PageGroup::Label)
    } else if str_eq(key, "unread") {
        Some(PageGroup::Unread)
    } else {
        proof {
            assert forall|g: PageGroup| group_key_spec(g) != key@ by {
                match g {
                    PageGroup::Ungrouped => {},
                    PageGroup::Sender => {},
                    PageGroup::Date => {},
                    PageGroup::Label => {},
                    PageGroup::Unread => {},
                }
            }
        }
        None
    }
}

/// A grouping's key names it and nothing else, so a picked item is read back as the grouping
/// it was made from.
pub proof fn law_group_keys_distinct(a: PageGroup, b: PageGroup)
    ensures
        group_key_spec(a) == group_key_spec(b) ==> a == b,
{
    reveal_strlit("none");
    reveal_strlit("sender");
    reveal_strlit("date");
    reveal_strlit("label");
    reveal_strlit("unread");
    if a != b && group_key_spec(a) == group_key_spec(b) {
        let ka = group_key_spec(a);
        let kb = group_key_spec(b);
        assert(ka.len() == kb.len());
        assert(ka[0] == kb[0]);
    }
}

/// One row of the Group menu: the key it is picked by, its name and help, whether it is the
/// grouping in force, and whether its tile is the dash that stands for no grouping.
#[derive(Debug, Clone, Copy, PartialEq, Eq)]
pub struct GroupRow {
    pub key: &'static str,
    pub name: &'static str,
    pub help: &'static str,
    pub checked: bool,
    pub dash: bool,
}

/// The groupings the menu offers, in its order.
pub open spec fn group_order() -> Seq<PageGroup> {
    seq![PageGroup::Ungrouped, PageGroup::Sender, PageGroup::Date, PageGroup::Label, PageGroup::Unread]
}

/// A grouping's name on the menu.
pub open spec fn group_name_spec(group: PageGroup) -> Seq<char> {
    match group {
        PageGroup::Ungrouped => "None"@,
        PageGroup::Sender => "Sender"@,
        PageGroup::Date => "Date"@,
        PageGroup::Label => "Label"@,
        PageGroup::Unread => "Unread"@,
    }
}

/// What a grouping does, as the menu says it.
pub open spec fn group_help_spec(group: PageGroup) -> Seq<char> {
    match group {
        PageGroup::Ungrouped => "One list"@,
        PageGroup::Sender => "By who sent it"@,
        PageGroup::Date => "Today, yesterday, this week, older"@,
        PageGroup::Label => "By the first label"@,
        PageGroup::Unread => "Unread, then the rest"@,
    }
}

/// The menu row of `group` while `current` is in force.
pub open spec fn group_row_spec(group: PageGroup, current: PageGroup) -> (Seq<char>, Seq<char>, Seq<char>, bool, bool) {
    (group_key_spec(group), group_name_spec(group), group_help_spec(group), group == current, group == PageGroup::Ungrouped)
}

/// A row as plain values.
pub open spec fn group_row_view(row: GroupRow) -> (Seq<char>, Seq<char>, Seq<char>, bool, bool) {
    (row.key@, row.name@, row.help@, row.checked, row.dash)
}

fn group_row(group: PageGroup, current: PageGroup) -> (r: GroupRow)
    ensures
        group_row_view(r) == group_row_spec(group, current),
{
    let (name, help): (&'static str, &'static str) = match group {
        PageGroup::Ungrouped => ("None", "One list"),
        PageGroup::Sender => ("Sender", "By who sent it"),
        PageGroup::Date => ("Date", "Today, yesterday, this week, older"),
        PageGroup::Label => ("Label", "By the first label"),
        PageGroup::Unread => ("Unread", "Unread, then the rest"),
    };
    GroupRow {
        key: group_key(group),
        name,
        help,
        checked: group == current,
        dash: group == PageGroup::Ungrouped,
    }
}

/// The Group menu's rows: every grouping in the menu's order, the one in force checked.
pub fn group_items(current: PageGroup) -> (r: Vec<GroupRow>)
    ensures
        r@.len() == group_order().len(),
        forall|i: int| 0 <= i < r@.len() ==> group_row_view(#[trigger] r@[i]) == group_row_spec(group_order()[i], current),
{
    let order = [PageGroup::Ungrouped, PageGroup::Sender, PageGroup::Date, PageGroup::Label, PageGroup::Unread];
    let mut rows: Vec<GroupRow> = Vec::new();
    let mut i: usize = 0;
    while i < 5
        invariant
            i <= 5,
            order@ == group_order(),
            rows@.len() == i,
            forall|j: int| 0 <= j < i ==> group_row_view(#[trigger] rows@[j]) == group_row_spec(group_order()[j], current),
        decreases 5 - i,
    {
        rows.push(group_row(order[i], current));
        i = i + 1;
    }
    rows
}

/// Exactly one row of the Group menu is checked, the grouping in force, and each row's key is
/// read back as the grouping it was made from.
pub proof fn law_one_grouping_is_checked(current: PageGroup, i: int, j: int)
    requires
        0 <= i < group_order().len(),
        0 <= j < group_order().len(),
    ensures
        group_row_spec(group_order()[i], current).3 <==> group_order()[i] == current,
        group_row_spec(group_order()[i], current).3 && group_row_spec(group_order()[j], current).3 ==> i == j,
        exists|k: int| 0 <= k < group_order().len() && group_order()[k] == current,
{
    let o = group_order();
    assert(o[0] == PageGroup::Ungrouped && o[1] == PageGroup::Sender && o[2] == PageGroup::Date && o[3] == PageGroup::Label && o[4] == PageGroup::Unread);
    match current {
        PageGroup::Ungrouped => assert(o[0] == current),
        PageGroup::Sender => assert(o[1] == current),
        PageGroup::Date => assert(o[2] == current),
        PageGroup::Label => assert(o[3] == current),
        PageGroup::Unread => assert(o[4] == current),
    }
}

/// Where the band titled `title` stands among `bands`, at or after `from`, if anywhere.
pub open spec fn band_index(bands: Seq<(Option<Seq<char>>, Seq<Summary>)>, title: Seq<char>, from: int) -> Option<int>
    decreases bands.len() - from,
{
    if from < 0 || from >= bands.len() {
        None
    } else if bands[from].0 == Some(title) {
        Some(from)
    } else {
        band_index(bands, title, from + 1)
    }
}

/// The first `n` of `items` grouped by their `keys`: a band per key, titled by it, in the order
/// the keys first come, each holding its items in list order.
pub open spec fn grouped(keys: Seq<Seq<char>>, items: Seq<Summary>, n: nat) -> Seq<(Option<Seq<char>>, Seq<Summary>)>
    decreases n,
{
    if n == 0 {
        seq![]
    } else {
        let before = grouped(keys, items, (n - 1) as nat);
        let k = keys[n - 1];
        match band_index(before, k, 0) {
            Some(i) => before.update(i, (before[i].0, before[i].1.push(items[n - 1]))),
            None => before.push((Some(k), seq![items[n - 1]])),
        }
    }
}

proof fn lemma_band_index(bands: Seq<(Option<Seq<char>>, Seq<Summary>)>, title: Seq<char>, from: int)
    requires
        0 <= from,
    ensures
        band_index(bands, title, from) matches Some(i) ==> from <= i < bands.len() && bands[i].0 == Some(title),
        band_index(bands, title, from) is None ==> forall|j: int| from <= j < bands.len() ==> bands[j].0 != Some(title),
    decreases bands.len() - from,
{
    if from < bands.len() && bands[from].0 != Some(title) {
        lemma_band_index(bands, title, from + 1);
    }
}

fn find_band(bands: &Vec<Band>, title: &String) -> (r: Option<usize>)
    ensures
        match r {
            Some(i) => band_index(bands_view(bands@), title@, 0) == Some(i as int),
            None => band_index(bands_view(bands@), title@, 0) is None,
        },
{
    let ghost v = bands_view(bands@);
    let mut i: usize = 0;
    while i < bands.len()
        invariant
            i <= bands.len(),
            v == bands_view(bands@),
            band_index(v, title@, 0) == band_index(v, title@, i as int),
        decreases bands.len() - i,
    {
        let matches = match &bands[i].title {
            Some(t) => str_eq(t.as_str(), title.as_str()),
            None => false,
        };
        assert(v[i as int] == band_view(bands@[i as int]));
        if matches {
            return Some(i);
        }
        i = i + 1;
    }
    None
}

/// `threads` cut into a band per key, titled by it, in the order the keys first come; each
/// band holds its threads in list order. `keys[i]` is the key of `threads[i]`.
pub fn by_key(threads: Vec<Summary>, keys: &Vec<String>) -> (r: Vec<Band>)
    requires
        keys.len() == threads.len(),
    ensures
        bands_view(r@) == grouped(crate::text::views(keys@), threads@, threads.len() as nat),
{
    let ghost items = threads@;
    let ghost names = crate::text::views(keys@);
    let mut rest = threads;
    let mut out: Vec<Band> = Vec::new();
    let mut n: usize = 0;
    assert(bands_view(out@) =~= seq![]);
    while rest.len() > 0
        invariant
            n <= items.len(),
            keys.len() == items.len(),
            names == crate::text::views(keys@),
            rest@ == items.subrange(n as int, items.len() as int),
            bands_view(out@) == grouped(names, items, n as nat),
        decreases rest.len(),
    {
        let thread = rest.remove(0);
        assert(thread == items[n as int]);
        assert(names[n as int] == keys@[n as int]@);
        let ghost before = bands_view(out@);
        match find_band(&out, &keys[n]) {
            Some(i) => {
                proof {
                    lemma_band_index(before, names[n as int], 0);
                }
                let mut band = out.remove(i);
                band.threads.push(thread);
                out.insert(i, band);
                assert(bands_view(out@) =~= before.update(i as int, (before[i as int].0, before[i as int].1.push(items[n as int]))));
            },
            None => {
                let band = Band { title: Some(keys[n].clone()), threads: vec![thread] };
                out.push(band);
                assert(band.threads@ =~= seq![items[n as int]]);
                assert(bands_view(out@) =~= before.push((Some(names[n as int]), seq![items[n as int]])));
            },
        }
        n = n + 1;
        assert(rest@ =~= items.subrange(n as int, items.len() as int));
    }
    out
}

/// The name a thread is grouped by sender under: its sender's name, when not empty, else the
/// address.
pub open spec fn sender_key_spec(s: Summary) -> Seq<char> {
    match s.from_name {
        Some(n) => if n@.len() > 0 {
            n@
        } else {
            s.from_email@
        },
        None => s.from_email@,
    }
}

/// The name a thread is grouped by sender under.
pub fn sender_key(s: &Summary) -> (r: String)
    ensures
        r@ == sender_key_spec(*s),
{
    match &s.from_name {
        Some(n) => if n.as_str().is_empty() {
            s.from_email.clone()
        } else {
            n.clone()
        },
        None => s.from_email.clone(),
    }
}

/// The name `names` gives label `id`, if any.
pub open spec fn name_of(names: Seq<(LabelId, String)>, id: LabelId, from: int) -> Option<Seq<char>>
    decreases names.len() - from,
{
    if from < 0 || from >= names.len() {
        None
    } else if names[from].0 == id {
        Some(names[from].1@)
    } else {
        name_of(names, id, from + 1)
    }
}

/// The name of the first of `labels` that has one, at or after `from`.
pub open spec fn first_named(labels: Seq<LabelId>, names: Seq<(LabelId, String)>, from: int) -> Option<Seq<char>>
    decreases labels.len() - from,
{
    if from < 0 || from >= labels.len() {
        None
    } else {
        match name_of(names, labels[from], 0) {
            Some(n) => Some(n),
            None => first_named(labels, names, from + 1),
        }
    }
}

/// The name a thread is grouped by label under: its first label that has a name, else
/// "No label".
pub open spec fn label_key_spec(s: Summary, names: Seq<(LabelId, String)>) -> Seq<char> {
    match first_named(s.labels@, names, 0) {
        Some(n) => n,
        None => "No label"@,
    }
}

fn lookup_name(names: &Vec<(LabelId, String)>, id: LabelId) -> (r: Option<String>)
    ensures
        match r {
            Some(n) => name_of(names@, id, 0) == Some(n@),
            None => name_of(names@, id, 0) is None,
        },
{
    let mut i: usize = 0;
    while i < names.len()
        invariant
            i <= names.len(),
            name_of(names@, id, 0) == name_of(names@, id, i as int),
        decreases names.len() - i,
    {
        if names[i].0.0 == id.0 {
            return Some(names[i].1.clone());
        }
        i = i + 1;
    }
    None
}

/// The name a thread is grouped by label under.
pub fn label_key(s: &Summary, names: &Vec<(LabelId, String)>) -> (r: String)
    ensures
        r@ == label_key_spec(*s, names@),
{
    let mut i: usize = 0;
    while i < s.labels.len()
        invariant
            i <= s.labels.len(),
            first_named(s.labels@, names@, 0) == first_named(s.labels@, names@, i as int),
        decreases s.labels.len() - i,
    {
        match lookup_name(names, s.labels[i]) {
            Some(n) => return n,
            None => {},
        }
        i = i + 1;
    }
    String::from_str("No label")
}

/// Which date band a thread whose last message is `days` days before today falls in: today
/// (0, a date ahead of today included), yesterday (1), this week (2), older (3).
pub open spec fn date_band(days: int) -> int {
    if days <= 0 {
        0
    } else if days == 1 {
        1
    } else if days < 7 {
        2
    } else {
        3
    }
}

/// Those of `threads` in date band `band`, in order.
pub open spec fn in_date_band(threads: Seq<Summary>, today: int, band: int) -> Seq<Summary>
    decreases threads.len(),
{
    if threads.len() == 0 {
        seq![]
    } else {
        let before = in_date_band(threads.drop_last(), today, band);
        if date_band(today - threads.last().last_day) == band {
            before.push(threads.last())
        } else {
            before
        }
    }
}

/// Those of `threads` that are unread (or read), in order.
pub open spec fn with_unread(threads: Seq<Summary>, unread: bool) -> Seq<Summary>
    decreases threads.len(),
{
    if threads.len() == 0 {
        seq![]
    } else {
        let before = with_unread(threads.drop_last(), unread);
        if threads.last().unread == unread {
            before.push(threads.last())
        } else {
            before
        }
    }
}

/// Titled parts as bands, leaving out the empty ones.
pub open spec fn titled_spec(parts: Seq<(Seq<char>, Seq<Summary>)>) -> Seq<(Option<Seq<char>>, Seq<Summary>)>
    decreases parts.len(),
{
    if parts.len() == 0 {
        seq![]
    } else {
        let before = titled_spec(parts.drop_last());
        if parts.last().1.len() == 0 {
            before
        } else {
            before.push((Some(parts.last().0), parts.last().1))
        }
    }
}

/// Each thread's key under `key`.
pub open spec fn keys_of(threads: Seq<Summary>, by: PageGroup, names: Seq<(LabelId, String)>) -> Seq<Seq<char>> {
    Seq::new(
        threads.len(),
        |i: int|
            if by == PageGroup::Sender {
                sender_key_spec(threads[i])
            } else {
                label_key_spec(threads[i], names)
            },
    )
}

/// The loaded page grouped the way the menu says: its bands, titles and threads, in order.
pub open spec fn group_page_spec(threads: Seq<Summary>, by: PageGroup, names: Seq<(LabelId, String)>, today: int) -> Seq<
    (Option<Seq<char>>, Seq<Summary>),
> {
    match by {
        PageGroup::Ungrouped => seq![(None, threads)],
        PageGroup::Sender => grouped(keys_of(threads, by, names), threads, threads.len()),
        PageGroup::Label => grouped(keys_of(threads, by, names), threads, threads.len()),
        PageGroup::Date => titled_spec(
            seq![
                ("Today"@, in_date_band(threads, today, 0)),
                ("Yesterday"@, in_date_band(threads, today, 1)),
                ("This week"@, in_date_band(threads, today, 2)),
                ("Older"@, in_date_band(threads, today, 3)),
            ],
        ),
        PageGroup::Unread => titled_spec(
            seq![("Unread"@, with_unread(threads, true)), ("Read"@, with_unread(threads, false))],
        ),
    }
}

/// Titled parts as plain values.
pub open spec fn parts_view(parts: Seq<(&'static str, Vec<Summary>)>) -> Seq<(Seq<char>, Seq<Summary>)> {
    parts.map_values(|p: (&'static str, Vec<Summary>)| (p.0@, p.1@))
}

/// Titled parts as bands, leaving out the empty ones.
pub fn titled(parts: Vec<(&'static str, Vec<Summary>)>) -> (r: Vec<Band>)
    ensures
        bands_view(r@) == titled_spec(parts_view(parts@)),
{
    let ghost all = parts_view(parts@);
    let ghost whole = parts@;
    let mut rest = parts;
    let mut out: Vec<Band> = Vec::new();
    let ghost mut n: int = 0;
    assert(bands_view(out@) =~= seq![]);
    while rest.len() > 0
        invariant
            0 <= n <= whole.len(),
            all == parts_view(whole),
            rest@ == whole.subrange(n, whole.len() as int),
            bands_view(out@) == titled_spec(all.subrange(0, n)),
        decreases rest.len(),
    {
        let (title, threads) = rest.remove(0);
        proof {
            assert(all.subrange(0, n + 1).drop_last() =~= all.subrange(0, n));
            assert(all.subrange(0, n + 1).last() == (title@, threads@));
        }
        let ghost before = bands_view(out@);
        if threads.len() > 0 {
            let band = Band { title: Some(String::from_str(title)), threads };
            out.push(band);
            assert(bands_view(out@) =~= before.push((Some(title@), threads@)));
        }
        proof {
            n = n + 1;
            assert(rest@ =~= whole.subrange(n, whole.len() as int));
        }
    }
    assert(all.subrange(0, whole.len() as int) =~= all);
    out
}

fn date_band_of(today: i64, day: i64) -> (r: u8)
    ensures
        r == date_band(today - day),
{
    let days: i128 = today as i128 - day as i128;
    if days <= 0 {
        0
    } else if days == 1 {
        1
    } else if days < 7 {
        2
    } else {
        3
    }
}

/// `threads` in the four date bands, by the day of their last message against `today`, in the
/// window's time zone; empty bands are left out.
pub fn date_bands(threads: Vec<Summary>, today: i64) -> (r: Vec<Band>)
    ensures
        bands_view(r@) == group_page_spec(threads@, PageGroup::Date, seq![], today as int),
{
    let ghost items = threads@;
    let mut rest = threads;
    let mut today_v: Vec<Summary> = Vec::new();
    let mut yesterday: Vec<Summary> = Vec::new();
    let mut week: Vec<Summary> = Vec::new();
    let mut older: Vec<Summary> = Vec::new();
    let ghost mut n: int = 0;
    while rest.len() > 0
        invariant
            0 <= n <= items.len(),
            rest@ == items.subrange(n, items.len() as int),
            today_v@ == in_date_band(items.subrange(0, n), today as int, 0),
            yesterday@ == in_date_band(items.subrange(0, n), today as int, 1),
            week@ == in_date_band(items.subrange(0, n), today as int, 2),
            older@ == in_date_band(items.subrange(0, n), today as int, 3),
        decreases rest.len(),
    {
        let thread = rest.remove(0);
        proof {
            assert(items.subrange(0, n + 1).drop_last() =~= items.subrange(0, n));
            assert(items.subrange(0, n + 1).last() == thread);
        }
        let band = date_band_of(today, thread.last_day);
        if band == 0 {
            today_v.push(thread);
        } else if band == 1 {
            yesterday.push(thread);
        } else if band == 2 {
            week.push(thread);
        } else {
            older.push(thread);
        }
        proof {
            n = n + 1;
            assert(rest@ =~= items.subrange(n, items.len() as int));
        }
    }
    assert(items.subrange(0, items.len() as int) =~= items);
    let parts = vec![("Today", today_v), ("Yesterday", yesterday), ("This week", week), ("Older", older)];
    let r = titled(parts);
    assert(parts_view(parts@) =~= seq![
        ("Today"@, in_date_band(items, today as int, 0)),
        ("Yesterday"@, in_date_band(items, today as int, 1)),
        ("This week"@, in_date_band(items, today as int, 2)),
        ("Older"@, in_date_band(items, today as int, 3)),
    ]);
    r
}

/// `threads` as the unread, then the read, leaving out an empty one.
pub fn unread_bands(threads: Vec<Summary>) -> (r: Vec<Band>)
    ensures
        bands_view(r@) == group_page_spec(threads@, PageGroup::Unread, seq![], 0),
{
    let ghost items = threads@;
    let mut rest = threads;
    let mut unread: Vec<Summary> = Vec::new();
    let mut read: Vec<Summary> = Vec::new();
    let ghost mut n: int = 0;
    while rest.len() > 0
        invariant
            0 <= n <= items.len(),
            rest@ == items.subrange(n, items.len() as int),
            unread@ == with_unread(items.subrange(0, n), true),
            read@ == with_unread(items.subrange(0, n), false),
        decreases rest.len(),
    {
        let thread = rest.remove(0);
        proof {
            assert(items.subrange(0, n + 1).drop_last() =~= items.subrange(0, n));
            assert(items.subrange(0, n + 1).last() == thread);
        }
        if thread.unread {
            unread.push(thread);
        } else {
            read.push(thread);
        }
        proof {
            n = n + 1;
            assert(rest@ =~= items.subrange(n, items.len() as int));
        }
    }
    assert(items.subrange(0, items.len() as int) =~= items);
    let parts = vec![("Unread", unread), ("Read", read)];
    let r = titled(parts);
    assert(parts_view(parts@) =~= seq![("Unread"@, with_unread(items, true)), ("Read"@, with_unread(items, false))]);
    r
}

/// Group `threads` the way the page menu says. The input order is the list order; `names`
/// are the labels' names, and `today` is today in days in the window's time zone.
pub fn group_page(threads: Vec<Summary>, by: PageGroup, names: &Vec<(LabelId, String)>, today: i64) -> (r: Vec<Band>)
    ensures
        bands_view(r@) == group_page_spec(threads@, by, names@, today as int),
{
    match by {
        PageGroup::Ungrouped => {
            let ghost items = threads@;
            let r = vec![Band { title: None, threads }];
            assert(bands_view(r@) =~= seq![(None::<Seq<char>>, items)]);
            r
        },
        PageGroup::Date => date_bands(threads, today),
        PageGroup::Unread => unread_bands(threads),
        _ => {
            let mut keys: Vec<String> = Vec::new();
            let mut i: usize = 0;
            while i < threads.len()
                invariant
                    i <= threads.len(),
                    by == PageGroup::Sender || by == PageGroup::Label,
                    keys.len() == i,
                    forall|j: int| 0 <= j < i ==> (#[trigger] keys@[j])@ == keys_of(threads@, by, names@)[j],
                decreases threads.len() - i,
            {
                let key = if by == PageGroup::Sender {
                    sender_key(&threads[i])
                } else {
                    label_key(&threads[i], names)
                };
                keys.push(key);
                i = i + 1;
            }
            let ghost items = threads@;
            assert(crate::text::views(keys@) =~= keys_of(items, by, names@));
            by_key(threads, &keys)
        },
    }
}

/// How many threads the bands hold in all.
pub open spec fn total(bands: Seq<(Option<Seq<char>>, Seq<Summary>)>) -> nat
    decreases bands.len(),
{
    if bands.len() == 0 {
        0
    } else {
        total(bands.drop_last()) + bands.last().1.len()
    }
}

proof fn lemma_total_grow(bands: Seq<(Option<Seq<char>>, Seq<Summary>)>, i: int, x: Summary)
    requires
        0 <= i < bands.len(),
    ensures
        total(bands.update(i, (bands[i].0, bands[i].1.push(x)))) == total(bands) + 1,
    decreases bands.len(),
{
    let grown = bands.update(i, (bands[i].0, bands[i].1.push(x)));
    if i == bands.len() - 1 {
        assert(grown.drop_last() =~= bands.drop_last());
    } else {
        lemma_total_grow(bands.drop_last(), i, x);
        assert(grown.drop_last() =~= bands.drop_last().update(i, (bands[i].0, bands[i].1.push(x))));
    }
}

/// Grouping by a key loses no thread and names no band twice: the bands hold every thread of
/// the page once, each band is titled, and no two bands have the same title.
pub proof fn law_grouping_keeps_every_thread(keys: Seq<Seq<char>>, items: Seq<Summary>, n: nat)
    requires
        n <= keys.len(),
        n <= items.len(),
    ensures
        total(grouped(keys, items, n)) == n,
        forall|i: int| 0 <= i < grouped(keys, items, n).len() ==> (#[trigger] grouped(keys, items, n)[i]).0 is Some,
        forall|i: int, j: int|
            0 <= i < j < grouped(keys, items, n).len() ==> (#[trigger] grouped(keys, items, n)[i]).0 != (#[trigger] grouped(
                keys,
                items,
                n,
            )[j]).0,
    decreases n,
{
    if n > 0 {
        law_grouping_keeps_every_thread(keys, items, (n - 1) as nat);
        let before = grouped(keys, items, (n - 1) as nat);
        let k = keys[n - 1];
        lemma_band_index(before, k, 0);
        match band_index(before, k, 0) {
            Some(i) => {
                lemma_total_grow(before, i, items[n - 1]);
            },
            None => {
                let after = before.push((Some(k), seq![items[n - 1]]));
                assert(after.drop_last() =~= before);
                assert forall|i: int, j: int| 0 <= i < j < after.len() implies (#[trigger] after[i]).0 != (#[trigger] after[j]).0 by {
                    if j == after.len() - 1 {
                        assert(before[i].0 != Some(k));
                    } else {
                        assert(before[i].0 != before[j].0);
                    }
                }
            },
        }
    }
}

/// The threads among the first `n` whose key is `title`, in list order.
pub open spec fn with_key(keys: Seq<Seq<char>>, items: Seq<Summary>, n: nat, title: Seq<char>) -> Seq<Summary>
    decreases n,
{
    if n == 0 {
        seq![]
    } else {
        with_key(keys, items, (n - 1) as nat, title) + if keys[n - 1] == title {
            seq![items[n - 1]]
        } else {
            seq![]
        }
    }
}

proof fn lemma_with_key_none(keys: Seq<Seq<char>>, items: Seq<Summary>, n: nat, title: Seq<char>)
    requires
        forall|j: int| 0 <= j < n ==> keys[j] != title,
    ensures
        with_key(keys, items, n, title) == Seq::<Summary>::empty(),
    decreases n,
{
    if n > 0 {
        lemma_with_key_none(keys, items, (n - 1) as nat, title);
        assert(with_key(keys, items, n, title) =~= Seq::<Summary>::empty());
    }
}

/// Grouping by a key is a partition of the page in list order: every thread's key titles a
/// band, and the band titled `t` holds exactly the threads whose key is `t`, in the order the
/// list has them. So the bands together hold every thread once, and nothing else.
pub proof fn law_each_band_holds_its_threads_in_list_order(keys: Seq<Seq<char>>, items: Seq<Summary>, n: nat)
    requires
        n <= keys.len(),
        n <= items.len(),
    ensures
        forall|i: int| 0 <= i < grouped(keys, items, n).len() ==> (#[trigger] grouped(keys, items, n)[i]).1
            == with_key(keys, items, n, grouped(keys, items, n)[i].0->0),
        forall|j: int| 0 <= j < n ==> exists|i: int| 0 <= i < grouped(keys, items, n).len()
            && (#[trigger] grouped(keys, items, n)[i]).0 == Some(#[trigger] keys[j]),
    decreases n,
{
    if n > 0 {
        let m = (n - 1) as nat;
        law_each_band_holds_its_threads_in_list_order(keys, items, m);
        law_grouping_keeps_every_thread(keys, items, m);
        let before = grouped(keys, items, m);
        let after = grouped(keys, items, n);
        let k = keys[n - 1];
        let item = items[n - 1];
        lemma_band_index(before, k, 0);
        assert forall|t: Seq<char>| t != k implies #[trigger] with_key(keys, items, n, t) == with_key(keys, items, m, t) by {
            assert(with_key(keys, items, n, t) =~= with_key(keys, items, m, t));
        }
        assert(with_key(keys, items, n, k) =~= with_key(keys, items, m, k).push(item));
        match band_index(before, k, 0) {
            Some(b) => {
                assert(after == before.update(b, (before[b].0, before[b].1.push(item))));
                assert forall|i: int| 0 <= i < after.len() implies (#[trigger] after[i]).1 == with_key(keys, items, n, after[i].0->0) by {
                    if i != b {
                        assert(before[i].0 != before[b].0);
                        assert(before[i].0 is Some);
                        assert(before[i].0->0 != k);
                    }
                }
                assert forall|j: int| 0 <= j < n implies exists|i: int| 0 <= i < after.len() && (#[trigger] after[i]).0 == Some(#[trigger] keys[j]) by {
                    if j == n - 1 {
                        assert(after[b].0 == Some(keys[j]));
                    } else {
                        let i = choose|i: int| 0 <= i < before.len() && (#[trigger] before[i]).0 == Some(keys[j]);
                        assert(after[i].0 == Some(keys[j]));
                    }
                }
            },
            None => {
                assert(after == before.push((Some(k), seq![item])));
                assert forall|j: int| 0 <= j < m implies keys[j] != k by {
                    let i = choose|i: int| 0 <= i < before.len() && (#[trigger] before[i]).0 == Some(keys[j]);
                    if keys[j] == k {
                        assert(before[i].0 == Some(k));
                    }
                }
                lemma_with_key_none(keys, items, m, k);
                assert(with_key(keys, items, n, k) =~= seq![item]);
                assert forall|i: int| 0 <= i < after.len() implies (#[trigger] after[i]).1 == with_key(keys, items, n, after[i].0->0) by {
                    if i < before.len() {
                        assert(after[i] == before[i]);
                        assert(before[i].0 != Some(k));
                        assert(before[i].0 is Some);
                    }
                }
                assert forall|j: int| 0 <= j < n implies exists|i: int| 0 <= i < after.len() && (#[trigger] after[i]).0 == Some(#[trigger] keys[j]) by {
                    if j == n - 1 {
                        assert(after[before.len() as int].0 == Some(keys[j]));
                    } else {
                        let i = choose|i: int| 0 <= i < before.len() && (#[trigger] before[i]).0 == Some(keys[j]);
                        assert(after[i].0 == Some(keys[j]));
                    }
                }
            },
        }
    }
}

proof fn lemma_with_key_has(keys: Seq<Seq<char>>, items: Seq<Summary>, n: nat, j: int)
    requires
        0 <= j < n,
        n <= keys.len(),
        n <= items.len(),
    ensures
        with_key(keys, items, n, keys[j]).contains(items[j]),
    decreases n,
{
    let m = (n - 1) as nat;
    if j == n - 1 {
        let w = with_key(keys, items, n, keys[j]);
        assert(w == with_key(keys, items, m, keys[j]) + seq![items[j]]);
        assert(w[w.len() - 1] == items[j]);
    } else {
        lemma_with_key_has(keys, items, m, j);
        let before = with_key(keys, items, m, keys[j]);
        let k = choose|k: int| 0 <= k < before.len() && before[k] == items[j];
        assert(with_key(keys, items, n, keys[j])[k] == items[j]);
    }
}

/// Grouped by sender, a thread is banded under its sender's display name when that name says
/// something, and under its address when the name is missing or empty; so whenever the
/// address is not empty, neither is the title of the band it is in.
pub proof fn law_a_sender_band_is_titled_by_name_or_address(
    threads: Seq<Summary>,
    names: Seq<(LabelId, String)>,
    today: int,
    j: int,
)
    requires
        0 <= j < threads.len(),
    ensures
        exists|i: int| 0 <= i < group_page_spec(threads, PageGroup::Sender, names, today).len()
            && (#[trigger] group_page_spec(threads, PageGroup::Sender, names, today)[i]).1.contains(threads[j])
            && group_page_spec(threads, PageGroup::Sender, names, today)[i].0 == Some(
                match threads[j].from_name {
                    Some(n) => if n@.len() > 0 { n@ } else { threads[j].from_email@ },
                    None => threads[j].from_email@,
                },
            ),
        threads[j].from_email@.len() > 0 ==> sender_key_spec(threads[j]).len() > 0,
        threads[j].from_name matches Some(n) && n@.len() == 0 ==> sender_key_spec(threads[j]) == threads[j].from_email@,
{
    let keys = keys_of(threads, PageGroup::Sender, names);
    let n = threads.len();
    law_each_band_holds_its_threads_in_list_order(keys, threads, n);
    law_grouping_keeps_every_thread(keys, threads, n);
    let bands = grouped(keys, threads, n);
    assert(keys[j] == sender_key_spec(threads[j]));
    let i = choose|i: int| 0 <= i < bands.len() && (#[trigger] bands[i]).0 == Some(keys[j]);
    assert(bands[i].1 == with_key(keys, threads, n, keys[j]));
    lemma_with_key_has(keys, threads, n, j);
    assert(group_page_spec(threads, PageGroup::Sender, names, today) == bands);
}

} // verus!
