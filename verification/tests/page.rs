//! Group, applied to the loaded page: bands in list order.

use mail_app::ids::ThreadId;
use mail_app::page::{
    Band, LabelId, PageGroup, Summary, by_key, group_from, group_items, group_key, group_page,
};

/// A day near 2026-09-23, counted in days.
const TODAY: i64 = 20_719;

fn thread(name: &str, email: &str, days_ago: i64, unread: bool) -> Summary {
    Summary {
        id: ThreadId(days_ago as u128 + 1),
        from_name: Some(name.to_owned()),
        from_email: email.to_owned(),
        labels: Vec::new(),
        unread,
        last_day: TODAY - days_ago,
    }
}

fn titles(bands: &[Band]) -> Vec<&str> {
    bands.iter().filter_map(|band| band.title.as_deref()).collect()
}

fn subjects(band: &Band) -> Vec<&str> {
    band.threads.iter().map(|t| t.from_name.as_deref().unwrap_or("")).collect()
}

#[test]
fn dates_fall_into_the_four_bands() {
    let threads = vec![
        thread("today", "a@b.c", 0, true),
        thread("yesterday", "a@b.c", 1, true),
        thread("week", "a@b.c", 3, false),
        thread("old", "a@b.c", 20, false),
    ];
    let bands = group_page(threads, PageGroup::Date, &Vec::new(), TODAY);
    assert_eq!(titles(&bands), ["Today", "Yesterday", "This week", "Older"]);
}

#[test]
fn none_has_no_header() {
    let bands = group_page(vec![thread("a", "a@b.c", 0, true)], PageGroup::Ungrouped, &Vec::new(), TODAY);
    assert_eq!(bands.len(), 1);
    assert!(bands[0].title.is_none());
}

#[test]
fn a_date_ahead_of_today_is_today_and_six_days_is_this_week() {
    let threads = vec![
        thread("ahead", "a@b.c", -2, true),
        thread("six", "a@b.c", 6, true),
        thread("seven", "a@b.c", 7, true),
    ];
    let bands = group_page(threads, PageGroup::Date, &Vec::new(), TODAY);
    assert_eq!(titles(&bands), ["Today", "This week", "Older"]);
    assert_eq!(subjects(&bands[0]), ["ahead"]);
    assert_eq!(subjects(&bands[1]), ["six"]);
    assert_eq!(subjects(&bands[2]), ["seven"]);
}

#[test]
fn senders_are_bands_in_the_order_they_first_come() {
    let mut no_name = thread("", "zed@b.c", 2, false);
    no_name.from_name = None;
    let threads = vec![
        thread("Bea", "bea@b.c", 0, true),
        thread("Ada", "ada@b.c", 1, false),
        no_name,
        thread("Bea", "bea@b.c", 3, false),
    ];
    let bands = group_page(threads, PageGroup::Sender, &Vec::new(), TODAY);
    assert_eq!(titles(&bands), ["Bea", "Ada", "zed@b.c"]);
    assert_eq!(bands[0].threads.len(), 2);
    assert_eq!(bands[0].threads[1].last_day, TODAY - 3, "a band keeps list order");
    let total: usize = bands.iter().map(|b| b.threads.len()).sum();
    assert_eq!(total, 4, "a thread was lost or drawn twice");
}

#[test]
fn a_thread_is_filed_under_its_first_named_label() {
    let work = LabelId(1);
    let home = LabelId(2);
    let unnamed = LabelId(3);
    let names = vec![(work, "Work".to_owned()), (home, "Home".to_owned())];
    let mut first = thread("a", "a@b.c", 0, true);
    first.labels = vec![unnamed, home, work];
    let mut second = thread("b", "b@b.c", 0, true);
    second.labels = vec![work];
    let third = thread("c", "c@b.c", 0, true);
    let bands = group_page(vec![first, second, third], PageGroup::Label, &names, TODAY);
    assert_eq!(titles(&bands), ["Home", "Work", "No label"]);
}

#[test]
fn unread_then_the_rest_and_an_empty_band_is_left_out() {
    let threads = vec![thread("a", "a@b.c", 0, false), thread("b", "b@b.c", 0, true)];
    let bands = group_page(threads, PageGroup::Unread, &Vec::new(), TODAY);
    assert_eq!(titles(&bands), ["Unread", "Read"]);
    let only_read = group_page(vec![thread("a", "a@b.c", 0, false)], PageGroup::Unread, &Vec::new(), TODAY);
    assert_eq!(titles(&only_read), ["Read"]);
}

#[test]
fn a_grouping_s_key_names_it_back() {
    for group in [
        PageGroup::Ungrouped,
        PageGroup::Sender,
        PageGroup::Date,
        PageGroup::Label,
        PageGroup::Unread,
    ] {
        assert_eq!(group_from(group_key(group)), Some(group));
    }
    assert_eq!(group_key(PageGroup::Ungrouped), "none");
    assert_eq!(group_from("weekday"), None);
}

#[test]
fn by_key_groups_what_it_is_given() {
    let threads = vec![thread("a", "a@b.c", 0, true), thread("b", "b@b.c", 1, true), thread("c", "c@b.c", 2, true)];
    let keys = vec!["x".to_owned(), "y".to_owned(), "x".to_owned()];
    let bands = by_key(threads, &keys);
    assert_eq!(titles(&bands), ["x", "y"]);
    assert_eq!(subjects(&bands[0]), ["a", "c"]);
}

#[test]
fn the_group_menu_checks_the_grouping_in_force() {
    let rows = group_items(PageGroup::Date);
    let keys: Vec<&str> = rows.iter().map(|r| r.key).collect();
    assert_eq!(keys, ["none", "sender", "date", "label", "unread"]);
    let checked: Vec<&str> = rows.iter().filter(|r| r.checked).map(|r| r.name).collect();
    assert_eq!(checked, ["Date"]);
    assert_eq!(rows[2].help, "Today, yesterday, this week, older");
    assert!(rows[0].dash && rows.iter().skip(1).all(|r| !r.dash), "only no grouping has the dash");
    for row in &rows {
        assert_eq!(group_from(row.key).map(group_key), Some(row.key));
    }
}
