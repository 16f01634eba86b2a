//! The label menu's Create row, and a time said inside a sentence.

use mail_app::menus::{LabelRow, create_item, label_items, when_in_sentence};
use mail_app::page::LabelId;

#[test]
fn create_appears_only_for_a_new_name() {
    let known = vec!["Work".to_owned(), "Receipts".to_owned()];
    assert_eq!(
        create_item(&known, "  Travel "),
        Some(("create:Travel".to_owned(), "Create \u{201c}Travel\u{201d}".to_owned()))
    );
    assert_eq!(create_item(&known, "work"), None, "a known name in another case");
    assert_eq!(create_item(&known, "RECEIPTS "), None);
    assert_eq!(create_item(&known, "   "), None);
    assert_eq!(create_item(&known, "Wörk").map(|(k, _)| k), Some("create:Wörk".to_owned()));
}

#[test]
fn a_day_word_is_lower_case_inside_a_sentence() {
    assert_eq!(when_in_sentence("Tomorrow 08:00"), "tomorrow 08:00");
    assert_eq!(when_in_sentence("Today 17:00"), "today 17:00");
    assert_eq!(when_in_sentence("Yesterday 09:30"), "yesterday 09:30");
    assert_eq!(when_in_sentence("Tue 6 Oct 08:00"), "Tue 6 Oct 08:00");
}

#[test]
fn a_time_to_come_is_said_by_its_day() {
    let words = |days| mail_app::menus::when_words(days, true, "08:00", "Tue", "6 Oct", "2027");
    assert_eq!(words(-1), "Yesterday 08:00");
    assert_eq!(words(0), "Today 08:00");
    assert_eq!(words(1), "Tomorrow 08:00");
    assert_eq!(words(4), "Tue 08:00");
    assert_eq!(words(9), "Tue 6 Oct 08:00");
    assert_eq!(mail_app::menus::when_words(400, false, "08:00", "Tue", "6 Oct", "2027"), "Tue 6 Oct 2027 08:00");
    assert_eq!(mail_app::menus::when_words(-3, true, "17:00", "Sat", "3 Oct", "2026"), "Sat 3 Oct 17:00");
}

#[test]
fn create_appears_only_for_a_new_name_and_checks_follow_the_thread() {
    let travel = LabelId(1);
    let home = LabelId(2);
    let known = vec![("travel".to_owned(), travel), ("home".to_owned(), home)];
    let worn = label_items(&known, &vec![travel], "");
    assert!(worn.iter().all(|row| !matches!(row, LabelRow::Create { .. })), "an empty filter offered to create a label: {worn:?}");
    assert_eq!(
        worn,
        [
            LabelRow::Label { id: travel, name: "travel".to_owned(), checked: true },
            LabelRow::Label { id: home, name: "home".to_owned(), checked: false },
        ]
    );
    let again = label_items(&known, &vec![travel], "travel");
    assert!(again.iter().all(|row| !matches!(row, LabelRow::Create { .. })), "an existing name offered Create: {again:?}");
    let fresh = label_items(&known, &Vec::new(), "zephyr");
    assert_eq!(
        fresh.last(),
        Some(&LabelRow::Create { key: "create:zephyr".to_owned(), name: "Create \u{201c}zephyr\u{201d}".to_owned() })
    );
    assert_eq!(fresh.iter().filter(|row| matches!(row, LabelRow::Create { .. })).count(), 1, "more than one Create row");
    assert!(fresh.iter().all(|row| !matches!(row, LabelRow::Label { checked: true, .. })));
}
