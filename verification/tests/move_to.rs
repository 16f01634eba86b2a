//! "Move to…": the account's own folders, in order, and the ops that file into one.

use mail_app::ids::ThreadId;
use mail_app::motion::Op;
use mail_app::move_to::{
    AccountId, FILTER_OVER, Folder, Label, destinations, file_ops, filters_as_you_type,
    folder_label, menu_note,
};
use mail_app::page::LabelId;

fn folder(path: &str, special: bool, holds_mail: bool) -> Folder {
    Folder { path: path.to_owned(), special, holds_mail }
}

#[test]
fn the_menu_offers_the_account_s_own_folders_in_order_and_nothing_else() {
    let folders = vec![
        folder("Receipts", false, true),
        folder("INBOX", true, true),
        folder("Archive/2024", false, true),
        folder("Sent", true, true),
        folder("Only a label", false, false),
        folder("Archive", false, true),
        folder("Ärger", false, true),
        folder("Zed", false, true),
    ];
    assert_eq!(destinations(&folders), ["Archive", "Archive/2024", "Receipts", "Zed", "Ärger"]);
    assert!(destinations(&Vec::new()).is_empty());
}

#[test]
fn a_long_menu_filters_and_an_empty_one_says_why() {
    assert_eq!(FILTER_OVER, 7);
    assert!(!filters_as_you_type(7));
    assert!(filters_as_you_type(8));
    assert_eq!(menu_note(0), Some("This account has no folders of its own to move to."));
    assert_eq!(menu_note(3), None);
}

#[test]
fn a_folder_files_under_the_server_s_own_label_of_its_name() {
    let labels = vec![
        Label { id: LabelId(1), name: "Receipts".to_owned(), provider: false },
        Label { id: LabelId(2), name: "Receipts".to_owned(), provider: true },
    ];
    assert_eq!(folder_label(&labels, "Receipts"), Some(LabelId(2)));
    assert_eq!(folder_label(&labels, "Travel"), None);
}

#[test]
fn only_the_folder_s_own_account_is_filed() {
    let (mine, theirs) = (AccountId(1), AccountId(2));
    let label = LabelId(5);
    let threads = vec![
        (ThreadId(1), Some(mine)),
        (ThreadId(2), Some(theirs)),
        (ThreadId(3), None),
        (ThreadId(4), Some(mine)),
    ];
    assert_eq!(
        file_ops(&threads, mine, label),
        vec![(ThreadId(1), Op::File(label)), (ThreadId(4), Op::File(label))]
    );
}

#[test]
fn the_menu_offers_the_accounts_own_folders_and_nothing_else() {
    let listed = vec![
        folder("INBOX", true, true),
        folder("Sent", true, true),
        folder("Trash", true, true),
        folder("Lists", false, false),
        folder("Projects", false, true),
        folder("Projects/2026", false, true),
        folder("收據", false, true),
    ];
    let offered = destinations(&listed);
    assert_eq!(offered, ["Projects", "Projects/2026", "收據"]);
    // The menu's rows are keyed by these paths, one row each.
    let keys: Vec<String> = offered.iter().cloned().collect();
    assert_eq!(keys, offered);
    // An account with no listing at all has nothing to offer.
    assert!(destinations(&Vec::new()).is_empty());
}
