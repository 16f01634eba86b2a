//! What an op means for the list, what a drop onto a place does, and what a press asks for.

use mail_app::motion::{Offered, PickAction, pick_buttons};
use mail_app::ids::ThreadId;
use mail_app::motion::{
    Click, Composes, Exit, MailboxRole, Membership, Op, OpKind, Pin, PointerButton,
    ReplyScope, Snooze, Star, ViewKind, accepts, acts, click_of, composes, destination, drop_op,
    exit, gap, keep_leaving, kebab, preview, KeyAct, key, Pressed, RowMenu, StripAct, strip_act,
    toggled,
};
use mail_app::page::LabelId;

#[test]
fn what_each_place_accepts() {
    let label = LabelId(42);
    let place = |mailbox| ViewKind::Place { mailbox };
    let cases: Vec<(&str, ViewKind, Option<Op>)> = vec![
        ("Inbox", place(MailboxRole::Inbox), Some(Op::Restore)),
        ("Archive", place(MailboxRole::Archive), Some(Op::Archive)),
        ("Trash", place(MailboxRole::Trash), Some(Op::Trash)),
        ("Spam", place(MailboxRole::Spam), Some(Op::Spam)),
        // Saved searches and places nothing is filed into refuse.
        ("Starred", ViewKind::Query, None),
        ("Snoozed", ViewKind::Query, None),
        ("Pinned", ViewKind::Query, None),
        ("Sent", place(MailboxRole::Sent), None),
        ("Drafts", place(MailboxRole::Drafts), None),
    ];
    for (name, kind, want) in cases {
        assert_eq!(drop_op(&kind), want, "{name}");
        assert_eq!(accepts(&kind), want.is_some(), "{name}");
    }
    assert_eq!(
        drop_op(&ViewKind::PlaceLabel { label }),
        Some(Op::Label(label, Membership::In))
    );
}

#[test]
fn only_a_primary_press_acts() {
    for (button, want) in [
        (PointerButton::Primary, true),
        (PointerButton::Secondary, false),
        (PointerButton::Middle, false),
    ] {
        assert_eq!(acts(button), want, "{button:?}");
    }
}

#[test]
fn a_row_folds_out_or_curls_away_and_only_when_it_leaves() {
    assert_eq!(exit(&Op::Archive), Some(Exit::Fold));
    assert_eq!(exit(&Op::File(LabelId(1))), Some(Exit::Fold));
    assert_eq!(exit(&Op::Restore), Some(Exit::Fold));
    assert_eq!(exit(&Op::SetSnooze(Snooze::Until(1_800_000_000))), Some(Exit::Curl));
    assert_eq!(exit(&Op::SetSnooze(Snooze::Inactive)), None);
    assert_eq!(exit(&Op::SetStar(Star::Starred)), None);
    assert_eq!(exit(&Op::SetRead(true)), None);
}

#[test]
fn an_op_lands_in_the_place_it_names() {
    let work = LabelId(7);
    let labels = vec![("Work".to_owned(), work)];
    assert_eq!(destination(&Op::Archive, &labels).as_deref(), Some("Archive"));
    assert_eq!(destination(&Op::Restore, &labels).as_deref(), Some("Inbox"));
    assert_eq!(destination(&Op::SetSnooze(Snooze::Until(5)), &labels).as_deref(), Some("Snoozed"));
    assert_eq!(destination(&Op::SetStar(Star::Starred), &labels).as_deref(), Some("Starred"));
    assert_eq!(destination(&Op::SetStar(Star::Unstarred), &labels), None);
    assert_eq!(destination(&Op::SetPin(Pin::Rank(3)), &labels).as_deref(), Some("Pinned"));
    assert_eq!(destination(&Op::Label(work, Membership::In), &labels).as_deref(), Some("Work"));
    assert_eq!(destination(&Op::Label(work, Membership::Out), &labels), None);
    assert_eq!(destination(&Op::Label(LabelId(8), Membership::In), &labels), None);
    assert_eq!(destination(&Op::File(LabelId(1)), &labels), None);
}

#[test]
fn a_leaving_row_is_kept_only_while_it_is_drawn_leaving() {
    let (a, b, c) = (ThreadId(1), ThreadId(2), ThreadId(3));
    let drawn = vec![(a, true), (b, false)];
    assert_eq!(keep_leaving(&vec![a, b, c], &drawn, c), vec![a, c]);
    assert_eq!(keep_leaving(&vec![a], &drawn, a), vec![a]);
}

#[test]
fn what_a_strip_button_is_called_and_where_it_glows() {
    assert_eq!(kebab(OpKind::ReplyAll), "reply-all");
    assert_eq!(kebab(OpKind::MarkUnread), "mark-unread");
    assert_eq!(preview(OpKind::Snooze), Some("Snoozed"));
    assert_eq!(preview(OpKind::Star), None);
    assert_eq!(composes(OpKind::ReplyAll), Some(Composes::Reply(ReplyScope::All)));
    assert_eq!(composes(OpKind::Forward), Some(Composes::Forward));
    assert_eq!(composes(OpKind::Archive), None);
}

#[test]
fn shift_wins_over_ctrl_and_cmd_is_ctrl() {
    assert_eq!(click_of(true, true, false), Click::Range);
    assert_eq!(click_of(false, true, false), Click::Toggle);
    assert_eq!(click_of(false, false, true), Click::Toggle);
    assert_eq!(click_of(false, false, false), Click::Plain);
    assert_eq!(gap(true), 72);
    assert_eq!(gap(false), 54);
}

use mail_app::motion::{ToastSlot, label_ops};

#[test]
fn a_label_goes_on_where_it_is_missing_and_comes_off_when_all_wear_it() {
    let (a, b, c) = (ThreadId(1), ThreadId(2), ThreadId(3));
    let label = LabelId(9);
    assert_eq!(
        label_ops(&vec![(a, true), (b, false), (c, false)], label),
        vec![(b, Op::Label(label, Membership::In)), (c, Op::Label(label, Membership::In))]
    );
    assert_eq!(
        label_ops(&vec![(a, true), (b, true)], label),
        vec![(a, Op::Label(label, Membership::Out)), (b, Op::Label(label, Membership::Out))]
    );
}

#[test]
fn a_later_toast_outlives_the_earlier_one_s_timeout() {
    let mut slot = ToastSlot::new();
    assert_eq!(slot.shown(), None);
    let first = slot.say("Archived".to_owned());
    assert_eq!(first, 1);
    let second = slot.say("Trashed".to_owned());
    assert_eq!(second, 2);
    slot.expire(first);
    assert_eq!(slot.shown(), Some("Trashed"), "the earlier timeout took the later toast down");
    slot.expire(second);
    assert_eq!(slot.shown(), None);
    slot.say("Moved".to_owned());
    slot.clear();
    assert_eq!(slot.shown(), None);
}

use mail_app::motion::Drag;

#[test]
fn a_press_becomes_a_drag_only_past_the_threshold_and_drops_only_on_a_place() {
    let thread = ThreadId(4);
    let armed = Drag::press(thread);
    assert_eq!(armed.moved(true, false, true), armed, "a small move is still a press");
    assert_eq!(armed.moved(true, true, false), Drag::Idle, "a row that is gone is not dragged");
    let live = armed.moved(true, true, true);
    assert_eq!(live, Drag::Live { thread, target: None });
    assert_eq!(live.release(), None, "released over no place");
    let over = live.over(Some(2), 0);
    assert_eq!(over.release(), Some((thread, 2)));
    assert_eq!(over.over(None, 3), over, "leaving another place keeps the target");
    assert_eq!(over.over(None, 2), live, "leaving the target clears it");
    assert_eq!(over.moved(false, true, true), Drag::Idle, "a move with no button held ends it");
    assert_eq!(armed.release(), None);
    assert!(over.cancel());
    assert!(!Drag::Idle.cancel(), "Esc with nothing dragged is not the drag's");
    assert_eq!(Drag::Idle.over(Some(1), 0), Drag::Idle);
}

#[test]
fn esc_drops_a_drag_and_ctrl_z_undoes_but_never_in_a_field() {
    let live = mail_app::motion::Drag::Armed { thread: ThreadId(1) };
    let idle = mail_app::motion::Drag::Idle;
    assert_eq!(key("Escape", false, false, &live), KeyAct::DropDrag);
    assert_eq!(key("Escape", false, true, &live), KeyAct::DropDrag, "Esc drops a drag even while typing");
    assert_eq!(key("Escape", false, false, &idle), KeyAct::Hover);
    assert_eq!(key("z", true, false, &idle), KeyAct::Undo);
    assert_eq!(key("Z", true, false, &idle), KeyAct::Undo);
    assert_eq!(key("z", true, true, &idle), KeyAct::Field, "Ctrl Z in a field is the field's own");
    assert_eq!(key("z", false, false, &idle), KeyAct::Hover);
    assert_eq!(key(" ", false, false, &idle), KeyAct::Hover);
}

#[test]
fn a_strip_button_opens_its_menu_and_a_second_press_closes_it() {
    assert_eq!(strip_act(Pressed::MoveTo, true), StripAct::Toggle(RowMenu::Filing));
    assert_eq!(strip_act(Pressed::Op(OpKind::AddLabel), true), StripAct::Toggle(RowMenu::Labelling));
    assert_eq!(strip_act(Pressed::Op(OpKind::Snooze), true), StripAct::Toggle(RowMenu::Snoozing));
    assert_eq!(strip_act(Pressed::Op(OpKind::ReplyAll), true), StripAct::Compose(Composes::Reply(ReplyScope::All)));
    assert_eq!(strip_act(Pressed::Op(OpKind::Archive), true), StripAct::OnPicked(OpKind::Archive));
    assert_eq!(strip_act(Pressed::Op(OpKind::Pin), false), StripAct::OnRow(OpKind::Pin), "a pin needs its own row");
    let row = ThreadId(3);
    let open = toggled(None, row);
    assert_eq!(open, Some(row));
    assert_eq!(toggled(open, row), None, "a second press closes it");
    assert_eq!(toggled(Some(ThreadId(9)), row), Some(row), "a press on another row moves it there");
}

#[test]
fn the_pick_bar_offers_what_the_selection_offers_and_names_it_by_what_it_does() {
    let all = Offered {
        archive: Some(OpKind::Archive),
        trash: Some(OpKind::Trash),
        spam: Some(OpKind::Spam),
        read: Some(OpKind::MarkUnread),
        star: Some(OpKind::Star),
    };
    assert_eq!(
        pick_buttons(all),
        [
            (PickAction::Archive, "Archive"),
            (PickAction::Trash, "Move to Trash"),
            (PickAction::Spam, "Mark as spam"),
            (PickAction::ToggleRead, "Mark unread"),
            (PickAction::ToggleStar, "Star"),
        ]
    );
    let some = Offered { archive: None, trash: Some(OpKind::Trash), spam: None, read: Some(OpKind::MarkRead), star: Some(OpKind::Unstar) };
    assert_eq!(
        pick_buttons(some),
        [(PickAction::Trash, "Move to Trash"), (PickAction::ToggleRead, "Mark read"), (PickAction::ToggleStar, "Unstar")]
    );
    let none = Offered { archive: None, trash: None, spam: None, read: None, star: None };
    assert!(pick_buttons(none).is_empty());
}
