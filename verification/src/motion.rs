//! What an operation on a row means for the list: where it lands, whether the row leaves and
//! how, what a drop onto a sidebar place does, and what a press or a click asks for.
//!
//! Every motion starts because something the window already knows became true: an op was
//! applied, and this says what that op looks like.

use vstd::prelude::*;
use crate::ids::ThreadId;
use crate::page::LabelId;
use crate::text::str_eq;

verus! {

/// Whether a conversation waits.
#[derive(Debug, Clone, Copy, PartialEq, Eq, Structural)]
pub enum Snooze {
    Inactive,
    /// Until this time, in seconds.
    Until(i64),
}

/// Whether a conversation is starred.
#[derive(Debug, Clone, Copy, PartialEq, Eq, Structural)]
pub enum Star {
    Starred,
    Unstarred,
}

/// Whether a conversation is pinned, and where.
#[derive(Debug, Clone, Copy, PartialEq, Eq, Structural)]
pub enum Pin {
    Unpinned,
    Rank(u64),
}

/// Whether a label is put on or taken off.
#[derive(Debug, Clone, Copy, PartialEq, Eq, Structural)]
pub enum Membership {
    In,
    Out,
}

/// An operation on a conversation.
#[derive(Debug, Clone, Copy, PartialEq, Eq, Structural)]
pub enum Op {
    Archive,
    /// Filed into a server folder, under the label that is the folder.
    File(LabelId),
    Trash,
    Spam,
    /// Back to the inbox.
    Restore,
    SetSnooze(Snooze),
    SetStar(Star),
    SetPin(Pin),
    Label(LabelId, Membership),
    /// Marked read (`true`) or unread.
    SetRead(bool),
}

/// A mailbox a place can be.
#[derive(Debug, Clone, Copy, PartialEq, Eq, Structural)]
pub enum MailboxRole {
    Inbox,
    Archive,
    Trash,
    Spam,
    Sent,
    Drafts,
}

/// What a sidebar place is, as a drop target.
#[derive(Debug, Clone, Copy, PartialEq, Eq, Structural)]
pub enum ViewKind {
    /// A mailbox you can file into.
    Place { mailbox: MailboxRole },
    /// A label you can apply.
    PlaceLabel { label: LabelId },
    /// A saved search: read-only.
    Query,
}

/// The op a drop onto a place of `kind` means, if it takes one.
pub open spec fn drop_op_spec(kind: ViewKind) -> Option<Op> {
    match kind {
        ViewKind::Place { mailbox } => match mailbox {
            MailboxRole::Inbox => Some(Op::Restore),
            MailboxRole::Archive => Some(Op::Archive),
            MailboxRole::Trash => Some(Op::Trash),
            MailboxRole::Spam => Some(Op::Spam),
            MailboxRole::Sent => None,
            MailboxRole::Drafts => None,
        },
        ViewKind::PlaceLabel { label } => Some(Op::Label(label, Membership::In)),
        ViewKind::Query => None,
    }
}

/// The op a drop onto a place of `kind` means, if it takes one. Nothing is moved into Sent or
/// Drafts by hand, and a saved search refuses.
pub fn drop_op(kind: &ViewKind) -> (r: Option<Op>)
    ensures
        r == drop_op_spec(*kind),
{
    match kind {
        ViewKind::Place { mailbox } => match mailbox {
            MailboxRole::Inbox => Some(Op::Restore),
            MailboxRole::Archive => Some(Op::Archive),
            MailboxRole::Trash => Some(Op::Trash),
            MailboxRole::Spam => Some(Op::Spam),
            MailboxRole::Sent => None,
            MailboxRole::Drafts => None,
        },
        ViewKind::PlaceLabel { label } => Some(Op::Label(*label, Membership::In)),
        ViewKind::Query => None,
    }
}

/// Whether a place takes drops at all: the sidebar lights only these while a drag is live.
pub fn accepts(kind: &ViewKind) -> (r: bool)
    ensures
        r == (drop_op_spec(*kind) is Some),
{
    drop_op(kind).is_some()
}

/// How a row leaves the list.
#[derive(Debug, Clone, Copy, PartialEq, Eq, Structural)]
pub enum Exit {
    Fold,
    Curl,
}

/// The row's exit, when `op` takes a row out of a list.
pub open spec fn exit_spec(op: Op) -> Option<Exit> {
    match op {
        Op::Archive => Some(Exit::Fold),
        Op::File(_) => Some(Exit::Fold),
        Op::Trash => Some(Exit::Fold),
        Op::Spam => Some(Exit::Fold),
        Op::Restore => Some(Exit::Fold),
        Op::SetSnooze(Snooze::Until(_)) => Some(Exit::Curl),
        _ => None,
    }
}

/// The row's exit, when `op` takes a row out of a list: snooze curls away, everything else
/// folds; filed into a folder is out of the inbox, the way archiving is.
pub fn exit(op: &Op) -> (r: Option<Exit>)
    ensures
        r == exit_spec(*op),
{
    match op {
        Op::Archive | Op::File(_) | Op::Trash | Op::Spam | Op::Restore => Some(Exit::Fold),
        Op::SetSnooze(Snooze::Until(_)) => Some(Exit::Curl),
        _ => None,
    }
}

/// The name `labels` gives label `id`: the first that has it.
pub open spec fn label_name(labels: Seq<(String, LabelId)>, id: LabelId, from: int) -> Option<Seq<char>>
    decreases labels.len() - from,
{
    if from < 0 || from >= labels.len() {
        None
    } else if labels[from].1 == id {
        Some(labels[from].0@)
    } else {
        label_name(labels, id, from + 1)
    }
}

/// The sidebar place an op lands in, by name.
pub open spec fn destination_spec(op: Op, labels: Seq<(String, LabelId)>) -> Option<Seq<char>> {
    match op {
        Op::Archive => Some("Archive"@),
        Op::Trash => Some("Trash"@),
        Op::Spam => Some("Spam"@),
        Op::Restore => Some("Inbox"@),
        Op::SetSnooze(Snooze::Until(_)) => Some("Snoozed"@),
        Op::SetStar(Star::Starred) => Some("Starred"@),
        Op::SetPin(Pin::Rank(_)) => Some("Pinned"@),
        Op::Label(id, Membership::In) => label_name(labels, id, 0),
        _ => None,
    }
}

/// The sidebar place an op lands in, by name: the place that gulps when it lands.
pub fn destination(op: &Op, labels: &Vec<(String, LabelId)>) -> (r: Option<String>)
    ensures
        match r {
            Some(name) => destination_spec(*op, labels@) == Some(name@),
            None => destination_spec(*op, labels@) is None,
        },
{
    let name = match op {
        Op::Archive => "Archive",
        Op::Trash => "Trash",
        Op::Spam => "Spam",
        Op::Restore => "Inbox",
        Op::SetSnooze(Snooze::Until(_)) => "Snoozed",
        Op::SetStar(Star::Starred) => "Starred",
        Op::SetPin(Pin::Rank(_)) => "Pinned",
        Op::Label(id, Membership::In) => {
            let mut i: usize = 0;
            while i < labels.len()
                invariant
                    i <= labels.len(),
                    *op == Op::Label(*id, Membership::In),
                    label_name(labels@, *id, 0) == label_name(labels@, *id, i as int),
                decreases labels.len() - i,
            {
                if labels[i].1.0 == id.0 {
                    return Some(labels[i].0.clone());
                }
                i = i + 1;
            }
            return None;
        },
        _ => return None,
    };
    Some(String::from_str(name))
}

/// What a row keeps drawing while others leave: the rows still leaving (`drawn` says which the
/// roster draws leaving now), less `thread`, then `thread`.
pub open spec fn still_leaving(leaving: Seq<ThreadId>, drawn: Seq<(ThreadId, bool)>, thread: ThreadId) -> Seq<ThreadId>
    decreases leaving.len(),
{
    if leaving.len() == 0 {
        seq![]
    } else {
        let before = still_leaving(leaving.drop_last(), drawn, thread);
        let row = leaving.last();
        if row != thread && exists|j: int| 0 <= j < drawn.len() && drawn[j].0 == row && drawn[j].1 {
            before.push(row)
        } else {
            before
        }
    }
}

fn drawn_leaving(drawn: &Vec<(ThreadId, bool)>, row: ThreadId) -> (r: bool)
    ensures
        r == exists|j: int| 0 <= j < drawn.len() && drawn@[j].0 == row && drawn@[j].1,
{
    let mut j: usize = 0;
    while j < drawn.len()
        invariant
            j <= drawn.len(),
            forall|k: int| 0 <= k < j ==> !(drawn@[k].0 == row && drawn@[k].1),
        decreases drawn.len() - j,
    {
        if drawn[j].0.0 == row.0 && drawn[j].1 {
            return true;
        }
        j = j + 1;
    }
    false
}

/// The rows kept drawn leaving once `thread` starts to leave: a row's summary is kept while the
/// roster still draws it leaving, and no longer; `thread` goes last.
pub fn keep_leaving(leaving: &Vec<ThreadId>, drawn: &Vec<(ThreadId, bool)>, thread: ThreadId) -> (r: Vec<ThreadId>)
    ensures
        r@ == still_leaving(leaving@, drawn@, thread).push(thread),
{
    let mut out: Vec<ThreadId> = Vec::new();
    let mut i: usize = 0;
    while i < leaving.len()
        invariant
            i <= leaving.len(),
            out@ == still_leaving(leaving@.subrange(0, i as int), drawn@, thread),
        decreases leaving.len() - i,
    {
        proof {
            assert(leaving@.subrange(0, i + 1).drop_last() =~= leaving@.subrange(0, i as int));
            assert(leaving@.subrange(0, i + 1).last() == leaving@[i as int]);
        }
        let row = leaving[i];
        if row.0 != thread.0 && drawn_leaving(drawn, row) {
            out.push(row);
        }
        i = i + 1;
    }
    assert(leaving@.subrange(0, leaving.len() as int) =~= leaving@);
    out.push(thread);
    out
}

/// What a row's strip button asks for.
#[derive(Debug, Clone, Copy, PartialEq, Eq, Structural)]
pub enum OpKind {
    Archive,
    Trash,
    Restore,
    Spam,
    MarkRead,
    MarkUnread,
    Star,
    Unstar,
    AddLabel,
    RemoveLabel,
    Snooze,
    Pin,
    Reply,
    ReplyAll,
    Forward,
}

/// The place a strip button would send the row to, which glows while the button is hovered.
pub fn preview(kind: OpKind) -> (r: Option<&'static str>)
    ensures
        r matches Some(p) ==> (kind == OpKind::Archive && p@ == "Archive"@) || (kind == OpKind::Snooze
            && p@ == "Snoozed"@) || (kind == OpKind::Trash && p@ == "Trash"@),
        r is None <==> !(kind == OpKind::Archive || kind == OpKind::Snooze || kind == OpKind::Trash),
{
    match kind {
        OpKind::Archive => Some("Archive"),
        OpKind::Snooze => Some("Snoozed"),
        OpKind::Trash => Some("Trash"),
        _ => None,
    }
}

/// The name a strip button is known by.
pub open spec fn kebab_spec(kind: OpKind) -> Seq<char> {
    match kind {
        OpKind::Archive => "archive"@,
        OpKind::Trash => "trash"@,
        OpKind::Restore => "restore"@,
        OpKind::Spam => "spam"@,
        OpKind::MarkRead => "mark-read"@,
        OpKind::MarkUnread => "mark-unread"@,
        OpKind::Star => "star"@,
        OpKind::Unstar => "unstar"@,
        OpKind::AddLabel => "add-label"@,
        OpKind::RemoveLabel => "remove-label"@,
        OpKind::Snooze => "snooze"@,
        OpKind::Pin => "pin"@,
        OpKind::Reply => "reply"@,
        OpKind::ReplyAll => "reply-all"@,
        OpKind::Forward => "forward"@,
    }
}

/// The name a strip button is known by, which is how a press is read back.
pub fn kebab(kind: OpKind) -> (r: &'static str)
    ensures
        r@ == kebab_spec(kind),
{
    match kind {
        OpKind::Archive => "archive",
        OpKind::Trash => "trash",
        OpKind::Restore => "restore",
        OpKind::Spam => "spam",
        OpKind::MarkRead => "mark-read",
        OpKind::MarkUnread => "mark-unread",
        OpKind::Star => "star",
        OpKind::Unstar => "unstar",
        OpKind::AddLabel => "add-label",
        OpKind::RemoveLabel => "remove-label",
        OpKind::Snooze => "snooze",
        OpKind::Pin => "pin",
        OpKind::Reply => "reply",
        OpKind::ReplyAll => "reply-all",
        OpKind::Forward => "forward",
    }
}

/// Who a reply answers.
#[derive(Debug, Clone, Copy, PartialEq, Eq, Structural)]
pub enum ReplyScope {
    Sender,
    All,
}

/// What opening a composer on a button means: a forward carries the message rather than
/// answering it, and starts with no recipients.
#[derive(Debug, Clone, Copy, PartialEq, Eq, Structural)]
pub enum Composes {
    Reply(ReplyScope),
    Forward,
}

/// The composer a button opens, if it opens one rather than performing an operation.
pub fn composes(kind: OpKind) -> (r: Option<Composes>)
    ensures
        r == composes_spec(kind),
{
    match kind {
        OpKind::Reply => Some(Composes::Reply(ReplyScope::Sender)),
        OpKind::ReplyAll => Some(Composes::Reply(ReplyScope::All)),
        OpKind::Forward => Some(Composes::Forward),
        _ => None,
    }
}

/// A button of a row's hover strip: an op, or Move to….
#[derive(Debug, Clone, Copy, PartialEq, Eq, Structural)]
pub enum Pressed {
    Op(OpKind),
    MoveTo,
}

/// A menu a row's strip opens over the row.
#[derive(Debug, Clone, Copy, PartialEq, Eq, Structural)]
pub enum RowMenu {
    Filing,
    Labelling,
    Snoozing,
}

/// What a press on a strip button does.
#[derive(Debug, Clone, Copy, PartialEq, Eq, Structural)]
pub enum StripAct {
    /// Opens the menu over this row, or closes it when it is open here.
    Toggle(RowMenu),
    /// Opens the composer on a new draft.
    Compose(Composes),
    /// The op, on every picked row when this one is picked, as one gesture.
    OnPicked(OpKind),
    /// The op on this row alone: it needs more than the button says (a pin's rank).
    OnRow(OpKind),
}

/// What a press on `pressed` does; `plain` says whether the op is the same for every row, so
/// that it can act on all the picked ones.
pub open spec fn strip_act_spec(pressed: Pressed, plain: bool) -> StripAct {
    match pressed {
        Pressed::MoveTo => StripAct::Toggle(RowMenu::Filing),
        Pressed::Op(kind) => if kind == OpKind::AddLabel {
            StripAct::Toggle(RowMenu::Labelling)
        } else if kind == OpKind::Snooze {
            StripAct::Toggle(RowMenu::Snoozing)
        } else {
            match composes_spec(kind) {
                Some(what) => StripAct::Compose(what),
                None => if plain {
                    StripAct::OnPicked(kind)
                } else {
                    StripAct::OnRow(kind)
                },
            }
        },
    }
}

/// The composer a button opens, as [`composes`] says.
pub open spec fn composes_spec(kind: OpKind) -> Option<Composes> {
    match kind {
        OpKind::Reply => Some(Composes::Reply(ReplyScope::Sender)),
        OpKind::ReplyAll => Some(Composes::Reply(ReplyScope::All)),
        OpKind::Forward => Some(Composes::Forward),
        _ => None,
    }
}

/// A strip button pressed: label, snooze and move open their menus (a second press closes
/// them), a reply or forward opens the composer, and any other op acts at once.
pub fn strip_act(pressed: Pressed, plain: bool) -> (r: StripAct)
    ensures
        r == strip_act_spec(pressed, plain),
{
    match pressed {
        Pressed::MoveTo => StripAct::Toggle(RowMenu::Filing),
        Pressed::Op(kind) => {
            if kind == OpKind::AddLabel {
                StripAct::Toggle(RowMenu::Labelling)
            } else if kind == OpKind::Snooze {
                StripAct::Toggle(RowMenu::Snoozing)
            } else {
                match composes(kind) {
                    Some(what) => StripAct::Compose(what),
                    None => if plain {
                        StripAct::OnPicked(kind)
                    } else {
                        StripAct::OnRow(kind)
                    },
                }
            }
        },
    }
}

/// The row a menu is open over after its button is pressed on row `id`: closed when it was
/// open over `id`, else open over `id`.
pub open spec fn toggled_spec(open: Option<ThreadId>, id: ThreadId) -> Option<ThreadId> {
    if open == Some(id) {
        None
    } else {
        Some(id)
    }
}

/// The row a menu is open over after its button is pressed on row `id`.
pub fn toggled(open: Option<ThreadId>, id: ThreadId) -> (r: Option<ThreadId>)
    ensures
        r == toggled_spec(open, id),
{
    match open {
        Some(at) => if at == id {
            None
        } else {
            Some(id)
        },
        None => Some(id),
    }
}

/// A second press closes the menu the first one opened: pressing a row's menu button twice
/// leaves the menu closed, wherever it was open before; and a menu is only ever open over the
/// row last pressed.
pub proof fn law_a_second_press_closes_the_menu(open: Option<ThreadId>, id: ThreadId)
    ensures
        open != Some(id) ==> toggled_spec(toggled_spec(open, id), id) is None,
        toggled_spec(open, id) is Some ==> toggled_spec(open, id) == Some(id),
{
}

/// What a click on a row asks for.
#[derive(Debug, Clone, Copy, PartialEq, Eq, Structural)]
pub enum Click {
    Plain,
    Toggle,
    Range,
}

/// What a click asks for, from the keys held with it: Shift wins over Ctrl, as a range is the
/// larger thing to have asked for; Cmd is a Mac's Ctrl.
pub fn click_of(shift: bool, ctrl: bool, meta: bool) -> (r: Click)
    ensures
        r == if shift {
            Click::Range
        } else if ctrl || meta {
            Click::Toggle
        } else {
            Click::Plain
        },
{
    if shift {
        Click::Range
    } else if ctrl || meta {
        Click::Toggle
    } else {
        Click::Plain
    }
}

/// How far the rows under a gap travel as they heal: one row, with its margin, taller when
/// the row shows its snippet.
pub fn gap(snippet_shown: bool) -> (r: u32)
    ensures
        r == if snippet_shown {
            72u32
        } else {
            54u32
        },
{
    if snippet_shown {
        72
    } else {
        54
    }
}

/// Which pointer button a press was made with.
#[derive(Debug, Clone, Copy, PartialEq, Eq, Structural)]
pub enum PointerButton {
    Primary,
    Secondary,
    Middle,
}

/// Whether a press acts: a mailo button answers the primary button (a click, or the keyboard)
/// and no other, so a right-click on Delete does nothing.
pub fn acts(button: PointerButton) -> (r: bool)
    ensures
        r <==> button == PointerButton::Primary,
{
    match button {
        PointerButton::Primary => true,
        _ => false,
    }
}

/// The serial after `s`, wrapping.
pub open spec fn next_serial(s: u64) -> u64 {
    if s == u64::MAX {
        0
    } else {
        (s + 1) as u64
    }
}

/// mailo's own toast, the one whose follow-up is not an undo: its words and the serial that
/// tells it from the next one.
pub struct ToastSlot {
    said: Option<(String, u64)>,
}

/// What a toast slot shows: its words and serial, if any.
pub open spec fn slot_view(said: Option<(String, u64)>) -> Option<(Seq<char>, u64)> {
    match said {
        Some((text, serial)) => Some((text@, serial)),
        None => None,
    }
}

impl View for ToastSlot {
    type V = Option<(Seq<char>, u64)>;

    closed spec fn view(&self) -> Option<(Seq<char>, u64)> {
        slot_view(self.said)
    }
}

/// What saying `text` leaves: the words, under the serial after the one shown (or after 0).
pub open spec fn say_spec(shown: Option<(Seq<char>, u64)>, text: Seq<char>) -> Option<(Seq<char>, u64)> {
    let serial = match shown {
        Some((_, s)) => next_serial(s),
        None => 1,
    };
    Some((text, serial))
}

/// What a timeout for `serial` leaves: the toast gone if it is still that one, else unchanged.
pub open spec fn expire_spec(shown: Option<(Seq<char>, u64)>, serial: u64) -> Option<(Seq<char>, u64)> {
    match shown {
        Some((_, s)) => if s == serial {
            None
        } else {
            shown
        },
        None => None,
    }
}

impl ToastSlot {
    /// No toast.
    pub fn new() -> (r: ToastSlot)
        ensures
            r@ is None,
    {
        ToastSlot { said: None }
    }

    /// Put up `text`, replacing what is up; gives the serial its timeout is to name.
    pub fn say(&mut self, text: String) -> (r: u64)
        ensures
            final(self)@ == say_spec(old(self)@, text@),
            final(self)@ matches Some((_, s)) && s == r,
    {
        let serial = match &self.said {
            Some((_, s)) => if *s == u64::MAX {
                0
            } else {
                *s + 1
            },
            None => 1,
        };
        self.said = Some((text, serial));
        serial
    }

    /// The timeout of the toast said under `serial`: it takes that toast down, and never a
    /// later one.
    pub fn expire(&mut self, serial: u64)
        ensures
            final(self)@ == expire_spec(old(self)@, serial),
    {
        let current = match &self.said {
            Some((_, s)) => *s == serial,
            None => false,
        };
        if current {
            self.said = None;
        }
    }

    /// Take the toast down: an undo, or a toast of quire's, replaces it.
    pub fn clear(&mut self)
        ensures
            final(self)@ is None,
    {
        self.said = None;
    }

    /// The words up now, if any.
    pub fn shown(&self) -> (r: Option<&str>)
        ensures
            match r {
                Some(t) => self@ matches Some((w, _)) && w == t@,
                None => self@ is None,
            },
    {
        match &self.said {
            Some((text, _)) => Some(text.as_str()),
            None => None,
        }
    }
}

/// The next toast replaces the last, and the last one's timeout does not take the next one
/// down: it stays until its own.
pub proof fn law_a_later_toast_outlives_an_earlier_timeout(
    shown: Option<(Seq<char>, u64)>,
    first: Seq<char>,
    second: Seq<char>,
)
    ensures
        ({
            let after_first = say_spec(shown, first);
            let earlier = after_first.unwrap().1;
            let after_second = say_spec(after_first, second);
            let later = after_second.unwrap().1;
            &&& expire_spec(after_second, earlier) == after_second
            &&& expire_spec(after_second, later) is None
            &&& after_second.unwrap().0 == second
        }),
{
}

/// The membership a label gesture on several conversations asks for: off when every one
/// already wears the label, on otherwise.
pub open spec fn wanted_membership(wearing: Seq<(ThreadId, bool)>) -> Membership {
    if forall|i: int| 0 <= i < wearing.len() ==> #[trigger] wearing[i].1 {
        Membership::Out
    } else {
        Membership::In
    }
}

/// The ops of a label gesture, in order: one for each conversation it changes.
pub open spec fn label_ops_spec(wearing: Seq<(ThreadId, bool)>, label: LabelId, wanted: Membership) -> Seq<(ThreadId, Op)>
    decreases wearing.len(),
{
    if wearing.len() == 0 {
        seq![]
    } else {
        let before = label_ops_spec(wearing.drop_last(), label, wanted);
        let (thread, on) = wearing.last();
        if on == (wanted == Membership::Out) {
            before.push((thread, Op::Label(label, wanted)))
        } else {
            before
        }
    }
}

/// Put `label` on each of the conversations, or take it off (`wearing` says which already
/// wear it): off when every one wears it, on otherwise, and an op only for the ones it changes.
/// One gesture, so one undo.
pub fn label_ops(wearing: &Vec<(ThreadId, bool)>, label: LabelId) -> (r: Vec<(ThreadId, Op)>)
    ensures
        r@ == label_ops_spec(wearing@, label, wanted_membership(wearing@)),
{
    let mut all_on = true;
    let mut i: usize = 0;
    while i < wearing.len()
        invariant
            i <= wearing.len(),
            all_on == forall|j: int| 0 <= j < i ==> #[trigger] wearing@[j].1,
        decreases wearing.len() - i,
    {
        if !wearing[i].1 {
            all_on = false;
        }
        i = i + 1;
    }
    let wanted = if all_on {
        Membership::Out
    } else {
        Membership::In
    };
    assert(wanted == wanted_membership(wearing@));
    let mut out: Vec<(ThreadId, Op)> = Vec::new();
    let mut k: usize = 0;
    while k < wearing.len()
        invariant
            k <= wearing.len(),
            out@ == label_ops_spec(wearing@.subrange(0, k as int), label, wanted),
        decreases wearing.len() - k,
    {
        proof {
            assert(wearing@.subrange(0, k + 1).drop_last() =~= wearing@.subrange(0, k as int));
            assert(wearing@.subrange(0, k + 1).last() == wearing@[k as int]);
        }
        let (thread, on) = wearing[k];
        let out_wanted = match wanted {
            Membership::Out => true,
            Membership::In => false,
        };
        if on == out_wanted {
            out.push((thread, Op::Label(label, wanted)));
        }
        k = k + 1;
    }
    assert(wearing@.subrange(0, wearing.len() as int) =~= wearing@);
    out
}

proof fn lemma_label_ops_change(wearing: Seq<(ThreadId, bool)>, label: LabelId, wanted: Membership)
    ensures
        forall|j: int| 0 <= j < label_ops_spec(wearing, label, wanted).len() ==> {
            let (thread, op) = #[trigger] label_ops_spec(wearing, label, wanted)[j];
            op == Op::Label(label, wanted) && exists|i: int| 0 <= i < wearing.len() && wearing[i].0 == thread
                && wearing[i].1 == (wanted == Membership::Out)
        },
        label_ops_spec(wearing, label, wanted).len() <= wearing.len(),
    decreases wearing.len(),
{
    if wearing.len() > 0 {
        let rest = wearing.drop_last();
        lemma_label_ops_change(rest, label, wanted);
        let ops = label_ops_spec(wearing, label, wanted);
        assert forall|j: int| 0 <= j < ops.len() implies {
            let (thread, op) = #[trigger] ops[j];
            op == Op::Label(label, wanted) && exists|i: int| 0 <= i < wearing.len() && wearing[i].0 == thread
                && wearing[i].1 == (wanted == Membership::Out)
        } by {
            let before = label_ops_spec(rest, label, wanted);
            if j < before.len() {
                let (thread, op) = before[j];
                let i = choose|i: int| 0 <= i < rest.len() && rest[i].0 == thread && rest[i].1 == (wanted == Membership::Out);
                assert(wearing[i] == rest[i]);
            } else {
                assert(wearing[wearing.len() - 1] == wearing.last());
            }
        }
    }
}

/// A label gesture changes only what it changes: every op it makes is the one membership, on a
/// conversation that did not have it yet; and when every conversation wears the label, it
/// takes it off each of them.
pub proof fn law_a_label_gesture_changes_only_what_it_changes(wearing: Seq<(ThreadId, bool)>, label: LabelId)
    ensures
        ({
            let wanted = wanted_membership(wearing);
            let ops = label_ops_spec(wearing, label, wanted);
            &&& forall|j: int| 0 <= j < ops.len() ==> {
                let (thread, op) = #[trigger] ops[j];
                op == Op::Label(label, wanted) && exists|i: int| 0 <= i < wearing.len() && wearing[i].0 == thread
                    && wearing[i].1 == (wanted == Membership::Out)
            }
            &&& (wearing.len() > 0 && wanted == Membership::Out) ==> ops.len() == wearing.len()
        }),
{
    let wanted = wanted_membership(wearing);
    lemma_label_ops_change(wearing, label, wanted);
    if wanted == Membership::Out {
        lemma_label_ops_all(wearing, label);
    }
}

proof fn lemma_label_ops_all(wearing: Seq<(ThreadId, bool)>, label: LabelId)
    requires
        forall|i: int| 0 <= i < wearing.len() ==> #[trigger] wearing[i].1,
    ensures
        label_ops_spec(wearing, label, Membership::Out).len() == wearing.len(),
    decreases wearing.len(),
{
    if wearing.len() > 0 {
        assert(wearing[wearing.len() - 1].1);
        assert forall|i: int| 0 <= i < wearing.drop_last().len() implies #[trigger] wearing.drop_last()[i].1 by {
            assert(wearing.drop_last()[i] == wearing[i]);
        }
        lemma_label_ops_all(wearing.drop_last(), label);
    }
}

/// A drag of a row onto a sidebar place, from the press to the drop. Where the pointer is, and
/// whether it has travelled far enough to make a press a drag, is the window's to measure.
#[derive(Debug, Clone, Copy, PartialEq, Eq, Structural)]
pub enum Drag {
    Idle,
    /// Pressed on a row; not moved far enough yet.
    Armed { thread: ThreadId },
    /// Following the pointer, over the place at `target` in the sidebar if any.
    Live { thread: ThreadId, target: Option<usize> },
}

/// The drag after the pointer moved: a move with no button held ends it (the pointer was
/// released somewhere that never said so); an armed press goes live once it has travelled far
/// enough, if its row is still there.
pub open spec fn moved_spec(drag: Drag, held: bool, far: bool, row_found: bool) -> Drag {
    match drag {
        Drag::Idle => Drag::Idle,
        _ => if !held {
            Drag::Idle
        } else {
            match drag {
                Drag::Armed { thread } => if !far {
                    drag
                } else if !row_found {
                    Drag::Idle
                } else {
                    Drag::Live { thread, target: None }
                },
                _ => drag,
            }
        },
    }
}

/// The drag after the pointer entered the place at `index` (`Some`), or left the place at
/// `leaving` (`None`): only a live drag has a target.
pub open spec fn over_spec(drag: Drag, index: Option<usize>, leaving: usize) -> Drag {
    match drag {
        Drag::Live { thread, target } => match index {
            Some(i) => Drag::Live { thread, target: Some(i) },
            None => if target == Some(leaving) {
                Drag::Live { thread, target: None }
            } else {
                drag
            },
        },
        _ => drag,
    }
}

impl Drag {
    /// A press on a row arms a drag of it.
    pub fn press(thread: ThreadId) -> (r: Drag)
        ensures
            r == (Drag::Armed { thread }),
    {
        Drag::Armed { thread }
    }

    /// The pointer moved: `held` says whether a button is still down, `far` whether the pointer
    /// is far enough from the press to make it a drag, `row_found` whether the row is still
    /// there to drag.
    pub fn moved(self, held: bool, far: bool, row_found: bool) -> (r: Drag)
        ensures
            r == moved_spec(self, held, far, row_found),
    {
        match self {
            Drag::Idle => Drag::Idle,
            Drag::Armed { thread } => {
                if !held {
                    Drag::Idle
                } else if !far {
                    self
                } else if !row_found {
                    Drag::Idle
                } else {
                    Drag::Live { thread, target: None }
                }
            },
            Drag::Live { .. } => if held {
                self
            } else {
                Drag::Idle
            },
        }
    }

    /// The pointer entered the place at `index`, or left the place at `leaving`.
    pub fn over(self, index: Option<usize>, leaving: usize) -> (r: Drag)
        ensures
            r == over_spec(self, index, leaving),
    {
        match self {
            Drag::Live { thread, target } => match index {
                Some(i) => Drag::Live { thread, target: Some(i) },
                None => {
                    let same = match target {
                        Some(t) => t == leaving,
                        None => false,
                    };
                    if same {
                        Drag::Live { thread, target: None }
                    } else {
                        self
                    }
                },
            },
            _ => self,
        }
    }

    /// The pointer was released: the row and the place it is dropped on, when a live drag has a
    /// target; nothing otherwise. Either way the drag is over.
    pub fn release(self) -> (r: Option<(ThreadId, usize)>)
        ensures
            r == match self {
                Drag::Live { thread, target: Some(index) } => Some((thread, index)),
                _ => None,
            },
    {
        match self {
            Drag::Live { thread, target: Some(index) } => Some((thread, index)),
            _ => None,
        }
    }

    /// Esc: drop nothing. Whether a drag was armed or live, so Esc was for it.
    pub fn cancel(self) -> (r: bool)
        ensures
            r == !(self == Drag::Idle),
    {
        match self {
            Drag::Idle => false,
            _ => true,
        }
    }
}

/// Only a drag drops anything: a press that never went live, a move with no button held, and a
/// release over no place all drop nothing.
pub proof fn law_only_a_live_drag_over_a_place_drops(drag: Drag, held: bool, far: bool, row_found: bool, thread: ThreadId)
    ensures
        moved_spec(Drag::Armed { thread }, held, false, row_found) is Armed || !held,
        !held ==> moved_spec(drag, held, far, row_found) == Drag::Idle,
        moved_spec(drag, held, far, row_found) matches Drag::Live { target: Some(_), .. } ==> drag is Live,
{
}

/// What a key does that motion owns.
#[derive(Debug, Clone, Copy, PartialEq, Eq, Structural)]
pub enum KeyAct {
    /// Esc drops the drag in progress.
    DropDrag,
    /// Ctrl Z takes back the newest op.
    Undo,
    /// The hover card may take it (Space, Esc).
    Hover,
    /// It is the field's own: typing.
    Field,
}

/// What the key `name` does, with Ctrl held or not, while typing or not, during `drag`.
pub open spec fn key_spec(name: Seq<char>, ctrl: bool, typing: bool, drag: Drag) -> KeyAct {
    if name == "Escape"@ && drag != Drag::Idle {
        KeyAct::DropDrag
    } else if typing {
        KeyAct::Field
    } else if ctrl && (name == "z"@ || name == "Z"@) {
        KeyAct::Undo
    } else {
        KeyAct::Hover
    }
}

/// The keys motion owns: Esc drops a drag, Ctrl Z undoes, and the rest go to the hover card.
/// Never while typing: Ctrl Z in a field is the field's own. Esc drops a drag even then.
pub fn key(name: &str, ctrl: bool, typing: bool, drag: &Drag) -> (r: KeyAct)
    ensures
        r == key_spec(name@, ctrl, typing, *drag),
{
    let live = match drag {
        Drag::Idle => false,
        _ => true,
    };
    if str_eq(name, "Escape") && live {
        KeyAct::DropDrag
    } else if typing {
        KeyAct::Field
    } else if ctrl && (str_eq(name, "z") || str_eq(name, "Z")) {
        KeyAct::Undo
    } else {
        KeyAct::Hover
    }
}

/// Typing keeps every key but Esc over a drag: no undo is ever taken from a field.
pub proof fn law_typing_never_undoes(name: Seq<char>, ctrl: bool, drag: Drag)
    ensures
        key_spec(name, ctrl, true, drag) != KeyAct::Undo,
        key_spec(name, ctrl, true, drag) != KeyAct::Hover,
{
}

/// An action the pick bar can carry over the picked rows.
#[derive(Debug, Clone, Copy, PartialEq, Eq, Structural)]
pub enum PickAction {
    Archive,
    Trash,
    Spam,
    ToggleRead,
    ToggleStar,
}

/// What the selection offers for each action the pick bar can carry: the op each would be, or
/// nothing where the picked rows offer none.
#[derive(Debug, Clone, Copy, PartialEq, Eq, Structural)]
pub struct Offered {
    pub archive: Option<OpKind>,
    pub trash: Option<OpKind>,
    pub spam: Option<OpKind>,
    pub read: Option<OpKind>,
    pub star: Option<OpKind>,
}

/// The pick bar's buttons, in order: an action the selection offers, and its name.
pub open spec fn pick_buttons_spec(o: Offered) -> Seq<(PickAction, Seq<char>)> {
    let read_name = if o.read == Some(OpKind::MarkUnread) { "Mark unread"@ } else { "Mark read"@ };
    let star_name = if o.star == Some(OpKind::Unstar) { "Unstar"@ } else { "Star"@ };
    (if o.archive is Some { seq![(PickAction::Archive, "Archive"@)] } else { seq![] })
        + (if o.trash is Some { seq![(PickAction::Trash, "Move to Trash"@)] } else { seq![] })
        + (if o.spam is Some { seq![(PickAction::Spam, "Mark as spam"@)] } else { seq![] })
        + (if o.read is Some { seq![(PickAction::ToggleRead, read_name)] } else { seq![] })
        + (if o.star is Some { seq![(PickAction::ToggleStar, star_name)] } else { seq![] })
}

/// Buttons as plain values.
pub open spec fn buttons_view(v: Seq<(PickAction, &'static str)>) -> Seq<(PickAction, Seq<char>)> {
    v.map_values(|b: (PickAction, &'static str)| (b.0, b.1@))
}

fn push_button(v: &mut Vec<(PickAction, &'static str)>, action: PickAction, name: &'static str)
    ensures
        buttons_view(final(v)@) == buttons_view(old(v)@).push((action, name@)),
{
    let ghost before = v@;
    v.push((action, name));
    assert(buttons_view(v@) =~= buttons_view(before).push((action, name@)));
}

/// The pick bar's buttons: Archive, Move to Trash, Mark as spam, Mark read or unread, and Star
/// or Unstar, each only where the selection offers it; read and star are named by what they
/// would do to the picked rows.
pub fn pick_buttons(offered: Offered) -> (r: Vec<(PickAction, &'static str)>)
    ensures
        buttons_view(r@) == pick_buttons_spec(offered),
{
    let mut out: Vec<(PickAction, &'static str)> = Vec::new();
    let ghost e = Seq::<(PickAction, Seq<char>)>::empty();
    assert(buttons_view(out@) =~= e);
    if offered.archive.is_some() {
        push_button(&mut out, PickAction::Archive, "Archive");
    }
    if offered.trash.is_some() {
        push_button(&mut out, PickAction::Trash, "Move to Trash");
    }
    if offered.spam.is_some() {
        push_button(&mut out, PickAction::Spam, "Mark as spam");
    }
    if offered.read.is_some() {
        let name = match offered.read {
            Some(OpKind::MarkUnread) => "Mark unread",
            _ => "Mark read",
        };
        push_button(&mut out, PickAction::ToggleRead, name);
    }
    if offered.star.is_some() {
        let name = match offered.star {
            Some(OpKind::Unstar) => "Unstar",
            _ => "Star",
        };
        push_button(&mut out, PickAction::ToggleStar, name);
    }
    assert(buttons_view(out@) =~= pick_buttons_spec(offered));
    out
}

} // verus!
