//! Read receipts in the reader: a message that asks is shown asking, and answered only by a
//! button pressed for that purpose.
//!
//! What the bar says is worked out from a message's standing alone ([`line`]). Standings are
//! kept per message and body ([`Cache`]), so a thread opened again is drawn without reading
//! the store; an answer given here replaces the kept standing directly.

use vstd::prelude::*;
use crate::ids::{BlobId, MessageId};
use crate::reader::{uppercase, uppercase_of};
use crate::text::{cat, cat3, chars_of, join, join_strings, string_of, trim_chars, trimmed, views};

verus! {

/// How a request was answered.
#[derive(PartialEq, Eq, Structural, Clone, Copy, Debug)]
pub enum ReceiptAnswer {
    Sent,
    Declined,
}

/// Whether the receipt would go back where the message came from.
#[derive(PartialEq, Eq, Debug)]
pub enum ReturnPath {
    Agrees,
    /// The receipt's addresses are not on the domain of `return_path`.
    Differs { return_path: String },
    Unknown,
}

/// Where a message stands on read receipts.
#[derive(PartialEq, Eq, Debug)]
pub enum ReceiptState {
    /// It does not ask.
    NotAsked,
    /// Its body has not been fetched, so it is not known: fetching it would mark it read.
    Unknown,
    /// Answered on this machine.
    Answered(ReceiptAnswer),
    /// It asks, for a receipt to `to`.
    Pending { to: Vec<String>, return_path: ReturnPath },
}

/// One message's standing, with the name the bar calls its sender by.
#[derive(PartialEq, Eq, Debug)]
pub struct Standing {
    pub message: MessageId,
    /// The sender's name, else their address.
    pub sender: String,
    pub state: ReceiptState,
}

/// What the bar says about one message.
#[derive(PartialEq, Eq, Debug)]
pub enum Line {
    /// It asks. `warning` is set when the receipt would not go back where the message came from.
    Asking { sentence: String, warning: Option<String> },
    /// Answered on this machine: a quiet note, no buttons.
    Settled(&'static str),
}

/// What the bar says, as plain values: the sentence and the warning of a request, or the note
/// of an answer.
pub enum LineView {
    Asking { sentence: Seq<char>, warning: Option<Seq<char>> },
    Settled(Seq<char>),
}

/// A line as plain values.
pub open spec fn line_view(line: Line) -> LineView {
    match line {
        Line::Asking { sentence, warning } => LineView::Asking {
            sentence: sentence@,
            warning: match warning {
                Some(w) => Some(w@),
                None => None,
            },
        },
        Line::Settled(note) => LineView::Settled(note@),
    }
}

/// The line for a standing, or nothing when there is nothing to say.
pub open spec fn line_spec(sender: Seq<char>, state: ReceiptState) -> Option<LineView> {
    match state {
        ReceiptState::NotAsked => None,
        ReceiptState::Unknown => None,
        ReceiptState::Answered(ReceiptAnswer::Sent) => Some(LineView::Settled("Receipt sent"@)),
        ReceiptState::Answered(ReceiptAnswer::Declined) => Some(
            LineView::Settled("Receipt declined"@),
        ),
        ReceiptState::Pending { to, return_path } => Some(
            LineView::Asking {
                sentence: sender + " asked to be told when you've read this."@,
                warning: match return_path {
                    ReturnPath::Differs { return_path } => Some(
                        "The receipt would go to "@ + join(views(to@), ", "@) + ", not to "@
                            + return_path@ + ", where this message came from."@,
                    ),
                    _ => None,
                },
            },
        ),
    }
}

/// The line for `standing`, or `None` when there is nothing to say. An answered message keeps
/// a one-line note with nothing to press, rather than going silent.
pub fn line(standing: &Standing) -> (r: Option<Line>)
    ensures
        match r {
            Some(l) => line_spec(standing.sender@, standing.state) == Some(line_view(l)),
            None => line_spec(standing.sender@, standing.state) is None,
        },
{
    match &standing.state {
        ReceiptState::NotAsked => None,
        ReceiptState::Unknown => None,
        ReceiptState::Answered(ReceiptAnswer::Sent) => Some(Line::Settled("Receipt sent")),
        ReceiptState::Answered(ReceiptAnswer::Declined) => Some(Line::Settled("Receipt declined")),
        ReceiptState::Pending { to, return_path } => {
            // The receipt goes to the addresses the header names; `Differs` means they are not
            // on the domain the message came back from, which is the thing to see before saying
            // yes: anyone can write that header.
            let warning = match return_path {
                ReturnPath::Differs { return_path } => {
                    let names = join_strings(to, ", ");
                    let head = cat3("The receipt would go to ", names.as_str(), ", not to ");
                    Some(cat3(head.as_str(), return_path.as_str(), ", where this message came from."))
                },
                ReturnPath::Agrees => None,
                ReturnPath::Unknown => None,
            };
            let sentence = cat(standing.sender.as_str(), " asked to be told when you've read this.");
            Some(Line::Asking { sentence, warning })
        },
    }
}

/// The name a standing calls its sender by: the name, when it says something, else the address.
pub open spec fn sender_spec(name: Option<Seq<char>>, email: Seq<char>) -> Seq<char> {
    match name {
        Some(n) => if trimmed(n).len() > 0 {
            n
        } else {
            email
        },
        None => email,
    }
}

/// The name a standing calls the sender named `name`, at `email`, by.
pub fn sender(name: &Option<String>, email: &str) -> (r: String)
    ensures
        r@ == sender_spec(
            match name {
                Some(n) => Some(n@),
                None => None,
            },
            email@,
        ),
{
    match name {
        Some(n) => {
            let chars = chars_of(n.as_str());
            let t = trim_chars(chars.as_slice());
            if t.len() > 0 {
                n.clone()
            } else {
                String::from_str(email)
            }
        },
        None => String::from_str(email),
    }
}

/// `said` up to its first line end.
pub open spec fn first_line(said: Seq<char>) -> Seq<char>
    decreases said.len(),
{
    if said.len() == 0 {
        seq![]
    } else if said[0] == '\n' {
        seq![]
    } else {
        seq![said[0]] + first_line(said.drop_first())
    }
}

/// The first line of `said`, trimmed, starting with a capital.
pub open spec fn toast_text_spec(said: Seq<char>) -> Seq<char> {
    let t = trimmed(first_line(said));
    if t.len() == 0 {
        seq![]
    } else {
        uppercase_of(t[0]) + t.drop_first()
    }
}

/// What the toast says of an answer: the first line of what was said, which names where the
/// receipt went, starting with a capital.
pub fn toast_text(said: &str) -> (r: String)
    ensures
        r@ == toast_text_spec(said@),
{
    let chars = chars_of(said);
    let mut line: Vec<char> = Vec::new();
    let mut i: usize = 0;
    assert(chars@.subrange(0, chars.len() as int) =~= chars@);
    assert(line@ + first_line(chars@) =~= first_line(chars@));
    while i < chars.len() && chars[i] != '\n'
        invariant
            i <= chars.len(),
            chars@ == said@,
            line@ == chars@.subrange(0, i as int),
            first_line(chars@) == line@ + first_line(chars@.subrange(i as int, chars.len() as int)),
        decreases chars.len() - i,
    {
        let ghost rest = chars@.subrange(i as int, chars.len() as int);
        assert(rest.drop_first() =~= chars@.subrange(i + 1, chars.len() as int));
        line.push(chars[i]);
        i = i + 1;
        assert(line@ =~= chars@.subrange(0, i as int));
        assert(first_line(rest) == seq![rest[0]] + first_line(rest.drop_first()));
        assert(line@ + first_line(chars@.subrange(i as int, chars.len() as int)) =~= chars@.subrange(0, i - 1) + (seq![rest[0]] + first_line(rest.drop_first())));
    }
    assert(first_line(chars@.subrange(i as int, chars.len() as int)) == Seq::<char>::empty());
    assert(line@ =~= first_line(said@));
    let t = trim_chars(line.as_slice());
    if t.len() == 0 {
        return String::new();
    }
    let mut out = uppercase(t[0]);
    let mut k: usize = 1;
    let ghost head = out@;
    while k < t.len()
        invariant
            1 <= k <= t.len(),
            out@ == head + t@.subrange(1, k as int),
        decreases t.len() - k,
    {
        crate::text::push_char(&mut out, t[k]);
        k = k + 1;
        assert(out@ =~= head + t@.subrange(1, k as int));
    }
    assert(t@.subrange(1, t.len() as int) =~= t@.drop_first());
    out
}

/// Where a message stands, as plain values.
pub enum StateView {
    NotAsked,
    Unknown,
    Answered(ReceiptAnswer),
    /// The addresses asked for, and the return path when it differs.
    Pending(Seq<Seq<char>>, Option<Option<Seq<char>>>),
}

/// A standing as plain values.
pub struct StandingView {
    pub message: MessageId,
    pub sender: Seq<char>,
    pub state: StateView,
}

/// Whether the return path agrees (`Some(None)`), differs (`Some(Some(path))`), or is not known.
pub open spec fn return_path_view(r: ReturnPath) -> Option<Option<Seq<char>>> {
    match r {
        ReturnPath::Agrees => Some(None),
        ReturnPath::Differs { return_path } => Some(Some(return_path@)),
        ReturnPath::Unknown => None,
    }
}

/// A state as plain values.
pub open spec fn state_view(state: ReceiptState) -> StateView {
    match state {
        ReceiptState::NotAsked => StateView::NotAsked,
        ReceiptState::Unknown => StateView::Unknown,
        ReceiptState::Answered(a) => StateView::Answered(a),
        ReceiptState::Pending { to, return_path } => StateView::Pending(
            views(to@),
            return_path_view(return_path),
        ),
    }
}

/// A standing as plain values.
pub open spec fn standing_view(s: Standing) -> StandingView {
    StandingView { message: s.message, sender: s.sender@, state: state_view(s.state) }
}

/// An optional standing as plain values.
pub open spec fn maybe_view(s: Option<Standing>) -> Option<StandingView> {
    match s {
        Some(st) => Some(standing_view(st)),
        None => None,
    }
}

fn copy_strings(v: &Vec<String>) -> (r: Vec<String>)
    ensures
        views(r@) == views(v@),
{
    let mut out: Vec<String> = Vec::new();
    let mut i: usize = 0;
    while i < v.len()
        invariant
            i <= v.len(),
            views(out@) == views(v@.subrange(0, i as int)),
        decreases v.len() - i,
    {
        let ghost before = out@;
        out.push(v[i].clone());
        proof {
            crate::text::lemma_views_push(before, v@[i as int]);
            assert(v@.subrange(0, i + 1) =~= v@.subrange(0, i as int).push(v@[i as int]));
            crate::text::lemma_views_push(v@.subrange(0, i as int), v@[i as int]);
        }
        i = i + 1;
    }
    assert(v@.subrange(0, v.len() as int) =~= v@);
    out
}

fn copy_standing(s: &Standing) -> (r: Standing)
    ensures
        standing_view(r) == standing_view(*s),
{
    let state = match &s.state {
        ReceiptState::NotAsked => ReceiptState::NotAsked,
        ReceiptState::Unknown => ReceiptState::Unknown,
        ReceiptState::Answered(a) => ReceiptState::Answered(*a),
        ReceiptState::Pending { to, return_path } => ReceiptState::Pending {
            to: copy_strings(to),
            return_path: match return_path {
                ReturnPath::Agrees => ReturnPath::Agrees,
                ReturnPath::Differs { return_path } => ReturnPath::Differs { return_path: return_path.clone() },
                ReturnPath::Unknown => ReturnPath::Unknown,
            },
        },
    };
    Standing { message: s.message, sender: s.sender.clone(), state }
}

/// How many messages' standings are kept. Each is a few short strings.
pub const KEPT: usize = 256;

/// One kept standing, as plain values: the message, the body it was read from, and what it was.
pub type KeptView = (MessageId, Option<BlobId>, Option<StandingView>);

/// The standings already found, by message and body, at most [`KEPT`] of them, oldest first.
pub struct Cache {
    entries: Vec<(MessageId, Option<BlobId>, Option<Standing>)>,
}

spec fn kept_view(e: (MessageId, Option<BlobId>, Option<Standing>)) -> KeptView {
    (e.0, e.1, maybe_view(e.2))
}

impl View for Cache {
    type V = Seq<KeptView>;

    closed spec fn view(&self) -> Seq<KeptView> {
        self.entries@.map_values(|e: (MessageId, Option<BlobId>, Option<Standing>)| kept_view(e))
    }
}

impl Cache {
    #[verifier::type_invariant]
    spec fn bounded(self) -> bool {
        self.entries.len() <= KEPT
    }
}

/// The first standing kept for `message` read from `body`, if any.
pub open spec fn find_kept(entries: Seq<KeptView>, message: MessageId, body: Option<BlobId>) -> Option<
    Option<StandingView>,
>
    decreases entries.len(),
{
    if entries.len() == 0 {
        None
    } else if entries[0].0 == message && entries[0].1 == body {
        Some(entries[0].2)
    } else {
        find_kept(entries.drop_first(), message, body)
    }
}

/// The standings kept for every message of `key`, in order and leaving out the messages that
/// have none, or nothing when any of them is missing.
pub open spec fn cached_spec(entries: Seq<KeptView>, key: Seq<(MessageId, Option<BlobId>)>) -> Option<
    Seq<StandingView>,
>
    decreases key.len(),
{
    if key.len() == 0 {
        Some(seq![])
    } else {
        match cached_spec(entries, key.drop_last()) {
            None => None,
            Some(before) => match find_kept(entries, key.last().0, key.last().1) {
                None => None,
                Some(found) => match found {
                    Some(st) => Some(before.push(st)),
                    None => Some(before),
                },
            },
        }
    }
}

/// `entries` without those of `message`.
pub open spec fn without(entries: Seq<KeptView>, message: MessageId) -> Seq<KeptView>
    decreases entries.len(),
{
    if entries.len() == 0 {
        seq![]
    } else {
        let before = without(entries.drop_last(), message);
        if entries.last().0 == message {
            before
        } else {
            before.push(entries.last())
        }
    }
}

/// What keeping `standing` for `message` read from `body` leaves: the message's older ones
/// gone, the new one last, and the oldest dropped past [`KEPT`].
pub open spec fn kept_after(
    entries: Seq<KeptView>,
    message: MessageId,
    body: Option<BlobId>,
    standing: Option<StandingView>,
) -> Seq<KeptView> {
    let all = without(entries, message).push((message, body, standing));
    if all.len() > KEPT {
        all.drop_first()
    } else {
        all
    }
}

proof fn lemma_without_len(entries: Seq<KeptView>, message: MessageId)
    ensures
        without(entries, message).len() <= entries.len(),
        forall|i: int| 0 <= i < without(entries, message).len() ==> (#[trigger] without(entries, message)[i]).0 != message,
    decreases entries.len(),
{
    if entries.len() > 0 {
        lemma_without_len(entries.drop_last(), message);
    }
}

proof fn lemma_find_absent(entries: Seq<KeptView>, message: MessageId, body: Option<BlobId>, last: KeptView)
    requires
        forall|i: int| 0 <= i < entries.len() ==> (#[trigger] entries[i]).0 != message,
        last.0 == message,
        last.1 == body,
    ensures
        find_kept(entries.push(last), message, body) == Some(last.2),
    decreases entries.len(),
{
    if entries.len() > 0 {
        assert(entries[0].0 != message);
        assert(entries.push(last).drop_first() =~= entries.drop_first().push(last));
        lemma_find_absent(entries.drop_first(), message, body, last);
    } else {
        assert(entries.push(last)[0] == last);
    }
}

/// What is kept is what is read back: once a standing is kept for a message and its body, the
/// cache gives it back for them, however full the cache was.
pub proof fn law_kept_is_read_back(
    entries: Seq<KeptView>,
    message: MessageId,
    body: Option<BlobId>,
    standing: Option<StandingView>,
)
    ensures
        cached_spec(kept_after(entries, message, body, standing), seq![(message, body)]) == Some(
            match standing {
                Some(st) => seq![st],
                None => Seq::<StandingView>::empty(),
            },
        ),
        kept_after(entries, message, body, standing).len() <= entries.len() + 1,
{
    let rest = without(entries, message);
    lemma_without_len(entries, message);
    let last = (message, body, standing);
    let all = rest.push(last);
    let after = kept_after(entries, message, body, standing);
    if all.len() > KEPT {
        assert forall|i: int| 0 <= i < rest.drop_first().len() implies (#[trigger] rest.drop_first()[i]).0 != message by {
            assert(rest.drop_first()[i] == rest[i + 1]);
        }
        assert(after =~= rest.drop_first().push(last));
        lemma_find_absent(rest.drop_first(), message, body, last);
    } else {
        lemma_find_absent(rest, message, body, last);
    }
    let key = seq![(message, body)];
    assert(key.drop_last() =~= Seq::<(MessageId, Option<BlobId>)>::empty());
    assert(cached_spec(after, Seq::<(MessageId, Option<BlobId>)>::empty()) == Some(Seq::<StandingView>::empty()));
}

proof fn lemma_cached_missing(entries: Seq<KeptView>, key: Seq<(MessageId, Option<BlobId>)>, i: int)
    requires
        0 <= i < key.len(),
        find_kept(entries, key[i].0, key[i].1) is None,
    ensures
        cached_spec(entries, key) is None,
    decreases key.len(),
{
    if i == key.len() - 1 {
    } else {
        assert(key.drop_last()[i] == key[i]);
        lemma_cached_missing(entries, key.drop_last(), i);
    }
}

fn same_body(a: Option<BlobId>, b: Option<BlobId>) -> (r: bool)
    ensures
        r == (a == b),
{
    match (a, b) {
        (Some(x), Some(y)) => x.0 == y.0,
        (None, None) => true,
        _ => false,
    }
}

impl Cache {
    /// Nothing kept.
    pub fn new() -> (r: Cache)
        ensures
            r@ == Seq::<KeptView>::empty(),
    {
        let r = Cache { entries: Vec::new() };
        assert(r@ =~= Seq::<KeptView>::empty());
        r
    }

    /// Keep `standing` as `message`'s, read from `body`: its older ones go, and past [`KEPT`]
    /// the oldest of all.
    pub fn keep(&mut self, message: MessageId, body: Option<BlobId>, standing: Option<Standing>)
        ensures
            final(self)@ == kept_after(old(self)@, message, body, maybe_view(standing)),
    {
        proof {
            use_type_invariant(&*self);
        }
        let ghost start = self@;
        let mut rest: Vec<(MessageId, Option<BlobId>, Option<Standing>)> = Vec::new();
        std::mem::swap(&mut rest, &mut self.entries);
        let ghost all = rest@;
        assert(start == all.map_values(|e: (MessageId, Option<BlobId>, Option<Standing>)| kept_view(e)));
        let mut kept: Vec<(MessageId, Option<BlobId>, Option<Standing>)> = Vec::new();
        let ghost mut k: int = 0;
        while rest.len() > 0
            invariant
                0 <= k <= all.len(),
                rest@ == all.subrange(k, all.len() as int),
                start == all.map_values(|e: (MessageId, Option<BlobId>, Option<Standing>)| kept_view(e)),
                kept@.map_values(|e: (MessageId, Option<BlobId>, Option<Standing>)| kept_view(e))
                    == without(start.subrange(0, k), message),
                kept.len() <= k,
                all.len() <= KEPT,
            decreases rest.len(),
        {
            let entry = rest.remove(0);
            proof {
                assert(entry == all[k]);
                assert(start.subrange(0, k + 1).drop_last() =~= start.subrange(0, k));
                assert(start.subrange(0, k + 1).last() == kept_view(all[k]));
                lemma_without_len(start.subrange(0, k), message);
            }
            let ghost before = kept@;
            if entry.0.0 != message.0 {
                kept.push(entry);
                assert(kept@.map_values(|e: (MessageId, Option<BlobId>, Option<Standing>)| kept_view(e))
                    =~= before.map_values(|e: (MessageId, Option<BlobId>, Option<Standing>)| kept_view(e)).push(kept_view(entry)));
            }
            proof {
                k = k + 1;
                assert(rest@ =~= all.subrange(k, all.len() as int));
            }
        }
        assert(start.subrange(0, all.len() as int) =~= start);
        let ghost before = kept@;
        kept.push((message, body, standing));
        assert(kept@.map_values(|e: (MessageId, Option<BlobId>, Option<Standing>)| kept_view(e))
            =~= before.map_values(|e: (MessageId, Option<BlobId>, Option<Standing>)| kept_view(e)).push((message, body, maybe_view(standing))));
        if kept.len() > KEPT {
            let ghost full = kept@;
            let _ = kept.remove(0);
            assert(kept@.map_values(|e: (MessageId, Option<BlobId>, Option<Standing>)| kept_view(e))
                =~= full.map_values(|e: (MessageId, Option<BlobId>, Option<Standing>)| kept_view(e)).drop_first());
        }
        self.entries = kept;
    }

    fn find(&self, message: MessageId, body: Option<BlobId>) -> (r: Option<usize>)
        ensures
            match r {
                Some(at) => at < self@.len() && find_kept(self@, message, body) == Some(self@[at as int].2),
                None => find_kept(self@, message, body) is None,
            },
    {
        let ghost entries = self@;
        let mut j: usize = 0;
        assert(entries.subrange(0, entries.len() as int) =~= entries);
        while j < self.entries.len()
            invariant
                j <= self.entries.len(),
                entries == self@,
                entries.len() == self.entries.len(),
                find_kept(entries, message, body) == find_kept(entries.subrange(j as int, entries.len() as int), message, body),
            decreases self.entries.len() - j,
        {
            let ghost tail = entries.subrange(j as int, entries.len() as int);
            assert(tail[0] == kept_view(self.entries@[j as int]));
            if self.entries[j].0.0 == message.0 && same_body(self.entries[j].1, body) {
                return Some(j);
            }
            assert(tail.drop_first() =~= entries.subrange(j + 1, entries.len() as int));
            j = j + 1;
        }
        None
    }

    /// The standings kept for every message in `key`, or `None` if any is missing.
    pub fn cached(&self, key: &Vec<(MessageId, Option<BlobId>)>) -> (r: Option<Vec<Standing>>)
        ensures
            match r {
                Some(v) => cached_spec(self@, key@) == Some(v@.map_values(|s: Standing| standing_view(s))),
                None => cached_spec(self@, key@) is None,
            },
    {
        let mut out: Vec<Standing> = Vec::new();
        let mut i: usize = 0;
        while i < key.len()
            invariant
                i <= key.len(),
                cached_spec(self@, key@.subrange(0, i as int)) == Some(out@.map_values(|s: Standing| standing_view(s))),
            decreases key.len() - i,
        {
            proof {
                assert(key@.subrange(0, i + 1).drop_last() =~= key@.subrange(0, i as int));
                assert(key@.subrange(0, i + 1).last() == key@[i as int]);
            }
            let (message, body) = key[i];
            let ghost entries = self@;
            let found = self.find(message, body);
            match found {
                None => {
                    proof {
                        lemma_cached_missing(self@, key@, i as int);
                    }
                    return None;
                },
                Some(at) => {
                    let ghost before = out@;
                    match &self.entries[at].2 {
                        Some(standing) => {
                            out.push(copy_standing(standing));
                            assert(out@.map_values(|s: Standing| standing_view(s)) =~= before.map_values(|s: Standing| standing_view(s)).push(standing_view(*standing)));
                        },
                        None => {},
                    }
                },
            }
            i = i + 1;
        }
        assert(key@.subrange(0, key.len() as int) =~= key@);
        Some(out)
    }
}


/// Where one bar's answer is.
#[derive(PartialEq, Eq, Debug)]
pub enum Phase {
    Asking,
    /// An answer is being given; both buttons stay disabled so a second press cannot send twice.
    Working,
    /// It did not go, and why, in words.
    Failed(String),
}

/// How giving an answer ended.
pub enum Outcome {
    /// It was given.
    Given,
    /// It was refused, and why, in words.
    Refused(String),
    /// The work that gave it stopped first; the stop's own words.
    Stopped(String),
}

impl Phase {
    /// Whether an answer is being given: both buttons are disabled.
    pub fn working(&self) -> (r: bool)
        ensures
            r == (*self is Working),
    {
        match self {
            Phase::Working => true,
            _ => false,
        }
    }

    /// Why the last answer did not go, if it did not.
    pub fn failed(&self) -> (r: Option<&str>)
        ensures
            match *self {
                Phase::Failed(why) => r matches Some(w) && w@ == why@,
                _ => r is None,
            },
    {
        match self {
            Phase::Failed(why) => Some(why.as_str()),
            _ => None,
        }
    }
}

/// Whether a press on either answer starts giving it from `phase`.
pub open spec fn starts(phase: Phase) -> bool {
    !(phase is Working)
}

/// Where the bar is after a press from `phase`.
pub open spec fn pressed(phase: Phase) -> Phase {
    Phase::Working
}

/// A second press, before the first answer has ended, gives nothing: one press sends one answer.
pub proof fn law_a_second_press_cannot_send_twice(phase: Phase)
    ensures
        !starts(pressed(phase)),
{
}

/// A press on either answer: it starts giving that answer unless one is already being given,
/// so a second press cannot send twice. Says whether to start; the bar is working after it
/// either way.
pub fn press(phase: &mut Phase) -> (r: bool)
    ensures
        r == starts(*old(phase)),
        *final(phase) == pressed(*old(phase)),
{
    match phase {
        Phase::Working => false,
        _ => {
            *phase = Phase::Working;
            true
        },
    }
}

/// Where the first standing for `message` stands in `all`, at or after `from`; `all.len()` when
/// none does.
pub open spec fn first_for(all: Seq<StandingView>, message: MessageId, from: int) -> int
    decreases all.len() - from,
{
    if from >= all.len() || from < 0 {
        all.len() as int
    } else if all[from].message == message {
        from
    } else {
        first_for(all, message, from + 1)
    }
}

/// `all` with the first standing for `message` answered `given`.
pub open spec fn answered_in(all: Seq<StandingView>, message: MessageId, given: ReceiptAnswer) -> Seq<StandingView> {
    let i = first_for(all, message, 0);
    if i < all.len() {
        all.update(i, StandingView { message: all[i].message, sender: all[i].sender, state: StateView::Answered(given) })
    } else {
        all
    }
}

/// Standings as plain values.
pub open spec fn standings_view(all: Seq<Standing>) -> Seq<StandingView> {
    all.map_values(|s: Standing| standing_view(s))
}

/// Standings that may not be known yet, as plain values.
pub open spec fn known_view(known: Option<Vec<Standing>>) -> Option<Seq<StandingView>> {
    match known {
        Some(all) => Some(standings_view(all@)),
        None => None,
    }
}

proof fn lemma_first_for_bounds(all: Seq<StandingView>, message: MessageId, from: int)
    requires
        0 <= from <= all.len(),
    ensures
        from <= first_for(all, message, from) <= all.len(),
        first_for(all, message, from) < all.len() ==> all[first_for(all, message, from)].message == message,
        forall|j: int| from <= j < first_for(all, message, from) ==> all[j].message != message,
    decreases all.len() - from,
{
    if from < all.len() && all[from].message != message {
        lemma_first_for_bounds(all, message, from + 1);
    }
}

proof fn lemma_first_for_at(all: Seq<StandingView>, message: MessageId, from: int, i: int)
    requires
        0 <= from <= i <= all.len(),
        forall|j: int| from <= j < i ==> all[j].message != message,
        i == all.len() || all[i].message == message,
    ensures
        first_for(all, message, from) == i,
    decreases i - from,
{
    if from < i {
        lemma_first_for_at(all, message, from + 1, i);
    }
}

fn answer_kept(all: &mut Vec<Standing>, message: MessageId, given: ReceiptAnswer)
    ensures
        standings_view(final(all)@) == answered_in(standings_view(old(all)@), message, given),
{
    let ghost v = standings_view(all@);
    let mut i: usize = 0;
    while i < all.len()
        invariant
            i <= all.len(),
            v == standings_view(all@),
            forall|j: int| 0 <= j < i ==> v[j].message != message,
        ensures
            i <= all.len(),
            v == standings_view(all@),
            forall|j: int| 0 <= j < i ==> v[j].message != message,
            i == all.len() || v[i as int].message == message,
        decreases all.len() - i,
    {
        if all[i].message == message {
            break;
        }
        i = i + 1;
    }
    proof {
        lemma_first_for_at(v, message, 0, i as int);
    }
    if i < all.len() {
        let mut s = all.remove(i);
        s.state = ReceiptState::Answered(given);
        all.insert(i, s);
        assert(standings_view(all@) =~= answered_in(v, message, given));
    }
}

/// What the bar becomes once giving `given` for `message` has ended. Given, the kept standing of
/// the first message that is `message` is answered `given`, and the bar is drawn from it again;
/// refused, the bar says why; stopped, it says the answer stopped before it was given. Only an
/// answer given changes what is known.
pub fn settle(
    phase: &mut Phase,
    known: &mut Option<Vec<Standing>>,
    message: MessageId,
    given: ReceiptAnswer,
    outcome: Outcome,
)
    ensures
        match outcome {
            Outcome::Given => {
                &&& *final(phase) == Phase::Asking
                &&& known_view(*final(known)) == match known_view(*old(known)) {
                    Some(all) => Some(answered_in(all, message, given)),
                    None => None,
                }
            },
            Outcome::Refused(why) => {
                &&& *final(phase) matches Phase::Failed(w) && w@ == why@
                &&& known_view(*final(known)) == known_view(*old(known))
            },
            Outcome::Stopped(error) => {
                &&& *final(phase) matches Phase::Failed(w) && w@ == "The answer stopped before it was given: "@ + error@
                &&& known_view(*final(known)) == known_view(*old(known))
            },
        },
{
    match outcome {
        Outcome::Given => {
            let taken = known.take();
            match taken {
                Some(mut all) => {
                    answer_kept(&mut all, message, given);
                    *known = Some(all);
                },
                None => {},
            }
            *phase = Phase::Asking;
        },
        Outcome::Refused(why) => {
            *phase = Phase::Failed(why);
        },
        Outcome::Stopped(error) => {
            *phase = Phase::Failed(cat("The answer stopped before it was given: ", error.as_str()));
        },
    }
}

/// An answer given is kept as exactly that answer: once `given` has gone for `message`, the
/// first kept standing for that message is answered `given` (sent or declined, as given), with
/// its message and sender as they were, and every other standing is as it was.
pub proof fn law_the_answer_kept_is_the_answer_given(
    all: Seq<StandingView>,
    message: MessageId,
    given: ReceiptAnswer,
    i: int,
    j: int,
)
    requires
        0 <= i < all.len(),
        all[i].message == message,
        forall|k: int| 0 <= k < i ==> all[k].message != message,
    ensures
        answered_in(all, message, given).len() == all.len(),
        answered_in(all, message, given)[i].state == StateView::Answered(given),
        answered_in(all, message, given)[i].message == message,
        answered_in(all, message, given)[i].sender == all[i].sender,
        0 <= j < all.len() && j != i ==> answered_in(all, message, given)[j] == all[j],
{
    lemma_first_for_at(all, message, 0, i);
}

/// Where no standing is for `message`, giving an answer for it changes nothing kept.
pub proof fn law_an_answer_for_no_kept_message_changes_nothing(all: Seq<StandingView>, message: MessageId, given: ReceiptAnswer)
    requires
        forall|k: int| 0 <= k < all.len() ==> all[k].message != message,
    ensures
        answered_in(all, message, given) == all,
{
    lemma_first_for_at(all, message, 0, all.len() as int);
}

} // verus!
