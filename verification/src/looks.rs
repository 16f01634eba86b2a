//! What opening a protected message found, kept per message and body with the count of key
//! changes it was found under: once the keys or certificates change, the next opening asks
//! again, and nothing has to remember to clear it.

use vstd::prelude::*;
use crate::ids::{BlobId, MessageId};

verus! {

/// How many messages' looks are kept. A decrypted message is its whole body, so few.
pub const LOOKS_KEPT: usize = 32;

/// One kept look: the message, the body it was found in, the key count it was found under, and
/// what was found.
pub type KeptLook<T> = (MessageId, Option<BlobId>, u64, T);

/// The looks kept, oldest first, at most [`LOOKS_KEPT`] of them.
pub struct Looks<T> {
    entries: Vec<KeptLook<T>>,
}

impl<T> View for Looks<T> {
    type V = Seq<KeptLook<T>>;

    closed spec fn view(&self) -> Seq<KeptLook<T>> {
        self.entries@
    }
}

impl<T> Looks<T> {
    #[verifier::type_invariant]
    spec fn bounded(self) -> bool {
        self.entries.len() <= LOOKS_KEPT
    }
}

/// Where the first look for `message` in `body` that matches `epoch` (any, when `None`) stands,
/// at or after `from`.
pub open spec fn find_look<T>(entries: Seq<KeptLook<T>>, message: MessageId, body: Option<BlobId>, epoch: Option<u64>, from: int) -> Option<int>
    decreases entries.len() - from,
{
    if from < 0 || from >= entries.len() {
        None
    } else if entries[from].0 == message && entries[from].1 == body && under(epoch, entries[from].2) {
        Some(from)
    } else {
        find_look(entries, message, body, epoch, from + 1)
    }
}

/// Whether a look found under `found` is one `epoch` asks for: any, when it is `None`.
pub open spec fn under(epoch: Option<u64>, found: u64) -> bool {
    match epoch {
        Some(e) => e == found,
        None => true,
    }
}

/// `entries` without those of `message`.
pub open spec fn without_message<T>(entries: Seq<KeptLook<T>>, message: MessageId) -> Seq<KeptLook<T>>
    decreases entries.len(),
{
    if entries.len() == 0 {
        seq![]
    } else {
        let before = without_message(entries.drop_last(), message);
        if entries.last().0 == message {
            before
        } else {
            before.push(entries.last())
        }
    }
}

/// What keeping a look leaves: the message's older ones gone, the new one last, and the
/// oldest dropped past [`LOOKS_KEPT`].
pub open spec fn kept_look<T>(entries: Seq<KeptLook<T>>, entry: KeptLook<T>) -> Seq<KeptLook<T>> {
    let all = without_message(entries, entry.0).push(entry);
    if all.len() > LOOKS_KEPT {
        all.drop_first()
    } else {
        all
    }
}

proof fn lemma_without_message<T>(entries: Seq<KeptLook<T>>, message: MessageId)
    ensures
        without_message(entries, message).len() <= entries.len(),
        forall|i: int| 0 <= i < without_message(entries, message).len() ==> (#[trigger] without_message(entries, message)[i]).0 != message,
    decreases entries.len(),
{
    if entries.len() > 0 {
        lemma_without_message(entries.drop_last(), message);
    }
}

proof fn lemma_find_only<T>(entries: Seq<KeptLook<T>>, entry: KeptLook<T>, epoch: Option<u64>, from: int)
    requires
        0 <= from <= entries.len(),
        forall|i: int| 0 <= i < entries.len() ==> (#[trigger] entries[i]).0 != entry.0,
    ensures
        find_look(entries.push(entry), entry.0, entry.1, epoch, from) == if under(epoch, entry.2) {
            Some(entries.len() as int)
        } else {
            None
        },
    decreases entries.len() - from,
{
    if from < entries.len() {
        assert(entries.push(entry)[from] == entries[from]);
        lemma_find_only(entries, entry, epoch, from + 1);
    } else {
        assert(entries.push(entry)[from] == entry);
        assert(find_look(entries.push(entry), entry.0, entry.1, epoch, from + 1) is None);
    }
}

/// A look is served for the keys it was found under and no others: once kept, it is read back
/// for its message and body under the same key count; after the keys change it is not served
/// as current, though it is still what was last found.
pub proof fn law_a_look_is_served_only_under_its_keys<T>(entries: Seq<KeptLook<T>>, entry: KeptLook<T>, other_epoch: u64)
    requires
        other_epoch != entry.2,
    ensures
        ({
            let after = kept_look(entries, entry);
            &&& find_look(after, entry.0, entry.1, Some(entry.2), 0) matches Some(i) && after[i] == entry
            &&& find_look(after, entry.0, entry.1, Some(other_epoch), 0) is None
            &&& find_look(after, entry.0, entry.1, None, 0) matches Some(i) && after[i] == entry
        }),
{
    let rest = without_message(entries, entry.0);
    lemma_without_message(entries, entry.0);
    let after = kept_look(entries, entry);
    if rest.push(entry).len() > LOOKS_KEPT {
        let dropped = rest.drop_first();
        assert forall|i: int| 0 <= i < dropped.len() implies (#[trigger] dropped[i]).0 != entry.0 by {
            assert(dropped[i] == rest[i + 1]);
        }
        assert(after =~= dropped.push(entry));
        lemma_find_only(dropped, entry, Some(entry.2), 0);
        lemma_find_only(dropped, entry, Some(other_epoch), 0);
        lemma_find_only(dropped, entry, None, 0);
    } else {
        lemma_find_only(rest, entry, Some(entry.2), 0);
        lemma_find_only(rest, entry, Some(other_epoch), 0);
        lemma_find_only(rest, entry, None, 0);
    }
}

fn same_body(a: Option<BlobId>, b: Option<BlobId>) -> (r: bool)
    ensures
        r == (a == b),
{
    match (a, b) {
        (Some(x), Some(y)) => x.0 == y.0,
        (None, None) => true,
        _ => false,
    }
}

impl<T> Looks<T> {
    /// Nothing kept.
    pub fn new() -> (r: Looks<T>)
        ensures
            r@ == Seq::<KeptLook<T>>::empty(),
    {
        Looks { entries: Vec::new() }
    }

    fn find(&self, message: MessageId, body: Option<BlobId>, epoch: Option<u64>) -> (r: Option<usize>)
        ensures
            match r {
                Some(i) => i < self@.len() && find_look(self@, message, body, epoch, 0) == Some(i as int),
                None => find_look(self@, message, body, epoch, 0) is None,
            },
    {
        let mut i: usize = 0;
        while i < self.entries.len()
            invariant
                i <= self.entries.len(),
                find_look(self@, message, body, epoch, 0) == find_look(self@, message, body, epoch, i as int),
            decreases self.entries.len() - i,
        {
            let entry = &self.entries[i];
            let matches = entry.0.0 == message.0 && same_body(entry.1, body) && match epoch {
                Some(e) => entry.2 == e,
                None => true,
            };
            if matches {
                return Some(i);
            }
            i = i + 1;
        }
        None
    }

    /// What was found for `message` holding `body`, if it was found under the key count `epoch`
    /// that stands now.
    pub fn cached(&self, message: MessageId, body: Option<BlobId>, epoch: u64) -> (r: Option<&T>)
        ensures
            match find_look(self@, message, body, Some(epoch), 0) {
                Some(i) => r == Some(&self@[i].3),
                None => r is None,
            },
    {
        match self.find(message, body, Some(epoch)) {
            Some(i) => Some(&self.entries[i].3),
            None => None,
        }
    }

    /// What was last found for `message` holding `body`, under whichever keys: what the reader
    /// draws until the message is opened again.
    pub fn last(&self, message: MessageId, body: Option<BlobId>) -> (r: Option<&T>)
        ensures
            match find_look(self@, message, body, None, 0) {
                Some(i) => r == Some(&self@[i].3),
                None => r is None,
            },
    {
        match self.find(message, body, None) {
            Some(i) => Some(&self.entries[i].3),
            None => None,
        }
    }

    /// Keep `look` for `message` holding `body`, found under the key count `epoch`: the
    /// message's older looks go, and past [`LOOKS_KEPT`] the oldest of all.
    pub fn keep(&mut self, message: MessageId, body: Option<BlobId>, epoch: u64, look: T)
        ensures
            final(self)@ == kept_look(old(self)@, (message, body, epoch, look)),
    {
        proof {
            use_type_invariant(&*self);
        }
        let ghost all = self@;
        let mut rest: Vec<KeptLook<T>> = Vec::new();
        std::mem::swap(&mut rest, &mut self.entries);
        let mut kept: Vec<KeptLook<T>> = Vec::new();
        let ghost mut k: int = 0;
        while rest.len() > 0
            invariant
                0 <= k <= all.len(),
                rest@ == all.subrange(k, all.len() as int),
                kept@ == without_message(all.subrange(0, k), message),
                kept.len() <= k,
                all.len() <= LOOKS_KEPT,
            decreases rest.len(),
        {
            let entry = rest.remove(0);
            proof {
                assert(all.subrange(0, k + 1).drop_last() =~= all.subrange(0, k));
                assert(all.subrange(0, k + 1).last() == entry);
                lemma_without_message(all.subrange(0, k), message);
            }
            if entry.0.0 != message.0 {
                kept.push(entry);
            }
            proof {
                k = k + 1;
                assert(rest@ =~= all.subrange(k, all.len() as int));
            }
        }
        assert(all.subrange(0, all.len() as int) =~= all);
        kept.push((message, body, epoch, look));
        if kept.len() > LOOKS_KEPT {
            let _ = kept.remove(0);
        }
        self.entries = kept;
    }
}

} // verus!
