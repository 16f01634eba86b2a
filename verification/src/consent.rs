//! The reader's consent to remote images, as the network sees it.
//!
//! What a grant admits is narrow on purpose: only `http` and `https` addresses, and only one
//! that the consented thread's own message named, for the frame showing that message; and only
//! while the grant stands. A new grant, or none, makes every earlier admission stale, so a fetch
//! that lands after that is dropped rather than shown.

use vstd::prelude::*;
use crate::ids::{MessageId, ThreadId};
use crate::text::str_eq;

verus! {

/// What the `url` crate makes of `s`: its scheme and its serialization, or nothing when `s` is
/// not a URL it parses.
pub uninterp spec fn url_parse(s: Seq<char>) -> Option<(Seq<char>, Seq<char>)>;

/// `url::Url::parse`, read back as its scheme and its serialization.
///
/// Claims only that the pair is what the crate's parser gives for `url`: a name for its result
/// (`url_parse`), nothing of what parsing means.
#[verifier::external_body]
fn parse_url(url: &str) -> (r: Option<(String, String)>)
    ensures
        match r {
            Some((scheme, whole)) => url_parse(url@) == Some((scheme@, whole@)),
            None => url_parse(url@) is None,
        },
{
    match url::Url::parse(url) {
        Ok(parsed) => Some((parsed.scheme().to_owned(), parsed.into())),
        Err(_) => None,
    }
}

/// `url` as the renderer asks for it, when it is a web address (`http` or `https`); nothing
/// else is ever admitted.
pub open spec fn normal_spec(url: Seq<char>) -> Option<Seq<char>> {
    match url_parse(url) {
        Some((scheme, whole)) => if scheme == "http"@ || scheme == "https"@ {
            Some(whole)
        } else {
            None
        },
        None => None,
    }
}

/// [`normal_spec`], computed: the sanitizer keeps a URL as the sender wrote it, a renderer asks
/// for it parsed, and parsing both the same way makes them comparable.
pub fn normal(url: &str) -> (r: Option<String>)
    ensures
        match r {
            Some(u) => normal_spec(url@) == Some(u@),
            None => normal_spec(url@) is None,
        },
{
    match parse_url(url) {
        Some((scheme, whole)) => {
            if str_eq(scheme.as_str(), "http") || str_eq(scheme.as_str(), "https") {
                Some(whole)
            } else {
                None
            }
        },
        None => None,
    }
}

/// The web addresses among `urls`, normalised, in order; the rest dropped.
pub open spec fn normals(urls: Seq<Seq<char>>) -> Seq<Seq<char>>
    decreases urls.len(),
{
    if urls.len() == 0 {
        seq![]
    } else {
        let rest = normals(urls.drop_last());
        match normal_spec(urls.last()) {
            Some(u) => rest.push(u),
            None => rest,
        }
    }
}

/// Each message of a grant, with its URLs normalised.
pub open spec fn normalized(lists: Seq<(MessageId, Seq<Seq<char>>)>) -> Seq<(MessageId, Seq<Seq<char>>)> {
    Seq::new(lists.len(), |i: int| (lists[i].0, normals(lists[i].1)))
}

/// One reader's claim on the consent: the reader that holds the grant is the one whose closing
/// takes it back.
#[derive(Debug, Clone, Copy, PartialEq, Eq, Hash, Structural)]
pub struct Holder(pub u64);

/// A request admitted under one grant: it stands until the grant changes.
#[derive(Debug, Clone, Copy, PartialEq, Eq, Structural)]
pub struct Ticket(pub u64);

/// The consent as a value: what is granted, by whom, and the generation every change moves.
pub struct Grant {
    pub generation: u64,
    pub holders: u64,
    pub by: Option<(Holder, ThreadId)>,
    pub messages: Seq<(MessageId, Seq<Seq<char>>)>,
}

/// The generation after `g`: one more, wrapping at the top.
pub open spec fn next_generation(g: u64) -> u64 {
    if g == u64::MAX { 0 } else { (g + 1) as u64 }
}

impl Grant {
    /// Nothing consented to.
    pub open spec fn empty() -> Grant {
        Grant { generation: 0, holders: 0, by: None, messages: seq![] }
    }

    /// Whatever stood, taken back.
    pub open spec fn revoked(self) -> Grant {
        Grant { generation: next_generation(self.generation), holders: self.holders, by: None, messages: seq![] }
    }

    /// `holder` shows `thread`, with these images allowed (`Some`) or none (`None`).
    pub open spec fn held(
        self,
        holder: Holder,
        thread: ThreadId,
        allowed: Option<Seq<(MessageId, Seq<Seq<char>>)>>,
    ) -> Grant {
        match allowed {
            None => if self.by is Some { self.revoked() } else { self },
            Some(lists) => {
                let messages = normalized(lists);
                if self.by == Some((holder, thread)) && self.messages == messages {
                    self
                } else {
                    Grant {
                        generation: next_generation(self.generation),
                        holders: self.holders,
                        by: Some((holder, thread)),
                        messages,
                    }
                }
            },
        }
    }

    /// `holder` is gone: what it granted is taken back, and nothing else.
    pub open spec fn released(self, holder: Holder) -> Grant {
        match self.by {
            Some((by, _)) => if by == holder { self.revoked() } else { self },
            None => self,
        }
    }

    /// Whether the grant names `url` among `message`'s.
    pub open spec fn lists(self, message: MessageId, url: Seq<char>) -> bool {
        exists|i: int| 0 <= i < self.messages.len() && self.messages[i].0 == message
            && self.messages[i].1.contains(url)
    }

    /// Whether the frame showing `message` may fetch `url` now, and the ticket it is admitted
    /// under.
    pub open spec fn admits(self, message: MessageId, url: Seq<char>) -> Option<Ticket> {
        match normal_spec(url) {
            Some(u) => if self.by is Some && self.lists(message, u) {
                Some(Ticket(self.generation))
            } else {
                None
            },
            None => None,
        }
    }

    /// Whether what `ticket` admitted may still be shown.
    pub open spec fn stands(self, ticket: Ticket) -> bool {
        self.by is Some && self.generation == ticket.0
    }

    /// Whether any thread's images are allowed now.
    pub open spec fn granted(self) -> bool {
        self.by is Some
    }
}

/// A web address in a list survives normalising it: its normal form is among the list's.
proof fn lemma_normals_contains(urls: Seq<Seq<char>>, j: int)
    requires
        0 <= j < urls.len(),
        normal_spec(urls[j]) is Some,
    ensures
        normals(urls).contains(normal_spec(urls[j])->0),
    decreases urls.len(),
{
    let rest = normals(urls.drop_last());
    if j == urls.len() - 1 {
        assert(normals(urls) == rest.push(normal_spec(urls[j])->0));
        assert(normals(urls)[rest.len() as int] == normal_spec(urls[j])->0);
    } else {
        assert(urls.drop_last()[j] == urls[j]);
        lemma_normals_contains(urls.drop_last(), j);
        let k = choose|k: int| 0 <= k < rest.len() && rest[k] == normal_spec(urls[j])->0;
        match normal_spec(urls.last()) {
            Some(u) => {
                assert(normals(urls) == rest.push(u));
                assert(normals(urls)[k] == rest[k]);
            },
            None => {},
        }
    }
}

/// Nothing is admitted before consent: a consent no reader has held grants nothing, and
/// admits no address for any message.
pub proof fn law_nothing_before_consent(message: MessageId, url: Seq<char>)
    ensures
        !Grant::empty().granted(),
        Grant::empty().admits(message, url) is None,
{
}

/// Only a web address is ever admitted, only while a grant stands, and only one the grant
/// lists for the very message whose frame asks: one message's frame cannot fetch another's.
pub proof fn law_admitted_is_listed_web(g: Grant, message: MessageId, url: Seq<char>)
    requires
        g.admits(message, url) is Some,
    ensures
        g.granted(),
        g.stands(g.admits(message, url)->0),
        url_parse(url) is Some,
        (url_parse(url)->0).0 == "http"@ || (url_parse(url)->0).0 == "https"@,
        g.lists(message, (url_parse(url)->0).1),
{
}

/// A consented image is admitted: once a reader holds a thread with a message whose list names
/// a web address, the frame of that message may fetch it, under a ticket that stands.
pub proof fn law_consented_is_admitted(
    g: Grant,
    holder: Holder,
    thread: ThreadId,
    lists: Seq<(MessageId, Seq<Seq<char>>)>,
    i: int,
    j: int,
)
    requires
        0 <= i < lists.len(),
        0 <= j < lists[i].1.len(),
        normal_spec(lists[i].1[j]) is Some,
    ensures
        g.held(holder, thread, Some(lists)).admits(lists[i].0, lists[i].1[j]) is Some,
        g.held(holder, thread, Some(lists)).stands(
            g.held(holder, thread, Some(lists)).admits(lists[i].0, lists[i].1[j])->0,
        ),
{
    let h = g.held(holder, thread, Some(lists));
    lemma_normals_contains(lists[i].1, j);
    assert(h.messages == normalized(lists));
    assert(h.messages[i] == (lists[i].0, normals(lists[i].1)));
    assert(h.lists(lists[i].0, normal_spec(lists[i].1[j])->0));
}

/// Revoking refuses new requests and stales admitted ones: after the reader holds its thread
/// without images, nothing is granted, nothing is admitted, and no earlier ticket stands.
pub proof fn law_revoking_stales(g: Grant, holder: Holder, thread: ThreadId, ticket: Ticket)
    ensures
        !g.held(holder, thread, None).granted(),
        !g.held(holder, thread, None).stands(ticket),
        forall|m: MessageId, u: Seq<char>| g.held(holder, thread, None).admits(m, u) is None,
{
}

/// Another grant is a new grant: a different reader, thread or list makes every earlier
/// admission stale.
pub proof fn law_another_grant_stales(
    g: Grant,
    holder: Holder,
    thread: ThreadId,
    lists: Seq<(MessageId, Seq<Seq<char>>)>,
    ticket: Ticket,
)
    requires
        g.stands(ticket),
        !(g.by == Some((holder, thread)) && g.messages == normalized(lists)),
    ensures
        !g.held(holder, thread, Some(lists)).stands(ticket),
{
}

/// The same grant again keeps what it admitted: holding the same thread with the same lists
/// changes nothing, so every ticket that stood still stands.
pub proof fn law_same_grant_keeps(
    g: Grant,
    holder: Holder,
    thread: ThreadId,
    lists: Seq<(MessageId, Seq<Seq<char>>)>,
    ticket: Ticket,
)
    requires
        g.by == Some((holder, thread)),
        g.messages == normalized(lists),
    ensures
        g.held(holder, thread, Some(lists)) == g,
        g.stands(ticket) ==> g.held(holder, thread, Some(lists)).stands(ticket),
{
}

/// A closing reader takes back only its own grant: a reader that granted nothing changes
/// nothing, and the one that granted leaves nothing granted.
pub proof fn law_release_only_own(g: Grant, holder: Holder)
    ensures
        (g.by matches Some((by, _)) && by != holder) ==> g.released(holder) == g,
        (g.by matches Some((by, _)) && by == holder) ==> !g.released(holder).granted(),
        g.by is None ==> g.released(holder) == g,
{
}

/// The consent's lists as values.
pub open spec fn lists_view(lists: Seq<(MessageId, Vec<String>)>) -> Seq<(MessageId, Seq<Seq<char>>)> {
    lists.map_values(|p: (MessageId, Vec<String>)| (p.0, p.1@.map_values(|s: String| s@)))
}

/// The reader's consent, held for whoever answers the Original frame's requests.
pub struct Consent {
    generation: u64,
    holders: u64,
    by: Option<(Holder, ThreadId)>,
    messages: Vec<(MessageId, Vec<String>)>,
}

impl View for Consent {
    type V = Grant;

    closed spec fn view(&self) -> Grant {
        Grant {
            generation: self.generation,
            holders: self.holders,
            by: self.by,
            messages: lists_view(self.messages@),
        }
    }
}

/// Whether `a` and `b` hold the same URLs in the same order.
fn same_urls(a: &Vec<String>, b: &Vec<String>) -> (r: bool)
    ensures
        r == (a@.map_values(|s: String| s@) == b@.map_values(|s: String| s@)),
{
    if a.len() != b.len() {
        return false;
    }
    let mut i: usize = 0;
    while i < a.len()
        invariant
            a.len() == b.len(),
            i <= a.len(),
            forall|j: int| 0 <= j < i ==> a@[j]@ == b@[j]@,
        decreases a.len() - i,
    {
        if !(a[i] == b[i]) {
            assert(a@.map_values(|s: String| s@)[i as int] != b@.map_values(|s: String| s@)[i as int]);
            return false;
        }
        i = i + 1;
    }
    assert(a@.map_values(|s: String| s@) =~= b@.map_values(|s: String| s@));
    true
}

/// Whether two grants' lists are the same.
fn same_lists(a: &Vec<(MessageId, Vec<String>)>, b: &Vec<(MessageId, Vec<String>)>) -> (r: bool)
    ensures
        r == (lists_view(a@) == lists_view(b@)),
{
    if a.len() != b.len() {
        return false;
    }
    let mut i: usize = 0;
    while i < a.len()
        invariant
            a.len() == b.len(),
            i <= a.len(),
            forall|j: int| 0 <= j < i ==> lists_view(a@)[j] == lists_view(b@)[j],
        decreases a.len() - i,
    {
        if a[i].0.0 != b[i].0.0 || !same_urls(&a[i].1, &b[i].1) {
            assert(lists_view(a@)[i as int] != lists_view(b@)[i as int]);
            return false;
        }
        assert(lists_view(a@)[i as int] == lists_view(b@)[i as int]);
        i = i + 1;
    }
    assert(lists_view(a@) =~= lists_view(b@));
    true
}

/// The web addresses among `urls`, normalised.
fn normal_all(urls: &Vec<String>) -> (r: Vec<String>)
    ensures
        r@.map_values(|s: String| s@) == normals(urls@.map_values(|s: String| s@)),
{
    let mut out: Vec<String> = Vec::new();
    let mut i: usize = 0;
    while i < urls.len()
        invariant
            i <= urls.len(),
            out@.map_values(|s: String| s@) == normals(urls@.map_values(|s: String| s@).subrange(0, i as int)),
        decreases urls.len() - i,
    {
        let ghost seen = urls@.map_values(|s: String| s@).subrange(0, i + 1);
        assert(seen.drop_last() =~= urls@.map_values(|s: String| s@).subrange(0, i as int));
        match normal(urls[i].as_str()) {
            Some(u) => {
                out.push(u);
                assert(out@.map_values(|s: String| s@) =~= normals(seen));
            },
            None => {
                assert(out@.map_values(|s: String| s@) =~= normals(seen));
            },
        }
        i = i + 1;
    }
    assert(urls@.map_values(|s: String| s@).subrange(0, urls.len() as int) =~= urls@.map_values(|s: String| s@));
    out
}

impl Consent {
    /// Nothing consented to.
    pub fn new() -> (r: Consent)
        ensures
            r@ == Grant::empty(),
    {
        let c = Consent { generation: 0, holders: 0, by: None, messages: Vec::new() };
        assert(c@.messages =~= Seq::<(MessageId, Seq<Seq<char>>)>::empty());
        c
    }

    /// A name for one reader, to hold and release the grant with: one past the last, wrapping.
    pub fn holder(&mut self) -> (r: Holder)
        ensures
            r.0 == next_generation(old(self)@.holders),
            final(self)@ == (Grant { holders: r.0, ..old(self)@ }),
    {
        self.holders = if self.holders == u64::MAX { 0 } else { self.holders + 1 };
        Holder(self.holders)
    }

    fn revoke(&mut self)
        ensures
            final(self)@ == old(self)@.revoked(),
    {
        self.generation = if self.generation == u64::MAX { 0 } else { self.generation + 1 };
        self.by = None;
        self.messages = Vec::new();
        assert(self@.messages =~= Seq::<(MessageId, Seq<Seq<char>>)>::empty());
    }

    /// `holder` shows `thread`: with its images allowed (`Some`, each message and what its
    /// frame fetches), or not (`None`). The same grant again changes nothing, and admissions
    /// under it stay good.
    pub fn hold(&mut self, holder: Holder, thread: ThreadId, allowed: Option<Vec<(MessageId, Vec<String>)>>)
        ensures
            final(self)@ == old(self)@.held(holder, thread, match allowed {
                Some(lists) => Some(lists_view(lists@)),
                None => None,
            }),
    {
        match allowed {
            None => {
                if self.by.is_some() {
                    self.revoke();
                }
            },
            Some(lists) => {
                let mut messages: Vec<(MessageId, Vec<String>)> = Vec::new();
                let mut i: usize = 0;
                while i < lists.len()
                    invariant
                        i <= lists.len(),
                        lists_view(messages@) == normalized(lists_view(lists@)).subrange(0, i as int),
                    decreases lists.len() - i,
                {
                    let urls = normal_all(&lists[i].1);
                    let ghost before = messages@;
                    messages.push((lists[i].0, urls));
                    assert(messages@ == before.push((lists@[i as int].0, urls)));
                    assert(lists_view(lists@)[i as int] == (lists@[i as int].0, lists@[i as int].1@.map_values(|s: String| s@)));
                    assert(normalized(lists_view(lists@))[i as int] == (lists@[i as int].0, normals(lists@[i as int].1@.map_values(|s: String| s@))));
                    assert(lists_view(messages@) =~= lists_view(before).push((lists@[i as int].0, urls@.map_values(|s: String| s@))));
                    assert(lists_view(messages@) =~= normalized(lists_view(lists@)).subrange(0, i + 1));
                    i = i + 1;
                }
                assert(normalized(lists_view(lists@)).subrange(0, lists.len() as int) =~= normalized(lists_view(lists@)));
                let same_holder = match self.by {
                    Some((by, on)) => by.0 == holder.0 && on.0 == thread.0,
                    None => false,
                };
                if same_holder && same_lists(&self.messages, &messages) {
                    return;
                }
                self.generation = if self.generation == u64::MAX { 0 } else { self.generation + 1 };
                self.by = Some((holder, thread));
                self.messages = messages;
            },
        }
    }

    /// `holder` is gone (the reader closed): what it granted is taken back. A grant another
    /// reader holds is left alone.
    pub fn release(&mut self, holder: Holder)
        ensures
            final(self)@ == old(self)@.released(holder),
    {
        let mine = match self.by {
            Some((by, _)) => by.0 == holder.0,
            None => false,
        };
        if mine {
            self.revoke();
        }
    }

    /// Whether the frame showing `message` may fetch `url` now.
    pub fn admits(&self, message: MessageId, url: &str) -> (r: Option<Ticket>)
        ensures
            r == self@.admits(message, url@),
    {
        let u = match normal(url) {
            Some(u) => u,
            None => return None,
        };
        if self.by.is_none() {
            return None;
        }
        let mut i: usize = 0;
        while i < self.messages.len()
            invariant
                i <= self.messages.len(),
                self@.messages.len() == self.messages.len(),
                self@.by is Some,
                normal_spec(url@) == Some(u@),
                forall|j: int| 0 <= j < i ==> !(self@.messages[j].0 == message && self@.messages[j].1.contains(u@)),
            decreases self.messages.len() - i,
        {
            if self.messages[i].0.0 == message.0 {
                let urls = &self.messages[i].1;
                assert(self@.messages[i as int].0 == message);
                let mut k: usize = 0;
                while k < urls.len()
                    invariant
                        k <= urls.len(),
                        i < self@.messages.len(),
                        self@.messages[i as int].0 == message,
                        self@.by is Some,
                        normal_spec(url@) == Some(u@),
                        urls@.map_values(|s: String| s@) == self@.messages[i as int].1,
                        forall|j: int| 0 <= j < k ==> urls@[j]@ != u@,
                    decreases urls.len() - k,
                {
                    if urls[k] == u {
                        assert(self@.messages[i as int].1[k as int] == u@);
                        assert(self@.messages[i as int].0 == message);
                        assert(self@.messages[i as int].1.contains(u@));
                        assert(self@.lists(message, u@));
                        return Some(Ticket(self.generation));
                    }
                    k = k + 1;
                }
                assert(!self@.messages[i as int].1.contains(u@));
            }
            i = i + 1;
        }
        None
    }

    /// Whether what `ticket` admitted may still be shown.
    pub fn stands(&self, ticket: Ticket) -> (r: bool)
        ensures
            r == self@.stands(ticket),
    {
        self.by.is_some() && self.generation == ticket.0
    }

    /// The ticket of the grant and the messages it covers, when it stands for `thread`: what a
    /// printout of that thread may fetch for, and whether it may still draw what came.
    pub fn thread(&self, thread: ThreadId) -> (r: Option<(Ticket, Vec<MessageId>)>)
        ensures
            r is Some <==> (self@.by matches Some((_, t)) && t == thread),
            r matches Some((ticket, messages)) ==> ticket == Ticket(self@.generation)
                && messages.len() == self@.messages.len()
                && forall|i: int| 0 <= i < messages.len() ==> (#[trigger] messages@[i]) == self@.messages[i].0,
    {
        let mine = match self.by {
            Some((_, t)) => t.0 == thread.0,
            None => false,
        };
        if !mine {
            return None;
        }
        let mut ids: Vec<MessageId> = Vec::new();
        let mut i: usize = 0;
        while i < self.messages.len()
            invariant
                i <= self.messages.len(),
                self@.messages.len() == self.messages.len(),
                ids.len() == i,
                forall|j: int| 0 <= j < i ==> (#[trigger] ids@[j]) == self@.messages[j].0,
            decreases self.messages.len() - i,
        {
            ids.push(self.messages[i].0);
            i = i + 1;
        }
        Some((Ticket(self.generation), ids))
    }

    /// Whether any thread's images are allowed now.
    pub fn granted(&self) -> (r: bool)
        ensures
            r == self@.granted(),
    {
        self.by.is_some()
    }
}

} // verus!
