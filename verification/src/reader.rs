//! What the Reader view's head says of a sender: the avatar's letter, and the host a remote
//! image would report the open to.

use vstd::prelude::*;
use crate::ids::MessageId;
use crate::text::{cat, chars_of, str_eq, string_of};

verus! {

/// The characters `char::to_uppercase` gives for `c`.
pub uninterp spec fn uppercase_of(c: char) -> Seq<char>;

/// `c` uppercased, by `char::to_uppercase`: one character or more (`ß` is `SS`).
#[verifier::external_body]
pub(crate) fn uppercase(c: char) -> (r: String)
    ensures
        r@ == uppercase_of(c),
{
    c.to_uppercase().collect()
}

/// The first character of `name`, uppercased.
pub open spec fn initial_spec(name: Seq<char>) -> Seq<char> {
    if name.len() == 0 {
        seq![]
    } else {
        uppercase_of(name[0])
    }
}

/// The first character of `name`, uppercased: a character, not a byte, so a CJK name's
/// avatar is its first character.
pub fn initial(name: &str) -> (r: String)
    ensures
        r@ == initial_spec(name@),
{
    let chars = chars_of(name);
    if chars.len() == 0 {
        String::new()
    } else {
        uppercase(chars[0])
    }
}

/// The name a sender goes by: its display name when it has a non-empty one, else its address.
pub open spec fn shown_name(name: Option<Seq<char>>, email: Seq<char>) -> Seq<char> {
    match name {
        Some(n) => if n.len() > 0 {
            n
        } else {
            email
        },
        None => email,
    }
}

/// The avatar's letter for a sender named `name`, at `email`.
pub fn sender_initial(name: &Option<String>, email: &str) -> (r: String)
    ensures
        r@ == initial_spec(
            shown_name(
                match name {
                    Some(n) => Some(n@),
                    None => None,
                },
                email@,
            ),
        ),
{
    match name {
        Some(n) => {
            if n.as_str().is_empty() {
                initial(email)
            } else {
                initial(n.as_str())
            }
        },
        None => initial(email),
    }
}

/// Where the last `@` of `s` stands, if anywhere.
pub open spec fn last_at(s: Seq<char>) -> Option<int>
    decreases s.len(),
{
    if s.len() == 0 {
        None
    } else if s.last() == '@' {
        Some(s.len() - 1)
    } else {
        last_at(s.drop_last())
    }
}

/// The host of an address: what follows its last `@`, when that is not empty; else the
/// address itself.
pub open spec fn host_of_spec(email: Seq<char>) -> Seq<char> {
    match last_at(email) {
        Some(i) => if i + 1 < email.len() {
            email.subrange(i + 1, email.len() as int)
        } else {
            email
        },
        None => email,
    }
}

/// The host a remote image would report the open to.
pub fn host_of(email: &str) -> (r: String)
    ensures
        r@ == host_of_spec(email@),
{
    let chars = chars_of(email);
    let mut i: usize = chars.len();
    assert(chars@.subrange(0, i as int) =~= chars@);
    while i > 0
        invariant
            i <= chars.len(),
            chars@ == email@,
            last_at(chars@) == last_at(chars@.subrange(0, i as int)),
        decreases i,
    {
        if chars[i - 1] == '@' {
            assert(chars@.subrange(0, i as int).last() == '@');
            if i < chars.len() {
                let mut host: Vec<char> = Vec::new();
                let mut k = i;
                while k < chars.len()
                    invariant
                        i <= k <= chars.len(),
                        host@ == chars@.subrange(i as int, k as int),
                    decreases chars.len() - k,
                {
                    host.push(chars[k]);
                    k = k + 1;
                    assert(host@ =~= chars@.subrange(i as int, k as int));
                }
                return string_of(host.as_slice());
            }
            return string_of(chars.as_slice());
        }
        assert(chars@.subrange(0, i as int).drop_last() =~= chars@.subrange(0, i - 1));
        i = i - 1;
    }
    string_of(chars.as_slice())
}

/// One message of the open thread, as the reader's head reads it.
pub struct Shown {
    pub id: MessageId,
    /// The subject its headers carry.
    pub subject: String,
    /// The subject a protected message carries inside, once it is opened.
    pub opened_subject: Option<String>,
    pub from_email: String,
    /// Whether the sanitizer blocked a remote image of it.
    pub remote: bool,
    /// What its Original frame would fetch, when it has one.
    pub frame_fetches: Vec<String>,
}

/// The first of `shown` at or after `from` whose subject is `subject`, opened to its inside one.
pub open spec fn inner_subject(shown: Seq<Shown>, subject: Seq<char>, from: int) -> Option<Seq<char>>
    decreases shown.len() - from,
{
    if from < 0 || from >= shown.len() {
        None
    } else if shown[from].subject@ == subject {
        match shown[from].opened_subject {
            Some(s) => Some(s@),
            None => None,
        }
    } else {
        inner_subject(shown, subject, from + 1)
    }
}

/// The head's subject: an encrypted message's subject travels inside it, and the outside says
/// `...`; so the message that carries the thread's subject, opened, says it, else the thread's.
pub open spec fn subject_spec(shown: Seq<Shown>, summary: Seq<char>) -> Seq<char> {
    match inner_subject(shown, summary, 0) {
        Some(s) => s,
        None => summary,
    }
}

/// The subject the reader's head shows for a thread whose list subject is `summary`.
pub fn subject_of(shown: &Vec<Shown>, summary: &str) -> (r: String)
    ensures
        r@ == subject_spec(shown@, summary@),
{
    let mut i: usize = 0;
    while i < shown.len()
        invariant
            i <= shown.len(),
            inner_subject(shown@, summary@, 0) == inner_subject(shown@, summary@, i as int),
        decreases shown.len() - i,
    {
        if str_eq(shown[i].subject.as_str(), summary) {
            return match &shown[i].opened_subject {
                Some(s) => s.clone(),
                None => String::from_str(summary),
            };
        }
        i = i + 1;
    }
    String::from_str(summary)
}

/// Where the last message with a blocked remote image, before `end`, stands.
pub open spec fn last_remote(shown: Seq<Shown>, end: int) -> Option<int>
    decreases end,
{
    if end <= 0 {
        None
    } else if shown[end - 1].remote {
        Some(end - 1)
    } else {
        last_remote(shown, end - 1)
    }
}

/// The host the consent line names: that of the last message with a remote image.
pub open spec fn remote_host_spec(shown: Seq<Shown>) -> Option<Seq<char>> {
    match last_remote(shown, shown.len() as int) {
        Some(i) => Some(host_of_spec(shown[i].from_email@)),
        None => None,
    }
}

/// The host a remote image of the thread would report the open to: the last message's that
/// has one. `None` when no message has a remote image, and then nothing is offered.
pub fn remote_host(shown: &Vec<Shown>) -> (r: Option<String>)
    ensures
        match r {
            Some(h) => remote_host_spec(shown@) == Some(h@),
            None => remote_host_spec(shown@) is None,
        },
{
    let mut i: usize = shown.len();
    while i > 0
        invariant
            i <= shown.len(),
            last_remote(shown@, shown.len() as int) == last_remote(shown@, i as int),
        decreases i,
    {
        if shown[i - 1].remote {
            return Some(host_of(shown[i - 1].from_email.as_str()));
        }
        i = i - 1;
    }
    None
}

/// The consent line under the head: what it says, and whether it offers "Show images".
pub open spec fn consent_line_spec(host: Option<Seq<char>>, showing: bool) -> Option<(Seq<char>, bool)> {
    match host {
        Some(h) => if showing {
            Some(("Showing remote images from "@ + h, false))
        } else {
            Some(("Remote images blocked \u{2014} loading them tells the sender you opened this"@, true))
        },
        None => None,
    }
}

/// The consent line under the head, when a message has a remote image: what it says, and
/// whether it offers "Show images" (only while they are not shown). Nothing for a thread with
/// no remote image, which is never offered images it does not have.
pub fn consent_line(host: &Option<String>, showing: bool) -> (r: Option<(String, bool)>)
    ensures
        match r {
            Some((words, offers)) => consent_line_spec(
                match host {
                    Some(h) => Some(h@),
                    None => None,
                },
                showing,
            ) == Some((words@, offers)),
            None => host is None,
        },
{
    match host {
        Some(h) => if showing {
            Some((cat("Showing remote images from ", h.as_str()), false))
        } else {
            Some((String::from_str("Remote images blocked \u{2014} loading them tells the sender you opened this"), true))
        },
        None => None,
    }
}

fn copy_urls(v: &Vec<String>) -> (r: Vec<String>)
    ensures
        r@ == v@,
{
    let mut out: Vec<String> = Vec::new();
    let mut i: usize = 0;
    while i < v.len()
        invariant
            i <= v.len(),
            out@ == v@.subrange(0, i as int),
        decreases v.len() - i,
    {
        out.push(v[i].clone());
        i = i + 1;
        assert(out@ =~= v@.subrange(0, i as int));
    }
    assert(v@.subrange(0, v.len() as int) =~= v@);
    out
}

/// The lists the consent is held to, as the Original frames' network reads them: each message
/// and what its frame fetches while the images are shown, nothing otherwise.
pub fn allowed(shown: &Vec<Shown>, showing: bool) -> (r: Option<Vec<(MessageId, Vec<String>)>>)
    ensures
        r is Some <==> showing,
        r matches Some(lists) ==> lists.len() == shown.len() && forall|j: int|
            0 <= j < shown.len() ==> (#[trigger] lists@[j]).0 == shown@[j].id && lists@[j].1@ == shown@[j].frame_fetches@,
{
    if !showing {
        return None;
    }
    let mut out: Vec<(MessageId, Vec<String>)> = Vec::new();
    let mut i: usize = 0;
    while i < shown.len()
        invariant
            i <= shown.len(),
            out.len() == i,
            forall|j: int| 0 <= j < i ==> (#[trigger] out@[j]).0 == shown@[j].id && out@[j].1@ == shown@[j].frame_fetches@,
        decreases shown.len() - i,
    {
        let urls = copy_urls(&shown[i].frame_fetches);
        out.push((shown[i].id, urls));
        i = i + 1;
    }
    Some(out)
}

} // verus!
