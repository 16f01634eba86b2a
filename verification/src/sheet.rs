//! The keys sheet: the order it lists keys and certificates in, and what it says of their
//! dates and of where they came from.

use vstd::prelude::*;
use crate::said::{Date, ymd, ymd_spec};
use crate::text::cat;

verus! {

/// Whether the keyring holds a key's secret half.
#[derive(Debug, Clone, Copy, PartialEq, Eq, Structural)]
pub enum SecretHeld {
    Held,
    Absent,
}

/// A key or a certificate as the sheet lists it: whether it is the user's own, and the thing.
pub struct Listed<T> {
    pub secret: SecretHeld,
    pub item: T,
}

/// Those of `items` whose secret is (or is not) held, in order.
pub open spec fn held_ones<T>(items: Seq<Listed<T>>, held: bool) -> Seq<Listed<T>>
    decreases items.len(),
{
    if items.len() == 0 {
        seq![]
    } else {
        let before = held_ones(items.drop_last(), held);
        if (items.last().secret == SecretHeld::Held) == held {
            before.push(items.last())
        } else {
            before
        }
    }
}

/// The order the sheet lists in: the user's own, those whose secret the keyring holds, first,
/// then everyone else's, each group in the order given.
pub fn ordered<T>(items: Vec<Listed<T>>) -> (r: Vec<Listed<T>>)
    ensures
        r@ == held_ones(items@, true) + held_ones(items@, false),
{
    let ghost all = items@;
    let mut rest = items;
    let mut own: Vec<Listed<T>> = Vec::new();
    let mut others: Vec<Listed<T>> = Vec::new();
    let ghost mut n: int = 0;
    while rest.len() > 0
        invariant
            0 <= n <= all.len(),
            rest@ == all.subrange(n, all.len() as int),
            own@ == held_ones(all.subrange(0, n), true),
            others@ == held_ones(all.subrange(0, n), false),
        decreases rest.len(),
    {
        let item = rest.remove(0);
        proof {
            assert(all.subrange(0, n + 1).drop_last() =~= all.subrange(0, n));
            assert(all.subrange(0, n + 1).last() == item);
        }
        match item.secret {
            SecretHeld::Held => own.push(item),
            SecretHeld::Absent => others.push(item),
        }
        proof {
            n = n + 1;
            assert(rest@ =~= all.subrange(n, all.len() as int));
        }
    }
    assert(all.subrange(0, all.len() as int) =~= all);
    let ghost front = own@;
    let mut back = others;
    own.append(&mut back);
    assert(own@ =~= front + held_ones(all, false));
    own
}

/// An instant: whole seconds since 1970-01-01 00:00 UTC, and the nanoseconds past them.
#[derive(Debug, Clone, Copy, PartialEq, Eq, Structural)]
pub struct Moment {
    pub secs: i64,
    pub nanos: u32,
}

/// Whether `a` comes strictly before `b`.
pub open spec fn earlier(a: Moment, b: Moment) -> bool {
    a.secs < b.secs || (a.secs == b.secs && a.nanos < b.nanos)
}

/// Whether `a` comes strictly before `b`.
pub fn is_earlier(a: Moment, b: Moment) -> (r: bool)
    ensures
        r == earlier(a, b),
{
    a.secs < b.secs || (a.secs == b.secs && a.nanos < b.nanos)
}

/// An instant, as the sheet compares it and names it (its calendar day, in UTC).
#[derive(Debug, Clone, Copy, PartialEq, Eq, Structural)]
pub struct Stamp {
    pub at: Moment,
    pub day: Date,
}

impl Stamp {
    /// The instant `secs` seconds and `nanos` nanoseconds after the epoch, with its day in UTC;
    /// nothing where `chrono` has no such day.
    pub fn utc(secs: i64, nanos: u32) -> (r: Option<Stamp>)
        ensures
            r == match crate::said::date_of_spec(secs) {
                Some(day) => (Some(Stamp { at: Moment { secs, nanos }, day })),
                None => None,
            },
    {
        match crate::said::date_of(secs) {
            Some(day) => Some(Stamp { at: Moment { secs, nanos }, day }),
            None => None,
        }
    }
}

/// What the sheet says of a key's dates.
pub open spec fn lifetime_spec(created: Option<Stamp>, expires: Option<Stamp>, now: Moment) -> Seq<Seq<char>> {
    let made = match created {
        Some(c) => seq!["created "@ + ymd_spec(c.day)],
        None => seq![],
    };
    let ends = match expires {
        Some(e) => if !earlier(now, e.at) {
            seq!["expired "@ + ymd_spec(e.day)]
        } else {
            seq!["expires "@ + ymd_spec(e.day)]
        },
        None => if created is Some {
            seq!["does not expire"@]
        } else {
            seq![]
        },
    };
    made + ends
}

/// When a key was made and until when it holds, as far as that is recorded. A key whose dates
/// were never read says nothing of either, rather than "does not expire".
pub fn lifetime(created: Option<Stamp>, expires: Option<Stamp>, now: Moment) -> (r: Vec<String>)
    ensures
        crate::text::views(r@) == lifetime_spec(created, expires, now),
{
    let mut out: Vec<String> = Vec::new();
    match created {
        Some(c) => {
            let day = ymd(c.day);
            out.push(cat("created ", day.as_str()));
        },
        None => {},
    }
    match expires {
        Some(e) => {
            let day = ymd(e.day);
            if !is_earlier(now, e.at) {
                out.push(cat("expired ", day.as_str()));
            } else {
                out.push(cat("expires ", day.as_str()));
            }
        },
        None => {
            if created.is_some() {
                out.push(String::from_str("does not expire"));
            }
        },
    }
    assert(crate::text::views(out@) =~= lifetime_spec(created, expires, now));
    out
}

/// How long a certificate holds, in words.
pub open spec fn validity_spec(not_before: Stamp, not_after: Stamp, now: Moment) -> Seq<char> {
    if earlier(not_after.at, now) {
        "expired "@ + ymd_spec(not_after.day)
    } else if earlier(now, not_before.at) {
        "valid from "@ + ymd_spec(not_before.day)
    } else {
        "valid "@ + ymd_spec(not_before.day) + " to "@ + ymd_spec(not_after.day)
    }
}

/// How long a certificate holds, in words: expired, not valid yet, or the span it holds for.
pub fn validity(not_before: Stamp, not_after: Stamp, now: Moment) -> (r: String)
    ensures
        r@ == validity_spec(not_before, not_after, now),
{
    if is_earlier(not_after.at, now) {
        cat("expired ", ymd(not_after.day).as_str())
    } else if is_earlier(now, not_before.at) {
        cat("valid from ", ymd(not_before.day).as_str())
    } else {
        let from = ymd(not_before.day);
        let to = ymd(not_after.day);
        let mut out = crate::text::cat3("valid ", from.as_str(), " to ");
        out.append(to.as_str());
        out
    }
}

/// Where a key came from.
#[derive(Debug, Clone, Copy, PartialEq, Eq, Structural)]
pub enum KeySource {
    Generated,
    Imported,
    Wkd,
    Autocrypt,
    Gossip,
}

/// Where a key came from, in words.
pub fn key_source(source: KeySource) -> (r: &'static str)
    ensures
        r@ == match source {
            KeySource::Generated => "made here"@,
            KeySource::Imported => "imported"@,
            KeySource::Wkd => "from its domain"@,
            KeySource::Autocrypt => "from their mail"@,
            KeySource::Gossip => "passed on by someone else"@,
        },
{
    match source {
        KeySource::Generated => "made here",
        KeySource::Imported => "imported",
        KeySource::Wkd => "from its domain",
        KeySource::Autocrypt => "from their mail",
        KeySource::Gossip => "passed on by someone else",
    }
}

/// Where a certificate came from.
#[derive(Debug, Clone, Copy, PartialEq, Eq, Structural)]
pub enum CertSource {
    Identity,
    Imported,
    Received,
}

/// Where a certificate came from, in words.
pub fn cert_source(source: CertSource) -> (r: &'static str)
    ensures
        r@ == match source {
            CertSource::Identity => "your identity"@,
            CertSource::Imported => "imported"@,
            CertSource::Received => "from their signed mail"@,
        },
{
    match source {
        CertSource::Identity => "your identity",
        CertSource::Imported => "imported",
        CertSource::Received => "from their signed mail",
    }
}

/// What a press on Delete does: a key or certificate whose secret the keyring holds is asked
/// about again first, because deleting it cannot be undone; any other is deleted at once, and
/// the deletion refuses to touch a secret.
#[derive(Debug, Clone, Copy, PartialEq, Eq, Structural)]
pub enum Deleting {
    AskFirst,
    DeleteNow,
}

/// What a press on Delete does for a key or certificate whose secret is `secret`.
pub fn delete_press(secret: SecretHeld) -> (r: Deleting)
    ensures
        r == if secret == SecretHeld::Held {
            Deleting::AskFirst
        } else {
            Deleting::DeleteNow
        },
{
    match secret {
        SecretHeld::Held => Deleting::AskFirst,
        SecretHeld::Absent => Deleting::DeleteNow,
    }
}

/// The class of a row: the user's own stand out.
pub fn row_class(mine: bool) -> (r: &'static str)
    ensures
        r@ == if mine {
            "keys-row mine"@
        } else {
            "keys-row"@
        },
{
    if mine {
        "keys-row mine"
    } else {
        "keys-row"
    }
}

/// The parts that say something, in order.
pub open spec fn said_parts(parts: Seq<Seq<char>>) -> Seq<Seq<char>>
    decreases parts.len(),
{
    if parts.len() == 0 {
        seq![]
    } else {
        let before = said_parts(parts.drop_last());
        if parts.last().len() > 0 {
            before.push(parts.last())
        } else {
            before
        }
    }
}

/// A row's facts in one line: those that say something, joined by ` · `.
pub open spec fn meta_spec(parts: Seq<Seq<char>>) -> Seq<char> {
    crate::text::join(said_parts(parts), " \u{b7} "@)
}

/// Adds one more part to a row's facts.
fn push_said(parts: &mut Vec<String>, part: String)
    ensures
        crate::text::views(final(parts)@) == crate::text::views(old(parts)@).push(part@),
{
    proof {
        crate::text::lemma_views_push(parts@, part);
    }
    parts.push(part);
}

fn meta_line(parts: &Vec<String>) -> (r: String)
    ensures
        r@ == meta_spec(crate::text::views(parts@)),
{
    let ghost all = crate::text::views(parts@);
    let mut kept: Vec<String> = Vec::new();
    let mut i: usize = 0;
    while i < parts.len()
        invariant
            i <= parts.len(),
            all == crate::text::views(parts@),
            crate::text::views(kept@) == said_parts(all.subrange(0, i as int)),
        decreases parts.len() - i,
    {
        proof {
            assert(all.subrange(0, i + 1).drop_last() =~= all.subrange(0, i as int));
            assert(all.subrange(0, i + 1).last() == parts@[i as int]@);
        }
        if !parts[i].as_str().is_empty() {
            let ghost before = kept@;
            kept.push(parts[i].clone());
            proof {
                crate::text::lemma_views_push(before, parts@[i as int]);
            }
        }
        i = i + 1;
    }
    assert(all.subrange(0, parts.len() as int) =~= all);
    crate::text::join_strings(&kept, " \u{b7} ")
}

/// The facts of a key row: its addresses, its dates, when it was added, where it came from,
/// whether it is verified, and whether its secret is held here.
pub open spec fn key_parts(
    emails: Seq<Seq<char>>,
    created: Option<Stamp>,
    expires: Option<Stamp>,
    now: Moment,
    added: crate::said::Date,
    source: KeySource,
    verified: bool,
    mine: bool,
) -> Seq<Seq<char>> {
    seq![crate::text::join(emails, ", "@)] + lifetime_spec(created, expires, now) + seq![
        "added "@ + ymd_spec(added),
        key_source_spec(source),
        if verified { "verified by you"@ } else { "not verified"@ },
    ] + if mine { seq!["secret key held here"@] } else { seq![] }
}

/// Where a key came from, in words.
pub open spec fn key_source_spec(source: KeySource) -> Seq<char> {
    match source {
        KeySource::Generated => "made here"@,
        KeySource::Imported => "imported"@,
        KeySource::Wkd => "from its domain"@,
        KeySource::Autocrypt => "from their mail"@,
        KeySource::Gossip => "passed on by someone else"@,
    }
}

/// What a key row says of its key, in one line.
pub fn key_meta(
    emails: &Vec<String>,
    created: Option<Stamp>,
    expires: Option<Stamp>,
    now: Moment,
    added: crate::said::Date,
    source: KeySource,
    verified: bool,
    mine: bool,
) -> (r: String)
    ensures
        r@ == meta_spec(key_parts(crate::text::views(emails@), created, expires, now, added, source, verified, mine)),
{
    let mut parts: Vec<String> = Vec::new();
    parts.push(crate::text::join_strings(emails, ", "));
    let dates = lifetime(created, expires, now);
    let mut k: usize = 0;
    let ghost head = crate::text::views(parts@);
    while k < dates.len()
        invariant
            k <= dates.len(),
            crate::text::views(parts@) == head + crate::text::views(dates@).subrange(0, k as int),
        decreases dates.len() - k,
    {
        let ghost before = parts@;
        parts.push(dates[k].clone());
        proof {
            crate::text::lemma_views_push(before, dates@[k as int]);
            assert(crate::text::views(dates@).subrange(0, k + 1) =~= crate::text::views(dates@).subrange(0, k as int).push(dates@[k as int]@));
        }
        k = k + 1;
    }
    assert(crate::text::views(dates@).subrange(0, dates.len() as int) =~= crate::text::views(dates@));
    push_said(&mut parts, cat("added ", ymd(added).as_str()));
    push_said(&mut parts, String::from_str(key_source(source)));
    push_said(&mut parts, String::from_str(if verified { "verified by you" } else { "not verified" }));
    if mine {
        push_said(&mut parts, String::from_str("secret key held here"));
    }
    assert(crate::text::views(parts@) =~= key_parts(crate::text::views(emails@), created, expires, now, added, source, verified, mine));
    meta_line(&parts)
}

/// The facts of a certificate row: its addresses, how long it holds, who issued it, where it
/// came from, whether it is trusted, and whether its private key is held here.
pub open spec fn cert_parts(
    emails: Seq<Seq<char>>,
    not_before: Stamp,
    not_after: Stamp,
    now: Moment,
    issuer: Seq<char>,
    source: CertSource,
    trusted: bool,
    mine: bool,
) -> Seq<Seq<char>> {
    seq![
        crate::text::join(emails, ", "@),
        validity_spec(not_before, not_after, now),
        "issued by "@ + issuer,
        match source {
            CertSource::Identity => "your identity"@,
            CertSource::Imported => "imported"@,
            CertSource::Received => "from their signed mail"@,
        },
        if trusted { "trusted by you"@ } else { "not trusted by you"@ },
    ] + if mine { seq!["private key held here"@] } else { seq![] }
}

/// What a certificate row says of its certificate, in one line.
pub fn cert_meta(
    emails: &Vec<String>,
    not_before: Stamp,
    not_after: Stamp,
    now: Moment,
    issuer: &str,
    source: CertSource,
    trusted: bool,
    mine: bool,
) -> (r: String)
    ensures
        r@ == meta_spec(cert_parts(crate::text::views(emails@), not_before, not_after, now, issuer@, source, trusted, mine)),
{
    let mut parts: Vec<String> = Vec::new();
    push_said(&mut parts, crate::text::join_strings(emails, ", "));
    push_said(&mut parts, validity(not_before, not_after, now));
    push_said(&mut parts, cat("issued by ", issuer));
    push_said(&mut parts, String::from_str(cert_source(source)));
    push_said(&mut parts, String::from_str(if trusted { "trusted by you" } else { "not trusted by you" }));
    if mine {
        push_said(&mut parts, String::from_str("private key held here"));
    }
    assert(crate::text::views(parts@) =~= cert_parts(crate::text::views(emails@), not_before, not_after, now, issuer@, source, trusted, mine));
    meta_line(&parts)
}

/// The question asked before the secret half of key `id` is written to a file.
pub fn export_warning(id: &str) -> (r: String)
    ensures
        r@ == "This writes the secret half of "@ + id@
            + " to a file. Anyone who has that file can read your encrypted mail and sign as you: keep it offline, and never mail it."@,
{
    crate::text::cat3(
        "This writes the secret half of ",
        id,
        " to a file. Anyone who has that file can read your encrypted mail and sign as you: keep it offline, and never mail it.",
    )
}

/// The question asked before key `id` and its secret are deleted.
pub fn delete_key_warning(id: &str) -> (r: String)
    ensures
        r@ == "Deleting "@ + id@
            + " also deletes its secret key from your keyring. It cannot be recovered, and mail encrypted to it can never be read again. Export it first if you may need it."@,
{
    crate::text::cat3(
        "Deleting ",
        id,
        " also deletes its secret key from your keyring. It cannot be recovered, and mail encrypted to it can never be read again. Export it first if you may need it.",
    )
}

/// The question asked before certificate `id` and its private key are deleted.
pub fn delete_cert_warning(id: &str) -> (r: String)
    ensures
        r@ == "Deleting "@ + id@
            + " also deletes its private key from your keyring. It cannot be recovered, and mail encrypted to it can never be read again. Keep the identity file you imported it from."@,
{
    crate::text::cat3(
        "Deleting ",
        id,
        " also deletes its private key from your keyring. It cannot be recovered, and mail encrypted to it can never be read again. Keep the identity file you imported it from.",
    )
}

/// Whether the sheet is doing a job.
#[derive(Debug, Clone, Copy, PartialEq, Eq, Structural)]
pub enum Busy {
    Idle,
    Working,
}

/// How a job the sheet ran ended well: words to say, or an identity file whose password must
/// be asked for first.
#[derive(Debug, PartialEq, Eq)]
pub enum Done {
    Said(String),
    Password(String),
}

/// The keys sheet's own state: whether a job runs, and what the last one said (or why it
/// failed).
#[derive(Debug, PartialEq, Eq)]
pub struct Sheet {
    pub busy: Busy,
    pub said: Option<Result<String, String>>,
}

/// What the sheet says, as plain values.
pub open spec fn said_view(said: Option<Result<String, String>>) -> Option<Result<Seq<char>, Seq<char>>> {
    match said {
        Some(Ok(t)) => Some(Ok(t@)),
        Some(Err(t)) => Some(Err(t@)),
        None => None,
    }
}

/// Whether a job asked for now starts: only while no other runs.
pub open spec fn job_starts(busy: Busy) -> bool {
    busy == Busy::Idle
}

/// A job is asked for: it starts only when none runs, the sheet then working and saying
/// nothing yet; while one runs, the ask does nothing at all. Says whether it started.
pub fn start_job(sheet: &mut Sheet) -> (r: bool)
    ensures
        r == job_starts(old(sheet).busy),
        r ==> final(sheet).busy == Busy::Working && final(sheet).said is None,
        !r ==> final(sheet).busy == old(sheet).busy && said_view(final(sheet).said) == said_view(old(sheet).said),
{
    match sheet.busy {
        Busy::Working => false,
        Busy::Idle => {
            sheet.busy = Busy::Working;
            sheet.said = None;
            true
        },
    }
}

/// One job at a time: while a job runs, asking for another starts nothing.
pub proof fn law_one_job_at_a_time(busy: Busy)
    ensures
        busy == Busy::Working ==> !job_starts(busy),
        !job_starts(Busy::Working),
{
}

/// What the sheet says when the work stopped before it finished.
pub fn stopped(error: &str) -> (r: String)
    ensures
        r@ == "It stopped before it finished: "@ + error@,
{
    cat("It stopped before it finished: ", error)
}

/// A job ended: the sheet is idle again and says what the job said, or why it failed; a job
/// that needs an identity file's password says nothing and hands back the file to ask about.
pub fn job_done(sheet: &mut Sheet, done: Result<Done, String>) -> (r: Option<String>)
    ensures
        final(sheet).busy == Busy::Idle,
        match done {
            Ok(Done::Said(t)) => r is None && said_view(final(sheet).said) == Some(Ok::<Seq<char>, Seq<char>>(t@)),
            Ok(Done::Password(path)) => (r matches Some(p) && p@ == path@) && said_view(final(sheet).said) == said_view(old(sheet).said),
            Err(why) => r is None && said_view(final(sheet).said) == Some(Err::<Seq<char>, Seq<char>>(why@)),
        },
{
    sheet.busy = Busy::Idle;
    match done {
        Ok(Done::Said(t)) => {
            sheet.said = Some(Ok(t));
            None
        },
        Ok(Done::Password(path)) => Some(path),
        Err(why) => {
            sheet.said = Some(Err(why));
            None
        },
    }
}

} // verus!
