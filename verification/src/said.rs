//! What the reader says about a message's protection, a line a fact, for OpenPGP and S/MIME
//! alike. A bad signature is the one that must be impossible to miss; a signature nobody can
//! check must not look like a good one.

use vstd::prelude::*;
use crate::text::{cat, cat3, dec, dec_chars, dec_padded, join, join_strings, views, extend_chars, string_of, chars_of};

verus! {

/// How a line about a message's protection is drawn.
#[derive(Debug, Clone, Copy, PartialEq, Eq, Structural)]
pub enum Tone {
    /// A plain fact: not encrypted, not signed.
    Plain,
    /// Opened, or a signature that checks.
    Good,
    /// Nothing can be said either way: a key this client does not hold.
    Unknown,
    /// A signature that matches the message and is still not to be believed.
    Warn,
    /// A signature that does not check, or content that could not be read.
    Bad,
    /// Who a certificate is for and who issued it, under the line about its signature.
    Detail,
}

/// The class a line of each tone is drawn with.
pub open spec fn class_spec(tone: Tone) -> Seq<char> {
    match tone {
        Tone::Plain => "seal-line"@,
        Tone::Good => "seal-line good"@,
        Tone::Unknown => "seal-line unknown"@,
        Tone::Warn => "seal-line warn"@,
        Tone::Bad => "seal-line bad"@,
        Tone::Detail => "seal-line detail"@,
    }
}

impl Tone {
    /// The class a line of this tone is drawn with.
    pub fn class(self) -> (r: &'static str)
        ensures
            r@ == class_spec(self),
    {
        match self {
            Tone::Plain => "seal-line",
            Tone::Good => "seal-line good",
            Tone::Unknown => "seal-line unknown",
            Tone::Warn => "seal-line warn",
            Tone::Bad => "seal-line bad",
            Tone::Detail => "seal-line detail",
        }
    }
}

/// One line the reader says about a message's protection.
#[derive(Debug, PartialEq, Eq)]
pub struct Said {
    pub tone: Tone,
    pub text: String,
}

/// The lines as values.
pub open spec fn said_view(v: Seq<Said>) -> Seq<(Tone, Seq<char>)> {
    v.map_values(|s: Said| (s.tone, s.text@))
}

/// Which protection a message carries.
#[derive(Debug, Clone, Copy, PartialEq, Eq, Structural)]
pub enum Scheme {
    OpenPgp,
    Smime,
}

impl Scheme {
    /// Its name.
    pub fn name(self) -> (r: &'static str)
        ensures
            r@ == match self {
                Scheme::OpenPgp => "OpenPGP"@,
                Scheme::Smime => "S/MIME"@,
            },
    {
        match self {
            Scheme::OpenPgp => "OpenPGP",
            Scheme::Smime => "S/MIME",
        }
    }
}

/// `hex` in groups of four, as people read fingerprints aloud.
pub open spec fn grouped_spec(hex: Seq<char>) -> Seq<char>
    decreases hex.len(),
{
    if hex.len() <= 4 {
        hex
    } else {
        hex.subrange(0, 4) + " "@ + grouped_spec(hex.subrange(4, hex.len() as int))
    }
}

/// `hex` in groups of four, as people read fingerprints aloud.
pub fn grouped(hex: &str) -> (r: String)
    ensures
        r@ == grouped_spec(hex@),
{
    let chars = chars_of(hex);
    let mut out: Vec<char> = Vec::new();
    let mut at: usize = 0;
    proof {
        reveal_strlit(" ");
    }
    assert(chars@.subrange(0, chars.len() as int) =~= chars@);
    while chars.len() - at > 4
        invariant
            at <= chars.len(),
            out@ + grouped_spec(chars@.subrange(at as int, chars.len() as int)) == grouped_spec(chars@),
        decreases chars.len() - at,
    {
        let ghost rest = chars@.subrange(at as int, chars.len() as int);
        let ghost before = out@;
        let mut k: usize = 0;
        while k < 4
            invariant
                k <= 4,
                at + 4 < chars.len(),
                out@ == before + chars@.subrange(at as int, at + k),
            decreases 4 - k,
        {
            out.push(chars[at + k]);
            k = k + 1;
            assert(chars@.subrange(at as int, at + k) =~= chars@.subrange(at as int, at + k - 1).push(chars@[at + k - 1]));
        }
        out.push(' ');
        assert(rest.subrange(0, 4) =~= chars@.subrange(at as int, at + 4));
        assert(rest.subrange(4, rest.len() as int) =~= chars@.subrange(at + 4, chars.len() as int));
        assert(rest.len() > 4);
        proof {
            reveal_strlit(" ");
        }
        assert(grouped_spec(rest) == rest.subrange(0, 4) + " "@ + grouped_spec(rest.subrange(4, rest.len() as int)));
        assert(" "@ =~= seq![' ']);
        assert(out@ =~= before + chars@.subrange(at as int, at + 4) + seq![' ']);
        assert(out@ + grouped_spec(chars@.subrange(at + 4, chars.len() as int)) =~= before + grouped_spec(rest));
        at = at + 4;
    }
    let mut k = at;
    let ghost before = out@;
    while k < chars.len()
        invariant
            at <= k <= chars.len(),
            out@ == before + chars@.subrange(at as int, k as int),
        decreases chars.len() - k,
    {
        out.push(chars[k]);
        k = k + 1;
        assert(chars@.subrange(at as int, k as int) =~= chars@.subrange(at as int, k - 1).push(chars@[k - 1]));
    }
    string_of(out.as_slice())
}

/// How much of a message a signature covers.
#[derive(Debug, Clone, Copy, PartialEq, Eq, Structural)]
pub enum Coverage {
    Whole,
    Part,
}

/// Whether the signer's key is one the person has checked.
#[derive(Debug, Clone, Copy, PartialEq, Eq, Structural)]
pub enum KeyTrust {
    Verified,
    Unverified,
}

/// An OpenPGP key, as the reader names it: its user ids and addresses.
#[derive(Debug, Clone)]
pub struct PgpKey {
    pub user_ids: Vec<String>,
    pub emails: Vec<String>,
}

/// Who a key is for, as its first user id says, else its first address.
pub open spec fn who_spec(user_ids: Seq<Seq<char>>, emails: Seq<Seq<char>>) -> Seq<char> {
    if user_ids.len() > 0 {
        user_ids[0]
    } else if emails.len() > 0 {
        emails[0]
    } else {
        "a key with no name"@
    }
}

/// Who a key is for, as its first user id says, else its first address.
pub fn who(key: &PgpKey) -> (r: String)
    ensures
        r@ == who_spec(views(key.user_ids@), views(key.emails@)),
{
    if key.user_ids.len() > 0 {
        key.user_ids[0].clone()
    } else if key.emails.len() > 0 {
        key.emails[0].clone()
    } else {
        String::from_str("a key with no name")
    }
}

/// A key's fingerprint, with the key id its short name is read from, both in hex.
#[derive(Debug, Clone)]
pub struct Fingerprint {
    pub hex: String,
    pub key_id: String,
}

/// A key's short name: its key id, grouped.
pub open spec fn short_spec(f: Fingerprint) -> Seq<char> {
    grouped_spec(f.key_id@)
}

/// A key's short name: its key id, in the groups of four people read fingerprints aloud in.
pub fn short(f: &Fingerprint) -> (r: String)
    ensures
        r@ == short_spec(*f),
{
    grouped(f.key_id.as_str())
}

/// What became of an OpenPGP message's encryption.
#[derive(Debug, Clone)]
pub enum Encryption {
    NotEncrypted,
    Decrypted,
    /// Encrypted to these key ids, none of them held.
    CannotDecrypt { to: Vec<String> },
    /// Encrypted to a key held here that needs its passphrase.
    Locked { key: Fingerprint },
    Unreadable { why: String },
}

/// What became of an OpenPGP message's signature.
#[derive(Debug, Clone)]
pub enum Verification {
    NoSignature,
    Good { signer: Fingerprint, trust: KeyTrust, coverage: Coverage },
    Bad { coverage: Coverage },
    /// Signed by this key id, which is not held.
    UnknownKey { issuer: String, coverage: Coverage },
}

/// What an OpenPGP message is: its encryption, its signature, and the signer's key if held.
#[derive(Debug, Clone)]
pub struct Protected {
    pub encryption: Encryption,
    pub verification: Verification,
    pub signer: Option<PgpKey>,
}

/// The key ids, grouped and joined with commas.
pub open spec fn grouped_ids(ids: Seq<Seq<char>>) -> Seq<char> {
    join(ids.map_values(|id: Seq<char>| grouped_spec(id)), ", "@)
}

/// The line about an OpenPGP message's encryption.
pub open spec fn encryption_line(e: Encryption) -> (Tone, Seq<char>) {
    match e {
        Encryption::NotEncrypted => (Tone::Plain, "Not encrypted"@),
        Encryption::Decrypted => (Tone::Good, "Encrypted, and decrypted for reading"@),
        Encryption::CannotDecrypt { to } => (Tone::Unknown,
            "Encrypted to keys you do not hold ("@ + grouped_ids(views(to@)) + "), so it cannot be read here"@),
        Encryption::Locked { key } => (Tone::Unknown,
            "Encrypted to your key "@ + short_spec(key) + ", which needs its passphrase"@),
        Encryption::Unreadable { why } => (Tone::Bad, "Encrypted, and could not be read: "@ + why@),
    }
}

/// The line said when only part of a message is signed.
pub open spec fn partly_spec(coverage: Option<Coverage>) -> Seq<(Tone, Seq<char>)> {
    if coverage == Some(Coverage::Part) {
        seq![(Tone::Unknown, "Only part of this message is signed; the rest could say anything"@)]
    } else {
        seq![]
    }
}

/// The signer's name for a good OpenPGP signature.
pub open spec fn signer_name(signer: Option<PgpKey>) -> Seq<char> {
    match signer {
        Some(k) => who_spec(views(k.user_ids@), views(k.emails@)),
        None => "a key you hold"@,
    }
}

/// The lines about an OpenPGP message's signature, and the coverage they leave to say.
pub open spec fn verification_lines(v: Verification, signer: Option<PgpKey>) -> (Seq<(Tone, Seq<char>)>, Option<Coverage>) {
    match v {
        Verification::NoSignature => (seq![(Tone::Plain, "Not signed"@)], None),
        Verification::Good { signer: fp, trust, coverage } => (seq![(Tone::Good,
            "Good signature by "@ + signer_name(signer) + " · "@ + short_spec(fp) + " · "@
                + match trust {
                    KeyTrust::Verified => "verified by you"@,
                    KeyTrust::Unverified => "not verified by you"@,
                })], Some(coverage)),
        Verification::Bad { coverage } => (seq![(Tone::Bad,
            "Bad signature: the message was changed after it was signed, or the signature is forged"@)], Some(coverage)),
        Verification::UnknownKey { issuer, coverage } => (seq![(Tone::Unknown,
            "Signed by key "@ + grouped_spec(issuer@) + ", which you do not have, so the signature cannot be checked"@)], Some(coverage)),
    }
}

/// What the reader says about an OpenPGP message.
pub open spec fn said_spec(p: Protected) -> Seq<(Tone, Seq<char>)> {
    let v = verification_lines(p.verification, p.signer);
    seq![encryption_line(p.encryption)] + v.0 + partly_spec(v.1)
}

fn line(tone: Tone, text: String) -> (r: Said)
    ensures
        r.tone == tone,
        r.text == text,
{
    Said { tone, text }
}

fn push_line(out: &mut Vec<Said>, tone: Tone, text: String)
    ensures
        said_view(final(out)@) == said_view(old(out)@).push((tone, text@)),
{
    out.push(Said { tone, text });
    assert(said_view(out@) =~= said_view(old(out)@).push((tone, text@)));
}

fn grouped_all(ids: &Vec<String>) -> (r: String)
    ensures
        r@ == grouped_ids(views(ids@)),
{
    let mut parts: Vec<String> = Vec::new();
    let mut i: usize = 0;
    while i < ids.len()
        invariant
            i <= ids.len(),
            views(parts@) == views(ids@).subrange(0, i as int).map_values(|id: Seq<char>| grouped_spec(id)),
        decreases ids.len() - i,
    {
        let g = grouped(ids[i].as_str());
        let ghost before = parts@;
        parts.push(g);
        proof {
            crate::text::lemma_views_push(before, g);
            crate::text::lemma_map_prefix(views(ids@), i as int, |id: Seq<char>| grouped_spec(id));
            assert(views(ids@)[i as int] == ids@[i as int]@);
        }
        i = i + 1;
    }
    assert(views(ids@).subrange(0, ids.len() as int) =~= views(ids@));
    join_strings(&parts, ", ")
}

/// The line said when only part of a message is signed.
fn partly(coverage: Option<Coverage>, out: &mut Vec<Said>)
    ensures
        said_view(final(out)@) == said_view(old(out)@) + partly_spec(coverage),
{
    let part = match coverage {
        Some(Coverage::Part) => true,
        _ => false,
    };
    if part {
        push_line(out, Tone::Unknown, String::from_str("Only part of this message is signed; the rest could say anything"));
    } else {
        assert(said_view(out@) =~= said_view(old(out)@) + partly_spec(coverage));
    }
}

/// What the reader says about an OpenPGP message: its encryption, its signature, and, when
/// only part is signed, that.
pub fn said(protected: &Protected) -> (r: Vec<Said>)
    ensures
        said_view(r@) == said_spec(*protected),
{
    let mut out: Vec<Said> = Vec::new();
    let first = match &protected.encryption {
        Encryption::NotEncrypted => line(Tone::Plain, String::from_str("Not encrypted")),
        Encryption::Decrypted => line(Tone::Good, String::from_str("Encrypted, and decrypted for reading")),
        Encryption::CannotDecrypt { to } => line(
            Tone::Unknown,
            cat3("Encrypted to keys you do not hold (", grouped_all(to).as_str(), "), so it cannot be read here"),
        ),
        Encryption::Locked { key } => line(
            Tone::Unknown,
            cat3("Encrypted to your key ", short(key).as_str(), ", which needs its passphrase"),
        ),
        Encryption::Unreadable { why } => line(Tone::Bad, cat("Encrypted, and could not be read: ", why.as_str())),
    };
    push_line(&mut out, first.tone, first.text);
    let ghost head = said_view(out@);
    let coverage = match &protected.verification {
        Verification::NoSignature => {
            push_line(&mut out, Tone::Plain, String::from_str("Not signed"));
            None
        },
        Verification::Good { signer, trust, coverage } => {
            let name = match &protected.signer {
                Some(key) => who(key),
                None => String::from_str("a key you hold"),
            };
            let trust = match trust {
                KeyTrust::Verified => "verified by you",
                KeyTrust::Unverified => "not verified by you",
            };
            let mut text = String::from_str("Good signature by ");
            text.append(name.as_str());
            text.append(" · ");
            text.append(short(signer).as_str());
            text.append(" · ");
            text.append(trust);
            push_line(&mut out, Tone::Good, text);
            Some(*coverage)
        },
        Verification::Bad { coverage } => {
            push_line(&mut out, Tone::Bad, String::from_str(
                "Bad signature: the message was changed after it was signed, or the signature is forged",
            ));
            Some(*coverage)
        },
        Verification::UnknownKey { issuer, coverage } => {
            push_line(&mut out, Tone::Unknown, cat3(
                "Signed by key ",
                grouped(issuer.as_str()).as_str(),
                ", which you do not have, so the signature cannot be checked",
            ));
            Some(*coverage)
        },
    };
    assert(said_view(out@) == head + verification_lines(protected.verification, protected.signer).0);
    assert(coverage == verification_lines(protected.verification, protected.signer).1);
    partly(coverage, &mut out);
    out
}

/// A calendar date, as a certificate's validity names it: the year as `chrono` counts it (the
/// year before 1 is 0, and the one before that -1).
#[derive(Debug, Clone, Copy, PartialEq, Eq, Structural)]
pub struct Date {
    pub year: i32,
    pub month: u32,
    pub day: u32,
}

/// `%Y` as `chrono` writes it: a year from 0 to 9999 in four digits; any other with its sign,
/// then at least four digits.
pub open spec fn year_spec(y: int) -> Seq<char> {
    if 0 <= y < 10000 {
        dec_padded(y as nat, 4)
    } else if y < 0 {
        seq!['-'] + dec_padded((-y) as nat, 4)
    } else {
        seq!['+'] + dec_padded(y as nat, 4)
    }
}

/// `%Y-%m-%d`: the year as [`year_spec`] writes it, month and day in two digits.
pub open spec fn ymd_spec(d: Date) -> Seq<char> {
    year_spec(d.year as int) + "-"@ + dec_padded(d.month as nat, 2) + "-"@ + dec_padded(d.day as nat, 2)
}

/// `n` in decimal, zero-padded to `width` digits.
fn padded(n: u32, width: u32) -> (r: Vec<char>)
    ensures
        r@ == dec_padded(n as nat, width as nat),
    decreases width,
{
    let d = dec_chars(n as u64);
    if d.len() as u64 >= width as u64 {
        d
    } else {
        let mut v = vec!['0'];
        let rest = padded(n, width - 1);
        extend_chars(&mut v, rest.as_slice());
        assert(v@ =~= seq!['0'] + rest@);
        v
    }
}

/// A year as `%Y` writes it.
fn year_chars(y: i32) -> (r: Vec<char>)
    ensures
        r@ == year_spec(y as int),
{
    if 0 <= y && y < 10000 {
        padded(y as u32, 4)
    } else if y < 0 {
        let magnitude: u32 = if y == i32::MIN {
            2147483648u32
        } else {
            (-y) as u32
        };
        let mut v = vec!['-'];
        extend_chars(&mut v, padded(magnitude, 4).as_slice());
        assert(magnitude as int == -(y as int));
        v
    } else {
        let mut v = vec!['+'];
        extend_chars(&mut v, padded(y as u32, 4).as_slice());
        v
    }
}

/// A date as `%Y-%m-%d`.
pub fn ymd(d: Date) -> (r: String)
    ensures
        r@ == ymd_spec(d),
{
    let mut v = year_chars(d.year);
    v.push('-');
    extend_chars(&mut v, padded(d.month, 2).as_slice());
    v.push('-');
    extend_chars(&mut v, padded(d.day, 2).as_slice());
    proof {
        reveal_strlit("-");
    }
    assert(v@ =~= ymd_spec(d));
    string_of(v.as_slice())
}

/// What `chrono` makes of the instant `at` seconds after 1970-01-01 00:00 UTC: its year, month
/// and day of the month in UTC, or nothing where it has no such instant.
pub uninterp spec fn utc_ymd(at: i64) -> Option<(i32, u32, u32)>;

/// `chrono::DateTime::from_timestamp` of `at` whole seconds, read back by `Datelike` as the
/// year, month and day of the month of the instant in UTC.
///
/// Claims only that the triple is the crate's (named `utc_ymd`), and `None` where the crate
/// answers `None`, which it documents for seconds out of its range.
#[verifier::external_body]
fn utc_day(at: i64) -> (r: Option<(i32, u32, u32)>)
    ensures
        r == utc_ymd(at),
{
    match chrono::DateTime::from_timestamp(at, 0) {
        Some(t) => Some((chrono::Datelike::year(&t), chrono::Datelike::month(&t), chrono::Datelike::day(&t))),
        None => None,
    }
}

/// The calendar day, in UTC, of the instant `at` seconds after the epoch: nothing where `chrono`
/// has no such instant.
pub open spec fn date_of_spec(at: i64) -> Option<Date> {
    match utc_ymd(at) {
        Some((y, m, d)) => Some(Date { year: y, month: m, day: d }),
        None => None,
    }
}

/// The calendar day, in UTC, of the instant `at` seconds after 1970-01-01 00:00 UTC.
pub fn date_of(at: i64) -> (r: Option<Date>)
    ensures
        r == date_of_spec(at),
{
    match utc_day(at) {
        Some((y, m, d)) => Some(Date { year: y, month: m, day: d }),
        None => None,
    }
}

/// A certificate behind an S/MIME signature.
#[derive(Debug, Clone)]
pub struct SmimeCert {
    pub subject: String,
    pub issuer: String,
    pub emails: Vec<String>,
    pub not_before: Date,
    pub not_after: Date,
}

/// Who a certificate is for, as a person reads it: its first address, else its subject.
pub open spec fn whose_spec(c: SmimeCert) -> Seq<char> {
    if c.emails@.len() > 0 { c.emails@[0]@ } else { c.subject@ }
}

/// Who a certificate is for, as a person reads it: its first address, else its subject.
pub fn whose(cert: &SmimeCert) -> (r: String)
    ensures
        r@ == whose_spec(*cert),
{
    if cert.emails.len() > 0 {
        cert.emails[0].clone()
    } else {
        cert.subject.clone()
    }
}

/// The signer's certificate, in one line: whom it names, for which addresses, and who issued it.
pub open spec fn certificate_spec(c: SmimeCert) -> Seq<char> {
    let parts = seq!["Certificate of "@ + c.subject@]
        + (if c.emails@.len() > 0 { seq![join(views(c.emails@), ", "@)] } else { seq![] })
        + seq!["issued by "@ + c.issuer@, "valid "@ + ymd_spec(c.not_before) + " to "@ + ymd_spec(c.not_after)];
    join(parts, " · "@)
}

/// The signer's certificate, in one line.
pub fn certificate(cert: &SmimeCert) -> (r: String)
    ensures
        r@ == certificate_spec(*cert),
{
    let mut parts: Vec<String> = Vec::new();
    parts.push(cat("Certificate of ", cert.subject.as_str()));
    if cert.emails.len() > 0 {
        parts.push(join_strings(&cert.emails, ", "));
    }
    parts.push(cat("issued by ", cert.issuer.as_str()));
    let mut valid = String::from_str("valid ");
    valid.append(ymd(cert.not_before).as_str());
    valid.append(" to ");
    valid.append(ymd(cert.not_after).as_str());
    parts.push(valid);
    assert(views(parts@) =~= seq!["Certificate of "@ + cert.subject@]
        + (if cert.emails@.len() > 0 { seq![join(views(cert.emails@), ", "@)] } else { seq![] })
        + seq!["issued by "@ + cert.issuer@, "valid "@ + ymd_spec(cert.not_before) + " to "@ + ymd_spec(cert.not_after)]);
    join_strings(&parts, " · ")
}

/// One thing wrong with the certificate behind a signature that matches.
#[derive(Debug, Clone)]
pub enum CertProblem {
    Untrusted,
    Expired { not_after: Date },
    NotYetValid { not_before: Date },
    NotForEmail,
    NotFrom { from: String },
}

/// What each certificate problem means, in words.
pub open spec fn doubt_spec(p: CertProblem) -> Seq<char> {
    match p {
        CertProblem::Untrusted => "Untrusted: no authority you trust issued its certificate, so anyone could have made it. Trust it in Keys and certificates only after checking it with its owner"@,
        CertProblem::Expired { not_after } => "Expired: a certificate in its chain stopped being valid on "@ + ymd_spec(not_after) + ", before the message says it was signed"@,
        CertProblem::NotYetValid { not_before } => "Not yet valid: a certificate in its chain was not valid until "@ + ymd_spec(not_before) + ", after the message says it was signed"@,
        CertProblem::NotForEmail => "Not for mail: its certificate was issued for something other than signing mail"@,
        CertProblem::NotFrom { from } => if from@.len() == 0 {
            "The message names no sender to check its certificate against"@
        } else {
            "Signed with a certificate for someone else's address: it is not for "@ + from@ + ", who the message says it is from"@
        },
    }
}

/// One thing wrong with the certificate behind a signature that matches, and what it means.
pub fn doubt(problem: &CertProblem) -> (r: String)
    ensures
        r@ == doubt_spec(*problem),
{
    match problem {
        CertProblem::Untrusted => String::from_str("Untrusted: no authority you trust issued its certificate, so anyone could have made it. Trust it in Keys and certificates only after checking it with its owner"),
        CertProblem::Expired { not_after } => cat3("Expired: a certificate in its chain stopped being valid on ", ymd(*not_after).as_str(), ", before the message says it was signed"),
        CertProblem::NotYetValid { not_before } => cat3("Not yet valid: a certificate in its chain was not valid until ", ymd(*not_before).as_str(), ", after the message says it was signed"),
        CertProblem::NotForEmail => String::from_str("Not for mail: its certificate was issued for something other than signing mail"),
        CertProblem::NotFrom { from } => {
            if from.as_str().is_empty() {
                String::from_str("The message names no sender to check its certificate against")
            } else {
                cat3("Signed with a certificate for someone else's address: it is not for ", from.as_str(), ", who the message says it is from")
            }
        },
    }
}

/// Why an S/MIME signature does not hold.
#[derive(Debug, Clone)]
pub enum BadSignature {
    Altered,
    Forged,
    Weak { algorithm: String },
    Unsupported { algorithm: String },
    Malformed { why: String },
}

/// A signature that does not hold, in words: changed or forged takes the danger ground; one
/// too weak to mean anything, or unreadable, is amber; one this client cannot check says so.
pub open spec fn bad_spec(why: BadSignature) -> (Tone, Seq<char>) {
    match why {
        BadSignature::Altered => (Tone::Bad, "Bad S/MIME signature: the message was changed after it was signed"@),
        BadSignature::Forged => (Tone::Bad, "Bad S/MIME signature: it does not match its certificate, so it is forged or damaged"@),
        BadSignature::Weak { algorithm } => (Tone::Warn, "S/MIME signature made with "@ + algorithm@ + ", which is too weak to mean anything now"@),
        BadSignature::Unsupported { algorithm } => (Tone::Unknown, "S/MIME signature made with "@ + algorithm@ + ", which this client does not check"@),
        BadSignature::Malformed { why } => (Tone::Warn, "S/MIME signature that cannot be read: "@ + why@),
    }
}

/// A signature that does not hold, in words.
pub fn bad(why: &BadSignature) -> (r: Said)
    ensures
        (r.tone, r.text@) == bad_spec(*why),
{
    match why {
        BadSignature::Altered => line(Tone::Bad, String::from_str("Bad S/MIME signature: the message was changed after it was signed")),
        BadSignature::Forged => line(Tone::Bad, String::from_str("Bad S/MIME signature: it does not match its certificate, so it is forged or damaged")),
        BadSignature::Weak { algorithm } => line(Tone::Warn, cat3("S/MIME signature made with ", algorithm.as_str(), ", which is too weak to mean anything now")),
        BadSignature::Unsupported { algorithm } => line(Tone::Unknown, cat3("S/MIME signature made with ", algorithm.as_str(), ", which this client does not check")),
        BadSignature::Malformed { why } => line(Tone::Warn, cat("S/MIME signature that cannot be read: ", why.as_str())),
    }
}

/// What became of an S/MIME message's encryption.
#[derive(Debug, Clone)]
pub enum SmimeEncryption {
    NotEncrypted,
    Decrypted,
    /// Encrypted to these certificates, for none of which a key is held.
    CannotDecrypt { to: Vec<String> },
    Unreadable { why: String },
}

/// What became of an S/MIME message's signature.
#[derive(Debug, Clone)]
pub enum SmimeVerification {
    NoSignature,
    Good { coverage: Coverage },
    Doubtful { problems: Vec<CertProblem>, coverage: Coverage },
    Bad { why: BadSignature, coverage: Coverage },
    UnknownSigner { coverage: Coverage },
}

/// What an S/MIME message is: its encryption, its signature, and the signer's certificate.
#[derive(Debug, Clone)]
pub struct SmimeProtected {
    pub encryption: SmimeEncryption,
    pub verification: SmimeVerification,
    pub signer: Option<SmimeCert>,
}

/// The line about an S/MIME message's encryption.
pub open spec fn smime_encryption_line(e: SmimeEncryption) -> (Tone, Seq<char>) {
    match e {
        SmimeEncryption::NotEncrypted => (Tone::Plain, "Not encrypted"@),
        SmimeEncryption::Decrypted => (Tone::Good, "Encrypted with S/MIME, and decrypted for reading"@),
        SmimeEncryption::CannotDecrypt { to } => (Tone::Unknown,
            "Encrypted with S/MIME to certificates you hold no key for ("@ + join(views(to@), "; "@) + "), so it cannot be read here"@),
        SmimeEncryption::Unreadable { why } => (Tone::Bad, "Encrypted with S/MIME, and could not be read: "@ + why@),
    }
}

/// The signer's name for an S/MIME signature.
pub open spec fn smime_name(signer: Option<SmimeCert>) -> Seq<char> {
    match signer {
        Some(c) => whose_spec(c),
        None => "a certificate with no name"@,
    }
}

/// The lines about an S/MIME message's signature, and the coverage they leave to say.
pub open spec fn smime_lines(v: SmimeVerification, signer: Option<SmimeCert>) -> (Seq<(Tone, Seq<char>)>, Option<Coverage>) {
    let name = smime_name(signer);
    match v {
        SmimeVerification::NoSignature => (seq![(Tone::Plain, "Not signed"@)], None),
        SmimeVerification::Good { coverage } => (seq![(Tone::Good,
            "Good S/MIME signature by "@ + name + ", from a certificate an authority you trust issued"@)], Some(coverage)),
        SmimeVerification::Doubtful { problems, coverage } => (seq![(Tone::Warn,
            "S/MIME signature by "@ + name + ": the message is as it was signed, but the certificate does not vouch for the sender"@)]
            + problems@.map_values(|p: CertProblem| (Tone::Warn, doubt_spec(p))), Some(coverage)),
        SmimeVerification::Bad { why, coverage } => (seq![bad_spec(why)], Some(coverage)),
        SmimeVerification::UnknownSigner { coverage } => (seq![(Tone::Unknown,
            "Signed with S/MIME by a certificate neither the message nor you hold, so the signature cannot be checked"@)], Some(coverage)),
    }
}

/// The certificate line, said under any signature when the certificate is known.
pub open spec fn detail_spec(v: SmimeVerification, signer: Option<SmimeCert>) -> Seq<(Tone, Seq<char>)> {
    match (v, signer) {
        (SmimeVerification::NoSignature, _) => seq![],
        (_, Some(c)) => seq![(Tone::Detail, certificate_spec(c))],
        (_, None) => seq![],
    }
}

/// What the reader says about an S/MIME message.
pub open spec fn said_smime_spec(p: SmimeProtected) -> Seq<(Tone, Seq<char>)> {
    let v = smime_lines(p.verification, p.signer);
    seq![smime_encryption_line(p.encryption)] + v.0 + detail_spec(p.verification, p.signer) + partly_spec(v.1)
}

/// What the reader says about an S/MIME message: its encryption, its signature and what is
/// wrong with the certificate behind it, the certificate itself, and, when only part is
/// signed, that.
pub fn said_smime(protected: &SmimeProtected) -> (r: Vec<Said>)
    ensures
        said_view(r@) == said_smime_spec(*protected),
{
    let mut out: Vec<Said> = Vec::new();
    let first = match &protected.encryption {
        SmimeEncryption::NotEncrypted => line(Tone::Plain, String::from_str("Not encrypted")),
        SmimeEncryption::Decrypted => line(Tone::Good, String::from_str("Encrypted with S/MIME, and decrypted for reading")),
        SmimeEncryption::CannotDecrypt { to } => line(
            Tone::Unknown,
            cat3("Encrypted with S/MIME to certificates you hold no key for (", join_strings(to, "; ").as_str(), "), so it cannot be read here"),
        ),
        SmimeEncryption::Unreadable { why } => line(Tone::Bad, cat("Encrypted with S/MIME, and could not be read: ", why.as_str())),
    };
    push_line(&mut out, first.tone, first.text);
    let name = match &protected.signer {
        Some(cert) => whose(cert),
        None => String::from_str("a certificate with no name"),
    };
    let ghost head = said_view(out@);
    let mut signed = true;
    let coverage = match &protected.verification {
        SmimeVerification::NoSignature => {
            signed = false;
            push_line(&mut out, Tone::Plain, String::from_str("Not signed"));
            None
        },
        SmimeVerification::Good { coverage } => {
            push_line(&mut out, Tone::Good, cat3("Good S/MIME signature by ", name.as_str(), ", from a certificate an authority you trust issued"));
            Some(*coverage)
        },
        SmimeVerification::Doubtful { problems, coverage } => {
            push_line(&mut out, Tone::Warn, cat3("S/MIME signature by ", name.as_str(), ": the message is as it was signed, but the certificate does not vouch for the sender"));
            let ghost mid = said_view(out@);
            let mut i: usize = 0;
            while i < problems.len()
                invariant
                    i <= problems.len(),
                    said_view(out@) == mid + problems@.subrange(0, i as int).map_values(|p: CertProblem| (Tone::Warn, doubt_spec(p))),
                decreases problems.len() - i,
            {
                let words = doubt(&problems[i]);
                push_line(&mut out, Tone::Warn, words);
                proof {
                    crate::text::lemma_map_prefix(problems@, i as int, |p: CertProblem| (Tone::Warn, doubt_spec(p)));
                }
                i = i + 1;
            }
            assert(problems@.subrange(0, problems.len() as int) =~= problems@);
            Some(*coverage)
        },
        SmimeVerification::Bad { why, coverage } => {
            let b = bad(why);
            push_line(&mut out, b.tone, b.text);
            Some(*coverage)
        },
        SmimeVerification::UnknownSigner { coverage } => {
            push_line(&mut out, Tone::Unknown, String::from_str("Signed with S/MIME by a certificate neither the message nor you hold, so the signature cannot be checked"));
            Some(*coverage)
        },
    };
    assert(said_view(out@) == head + smime_lines(protected.verification, protected.signer).0);
    let ghost mid = said_view(out@);
    if signed {
        if let Some(signer) = &protected.signer {
            push_line(&mut out, Tone::Detail, certificate(signer));
        }
    }
    assert(said_view(out@) =~= mid + detail_spec(protected.verification, protected.signer));
    partly(coverage, &mut out);
    out
}

/// A bad signature is unmissable, and one nobody can check never looks good: a changed or
/// forged message is said on the danger ground, and a signature by a key or certificate that
/// is not held is said as unknown, never as good.
pub proof fn law_bad_is_unmissable(p: Protected, s: SmimeProtected)
    ensures
        p.verification is Bad ==> said_spec(p)[1].0 == Tone::Bad,
        p.verification is UnknownKey ==> said_spec(p)[1].0 == Tone::Unknown,
        (s.verification matches SmimeVerification::Bad { why, .. } && (why is Altered || why is Forged))
            ==> said_smime_spec(s)[1].0 == Tone::Bad,
        s.verification is UnknownSigner ==> said_smime_spec(s)[1].0 == Tone::Unknown,
        forall|i: int| 0 <= i < said_spec(p).len() && said_spec(p)[i].0 == Tone::Good
            ==> (i == 0 || p.verification is Good),
{
    let v = verification_lines(p.verification, p.signer);
    assert(said_spec(p) == seq![encryption_line(p.encryption)] + v.0 + partly_spec(v.1));
}

/// A message that was not decrypted is never said to be: what the reader says of an OpenPGP
/// message first is its encryption, good only when it was decrypted for reading; a message
/// encrypted to a key held here that is locked is said to be, naming that key and that it
/// needs its passphrase, and never as good. The same holds of S/MIME.
pub proof fn law_only_a_decrypted_message_is_said_decrypted(p: Protected, s: SmimeProtected)
    ensures
        said_spec(p).len() >= 1,
        said_spec(p)[0].0 == Tone::Good <==> p.encryption is Decrypted,
        said_spec(p)[0].1 == "Encrypted, and decrypted for reading"@ <==> p.encryption is Decrypted,
        p.encryption matches Encryption::Locked { key } ==> said_spec(p)[0] == (
            Tone::Unknown,
            "Encrypted to your key "@ + grouped_spec(key.key_id@) + ", which needs its passphrase"@,
        ),
        said_smime_spec(s).len() >= 1,
        said_smime_spec(s)[0].0 == Tone::Good <==> s.encryption is Decrypted,
{
    let first = said_spec(p)[0];
    assert(first == encryption_line(p.encryption));
    assert(said_smime_spec(s)[0] == smime_encryption_line(s.encryption));
    reveal_strlit("Encrypted, and decrypted for reading");
    reveal_strlit("Not encrypted");
    reveal_strlit("Encrypted to keys you do not hold (");
    reveal_strlit("Encrypted to your key ");
    reveal_strlit("Encrypted, and could not be read: ");
    match p.encryption {
        Encryption::NotEncrypted => {
            assert(first.1.len() != "Encrypted, and decrypted for reading"@.len());
        },
        Encryption::Decrypted => {},
        Encryption::CannotDecrypt { to } => {
            let t = first.1;
            if t == "Encrypted, and decrypted for reading"@ {
                assert(t[10] == "Encrypted to keys you do not hold ("@[10]);
            }
        },
        Encryption::Locked { key } => {
            let t = first.1;
            if t == "Encrypted, and decrypted for reading"@ {
                assert(t[10] == "Encrypted to your key "@[10]);
            }
        },
        Encryption::Unreadable { why } => {
            let t = first.1;
            if t == "Encrypted, and decrypted for reading"@ {
                assert(t[15] == "Encrypted, and could not be read: "@[15]);
            }
        },
    }
}

} // verus!
