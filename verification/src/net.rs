//! The Original frame's network, and the Reader view's own image fetches: who fetches, what
//! came back, and which of it is drawn.
//!
//! Only a raster image is ever drawn from what a fetch brought: within [`MAX_BYTES`], declared
//! as PNG, JPEG, GIF or WebP (never SVG), and with first bytes that are one of those. It is
//! handed to the window as a `data:` URI whose type is the one the bytes are, in the
//! allowlist's spelling, never the server's string.

use vstd::prelude::*;
use crate::consent::{Consent, Ticket};
use crate::ids::MessageId;
use crate::text::{chars_of, first, same_chars, string_of, trim_chars, trimmed};

verus! {

/// A fetched image: what the server said it is, and its bytes.
#[derive(Debug, Clone)]
pub struct Got {
    /// The `Content-Type` header, as sent.
    pub content_type: Option<String>,
    pub bytes: Vec<u8>,
}

/// What is called with the bytes an admitted fetch brought, from any thread. Not calling it (a
/// failure) leaves the image missing, as a browser shows a broken one.
pub trait Fetched: Send {
    fn land(&mut self, bytes: Vec<u8>);
}

/// What is called with what a Reader view fetch brought, from any thread.
pub trait Received: Send {
    fn land(&mut self, got: Got);
}

/// Whatever fetches an admitted image: the web in the window, a recorder in a test.
pub trait Fetch: Send + Sync + 'static {
    /// Fetch `url` and hand its bytes to `done`.
    fn get(&self, url: String, done: Box<dyn Fetched>);
}

/// Whatever fetches the Reader view's consented images: the web in the window, a recorder in
/// a test. mailo asks; no document does.
pub trait FetchImage: Send + Sync + 'static {
    /// Fetch `url` and hand what came back to `done`.
    fn get(&self, url: String, done: Box<dyn Received>);
}

/// Whatever opens a link: the system browser in the window, a recorder in a test.
pub trait Browse: Send + Sync + 'static {
    /// Open `url`, already checked.
    fn open(&self, url: &str);
}

/// The Reader view's image fetcher, as the window's root context. Sharing it is sharing its
/// `Arc`.
pub struct ReaderNet(pub std::sync::Arc<dyn FetchImage>);

/// The largest image the frame is handed: a picture in a mail is kilobytes; past this it is
/// not a picture.
pub const MAX_BYTES: usize = 16777216;

/// Whether `bytes` begin with `prefix`.
pub open spec fn begins(bytes: Seq<u8>, prefix: Seq<u8>) -> bool {
    prefix.len() <= bytes.len() && bytes.subrange(0, prefix.len() as int) == prefix
}

/// The raster type `bytes` begin as, by their magic number.
pub open spec fn sniff_spec(bytes: Seq<u8>) -> Option<Seq<char>> {
    if begins(bytes, seq![0x89u8, 0x50, 0x4e, 0x47, 0x0d, 0x0a, 0x1a, 0x0a]) {
        Some("image/png"@)
    } else if begins(bytes, seq![0xffu8, 0xd8, 0xff]) {
        Some("image/jpeg"@)
    } else if begins(bytes, seq![0x47u8, 0x49, 0x46, 0x38, 0x37, 0x61])
        || begins(bytes, seq![0x47u8, 0x49, 0x46, 0x38, 0x39, 0x61]) {
        Some("image/gif"@)
    } else if bytes.len() >= 12 && begins(bytes, seq![0x52u8, 0x49, 0x46, 0x46])
        && bytes.subrange(8, 12) == seq![0x57u8, 0x45, 0x42, 0x50] {
        Some("image/webp"@)
    } else {
        None
    }
}

fn begins_with(bytes: &[u8], prefix: &[u8]) -> (r: bool)
    ensures
        r == begins(bytes@, prefix@),
{
    if prefix.len() > bytes.len() {
        return false;
    }
    let mut i: usize = 0;
    while i < prefix.len()
        invariant
            prefix.len() <= bytes.len(),
            i <= prefix.len(),
            forall|j: int| 0 <= j < i ==> bytes@[j] == prefix@[j],
        decreases prefix.len() - i,
    {
        if bytes[i] != prefix[i] {
            return false;
        }
        i = i + 1;
    }
    assert(bytes@.subrange(0, prefix@.len() as int) =~= prefix@);
    true
}

/// The raster type `bytes` begin as, by their magic number.
pub fn sniff(bytes: &[u8]) -> (r: Option<&'static str>)
    ensures
        match r {
            Some(t) => sniff_spec(bytes@) == Some(t@),
            None => sniff_spec(bytes@) is None,
        },
{
    let png: [u8; 8] = [0x89, 0x50, 0x4e, 0x47, 0x0d, 0x0a, 0x1a, 0x0a];
    let jpeg: [u8; 3] = [0xff, 0xd8, 0xff];
    let gif7: [u8; 6] = [0x47, 0x49, 0x46, 0x38, 0x37, 0x61];
    let gif9: [u8; 6] = [0x47, 0x49, 0x46, 0x38, 0x39, 0x61];
    let riff: [u8; 4] = [0x52, 0x49, 0x46, 0x46];
    assert(png@ =~= seq![0x89u8, 0x50, 0x4e, 0x47, 0x0d, 0x0a, 0x1a, 0x0a]);
    assert(jpeg@ =~= seq![0xffu8, 0xd8, 0xff]);
    assert(gif7@ =~= seq![0x47u8, 0x49, 0x46, 0x38, 0x37, 0x61]);
    assert(gif9@ =~= seq![0x47u8, 0x49, 0x46, 0x38, 0x39, 0x61]);
    assert(riff@ =~= seq![0x52u8, 0x49, 0x46, 0x46]);
    if begins_with(bytes, &png) {
        Some("image/png")
    } else if begins_with(bytes, &jpeg) {
        Some("image/jpeg")
    } else if begins_with(bytes, &gif7) || begins_with(bytes, &gif9) {
        Some("image/gif")
    } else if bytes.len() >= 12 && begins_with(bytes, &riff) && bytes[8] == 0x57 && bytes[9] == 0x45
        && bytes[10] == 0x42 && bytes[11] == 0x50 {
        assert(bytes@.subrange(8, 12) =~= seq![0x57u8, 0x45, 0x42, 0x50]);
        Some("image/webp")
    } else {
        proof {
            if bytes@.len() >= 12 && begins(bytes@, seq![0x52u8, 0x49, 0x46, 0x46])
                && bytes@.subrange(8, 12) == seq![0x57u8, 0x45, 0x42, 0x50] {
                assert(bytes@.subrange(8, 12)[0] == bytes@[8]);
                assert(bytes@.subrange(8, 12)[1] == bytes@[9]);
                assert(bytes@.subrange(8, 12)[2] == bytes@[10]);
                assert(bytes@.subrange(8, 12)[3] == bytes@[11]);
            }
        }
        None
    }
}

/// Whether `c` is `lower`, or its ASCII capital.
pub open spec fn same_letter(c: char, lower: char) -> bool {
    c == lower || ('A' <= c && c <= 'Z' && c as u32 + 32 == lower as u32)
}

/// A MIME type's essence: what comes before any `;`, trimmed.
pub open spec fn essence(t: Seq<char>) -> Seq<char> {
    let end = match first(t, seq![';']) {
        Some(i) => i,
        None => t.len() as int,
    };
    trimmed(t.subrange(0, end))
}

/// Whether `e` is `name` with ASCII case ignored; `name` is written in lower case.
pub open spec fn names(e: Seq<char>, name: Seq<char>) -> bool {
    e.len() == name.len() && forall|i: int| 0 <= i < e.len() ==> same_letter(e[i], name[i])
}

/// The raster types a message may show inline (PNG, JPEG, GIF, WebP; never SVG), each in the
/// allowlist's own spelling, whatever case and parameters the declared type came with.
pub open spec fn embeddable_spec(t: Seq<char>) -> Option<Seq<char>> {
    let e = essence(t);
    if names(e, "image/png"@) {
        Some("image/png"@)
    } else if names(e, "image/jpeg"@) {
        Some("image/jpeg"@)
    } else if names(e, "image/gif"@) {
        Some("image/gif"@)
    } else if names(e, "image/webp"@) {
        Some("image/webp"@)
    } else {
        None
    }
}

fn names_chars(e: &[char], name: &str) -> (r: bool)
    ensures
        r == names(e@, name@),
{
    let n = chars_of(name);
    if e.len() != n.len() {
        return false;
    }
    let mut i: usize = 0;
    while i < e.len()
        invariant
            e.len() == n.len(),
            n@ == name@,
            i <= e.len(),
            forall|j: int| 0 <= j < i ==> same_letter(e@[j], n@[j]),
        decreases e.len() - i,
    {
        let c = e[i];
        let l = n[i];
        let same = c == l || ('A' <= c && c <= 'Z' && (c as u32) + 32 == (l as u32));
        if !same {
            return false;
        }
        i = i + 1;
    }
    true
}

/// The allowlist's spelling of `t`, when it names a raster type a message may show inline.
pub fn embeddable(t: &str) -> (r: Option<&'static str>)
    ensures
        match r {
            Some(k) => embeddable_spec(t@) == Some(k@),
            None => embeddable_spec(t@) is None,
        },
{
    let chars = chars_of(t);
    let end = match crate::text::find_from(chars.as_slice(), &[';'], 0) {
        Some(i) => i,
        None => chars.len(),
    };
    proof {
        assert([';']@ =~= seq![';']);
        crate::text::lemma_first_in_range(chars@, seq![';'], 0);
    }
    let mut head: Vec<char> = Vec::new();
    let mut k: usize = 0;
    while k < end
        invariant
            k <= end <= chars.len(),
            head@ == chars@.subrange(0, k as int),
        decreases end - k,
    {
        head.push(chars[k]);
        k = k + 1;
        assert(chars@.subrange(0, k as int) =~= chars@.subrange(0, k - 1).push(chars@[k - 1]));
    }
    let e = trim_chars(head.as_slice());
    assert(e@ == essence(t@));
    if names_chars(e.as_slice(), "image/png") {
        Some("image/png")
    } else if names_chars(e.as_slice(), "image/jpeg") {
        Some("image/jpeg")
    } else if names_chars(e.as_slice(), "image/gif") {
        Some("image/gif")
    } else if names_chars(e.as_slice(), "image/webp") {
        Some("image/webp")
    } else {
        None
    }
}

/// The base64 alphabet's character for `i`, below 64.
pub open spec fn b64(i: int) -> char {
    if i < 26 {
        (65 + i) as char
    } else if i < 52 {
        (97 + i - 26) as char
    } else if i < 62 {
        (48 + i - 52) as char
    } else if i == 62 {
        '+'
    } else {
        '/'
    }
}

/// `bytes` in the standard base64 alphabet, padded with `=`: each three bytes as four
/// characters of six bits each, and a last one or two bytes padded out to four.
pub open spec fn base64_spec(bytes: Seq<u8>) -> Seq<char>
    decreases bytes.len(),
{
    if bytes.len() == 0 {
        seq![]
    } else if bytes.len() == 1 {
        let a = bytes[0] as int;
        seq![b64(a / 4), b64((a % 4) * 16), '=', '=']
    } else if bytes.len() == 2 {
        let a = bytes[0] as int;
        let b = bytes[1] as int;
        seq![b64(a / 4), b64((a % 4) * 16 + b / 16), b64((b % 16) * 4), '=']
    } else {
        let a = bytes[0] as int;
        let b = bytes[1] as int;
        let c = bytes[2] as int;
        seq![b64(a / 4), b64((a % 4) * 16 + b / 16), b64((b % 16) * 4 + c / 64), b64(c % 64)]
            + base64_spec(bytes.subrange(3, bytes.len() as int))
    }
}

/// `base64`'s standard engine, encoding.
///
/// Claims that the crate writes RFC 4648's standard alphabet with `=` padding, as its
/// `general_purpose::STANDARD` engine is documented to.
#[verifier::external_body]
fn base64_encode(bytes: &[u8]) -> (r: String)
    ensures
        r@ == base64_spec(bytes@),
{
    base64::Engine::encode(&base64::engine::general_purpose::STANDARD, bytes)
}

/// What a fetch brought as a `data:` URI for an `<img>`, or nothing when it is not one to show.
pub open spec fn data_uri_spec(content_type: Option<Seq<char>>, bytes: Seq<u8>) -> Option<Seq<char>> {
    if bytes.len() == 0 || bytes.len() > MAX_BYTES {
        None
    } else {
        match content_type {
            None => None,
            Some(t) => if embeddable_spec(t) is None {
                None
            } else {
                match sniff_spec(bytes) {
                    None => None,
                    Some(sniffed) => match embeddable_spec(sniffed) {
                        None => None,
                        Some(kind) => Some("data:"@ + kind + ";base64,"@ + base64_spec(bytes)),
                    },
                }
            },
        }
    }
}

/// `got` as a `data:` URI for an `<img>`, or `None` when it is not one to show: empty or past
/// [`MAX_BYTES`], declared as something not embeddable, or with first bytes that are not a
/// raster image. The type written is the one the bytes are, never the server's string.
pub fn data_uri(got: &Got) -> (r: Option<String>)
    ensures
        match r {
            Some(u) => data_uri_spec(match got.content_type {
                Some(t) => Some(t@),
                None => None,
            }, got.bytes@) == Some(u@),
            None => data_uri_spec(match got.content_type {
                Some(t) => Some(t@),
                None => None,
            }, got.bytes@) is None,
        },
{
    if got.bytes.len() == 0 || got.bytes.len() > MAX_BYTES {
        return None;
    }
    let declared = match &got.content_type {
        Some(t) => t,
        None => return None,
    };
    if embeddable(declared.as_str()).is_none() {
        return None;
    }
    let sniffed = match sniff(got.bytes.as_slice()) {
        Some(s) => s,
        None => return None,
    };
    let kind = match embeddable(sniffed) {
        Some(k) => k,
        None => return None,
    };
    let mut out = String::from_str("data:");
    out.append(kind);
    out.append(";base64,");
    out.append(base64_encode(got.bytes.as_slice()).as_str());
    Some(out)
}

/// What the Original frame's network does with a request.
#[derive(PartialEq, Eq, Structural, Clone, Copy, Debug)]
pub enum NetDecision {
    Allow,
    Deny,
}

/// What a request admits: nothing from the window's own document (`frame` is `None`), and
/// from a frame only what the consent admits for the message it shows.
pub open spec fn ticket_spec(consent: crate::consent::Grant, frame: Option<MessageId>, url: Seq<char>) -> Option<Ticket> {
    match frame {
        Some(message) => consent.admits(message, url),
        None => None,
    }
}

/// The ticket a request from `frame` for `url` is fetched under, if it may be fetched: the
/// window's own document never, a frame only as the consent admits.
pub fn ticket_for(consent: &Consent, frame: Option<MessageId>, url: &str) -> (r: Option<Ticket>)
    ensures
        r == ticket_spec(consent@, frame, url@),
{
    match frame {
        Some(message) => consent.admits(message, url),
        None => None,
    }
}

/// The answer to a request from `frame` (the message an Original frame shows; `None` for the
/// window's own document) for `url`: allowed only when the consent admits it.
pub fn decide(consent: &Consent, frame: Option<MessageId>, url: &str) -> (r: NetDecision)
    ensures
        r == NetDecision::Allow <==> ticket_spec(consent@, frame, url@) is Some,
{
    match ticket_for(consent, frame, url) {
        Some(_) => NetDecision::Allow,
        None => NetDecision::Deny,
    }
}

/// Whether a response that declares `length` bytes is refused before it is read.
pub fn declared_too_long(length: Option<u64>) -> (r: bool)
    ensures
        r == (length matches Some(n) && n > MAX_BYTES),
{
    match length {
        Some(n) => n > MAX_BYTES as u64,
        None => false,
    }
}

/// Add the next chunk of a response to `bytes` when the whole stays within [`MAX_BYTES`];
/// `false` (and `bytes` unchanged) when it would not, and the fetch gives up.
pub fn gather(bytes: &mut Vec<u8>, chunk: &[u8]) -> (r: bool)
    ensures
        r == (old(bytes).len() + chunk.len() <= MAX_BYTES),
        r ==> final(bytes)@ == old(bytes)@ + chunk@,
        !r ==> final(bytes)@ == old(bytes)@,
{
    if chunk.len() > MAX_BYTES || bytes.len() > MAX_BYTES - chunk.len() {
        return false;
    }
    let mut i: usize = 0;
    let ghost start = bytes@;
    while i < chunk.len()
        invariant
            i <= chunk.len(),
            bytes@ == start + chunk@.subrange(0, i as int),
        decreases chunk.len() - i,
    {
        bytes.push(chunk[i]);
        i = i + 1;
        assert(bytes@ =~= start + chunk@.subrange(0, i as int));
    }
    assert(chunk@.subrange(0, chunk.len() as int) =~= chunk@);
    true
}

/// Only a raster image within the cap is ever drawn: a `data:` URI comes only from bytes that
/// are not empty, within [`MAX_BYTES`], declared as an embeddable type, and whose first bytes
/// are a raster type the allowlist names; and the type it is written with is the one the bytes
/// are.
pub proof fn law_only_a_raster_image_within_the_cap_is_drawn(content_type: Option<Seq<char>>, bytes: Seq<u8>)
    ensures
        data_uri_spec(content_type, bytes) is Some ==> {
            &&& 0 < bytes.len() <= MAX_BYTES
            &&& content_type matches Some(t) && embeddable_spec(t) is Some
            &&& sniff_spec(bytes) matches Some(kind) && embeddable_spec(kind) matches Some(written)
                && data_uri_spec(content_type, bytes) == Some("data:"@ + written + ";base64,"@ + base64_spec(bytes))
        },
{
}

} // verus!
