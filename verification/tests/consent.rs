//! The consent the Original frame's network is held to: a frame is named by the message it
//! shows.

use mail_app::consent::{Consent, Holder};
use mail_app::ids::{MessageId, ThreadId, ids};

const A: &str = "https://cdn.test/a.png";
const B: &str = "https://other.test/b.png";

/// A thread of two messages, one image each, consented to by one reader.
fn granted() -> (Consent, Holder, ThreadId, MessageId, MessageId) {
    let mut consent = Consent::new();
    let holder = consent.holder();
    let (thread, first, second) = ids(100);
    consent.hold(
        holder,
        thread,
        Some(vec![
            (first, vec![A.to_owned()]),
            (second, vec![B.to_owned()]),
        ]),
    );
    (consent, holder, thread, first, second)
}

#[test]
fn nothing_is_admitted_before_consent() {
    let consent = Consent::new();
    assert!(!consent.granted());
    assert_eq!(consent.admits(MessageId(7), A), None);
}

#[test]
fn a_consented_image_is_admitted_and_nothing_else() {
    let (consent, _, _, first, _) = granted();
    assert!(consent.admits(first, A).is_some());
    assert_eq!(consent.admits(first, "https://cdn.test/not-listed.png"), None);
    assert_eq!(consent.admits(first, "https://tracker.test/pixel.gif"), None);
}

#[test]
fn only_web_addresses_are_ever_admitted() {
    // A hostile list cannot open another scheme: the list is read through the same web-only
    // filter as the request.
    let mut consent = Consent::new();
    let holder = consent.holder();
    let (thread, message, _) = ids(200);
    let hostile = [
        "file:///etc/passwd",
        "cid:logo@here",
        "data:image/png;base64,iVBORw0KGgo=",
        "javascript:alert(1)",
        "ftp://files.test/a.png",
    ];
    consent.hold(
        holder,
        thread,
        Some(vec![(message, hostile.iter().map(|url| (*url).to_owned()).collect())]),
    );
    for url in hostile {
        assert_eq!(consent.admits(message, url), None, "{url} was admitted");
    }
}

#[test]
fn the_url_is_compared_as_the_renderer_asks_for_it() {
    let mut consent = Consent::new();
    let holder = consent.holder();
    let (thread, message, _) = ids(300);
    consent.hold(holder, thread, Some(vec![(message, vec!["HTTPS://CDN.test/a.png".to_owned()])]));
    assert!(consent.admits(message, A).is_some());
}

#[test]
fn a_frame_fetches_for_its_own_message_only() {
    let (consent, _, _, first, second) = granted();
    assert!(consent.admits(first, A).is_some());
    assert_eq!(consent.admits(first, B), None, "one message's frame fetched another message's image");
    assert!(consent.admits(second, B).is_some());
    assert_eq!(consent.admits(second, A), None);
    // A message the grant does not name fetches nothing, whatever it asks for.
    assert_eq!(consent.admits(MessageId(999), A), None);
}

#[test]
fn an_image_two_messages_share_is_each_ones_own() {
    let mut consent = Consent::new();
    let holder = consent.holder();
    let (thread, first, second) = ids(400);
    let logo = "https://brand.test/logo.png";
    consent.hold(
        holder,
        thread,
        Some(vec![
            (first, vec![logo.to_owned(), A.to_owned()]),
            (second, vec![logo.to_owned(), B.to_owned()]),
        ]),
    );
    assert!(consent.admits(first, logo).is_some());
    assert!(consent.admits(second, logo).is_some());
    assert!(consent.admits(first, A).is_some());
    assert_eq!(consent.admits(first, B), None, "the shared logo opened B");
}

#[test]
fn revoking_refuses_new_requests_and_stales_admitted_ones() {
    let (mut consent, holder, thread, first, _) = granted();
    let ticket = consent.admits(first, A).expect("admitted");
    assert!(consent.stands(ticket));
    consent.hold(holder, thread, None);
    assert!(!consent.granted());
    assert!(!consent.stands(ticket), "a fetch landing after revoking would be shown");
    assert_eq!(consent.admits(first, A), None);
}

#[test]
fn the_same_grant_again_keeps_what_it_admitted() {
    let (mut consent, holder, thread, first, second) = granted();
    let ticket = consent.admits(first, A).expect("admitted");
    // The reader renders again with nothing changed: every keystroke does this.
    consent.hold(
        holder,
        thread,
        Some(vec![
            (first, vec![A.to_owned()]),
            (second, vec![B.to_owned()]),
        ]),
    );
    assert!(consent.stands(ticket));
    assert_eq!(consent.admits(first, B), None, "the frame forgot what it is");
}

#[test]
fn another_thread_is_a_new_grant() {
    let (mut consent, holder, _, first, _) = granted();
    let ticket = consent.admits(first, A).expect("admitted");
    let (other, message, _) = ids(500);
    consent.hold(holder, other, Some(vec![(message, vec![B.to_owned()])]));
    assert!(!consent.stands(ticket));
    assert_eq!(consent.admits(first, A), None, "the last thread's image");
    assert!(consent.admits(message, B).is_some());
}

#[test]
fn a_closing_reader_takes_back_only_its_own_grant() {
    let (mut consent, holder, _, first, _) = granted();
    let other = consent.holder();
    consent.release(other);
    assert!(consent.granted(), "a reader that granted nothing revoked");
    consent.release(holder);
    assert!(!consent.granted());
    assert_eq!(consent.admits(first, A), None);
}

#[test]
fn a_url_is_normalized_the_way_the_url_crate_serializes_it() {
    // The wrapper's result is used, not its argument: the scheme and host come back lower-case.
    assert_eq!(mail_app::consent::normal("HTTPS://CDN.test/a.png").as_deref(), Some(A));
    assert_eq!(mail_app::consent::normal("not a url"), None);
    assert_eq!(mail_app::consent::normal("ftp://files.test/a.png"), None);
}

#[test]
fn a_printout_fetches_only_for_the_thread_the_grant_stands_for() {
    let (mut consent, holder, thread, first, second) = granted();
    let (ticket, messages) = consent.thread(thread).expect("the grant is this thread's");
    assert_eq!(messages, vec![first, second]);
    assert!(consent.stands(ticket));
    assert!(consent.thread(ThreadId(12345)).is_none());
    consent.hold(holder, thread, None);
    assert!(consent.thread(thread).is_none());
    assert!(!consent.stands(ticket), "a printout would draw what a revoked grant fetched");
}
