//! The Reader view's head: the avatar's letter and the host of an address.

use mail_app::reader::{host_of, initial, sender_initial};

#[test]
fn the_avatar_is_the_first_character_not_the_first_byte() {
    // `校園` is three bytes per character. Indexing the bytes and casting would not be `校`.
    const CASES: &[(&str, &str)] = &[
        ("Ada", "A"),
        ("github", "G"),
        ("校園資訊網路中心", "校"),
        ("émail", "É"),
        ("", ""),
    ];
    let mut failures = Vec::new();
    for (name, expect) in CASES {
        let got = initial(name);
        if got != *expect {
            failures.push(format!("{name:?}: got {got:?}, want {expect:?}"));
        }
    }
    assert!(failures.is_empty(), "{}", failures.join("\n"));
}

#[test]
fn an_uppercase_that_is_two_letters_is_both() {
    assert_eq!(initial("ßig"), "SS");
}

#[test]
fn a_sender_without_a_name_is_known_by_the_address() {
    assert_eq!(sender_initial(&Some("bea".to_owned()), "x@y.z"), "B");
    assert_eq!(sender_initial(&Some(String::new()), "x@y.z"), "X");
    assert_eq!(sender_initial(&None, "zed@y.z"), "Z");
}

#[test]
fn the_host_is_what_follows_the_last_at() {
    assert_eq!(host_of("ada@example.test"), "example.test");
    assert_eq!(host_of("a@b@mail.test"), "mail.test");
    assert_eq!(host_of("no-at-all"), "no-at-all");
    assert_eq!(host_of("trailing@"), "trailing@");
    assert_eq!(host_of(""), "");
}

use mail_app::ids::MessageId;
use mail_app::reader::{Shown, allowed, consent_line, remote_host, subject_of};

fn shown(id: u128, subject: &str, from: &str, remote: bool) -> Shown {
    Shown {
        id: MessageId(id),
        subject: subject.to_owned(),
        opened_subject: None,
        from_email: from.to_owned(),
        remote,
        frame_fetches: vec![format!("https://img.test/{id}.png")],
    }
}

#[test]
fn an_encrypted_subject_is_said_once_opened() {
    let mut first = shown(1, "...", "a@x.test", false);
    first.opened_subject = Some("Quarterly figures".to_owned());
    let second = shown(2, "Re: other", "b@x.test", false);
    assert_eq!(subject_of(&vec![second, first], "..."), "Quarterly figures");
    assert_eq!(subject_of(&vec![shown(3, "Hello", "c@x.test", false)], "Hello"), "Hello");
    assert_eq!(subject_of(&Vec::new(), "Gone"), "Gone");
}

#[test]
fn images_are_offered_only_when_a_message_has_some() {
    let plain = vec![shown(1, "s", "a@one.test", false), shown(2, "s", "b@two.test", false)];
    assert_eq!(remote_host(&plain), None);
    assert_eq!(consent_line(&remote_host(&plain), false), None);
    let blocked = vec![
        shown(1, "s", "a@one.test", true),
        shown(2, "s", "b@two.test", true),
        shown(3, "s", "c@three.test", false),
    ];
    let host = remote_host(&blocked);
    assert_eq!(host.as_deref(), Some("two.test"), "the last message with a remote image");
    let (words, offers) = consent_line(&host, false).expect("a line");
    assert!(offers);
    assert_eq!(words, "Remote images blocked \u{2014} loading them tells the sender you opened this");
    let (words, offers) = consent_line(&host, true).expect("a line");
    assert!(!offers, "shown images offer nothing");
    assert_eq!(words, "Showing remote images from two.test");
}

#[test]
fn the_consent_holds_each_message_s_own_list_only_while_shown() {
    let messages = vec![shown(1, "s", "a@x.test", true), shown(2, "s", "b@x.test", false)];
    assert!(allowed(&messages, false).is_none());
    let lists = allowed(&messages, true).expect("lists");
    assert_eq!(
        lists,
        vec![
            (MessageId(1), vec!["https://img.test/1.png".to_owned()]),
            (MessageId(2), vec!["https://img.test/2.png".to_owned()]),
        ]
    );
}
