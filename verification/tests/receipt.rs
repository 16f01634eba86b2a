//! Read receipts: what the bar says, what is kept, and what the toast says of an answer.

use mail_app::ids::{BlobId, MessageId};
use mail_app::receipt::{
    Cache, KEPT, Line, Outcome, Phase, ReceiptAnswer, ReceiptState, ReturnPath, Standing, press,
    sender, settle, toast_text,
};

fn ask(to: &str, return_path: ReturnPath) -> ReceiptState {
    ReceiptState::Pending { to: vec![to.to_owned()], return_path }
}

#[test]
fn the_bar_says_who_asks_and_warns_when_the_receipt_goes_elsewhere() {
    let asking = |state| Standing { message: MessageId(1), sender: "Ada".to_owned(), state };
    let sentence = "Ada asked to be told when you've read this.".to_owned();
    let cases = [
        (
            "agrees",
            ask("ada@example.test", ReturnPath::Agrees),
            Some(Line::Asking { sentence: sentence.clone(), warning: None }),
        ),
        (
            "no return path",
            ask("ada@example.test", ReturnPath::Unknown),
            Some(Line::Asking { sentence: sentence.clone(), warning: None }),
        ),
        (
            "differs",
            ask(
                "tracker@elsewhere.test",
                ReturnPath::Differs { return_path: "ada@example.test".to_owned() },
            ),
            Some(Line::Asking {
                sentence,
                warning: Some(
                    "The receipt would go to tracker@elsewhere.test, not to ada@example.test, \
                     where this message came from."
                        .to_owned(),
                ),
            }),
        ),
        ("sent", ReceiptState::Answered(ReceiptAnswer::Sent), Some(Line::Settled("Receipt sent"))),
        (
            "declined",
            ReceiptState::Answered(ReceiptAnswer::Declined),
            Some(Line::Settled("Receipt declined")),
        ),
        ("not asked", ReceiptState::NotAsked, None),
        ("headers only", ReceiptState::Unknown, None),
    ];
    for (case, state, want) in cases {
        assert_eq!(mail_app::receipt::line(&asking(state)), want, "{case}");
    }
}

#[test]
fn every_address_asked_for_is_named() {
    let standing = Standing {
        message: MessageId(1),
        sender: "Ada".to_owned(),
        state: ReceiptState::Pending {
            to: vec!["a@x.test".to_owned(), "b@x.test".to_owned()],
            return_path: ReturnPath::Differs { return_path: "ada@example.test".to_owned() },
        },
    };
    match mail_app::receipt::line(&standing) {
        Some(Line::Asking { warning: Some(w), .. }) => assert_eq!(
            w,
            "The receipt would go to a@x.test, b@x.test, not to ada@example.test, where this message came from."
        ),
        other => panic!("{other:?}"),
    }
}

#[test]
fn a_sender_is_named_unless_the_name_is_blank() {
    assert_eq!(sender(&Some("Ada".to_owned()), "ada@x.test"), "Ada");
    assert_eq!(sender(&Some("   ".to_owned()), "ada@x.test"), "ada@x.test");
    assert_eq!(sender(&None, "ada@x.test"), "ada@x.test");
}

#[test]
fn the_toast_is_the_first_line_with_a_capital() {
    assert_eq!(
        toast_text("queued a read receipt to ada@example.test\nRun `mailo sync` to send it."),
        "Queued a read receipt to ada@example.test"
    );
    assert_eq!(toast_text("  éclair\r\nmore"), "Éclair");
    assert_eq!(toast_text(""), "");
    assert_eq!(toast_text("\nsecond"), "");
}

fn standing(message: u128, state: ReceiptState) -> Standing {
    Standing { message: MessageId(message), sender: "Ada".to_owned(), state }
}

#[test]
fn what_is_kept_is_read_back_for_the_same_body_only() {
    let mut cache = Cache::new();
    let body = Some(BlobId(9));
    assert_eq!(cache.cached(&vec![(MessageId(1), body)]), None);
    cache.keep(MessageId(1), body, Some(standing(1, ReceiptState::NotAsked)));
    cache.keep(MessageId(2), None, None);
    let had = cache.cached(&vec![(MessageId(1), body), (MessageId(2), None)]).expect("both kept");
    assert_eq!(had, vec![standing(1, ReceiptState::NotAsked)]);
    // A body that arrives is a new key.
    assert_eq!(cache.cached(&vec![(MessageId(2), Some(BlobId(3)))]), None);
    // An answer replaces what was kept.
    cache.keep(MessageId(1), body, Some(standing(1, ReceiptState::Answered(ReceiptAnswer::Sent))));
    assert_eq!(
        cache.cached(&vec![(MessageId(1), body)]),
        Some(vec![standing(1, ReceiptState::Answered(ReceiptAnswer::Sent))])
    );
}

#[test]
fn the_oldest_goes_once_the_cache_is_full() {
    let mut cache = Cache::new();
    for n in 0..=KEPT as u128 {
        cache.keep(MessageId(n), None, None);
    }
    assert_eq!(cache.cached(&vec![(MessageId(0), None)]), None, "the oldest was kept past the cap");
    assert_eq!(cache.cached(&vec![(MessageId(1), None)]), Some(vec![]));
    assert_eq!(cache.cached(&vec![(MessageId(KEPT as u128), None)]), Some(vec![]));
}

#[test]
fn a_second_press_while_an_answer_is_given_sends_nothing() {
    let mut phase = Phase::Asking;
    assert!(press(&mut phase), "the first press gives the answer");
    assert!(phase.working());
    assert!(!press(&mut phase), "a second press cannot send twice");
    assert_eq!(phase, Phase::Working);
    let mut failed = Phase::Failed("no connection".to_owned());
    assert_eq!(failed.failed(), Some("no connection"));
    assert!(press(&mut failed), "after a failure the answer can be tried again");
}

#[test]
fn an_answer_given_settles_the_bar_and_one_refused_says_why() {
    let mut known = Some(vec![
        standing(1, ReceiptState::NotAsked),
        standing(2, ask("ada@example.test", ReturnPath::Agrees)),
    ]);
    let mut phase = Phase::Working;
    settle(&mut phase, &mut known, MessageId(2), ReceiptAnswer::Sent, Outcome::Given);
    assert_eq!(phase, Phase::Asking);
    let all = known.as_ref().unwrap();
    assert_eq!(all[1].state, ReceiptState::Answered(ReceiptAnswer::Sent));
    assert_eq!(all[0].state, ReceiptState::NotAsked);

    let mut phase = Phase::Working;
    settle(&mut phase, &mut known, MessageId(1), ReceiptAnswer::Declined, Outcome::Refused("the outbox is full".to_owned()));
    assert_eq!(phase, Phase::Failed("the outbox is full".to_owned()));
    assert_eq!(known.as_ref().unwrap()[0].state, ReceiptState::NotAsked, "a refused answer changes nothing kept");

    let mut phase = Phase::Working;
    settle(&mut phase, &mut known, MessageId(1), ReceiptAnswer::Sent, Outcome::Stopped("task cancelled".to_owned()));
    assert_eq!(phase.failed(), Some("The answer stopped before it was given: task cancelled"));
}
