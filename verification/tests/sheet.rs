//! The keys sheet's order and words.

use mail_app::sheet::{Busy, Done, Sheet, job_done, start_job, stopped};
use mail_app::said::Date;
use mail_app::sheet::{
    CertSource, Deleting, KeySource, Listed, Moment, SecretHeld, Stamp, cert_meta, cert_source,
    delete_cert_warning, delete_key_warning, delete_press, export_warning, key_meta, key_source,
    lifetime, ordered, row_class, validity,
};

fn listed(n: u8, secret: SecretHeld) -> Listed<u8> {
    Listed { secret, item: n }
}

#[test]
fn the_users_own_keys_come_first() {
    let listed = ordered(vec![
        listed(1, SecretHeld::Absent),
        listed(2, SecretHeld::Held),
        listed(3, SecretHeld::Absent),
        listed(4, SecretHeld::Held),
    ]);
    let order: Vec<u8> = listed.iter().map(|k| k.item).collect();
    assert_eq!(order, [2, 4, 1, 3]);
}

#[test]
fn the_users_own_certificates_come_first() {
    let listed = ordered(vec![
        listed(9, SecretHeld::Held),
        listed(5, SecretHeld::Absent),
        listed(7, SecretHeld::Held),
    ]);
    let order: Vec<u8> = listed.iter().map(|k| k.item).collect();
    assert_eq!(order, [9, 7, 5]);
}

fn at(secs: i64) -> Moment {
    Moment { secs, nanos: 0 }
}

fn stamp(secs: i64, year: i32, month: u32, day: u32) -> Stamp {
    Stamp { at: at(secs), day: Date { year, month, day } }
}

#[test]
fn a_keys_dates_are_said_as_far_as_they_are_known() {
    let now = at(1_000);
    let made = stamp(10, 2026, 1, 2);
    let later = stamp(5_000, 2029, 3, 4);
    let gone = stamp(999, 2026, 5, 6);
    assert_eq!(lifetime(Some(made), Some(later), now), ["created 2026-01-02", "expires 2029-03-04"]);
    assert_eq!(lifetime(Some(made), None, now), ["created 2026-01-02", "does not expire"]);
    assert_eq!(lifetime(None, Some(gone), now), ["expired 2026-05-06"]);
    assert_eq!(lifetime(Some(made), Some(stamp(1_000, 2026, 7, 8)), now), ["created 2026-01-02", "expired 2026-07-08"]);
    assert!(lifetime(None, None, now).is_empty(), "dates never read say nothing");
}

#[test]
fn a_certificate_s_span_is_said() {
    let from = stamp(100, 2026, 1, 1);
    let to = stamp(200, 2028, 1, 1);
    assert_eq!(validity(from, to, at(150)), "valid 2026-01-01 to 2028-01-01");
    assert_eq!(validity(from, to, at(201)), "expired 2028-01-01");
    assert_eq!(validity(from, to, at(99)), "valid from 2026-01-01");
}

#[test]
fn where_a_key_came_from_is_said() {
    assert_eq!(key_source(KeySource::Gossip), "passed on by someone else");
    assert_eq!(key_source(KeySource::Generated), "made here");
    assert_eq!(cert_source(CertSource::Received), "from their signed mail");
}

#[test]
fn deleting_a_key_with_its_secret_is_asked_again_first_and_one_without_goes_at_once() {
    assert_eq!(delete_press(SecretHeld::Held), Deleting::AskFirst);
    assert_eq!(delete_press(SecretHeld::Absent), Deleting::DeleteNow);
    let asked = delete_key_warning("ABCD 1234");
    assert!(asked.starts_with("Deleting ABCD 1234 also deletes its secret key"), "{asked}");
    let asked = delete_cert_warning("EF01");
    assert!(asked.contains("also deletes its private key"), "{asked}");
    let asked = export_warning("ABCD");
    assert!(asked.starts_with("This writes the secret half of ABCD to a file."), "{asked}");
}

#[test]
fn the_users_own_rows_stand_out() {
    assert_eq!(row_class(true), "keys-row mine");
    assert_eq!(row_class(false), "keys-row");
}

#[test]
fn a_key_row_says_what_is_known_of_its_key() {
    let emails = vec!["me@example.test".to_owned(), "me@work.test".to_owned()];
    let made = stamp(10, 2026, 1, 2);
    let added = Date { year: 2026, month: 2, day: 3 };
    let line = key_meta(&emails, Some(made), None, at(1_000), added, KeySource::Generated, false, true);
    assert_eq!(
        line,
        "me@example.test, me@work.test \u{b7} created 2026-01-02 \u{b7} does not expire \u{b7} added 2026-02-03 \u{b7} made here \u{b7} not verified \u{b7} secret key held here"
    );
    let line = key_meta(&Vec::new(), None, None, at(1_000), added, KeySource::Wkd, true, false);
    assert_eq!(line, "added 2026-02-03 \u{b7} from its domain \u{b7} verified by you", "a key with no address and no dates says only the rest");
}

#[test]
fn a_certificate_row_says_what_is_known_of_its_certificate() {
    let emails = vec!["me@example.test".to_owned()];
    let from = stamp(100, 2026, 1, 1);
    let to = stamp(200, 2028, 1, 1);
    let line = cert_meta(&emails, from, to, at(150), "CN=Example Test Mail CA", CertSource::Identity, false, true);
    assert_eq!(
        line,
        "me@example.test \u{b7} valid 2026-01-01 to 2028-01-01 \u{b7} issued by CN=Example Test Mail CA \u{b7} your identity \u{b7} not trusted by you \u{b7} private key held here"
    );
    let line = cert_meta(&emails, from, to, at(150), "CN=CA", CertSource::Imported, true, false);
    assert!(line.ends_with("imported \u{b7} trusted by you"), "{line}");
}

#[test]
fn an_instant_is_named_by_its_day_in_utc() {
    // 2015-05-15 00:00:00 UTC.
    let secs = 1_431_648_000;
    assert_eq!(Stamp::utc(secs, 0), Some(stamp(secs, 2015, 5, 15)));
    assert_eq!(Stamp::utc(secs - 1, 999_999_999).map(|s| s.day), Some(Date { year: 2015, month: 5, day: 14 }), "a moment earlier is the day before");
    assert_eq!(Stamp::utc(0, 0).map(|s| s.day), Some(Date { year: 1970, month: 1, day: 1 }));
    assert_eq!(mail_app::said::date_of(951_782_400), Some(Date { year: 2000, month: 2, day: 29 }));
    assert_eq!(Stamp::utc(i64::MAX, 0), None, "an instant chrono cannot hold is no day");
    assert_eq!(mail_app::said::date_of(-62_167_219_201), Some(Date { year: -1, month: 12, day: 31 }), "the day before the year 0");
    let created = Stamp::utc(secs, 0).unwrap();
    assert_eq!(lifetime(Some(created), None, at(secs)), ["created 2015-05-15", "does not expire"]);
}

#[test]
fn a_key_expires_only_once_its_moment_has_come() {
    let made = stamp(10, 2026, 1, 2);
    let ends = Stamp { at: Moment { secs: 1_000, nanos: 700 }, day: Date { year: 2026, month: 7, day: 8 } };
    let before = Moment { secs: 1_000, nanos: 300 };
    let after = Moment { secs: 1_000, nanos: 701 };
    assert_eq!(lifetime(Some(made), Some(ends), before), ["created 2026-01-02", "expires 2026-07-08"], "within the same second, still before");
    assert_eq!(lifetime(Some(made), Some(ends), ends.at), ["created 2026-01-02", "expired 2026-07-08"], "at its moment it has expired");
    assert_eq!(lifetime(Some(made), Some(ends), after), ["created 2026-01-02", "expired 2026-07-08"]);
    let from = Stamp { at: Moment { secs: 100, nanos: 500 }, day: Date { year: 2026, month: 1, day: 1 } };
    let to = Stamp { at: Moment { secs: 200, nanos: 500 }, day: Date { year: 2028, month: 1, day: 1 } };
    assert_eq!(validity(from, to, Moment { secs: 100, nanos: 499 }), "valid from 2026-01-01");
    assert_eq!(validity(from, to, Moment { secs: 200, nanos: 500 }), "valid 2026-01-01 to 2028-01-01");
    assert_eq!(validity(from, to, Moment { secs: 200, nanos: 501 }), "expired 2028-01-01");
}

#[test]
fn years_past_four_digits_or_before_zero_carry_their_sign() {
    assert_eq!(mail_app::said::ymd(Date { year: 10_000, month: 1, day: 2 }), "+10000-01-02");
    assert_eq!(mail_app::said::ymd(Date { year: -1, month: 12, day: 31 }), "-0001-12-31");
    assert_eq!(mail_app::said::ymd(Date { year: 42, month: 3, day: 4 }), "0042-03-04");
    assert_eq!(mail_app::said::ymd(Date { year: 9_999, month: 12, day: 31 }), "9999-12-31");
}

#[test]
fn the_sheet_runs_one_job_at_a_time() {
    let mut sheet = Sheet { busy: Busy::Idle, said: Some(Ok("Key imported".to_owned())) };
    assert!(start_job(&mut sheet));
    assert_eq!(sheet, Sheet { busy: Busy::Working, said: None });
    assert!(!start_job(&mut sheet), "a second job waits for the first");
    assert_eq!(sheet.busy, Busy::Working);
    assert_eq!(job_done(&mut sheet, Ok(Done::Said("Made a key".to_owned()))), None);
    assert_eq!(sheet, Sheet { busy: Busy::Idle, said: Some(Ok("Made a key".to_owned())) });
    assert!(start_job(&mut sheet));
    assert_eq!(job_done(&mut sheet, Ok(Done::Password("/tmp/id.p12".to_owned()))), Some("/tmp/id.p12".to_owned()));
    assert_eq!(sheet.busy, Busy::Idle);
    assert!(start_job(&mut sheet));
    job_done(&mut sheet, Err(stopped("cancelled")));
    assert_eq!(sheet.said, Some(Err("It stopped before it finished: cancelled".to_owned())));
}
