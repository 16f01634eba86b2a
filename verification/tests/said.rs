//! What the reader says about a message's protection: every verdict in words, a bad one on the
//! danger ground.

use mail_app::said::{
    BadSignature, CertProblem, Coverage, Date, Encryption, Fingerprint, KeyTrust, PgpKey,
    Protected, Said, SmimeCert, SmimeEncryption, SmimeProtected, SmimeVerification, Tone,
    Verification, doubt, grouped, said, said_smime, short, ymd,
};

const BEA: &str = "bea@example.test";

fn said_line(tone: Tone, text: &str) -> Said {
    Said { tone, text: text.to_owned() }
}

fn fingerprint(byte: &str) -> Fingerprint {
    Fingerprint { hex: byte.repeat(20), key_id: byte.repeat(8) }
}

#[test]
fn every_verdict_is_said_in_words_and_a_bad_one_is_unmissable() {
    let signer = PgpKey {
        user_ids: vec!["Bea <bea@example.test>".to_owned()],
        emails: vec![BEA.to_owned()],
    };
    let protected = |encryption, verification| Protected {
        encryption,
        verification,
        signer: Some(signer.clone()),
    };
    let good = |trust, coverage| Verification::Good { signer: fingerprint("AB"), trust, coverage };
    let cases = [
        (
            "signed and good",
            protected(Encryption::NotEncrypted, good(KeyTrust::Unverified, Coverage::Whole)),
            vec![
                said_line(Tone::Plain, "Not encrypted"),
                said_line(
                    Tone::Good,
                    "Good signature by Bea <bea@example.test> · ABAB ABAB ABAB ABAB · not verified by you",
                ),
            ],
        ),
        (
            "verified",
            protected(Encryption::Decrypted, good(KeyTrust::Verified, Coverage::Whole)),
            vec![
                said_line(Tone::Good, "Encrypted, and decrypted for reading"),
                said_line(
                    Tone::Good,
                    "Good signature by Bea <bea@example.test> · ABAB ABAB ABAB ABAB · verified by you",
                ),
            ],
        ),
        (
            "bad",
            protected(Encryption::NotEncrypted, Verification::Bad { coverage: Coverage::Whole }),
            vec![
                said_line(Tone::Plain, "Not encrypted"),
                said_line(
                    Tone::Bad,
                    "Bad signature: the message was changed after it was signed, or the \
                     signature is forged",
                ),
            ],
        ),
        (
            "unknown key, part signed",
            protected(
                Encryption::NotEncrypted,
                Verification::UnknownKey { issuer: "12".repeat(8), coverage: Coverage::Part },
            ),
            vec![
                said_line(Tone::Plain, "Not encrypted"),
                said_line(
                    Tone::Unknown,
                    "Signed by key 1212 1212 1212 1212, which you do not have, so the \
                     signature cannot be checked",
                ),
                said_line(Tone::Unknown, "Only part of this message is signed; the rest could say anything"),
            ],
        ),
        (
            "encrypted to someone else",
            protected(Encryption::CannotDecrypt { to: vec!["34".repeat(8)] }, Verification::NoSignature),
            vec![
                said_line(
                    Tone::Unknown,
                    "Encrypted to keys you do not hold (3434 3434 3434 3434), so it cannot be \
                     read here",
                ),
                said_line(Tone::Plain, "Not signed"),
            ],
        ),
        (
            "unreadable",
            protected(Encryption::Unreadable { why: "tampered".to_owned() }, Verification::NoSignature),
            vec![
                said_line(Tone::Bad, "Encrypted, and could not be read: tampered"),
                said_line(Tone::Plain, "Not signed"),
            ],
        ),
    ];
    for (case, given, want) in cases {
        assert_eq!(said(&given), want, "{case}");
    }
    // Three looks, three classes: good, unknown and bad never share one.
    let classes = [Tone::Good, Tone::Unknown, Tone::Bad].map(Tone::class);
    assert_eq!(classes, ["seal-line good", "seal-line unknown", "seal-line bad"]);
}

fn day(year: i32, month: u32, day: u32) -> Date {
    Date { year, month, day }
}

fn signer() -> SmimeCert {
    SmimeCert {
        subject: "CN=Bea".to_owned(),
        issuer: "CN=Example Test Mail CA,O=Example".to_owned(),
        emails: vec![BEA.to_owned()],
        not_before: day(2026, 1, 1),
        not_after: day(2028, 1, 1),
    }
}

fn smime(encryption: SmimeEncryption, verification: SmimeVerification) -> SmimeProtected {
    SmimeProtected { encryption, verification, signer: Some(signer()) }
}

const DETAIL: &str = "Certificate of CN=Bea · bea@example.test · issued by CN=Example Test Mail \
                      CA,O=Example · valid 2026-01-01 to 2028-01-01";

#[test]
fn every_smime_verdict_is_said_in_words_and_a_changed_or_forged_one_is_unmissable() {
    let whole = Coverage::Whole;
    let bad = |why| SmimeVerification::Bad { why, coverage: whole };
    let cases = [
        (
            "good",
            smime(SmimeEncryption::NotEncrypted, SmimeVerification::Good { coverage: whole }),
            vec![
                said_line(Tone::Plain, "Not encrypted"),
                said_line(
                    Tone::Good,
                    "Good S/MIME signature by bea@example.test, from a certificate an \
                     authority you trust issued",
                ),
                said_line(Tone::Detail, DETAIL),
            ],
        ),
        (
            "altered",
            smime(SmimeEncryption::Decrypted, bad(BadSignature::Altered)),
            vec![
                said_line(Tone::Good, "Encrypted with S/MIME, and decrypted for reading"),
                said_line(Tone::Bad, "Bad S/MIME signature: the message was changed after it was signed"),
                said_line(Tone::Detail, DETAIL),
            ],
        ),
        (
            "forged",
            smime(SmimeEncryption::NotEncrypted, bad(BadSignature::Forged)),
            vec![
                said_line(Tone::Plain, "Not encrypted"),
                said_line(
                    Tone::Bad,
                    "Bad S/MIME signature: it does not match its certificate, so it is forged \
                     or damaged",
                ),
                said_line(Tone::Detail, DETAIL),
            ],
        ),
        (
            "weak",
            smime(SmimeEncryption::NotEncrypted, bad(BadSignature::Weak { algorithm: "SHA-1".to_owned() })),
            vec![
                said_line(Tone::Plain, "Not encrypted"),
                said_line(Tone::Warn, "S/MIME signature made with SHA-1, which is too weak to mean anything now"),
                said_line(Tone::Detail, DETAIL),
            ],
        ),
        (
            "unsupported",
            smime(
                SmimeEncryption::NotEncrypted,
                bad(BadSignature::Unsupported { algorithm: "Ed448".to_owned() }),
            ),
            vec![
                said_line(Tone::Plain, "Not encrypted"),
                said_line(Tone::Unknown, "S/MIME signature made with Ed448, which this client does not check"),
                said_line(Tone::Detail, DETAIL),
            ],
        ),
        (
            "malformed",
            smime(SmimeEncryption::NotEncrypted, bad(BadSignature::Malformed { why: "no digest".to_owned() })),
            vec![
                said_line(Tone::Plain, "Not encrypted"),
                said_line(Tone::Warn, "S/MIME signature that cannot be read: no digest"),
                said_line(Tone::Detail, DETAIL),
            ],
        ),
        (
            "unknown signer, part signed",
            SmimeProtected {
                signer: None,
                ..smime(
                    SmimeEncryption::NotEncrypted,
                    SmimeVerification::UnknownSigner { coverage: Coverage::Part },
                )
            },
            vec![
                said_line(Tone::Plain, "Not encrypted"),
                said_line(
                    Tone::Unknown,
                    "Signed with S/MIME by a certificate neither the message nor you hold, so \
                     the signature cannot be checked",
                ),
                said_line(Tone::Unknown, "Only part of this message is signed; the rest could say anything"),
            ],
        ),
        (
            "encrypted to someone else",
            SmimeProtected {
                signer: None,
                ..smime(
                    SmimeEncryption::CannotDecrypt { to: vec!["CN=Cara, serial 07".to_owned()] },
                    SmimeVerification::NoSignature,
                )
            },
            vec![
                said_line(
                    Tone::Unknown,
                    "Encrypted with S/MIME to certificates you hold no key for (CN=Cara, serial \
                     07), so it cannot be read here",
                ),
                said_line(Tone::Plain, "Not signed"),
            ],
        ),
        (
            "unreadable",
            smime(SmimeEncryption::Unreadable { why: "tampered".to_owned() }, SmimeVerification::NoSignature),
            vec![
                said_line(Tone::Bad, "Encrypted with S/MIME, and could not be read: tampered"),
                said_line(Tone::Plain, "Not signed"),
            ],
        ),
    ];
    for (case, given, want) in cases {
        assert_eq!(said_smime(&given), want, "{case}");
    }
}

#[test]
fn each_certificate_problem_is_named_in_amber_and_says_what_it_means() {
    let cases = [
        (
            CertProblem::Untrusted,
            "Untrusted: no authority you trust issued its certificate, so anyone could have \
             made it. Trust it in Keys and certificates only after checking it with its owner",
        ),
        (
            CertProblem::Expired { not_after: day(2025, 1, 1) },
            "Expired: a certificate in its chain stopped being valid on 2025-01-01, before the \
             message says it was signed",
        ),
        (
            CertProblem::NotYetValid { not_before: day(2027, 1, 1) },
            "Not yet valid: a certificate in its chain was not valid until 2027-01-01, after \
             the message says it was signed",
        ),
        (
            CertProblem::NotForEmail,
            "Not for mail: its certificate was issued for something other than signing mail",
        ),
        (
            CertProblem::NotFrom { from: "mallory@example.test".to_owned() },
            "Signed with a certificate for someone else's address: it is not for \
             mallory@example.test, who the message says it is from",
        ),
        (
            CertProblem::NotFrom { from: String::new() },
            "The message names no sender to check its certificate against",
        ),
    ];
    for (problem, words) in cases {
        assert_eq!(doubt(&problem), words);
        let said = said_smime(&smime(
            SmimeEncryption::NotEncrypted,
            SmimeVerification::Doubtful { problems: vec![problem.clone()], coverage: Coverage::Whole },
        ));
        assert_eq!(
            said,
            vec![
                said_line(Tone::Plain, "Not encrypted"),
                said_line(
                    Tone::Warn,
                    "S/MIME signature by bea@example.test: the message is as it was signed, \
                     but the certificate does not vouch for the sender",
                ),
                said_line(Tone::Warn, words),
                said_line(Tone::Detail, DETAIL),
            ],
            "{problem:?}"
        );
    }
    // Amber, and never the danger ground or the good one.
    assert_eq!(Tone::Warn.class(), "seal-line warn");
    assert_eq!(Tone::Detail.class(), "seal-line detail");
}

#[test]
fn a_fingerprint_is_read_in_groups_of_four() {
    assert_eq!(grouped("ABCDEF0123456789"), "ABCD EF01 2345 6789");
    assert_eq!(grouped("ABCDE"), "ABCD E");
    assert_eq!(grouped(""), "");
    assert_eq!(short(&fingerprint("CD")), "CDCD CDCD CDCD CDCD");
    assert_eq!(ymd(day(987, 3, 4)), "0987-03-04");
}
