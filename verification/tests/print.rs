//! Printing: what a print window does next, the one print at a time, what the toast says, and
//! how a printout is put on paper.

use mail_app::ids::ThreadId;
use mail_app::paper::{
    Cjk, LocaleVars, PageSize, Paper, Printed, cjk_of, for_paper, locale, paper_css, stack,
    territory, title,
};
use mail_app::print::{
    Heard, Job, LOAD_LIMIT_MS, Move, Pages, Phase, PrintOutcome, PrintWindows, Printer, decide,
    job_for, refuse_when_held, said,
};

#[test]
fn a_print_window_closes_when_it_is_done_and_not_before() {
    let limit = 600_000;
    let heard = |loaded: bool, finished: bool, failed: Option<&str>| Heard {
        loaded,
        finished,
        failed: failed.map(str::to_owned),
    };
    let secs = |s: u64| s * 1000;
    let cases: Vec<(&str, Phase, Heard, u64, Move)> = vec![
        ("still loading", Phase::Loading, heard(false, false, None), secs(1), Move::Wait),
        ("loaded", Phase::Loading, heard(true, false, None), secs(1), Move::Print),
        (
            "never loaded",
            Phase::Loading,
            heard(false, false, None),
            secs(31),
            Move::Close(Err("The printout did not load, so nothing was printed.".to_owned())),
        ),
        ("printing", Phase::Printing, heard(true, false, None), secs(5), Move::Wait),
        ("finished", Phase::Printing, heard(true, true, None), secs(5), Move::Close(Ok(()))),
        ("past the limit", Phase::Printing, heard(true, false, None), secs(601), Move::Close(Ok(()))),
        (
            "failed",
            Phase::Printing,
            heard(true, true, Some("no printer")),
            secs(5),
            Move::Close(Err("Printing failed: no printer".to_owned())),
        ),
    ];
    let mut failures = Vec::new();
    for (name, phase, heard, elapsed, expect) in cases {
        let got = decide(phase, &heard, elapsed, limit);
        if got != expect {
            failures.push(format!("{name}: got {got:?}, want {expect:?}"));
        }
    }
    assert!(failures.is_empty(), "{}", failures.join("\n"));
    assert_eq!(LOAD_LIMIT_MS, 30_000);
}

fn vars(pairs: &[(&str, &str)]) -> LocaleVars {
    let get = |name: &str| pairs.iter().find(|(var, _)| *var == name).map(|(_, v)| (*v).to_owned());
    LocaleVars {
        lc_all: get("LC_ALL"),
        lc_paper: get("LC_PAPER"),
        lc_ctype: get("LC_CTYPE"),
        lang: get("LANG"),
    }
}

#[test]
fn the_locale_chooses_the_paper_and_the_cjk_face() {
    type Vars = &'static [(&'static str, &'static str)];
    let cases: &[(Vars, PageSize, Cjk)] = &[
        (&[], PageSize::A4, Cjk::Tc),
        (&[("LANG", "C.UTF-8")], PageSize::A4, Cjk::Tc),
        (&[("LANG", "en_US.UTF-8")], PageSize::Letter, Cjk::Tc),
        (&[("LANG", "en_GB.UTF-8")], PageSize::A4, Cjk::Tc),
        (&[("LANG", "zh_TW.UTF-8")], PageSize::A4, Cjk::Tc),
        (&[("LANG", "zh_CN.UTF-8")], PageSize::A4, Cjk::Sc),
        (&[("LANG", "zh_HK.UTF-8")], PageSize::A4, Cjk::Hk),
        (&[("LANG", "ja_JP.UTF-8")], PageSize::A4, Cjk::Jp),
        (&[("LANG", "ko_KR.UTF-8")], PageSize::A4, Cjk::Kr),
        (&[("LANG", "fr_CA.UTF-8")], PageSize::Letter, Cjk::Tc),
        // The category's own variable over LANG, and LC_ALL over both.
        (&[("LANG", "zh_TW.UTF-8"), ("LC_PAPER", "en_US.UTF-8")], PageSize::Letter, Cjk::Tc),
        (&[("LANG", "en_US.UTF-8"), ("LC_ALL", "ja_JP.UTF-8")], PageSize::A4, Cjk::Jp),
        (&[("LC_CTYPE", "zh_CN.UTF-8"), ("LANG", "en_US@euro")], PageSize::Letter, Cjk::Sc),
    ];
    let mut failures = Vec::new();
    for (pairs, size, cjk) in cases {
        let paper = Paper::from_locale(&vars(pairs));
        if paper.spec.size != *size || paper.cjk != *cjk {
            failures.push(format!(
                "{pairs:?}: got {:?} {:?}, want {size:?} {cjk:?}",
                paper.spec.size, paper.cjk
            ));
        }
        assert_eq!(paper.spec.margins, Paper::plain().spec.margins);
    }
    assert!(failures.is_empty(), "{}", failures.join("\n"));
}

#[test]
fn one_print_at_a_time() {
    let mut printer = Printer::new();
    assert!(printer.claim(), "a free printer");
    assert!(!printer.claim(), "a second print started");
    printer.release();
    assert!(printer.claim(), "the printer stayed taken");
    // What the second Print says is a sentence, not a code.
    let busy = refuse_when_held(&mut printer).expect("the printer is held");
    assert!(busy.ends_with('.'));
    assert_eq!(said(Ok(PrintOutcome::Cancelled)), "Printing cancelled; nothing was printed.");
}

#[test]
fn what_the_toast_says_of_each_ending() {
    assert_eq!(said(Ok(PrintOutcome::Printed)), "Sent to the printer.");
    assert_eq!(
        said(Ok(PrintOutcome::Opened("/tmp/Quarterly-1.pdf".to_owned()))),
        "There is no print dialog here, so the printout opened in your PDF viewer to \
         print from there: /tmp/Quarterly-1.pdf"
    );
    assert_eq!(
        said(Err("no viewer opened the PDF: xdg-open is missing".to_owned())),
        "Could not print: no viewer opened the PDF: xdg-open is missing"
    );
}

#[test]
fn ctrl_p_prints_the_open_thread_as_one_flow_and_nothing_else() {
    let thread = ThreadId(5);
    assert_eq!(job_for(None), None);
    assert_eq!(job_for(Some(thread)), Some(Job { thread, pages: Pages::Flow }));
}

#[test]
fn a_print_window_is_one_at_a_time() {
    let mut windows = PrintWindows::new();
    assert!(!windows.busy());
    assert_eq!(windows.open(), Ok(()));
    assert!(windows.busy());
    assert!(windows.open().is_err(), "a second window opened");
    windows.close();
    assert!(!windows.busy());
}

#[test]
fn the_locale_is_read_as_posix_reads_it() {
    let some = |s: &str| Some(s.to_owned());
    assert_eq!(locale(&some("ja_JP"), &some("en_US"), &some("fr_FR")), some("ja_JP"));
    assert_eq!(locale(&some(""), &some("en_US"), &some("fr_FR")), some("en_US"));
    assert_eq!(locale(&None, &None, &some("fr_FR")), some("fr_FR"));
    assert_eq!(locale(&None, &None, &None), None);
    assert_eq!(territory("en_US.UTF-8").as_deref(), Some("US"));
    assert_eq!(territory("C").as_deref(), None);
    assert_eq!(cjk_of("zh_HK.UTF-8"), Some(Cjk::Hk));
    assert_eq!(cjk_of("de_DE"), None);
}

#[test]
fn the_faces_are_named_latin_first_then_the_locale_s_cjk() {
    let s = stack(&["Noto Sans"], "Noto Sans CJK", Cjk::Jp, "sans-serif");
    assert!(s.starts_with("'Noto Sans', 'Noto Sans CJK JP', "), "{s}");
    assert!(s.ends_with(", sans-serif"), "{s}");
    assert_eq!(s.matches("Noto Sans CJK").count(), 5, "{s}");
    let css = paper_css(Cjk::Tc);
    assert!(css.starts_with("body { font-family: 'Georgia', 'Times New Roman', 'Noto Serif', 'Noto Serif CJK TC'"), "{css}");
}

#[test]
fn page_markers_go_only_on_the_builder_s_own_tags() {
    let html = "<html><head><title>t</title></head><body>\
                <article class=\"message new-page\"><header class=\"headers\">h</header>\
                <section class=\"attachments\">a</section></article>\
                <p>&lt;article class=\"message new-page\"&gt;</p></body></html>";
    let out = for_paper(html, Cjk::Tc);
    assert!(out.contains("<article class=\"message new-page\" data-break-before=\"page\">"), "{out}");
    assert!(out.contains("<header class=\"headers\" data-break-inside=\"avoid\">"), "{out}");
    assert!(out.contains("<section class=\"attachments\" data-break-inside=\"avoid\">"), "{out}");
    assert!(out.contains("<p>&lt;article class=\"message new-page\"&gt;</p>"), "{out}");
    assert!(out.contains("<style>\nbody { font-family: "), "{out}");
    assert!(out.find("<style>").unwrap() < out.find("</head>").unwrap());
    assert!(!out.contains("paper-note\">Pictures"), "no picture was left out");
}

#[test]
fn a_named_picture_adds_the_note_after_the_printed_line() {
    let html = "<html><head></head><body><p class=\"printed\">Printed today</p>\
                <p class=\"missing\">image.test</p></body></html>";
    let out = for_paper(html, Cjk::Kr);
    let printed = out.find("Printed today</p>").unwrap();
    let note = out.find("<p class=\"paper-note\">Pictures").expect("the note");
    assert!(printed < note && note < out.find("<p class=\"missing\">").unwrap(), "{out}");
}

#[test]
fn a_printout_is_titled_by_its_subject() {
    let printed = |subject: &str| Printed { html: String::new(), subject: subject.to_owned() };
    assert_eq!(title(&printed("  Quarterly  ")), "Quarterly");
    assert_eq!(title(&printed("   ")), "(no subject)");
}

#[test]
fn what_paper_adds_comes_off_and_gives_the_document_back() {
    let html = "<html><head><title>t</title></head><body><p class=\"printed\">Printed today</p>\
<article class=\"message new-page\"><header class=\"headers\">From</header>\
<p class=\"missing\">a.png</p><section class=\"attachments\">x</section></article>\
<p>&lt;article class=&quot;message new-page&quot;&gt;</p></body></html>";
    let out = for_paper(html, Cjk::Jp);
    let block = format!("<style>\n{}</style>\n", paper_css(Cjk::Jp));
    let note = "\n<p class=\"paper-note\">Pictures that are not part of the message are not printed; each is named where it appears.</p>";
    assert!(out.contains(&block) && out.contains(note), "{out}");
    let back = out
        .replacen(note, "", 1)
        .replacen(&block, "", 1)
        .replace(" data-break-before=\"page\"", "")
        .replace(" data-break-inside=\"avoid\"", "");
    assert_eq!(back, html);
}
