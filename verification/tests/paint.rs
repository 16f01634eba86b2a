//! Painting a Space: the head and a switch write the same pairs, a switch fades as it says, and
//! Postmark leaves the accent to the stylesheet.

use mail_app::paint::{
    CardAccent, Fade, Palette, Space, Theme, appearance_script, frame_pairs, paint_script,
};

/// One JSON string at the start of `rest`, and what follows it.
fn string_at(rest: &str) -> (String, &str) {
    let mut stream = serde_json::Deserializer::from_str(rest).into_iter::<String>();
    let value = match stream.next() {
        Some(Ok(value)) => value,
        other => panic!("not a JSON string at {rest:.40}: {other:?}"),
    };
    let used = stream.byte_offset();
    (value, &rest[used..])
}

/// Every `style.setProperty(name, value)` in `script`, in order, with the quoting undone.
fn set_properties(script: &str) -> Vec<(String, String)> {
    const CALL: &str = "document.documentElement.style.setProperty(";
    let mut out = Vec::new();
    let mut rest = script;
    while let Some(at) = rest.find(CALL) {
        let (name, after) = string_at(&rest[at + CALL.len()..]);
        let after = after
            .strip_prefix(", ")
            .unwrap_or_else(|| panic!("no second argument after {name}"));
        let (value, after) = string_at(after);
        assert!(after.starts_with(");"), "{name}: {after:.20}");
        out.push((name, value));
        rest = after;
    }
    out
}

fn palette(seed: &str) -> Palette {
    Palette {
        ink: format!("#1{seed}"),
        soft: format!("#2{seed}"),
        faint: format!("#3{seed}"),
        pill: format!("#4{seed}"),
        hover: format!("#5{seed}"),
        accent: format!("#6{seed}"),
        accent_soft: format!("#7{seed}"),
        accent_ink: format!("#8{seed}"),
        stops: vec![format!("#9{seed}"), format!("#a{seed}")],
        gradient: format!("linear-gradient(135deg, #9{seed} 0%, #a{seed} 100%)"),
    }
}

fn default_space() -> Space {
    Space {
        theme: Theme::System,
        card_accent: CardAccent::Hint,
        grain: 35,
        motion: "full".to_owned(),
        light: palette("11"),
        dark: palette("22"),
    }
}

fn spaces() -> Vec<(&'static str, Space)> {
    vec![
        ("system hint", default_space()),
        (
            "dark postmark",
            Space {
                theme: Theme::Dark,
                card_accent: CardAccent::Postmark,
                grain: 70,
                light: palette("33"),
                dark: palette("44"),
                ..default_space()
            },
        ),
        (
            "light hint",
            Space {
                theme: Theme::Light,
                motion: "calm".to_owned(),
                light: palette("55"),
                dark: palette("66"),
                ..default_space()
            },
        ),
        (
            "system postmark",
            Space {
                card_accent: CardAccent::Postmark,
                light: palette("77"),
                dark: palette("88"),
                ..default_space()
            },
        ),
    ]
}

#[test]
fn the_head_and_a_switch_set_the_same_pairs() {
    // Read back out of the two scripts, not compared as strings: the scripts differ on
    // purpose (the switch fades), and what must not differ is what each writes.
    for (name, space) in spaces() {
        let head = set_properties(&appearance_script(&space));
        for fade in [Fade::Cross, Fade::Straight] {
            let runtime = set_properties(&paint_script(&space, fade));
            assert_eq!(head, runtime, "{name} {fade:?}");
        }
        assert_eq!(head, frame_pairs(&space), "{name}");
        assert!(!head.is_empty(), "{name}: nothing was painted");
    }
}

#[test]
fn a_switch_sets_the_new_spaces_quoted_gradient() {
    let space = Space {
        theme: Theme::Dark,
        dark: Palette {
            gradient: "linear-gradient(135deg, oklch(0.7 0.1 152) 0%, oklch(0.6 0.1 62) 100%)"
                .to_owned(),
            ..palette("99")
        },
        ..default_space()
    };
    let quoted = serde_json::to_string(&space.dark.gradient).expect("a string serializes");
    let script = paint_script(&space, Fade::Cross);
    let needle = format!("setProperty(\"--f-grad\", {quoted});");
    assert!(script.contains(&needle), "{script}");
    assert!(script.contains("document.documentElement.dataset.theme = \"dark\";"), "{script}");
}

#[test]
fn a_crossfade_freezes_the_old_layer_and_fades_the_other_in() {
    let space = default_space();
    let cross = paint_script(&space, Fade::Cross);
    let freeze = cross
        .find("layers[front].style.background = getComputedStyle")
        .unwrap_or_else(|| panic!("the old gradient is not frozen:\n{cross}"));
    let tokens = cross
        .find("setProperty(\"--f-grad")
        .unwrap_or_else(|| panic!("no gradient:\n{cross}"));
    let fade = cross
        .find("layers[next].style.opacity = \"1\"")
        .unwrap_or_else(|| panic!("nothing fades in:\n{cross}"));
    assert!(
        freeze < tokens && tokens < fade,
        "freeze {freeze}, tokens {tokens}, fade {fade}: the old gradient has to be copied \
         before the tokens change, and the new layer shown after"
    );
    assert!(cross.contains("layers[front].style.opacity = \"0\""), "{cross}");

    let live = paint_script(&space, Fade::Straight);
    assert!(!live.contains("style.opacity"), "the live preview fades: {live}");
    assert!(
        live.contains("layers[front].style.background = \"\""),
        "a live repaint leaves a frozen gradient on the front layer: {live}"
    );
}

#[test]
fn postmark_writes_no_accent_and_clears_the_system_rule() {
    let hint = appearance_script(&default_space());
    let postmark = appearance_script(&Space {
        card_accent: CardAccent::Postmark,
        ..default_space()
    });
    let named = |script: &str, prefix: &str| {
        set_properties(script)
            .into_iter()
            .any(|(name, _)| name.starts_with(prefix))
    };
    assert!(named(&hint, "--f-accent-l"), "{hint}");
    assert!(hint.contains("--accent:var(--f-accent-l)"), "{hint}");
    assert!(!named(&postmark, "--f-accent"), "{postmark}");
    assert!(!named(&postmark, "--accent"), "{postmark}");
    assert!(
        postmark.contains("node.textContent = \"\";"),
        "Postmark left a Space's accent rule in place: {postmark}"
    );
}

#[test]
fn grain_is_written_as_an_opacity() {
    // The stored 0–100 times 0.20 in the light frame and 0.16 in the dark one.
    assert_eq!(mail_app::paint::grain_opacity(35, false), "0.07");
    assert_eq!(mail_app::paint::grain_opacity(35, true), "0.056");
    assert_eq!(mail_app::paint::grain_opacity(100, false), "0.2");
    assert_eq!(mail_app::paint::grain_opacity(100, true), "0.16");
    assert_eq!(mail_app::paint::grain_opacity(0, true), "0");
}

#[test]
fn an_explicit_theme_is_one_frame_and_system_is_both() {
    assert_eq!(mail_app::paint::dark_of(Theme::Light), Some(false));
    assert_eq!(mail_app::paint::dark_of(Theme::Dark), Some(true));
    assert_eq!(mail_app::paint::dark_of(Theme::System), None);
    let system = frame_pairs(&default_space());
    assert!(system.iter().any(|(name, _)| name == "--f-ink-l"));
    assert!(system.iter().any(|(name, _)| name == "--f-ink-d"));
    let dark = frame_pairs(&Space { theme: Theme::Dark, ..default_space() });
    assert!(dark.iter().any(|(name, value)| name == "--f-ink" && value == "#122"));
}

#[test]
fn a_property_is_set_with_both_halves_quoted() {
    let line = mail_app::paint::set("--f-ink", "#fff\"");
    assert_eq!(
        line,
        "document.documentElement.style.setProperty(\"--f-ink\", \"#fff\\\"\");"
    );
}

#[test]
fn a_value_cannot_close_the_call_it_is_set_in() {
    let value = "red\"); alert(1); (\"\\\n\u{1}";
    assert_eq!(
        mail_app::paint::set("--accent", value),
        "document.documentElement.style.setProperty(\"--accent\", \"red\\\"); alert(1); (\\\"\\\\\\n\\u0001\");"
    );
    let set_line = mail_app::paint::set("--a\"b", "x");
    assert_eq!(set_line, "document.documentElement.style.setProperty(\"--a\\\"b\", \"x\");");
}
