//! Painting a Space onto `<html>`: once in the head, and again whenever the Space changes.
//!
//! Both paths are built from [`frame_pairs`], so the first frame and a switch cannot disagree
//! about what a Space looks like. Every value inside a script is quoted as a JSON string: it is
//! an injection site even when it can only be a hex colour or a gradient.

use vstd::prelude::*;
use crate::text::{
    cat, cat3, dec, dec_chars, dec_padded, join, join_strings, lemma_map_prefix, lemma_views_push,
    string_of, views,
};
use crate::json::{json_string, law_a_json_string_reads_back_and_ends_at_its_quote, read_string};

verus! {

/// `serde_json::to_string` of a `&str`.
///
/// Claims that the result is the string as `serde_json` quotes and escapes it
/// ([`json_string`]: its compact formatter's `format_escaped_str`); serializing a string into
/// memory does not fail, so its `Err` is not reached.
#[verifier::external_body]
pub(crate) fn js(value: &str) -> (r: String)
    ensures
        r@ == json_string(value@),
{
    serde_json::to_string(value).unwrap_or_default()
}

/// The window's frame theme.
#[derive(Debug, Clone, Copy, PartialEq, Eq, Structural)]
pub enum Theme {
    Light,
    Dark,
    /// The desktop's setting decides, through `prefers-color-scheme`.
    System,
}

/// Whether a Space tints the cards' accent, or leaves the stylesheet's own.
#[derive(Debug, Clone, Copy, PartialEq, Eq, Structural)]
pub enum CardAccent {
    Hint,
    Postmark,
}

/// How the frame changes to the new Space.
#[derive(Debug, Clone, Copy, PartialEq, Eq, Structural)]
pub enum Fade {
    /// The old gradient stays on one layer while the new one fades in on the other.
    Cross,
    /// Straight to the new colours: the editor's live preview.
    Straight,
}

/// The colours a Space's dots derive for one frame, light or dark, each a CSS value.
#[derive(Debug, Clone)]
pub struct Palette {
    pub ink: String,
    pub soft: String,
    pub faint: String,
    pub pill: String,
    pub hover: String,
    pub accent: String,
    pub accent_soft: String,
    pub accent_ink: String,
    /// The gradient's stops; the first is the frame's solid colour.
    pub stops: Vec<String>,
    /// The gradient itself, as CSS.
    pub gradient: String,
}

/// A Space as the painter reads it: its theme, accent, grain and motion, and the palette its
/// dots derive in each frame.
#[derive(Debug, Clone)]
pub struct Space {
    pub theme: Theme,
    pub card_accent: CardAccent,
    /// Grain, stored 0–100.
    pub grain: u8,
    /// The motion level's name, as `data-motion` carries it.
    pub motion: String,
    pub light: Palette,
    pub dark: Palette,
}

/// The `data-theme` value of an explicit theme; System has none.
pub open spec fn attribute_spec(theme: Theme) -> Option<Seq<char>> {
    match theme {
        Theme::Light => Some("light"@),
        Theme::Dark => Some("dark"@),
        Theme::System => None,
    }
}

/// Whether `theme` is the dark frame; System is neither, and both palettes are written.
pub open spec fn dark_of_spec(theme: Theme) -> Option<bool> {
    match theme {
        Theme::Light => Some(false),
        Theme::Dark => Some(true),
        Theme::System => None,
    }
}

/// Whether `theme` is the dark frame. System returns `None`, so both palettes are written
/// instead of guessing the desktop's setting.
pub fn dark_of(theme: Theme) -> (r: Option<bool>)
    ensures
        r == dark_of_spec(theme),
{
    match theme {
        Theme::Light => Some(false),
        Theme::Dark => Some(true),
        Theme::System => None,
    }
}

/// The palette of the dark frame, or of the light one.
pub open spec fn palette_of(space: Space, dark: bool) -> Palette {
    if dark { space.dark } else { space.light }
}

/// The frame's solid colour: the gradient's first stop, else empty.
pub open spec fn solid_of(p: Palette) -> Seq<char> {
    if p.stops@.len() > 0 { p.stops@[0]@ } else { seq![] }
}

/// The hairline between rows in each frame.
pub open spec fn line_of(dark: bool) -> Seq<char> {
    if dark { "rgba(255,255,255,.09)"@ } else { "rgba(0,0,0,.08)"@ }
}

/// A custom property's name: `--`, the name, and the suffix.
pub open spec fn prop(name: Seq<char>, suffix: Seq<char>) -> Seq<char> {
    "--"@ + name + suffix
}

/// The name with its trailing zeros taken off.
pub open spec fn trim_zeros(s: Seq<char>) -> Seq<char>
    decreases s.len(),
{
    if s.len() > 0 && s.last() == '0' { trim_zeros(s.drop_last()) } else { s }
}

/// Grain as a CSS opacity: the stored value times 0.20 in the light and 0.16 in the dark,
/// written as a decimal with no trailing zeros.
pub open spec fn grain_spec(grain: u8, dark: bool) -> Seq<char> {
    let thousandths = grain as nat * if dark { 16nat } else { 20nat };
    let whole = thousandths / 10000;
    let frac = thousandths % 10000;
    if frac == 0 {
        dec(whole)
    } else {
        dec(whole) + "."@ + trim_zeros(dec_padded(frac, 4))
    }
}

/// The pairs one palette writes, in order.
pub open spec fn palette_pairs(space: Space, dark: bool, suffix: Seq<char>) -> Seq<(Seq<char>, Seq<char>)> {
    let p = palette_of(space, dark);
    seq![
        (prop("f-ink"@, suffix), p.ink@),
        (prop("f-ink-soft"@, suffix), p.soft@),
        (prop("f-ink-faint"@, suffix), p.faint@),
        (prop("f-pill"@, suffix), p.pill@),
        (prop("f-hover"@, suffix), p.hover@),
        (prop("f-line"@, suffix), line_of(dark)),
        (prop("f-solid"@, suffix), solid_of(p)),
        (prop("f-grad"@, suffix), p.gradient@),
        (prop("f-grain"@, suffix), grain_spec(space.grain, dark)),
    ]
}

/// The accent's name prefix: an explicit theme writes `--accent`, System `--f-accent-l` and
/// `--f-accent-d`, because `--accent` itself is what the media query assigns.
pub open spec fn accent_prefix(suffix: Seq<char>) -> Seq<char> {
    if suffix.len() == 0 { ""@ } else { "f-"@ }
}

/// The pairs one frame's accent writes, in order.
pub open spec fn accent_pairs(space: Space, dark: bool, suffix: Seq<char>) -> Seq<(Seq<char>, Seq<char>)> {
    let p = palette_of(space, dark);
    let prefix = accent_prefix(suffix);
    seq![
        (prop(prefix + "accent"@, suffix), p.accent@),
        (prop(prefix + "accent-soft"@, suffix), p.accent_soft@),
        (prop(prefix + "accent-ink"@, suffix), p.accent_ink@),
    ]
}

/// The custom properties `space` sets on `<html>`, in the order they are written.
pub open spec fn frame_pairs_spec(space: Space) -> Seq<(Seq<char>, Seq<char>)> {
    let hint = space.card_accent == CardAccent::Hint;
    match dark_of_spec(space.theme) {
        Some(dark) => palette_pairs(space, dark, ""@) + if hint {
            accent_pairs(space, dark, ""@)
        } else {
            seq![]
        },
        None => palette_pairs(space, false, "-l"@) + palette_pairs(space, true, "-d"@) + if hint {
            accent_pairs(space, false, "-l"@) + accent_pairs(space, true, "-d"@)
        } else {
            seq![]
        },
    }
}

/// A list of pairs as values.
pub open spec fn pairs_view(v: Seq<(String, String)>) -> Seq<(Seq<char>, Seq<char>)> {
    v.map_values(|p: (String, String)| (p.0@, p.1@))
}

/// Every custom property a Space may set inline, so a repaint can clear the last one's.
pub open spec fn names_spec() -> Seq<Seq<char>> {
    seq![
        "f-ink"@, "f-ink-soft"@, "f-ink-faint"@, "f-pill"@, "f-hover"@, "f-line"@, "f-solid"@,
        "f-grad"@, "f-grain"@, "accent"@, "accent-soft"@, "accent-ink"@,
        "f-ink-l"@, "f-ink-soft-l"@, "f-ink-faint-l"@, "f-pill-l"@, "f-hover-l"@, "f-line-l"@,
        "f-solid-l"@, "f-grad-l"@, "f-grain-l"@, "f-accent-l"@, "f-accent-soft-l"@,
        "f-accent-ink-l"@,
        "f-ink-d"@, "f-ink-soft-d"@, "f-ink-faint-d"@, "f-pill-d"@, "f-hover-d"@, "f-line-d"@,
        "f-solid-d"@, "f-grad-d"@, "f-grain-d"@, "f-accent-d"@, "f-accent-soft-d"@,
        "f-accent-ink-d"@,
    ]
}

fn names() -> (r: Vec<&'static str>)
    ensures
        r@.map_values(|s: &str| s@) == names_spec(),
{
    let v = vec![
        "f-ink", "f-ink-soft", "f-ink-faint", "f-pill", "f-hover", "f-line", "f-solid",
        "f-grad", "f-grain", "accent", "accent-soft", "accent-ink",
        "f-ink-l", "f-ink-soft-l", "f-ink-faint-l", "f-pill-l", "f-hover-l", "f-line-l",
        "f-solid-l", "f-grad-l", "f-grain-l", "f-accent-l", "f-accent-soft-l",
        "f-accent-ink-l",
        "f-ink-d", "f-ink-soft-d", "f-ink-faint-d", "f-pill-d", "f-hover-d", "f-line-d",
        "f-solid-d", "f-grad-d", "f-grain-d", "f-accent-d", "f-accent-soft-d",
        "f-accent-ink-d",
    ];
    assert(v@.map_values(|s: &str| s@) =~= names_spec());
    v
}

/// Under System with a hint of the Space, both accents exist and the media query picks.
pub open spec fn system_accent_spec() -> Seq<char> {
    ":root:not([data-theme]){--accent:var(--f-accent-l);--accent-soft:var(--f-accent-soft-l);--accent-ink:var(--f-accent-ink-l)}@media (prefers-color-scheme: dark){:root:not([data-theme]){--accent:var(--f-accent-d);--accent-soft:var(--f-accent-soft-d);--accent-ink:var(--f-accent-ink-d)}}"@
}

/// The page-level accent rule a Space needs: only System with a hint has one.
pub open spec fn rule_spec(space: Space) -> Seq<char> {
    if space.theme == Theme::System && space.card_accent == CardAccent::Hint {
        system_accent_spec()
    } else {
        ""@
    }
}

/// The statement that sets one custom property.
pub open spec fn set_spec(name: Seq<char>, value: Seq<char>) -> Seq<char> {
    "document.documentElement.style.setProperty("@ + json_string(name) + ", "@ + json_string(value) + ");"@
}

/// The opening of the call [`set_spec`] writes.
pub open spec fn set_open() -> Seq<char> {
    "document.documentElement.style.setProperty("@
}

/// No name or value can close the call or add a statement: what [`set`] writes is the call's
/// opening, then a JSON string that reads back as `name` and ends at its own quote, then `, `
/// and a JSON string that reads back as `value` and ends at its own quote, then `);` and nothing
/// more.
pub proof fn law_set_cannot_be_broken_out_of(name: Seq<char>, value: Seq<char>)
    ensures
        set_spec(name, value).subrange(0, set_open().len() as int) == set_open(),
        read_string(set_spec(name, value).subrange(set_open().len() as int, set_spec(name, value).len() as int))
            == Some((name, ", "@ + json_string(value) + ");"@)),
        read_string(json_string(value) + ");"@) == Some((value, ");"@)),
{
    let s = set_spec(name, value);
    let tail = ", "@ + json_string(value) + ");"@;
    assert(s =~= set_open() + (json_string(name) + tail));
    assert(s.subrange(0, set_open().len() as int) =~= set_open());
    assert(s.subrange(set_open().len() as int, s.len() as int) =~= json_string(name) + tail);
    law_a_json_string_reads_back_and_ends_at_its_quote(name, tail);
    law_a_json_string_reads_back_and_ends_at_its_quote(value, ");"@);
}

/// The statement that clears one custom property a Space may have set.
pub open spec fn remove_spec(name: Seq<char>) -> Seq<char> {
    "document.documentElement.style.removeProperty("@ + json_string("--"@ + name) + ");"@
}

/// What the accent rule's script says before and after the quoted rule.
pub open spec fn rule_head() -> Seq<char> {
    "(function () {\n  var put = function () {\n    var node = document.getElementById(\"mailo-frame\");\n    if (!node) {\n      node = document.createElement(\"style\");\n      node.id = \"mailo-frame\";\n      document.documentElement.appendChild(node);\n    }\n    node.textContent = "@
}

/// See [`rule_head`].
pub open spec fn rule_tail() -> Seq<char> {
    ";\n  };\n  if (document.readyState === \"loading\") { document.addEventListener(\"DOMContentLoaded\", put); } else { put(); }\n})();"@
}

/// The script that puts `rule` in the page's own `<style id="mailo-frame">`.
pub open spec fn accent_rule_spec(rule: Seq<char>) -> Seq<char> {
    rule_head() + json_string(rule) + rule_tail()
}

/// `data-motion` and `data-theme`; System deletes the theme attribute, so that
/// `prefers-color-scheme` decides.
pub open spec fn look_lines_spec(space: Space) -> Seq<Seq<char>> {
    seq![
        "document.documentElement.dataset.motion = "@ + json_string(space.motion@) + ";"@,
        match attribute_spec(space.theme) {
            Some(theme) => "document.documentElement.dataset.theme = "@ + json_string(theme) + ";"@,
            None => "delete document.documentElement.dataset.theme;"@,
        },
    ]
}

/// The statements that paint `space`'s tokens, after clearing any earlier Space's.
pub open spec fn token_lines_spec(space: Space) -> Seq<Seq<char>> {
    names_spec().map_values(|n: Seq<char>| remove_spec(n))
        + frame_pairs_spec(space).map_values(|p: (Seq<char>, Seq<char>)| set_spec(p.0, p.1))
        + seq![accent_rule_spec(rule_spec(space))]
}

/// Every statement either script runs to paint `space`, in order.
pub open spec fn lines_spec(space: Space) -> Seq<Seq<char>> {
    look_lines_spec(space) + token_lines_spec(space)
}

/// The head's script, before the first frame.
pub open spec fn appearance_script_spec(space: Space) -> Seq<char> {
    join(lines_spec(space), "\n"@)
}

/// The switch's script opens by finding the two gradient layers.
pub open spec fn paint_head() -> Seq<char> {
    "(function () {\n  var app = document.querySelector(\".app\");\n  var layers = app ? app.querySelectorAll(\".layer\") : [];\n  var front = app && app.dataset.front === \"1\" ? 1 : 0;\n"@
}

/// What a switch does to the front layer before the tokens change.
pub open spec fn before_spec(fade: Fade) -> Seq<char> {
    match fade {
        Fade::Cross => "  if (layers.length === 2) {\n    layers[front].style.background = getComputedStyle(layers[front]).backgroundImage;\n  }"@,
        Fade::Straight => "  if (layers.length === 2) {\n    layers[front].style.background = \"\";\n  }"@,
    }
}

/// What a switch does to the layers after the tokens change.
pub open spec fn after_spec(fade: Fade) -> Seq<char> {
    match fade {
        Fade::Cross => "  if (layers.length === 2) {\n    var next = 1 - front;\n    layers[next].style.background = \"\";\n    layers[next].style.transition = \"none\";\n    layers[next].style.opacity = \"0\";\n    void layers[next].offsetWidth;\n    layers[next].style.transition = \"\";\n    layers[next].style.opacity = \"1\";\n    layers[front].style.opacity = \"0\";\n    app.dataset.front = String(next);\n  }"@,
        Fade::Straight => ""@,
    }
}

/// A line of the switch's body, indented under its function.
pub open spec fn indented(lines: Seq<Seq<char>>) -> Seq<Seq<char>> {
    lines.map_values(|l: Seq<char>| "  "@ + l)
}

/// The script a switch or a live edit evaluates.
pub open spec fn paint_script_spec(space: Space, fade: Fade) -> Seq<char> {
    paint_head() + before_spec(fade) + "\n"@ + join(indented(lines_spec(space)), "\n"@) + "\n"@
        + after_spec(fade) + "\n})();"@
}

/// The head and a switch paint alike: both scripts run the same statements in the same order
/// (the switch indents them in its function), and the statements that set properties are
/// exactly [`frame_pairs`], set in order, between the clearing of every name and the accent rule.
pub proof fn law_head_and_switch_paint_alike(space: Space, fade: Fade)
    ensures
        appearance_script_spec(space) == join(lines_spec(space), "\n"@),
        paint_script_spec(space, fade) == paint_head() + before_spec(fade) + "\n"@
            + join(indented(lines_spec(space)), "\n"@) + "\n"@ + after_spec(fade) + "\n})();"@,
        indented(lines_spec(space)).len() == lines_spec(space).len(),
        forall|i: int| 0 <= i < lines_spec(space).len()
            ==> #[trigger] indented(lines_spec(space))[i] == "  "@ + lines_spec(space)[i],
        lines_spec(space).subrange(38, 38 + frame_pairs_spec(space).len() as int)
            == frame_pairs_spec(space).map_values(|p: (Seq<char>, Seq<char>)| set_spec(p.0, p.1)),
        lines_spec(space).len() == 39 + frame_pairs_spec(space).len(),
        lines_spec(space).last() == accent_rule_spec(rule_spec(space)),
{
    let pairs = frame_pairs_spec(space).map_values(|p: (Seq<char>, Seq<char>)| set_spec(p.0, p.1));
    assert(lines_spec(space).subrange(38, 38 + frame_pairs_spec(space).len() as int) =~= pairs);
}

/// The name and value a `setProperty` statement sets, read back: its opening, a JSON string,
/// `, `, a JSON string, and `);` with nothing after it; nothing for any other line.
pub open spec fn read_set(line: Seq<char>) -> Option<(Seq<char>, Seq<char>)> {
    let open = set_open();
    if line.len() >= open.len() && line.subrange(0, open.len() as int) == open {
        match read_string(line.subrange(open.len() as int, line.len() as int)) {
            Some((name, rest)) => if rest.len() >= 2 && rest.subrange(0, 2) == ", "@ {
                match read_string(rest.subrange(2, rest.len() as int)) {
                    Some((value, end)) => if end == ");"@ {
                        Some((name, value))
                    } else {
                        None
                    },
                    None => None,
                }
            } else {
                None
            },
            None => None,
        }
    } else {
        None
    }
}

/// A statement [`set`] writes reads back as the very name and value it was given.
pub proof fn law_a_set_statement_reads_back(name: Seq<char>, value: Seq<char>)
    ensures
        read_set(set_spec(name, value)) == Some((name, value)),
{
    law_set_cannot_be_broken_out_of(name, value);
    let tail = ", "@ + json_string(value) + ");"@;
    reveal_strlit(", ");
    assert(tail.subrange(0, 2) =~= ", "@);
    assert(tail.subrange(2, tail.len() as int) =~= json_string(value) + ");"@);
}

/// The head sets exactly the pairs of the Space: its property statements, read back, are
/// [`frame_pairs`] in order; a switch runs the same statements, indented.
pub proof fn law_the_head_sets_the_frame_pairs(space: Space)
    ensures
        forall|i: int| 0 <= i < frame_pairs_spec(space).len()
            ==> read_set(#[trigger] lines_spec(space)[38 + i]) == Some(frame_pairs_spec(space)[i]),
{
    law_head_and_switch_paint_alike(space, Fade::Straight);
    let pairs = frame_pairs_spec(space);
    assert forall|i: int| 0 <= i < pairs.len() implies read_set(#[trigger] lines_spec(space)[38 + i]) == Some(pairs[i]) by {
        assert(lines_spec(space).subrange(38, 38 + pairs.len() as int)[i] == lines_spec(space)[38 + i]);
        law_a_set_statement_reads_back(pairs[i].0, pairs[i].1);
    }
}

/// A statement indented by `indent`, read as a `setProperty` call: what [`read_set`] reads after
/// the indent; nothing for a line not so indented.
pub open spec fn read_indented(line: Seq<char>, indent: Seq<char>) -> Option<(Seq<char>, Seq<char>)> {
    if crate::text::starts_with(line, indent) {
        read_set(line.subrange(indent.len() as int, line.len() as int))
    } else {
        None
    }
}

/// Every `setProperty` call among `lines`, each indented by `indent`, its name and value read
/// back, in order.
pub open spec fn set_calls(lines: Seq<Seq<char>>, indent: Seq<char>) -> Seq<(Seq<char>, Seq<char>)>
    decreases lines.len(),
{
    if lines.len() == 0 {
        seq![]
    } else {
        set_calls(lines.drop_last(), indent) + match read_indented(lines.last(), indent) {
            Some(p) => seq![p],
            None => seq![],
        }
    }
}

proof fn lemma_set_calls_concat(a: Seq<Seq<char>>, b: Seq<Seq<char>>, indent: Seq<char>)
    ensures
        set_calls(a + b, indent) == set_calls(a, indent) + set_calls(b, indent),
    decreases b.len(),
{
    if b.len() == 0 {
        assert(a + b =~= a);
        assert(set_calls(a, indent) + seq![] =~= set_calls(a, indent));
    } else {
        lemma_set_calls_concat(a, b.drop_last(), indent);
        assert((a + b).drop_last() =~= a + b.drop_last());
        assert((a + b).last() == b.last());
        let tail: Seq<(Seq<char>, Seq<char>)> = match read_indented(b.last(), indent) {
            Some(p) => seq![p],
            None => seq![],
        };
        assert(set_calls(a, indent) + set_calls(b.drop_last(), indent) + tail
            =~= set_calls(a, indent) + (set_calls(b.drop_last(), indent) + tail));
    }
}

proof fn lemma_set_calls_none(lines: Seq<Seq<char>>, indent: Seq<char>)
    requires
        forall|i: int| 0 <= i < lines.len() ==> read_indented(#[trigger] lines[i], indent) is None,
    ensures
        set_calls(lines, indent) == Seq::<(Seq<char>, Seq<char>)>::empty(),
    decreases lines.len(),
{
    if lines.len() > 0 {
        assert forall|i: int| 0 <= i < lines.drop_last().len() implies read_indented(#[trigger] lines.drop_last()[i], indent) is None by {
            assert(lines.drop_last()[i] == lines[i]);
        }
        lemma_set_calls_none(lines.drop_last(), indent);
        assert(read_indented(lines[lines.len() - 1], indent) is None);
        assert(set_calls(lines, indent) =~= Seq::<(Seq<char>, Seq<char>)>::empty());
    }
}

proof fn lemma_unindented(line: Seq<char>)
    ensures
        read_indented(line, seq![]) == read_set(line),
        read_indented("  "@ + line, "  "@) == read_set(line),
{
    assert(line.subrange(0, line.len() as int) =~= line);
    assert(crate::text::starts_with(line, seq![])) by {
        assert(line.subrange(0, 0) =~= Seq::<char>::empty());
    }
    reveal_strlit("  ");
    let t = "  "@ + line;
    assert(t.subrange(0, 2) =~= "  "@);
    assert(t.subrange(2, t.len() as int) =~= line);
}

proof fn lemma_set_calls_of_sets(pairs: Seq<(Seq<char>, Seq<char>)>)
    ensures
        set_calls(pairs.map_values(|p: (Seq<char>, Seq<char>)| set_spec(p.0, p.1)), seq![]) == pairs,
    decreases pairs.len(),
{
    if pairs.len() > 0 {
        let f = |p: (Seq<char>, Seq<char>)| set_spec(p.0, p.1);
        let lines = pairs.map_values(f);
        assert(lines.drop_last() =~= pairs.drop_last().map_values(f));
        lemma_set_calls_of_sets(pairs.drop_last());
        let last = pairs.last();
        assert(lines.last() == set_spec(last.0, last.1));
        law_a_set_statement_reads_back(last.0, last.1);
        lemma_unindented(lines.last());
        assert(set_calls(lines, seq![]) =~= pairs.drop_last().push(last));
        assert(pairs.drop_last().push(last) =~= pairs);
    }
}

proof fn lemma_indented_calls(lines: Seq<Seq<char>>)
    ensures
        set_calls(indented(lines), "  "@) == set_calls(lines, seq![]),
    decreases lines.len(),
{
    if lines.len() > 0 {
        assert(indented(lines).drop_last() =~= indented(lines.drop_last()));
        lemma_indented_calls(lines.drop_last());
        assert(indented(lines).last() == "  "@ + lines.last());
        lemma_unindented(lines.last());
    }
}

/// A line that begins with `lit`, which differs from a `setProperty` call's opening at `k`,
/// is no such call.
proof fn lemma_not_set(line: Seq<char>, lit: Seq<char>, k: int)
    requires
        0 <= k < lit.len(),
        k < set_open().len(),
        lit.len() <= line.len(),
        line.subrange(0, lit.len() as int) == lit,
        lit[k] != set_open()[k],
    ensures
        read_set(line) is None,
{
    if line.len() >= set_open().len() && line.subrange(0, set_open().len() as int) == set_open() {
        assert(line.subrange(0, lit.len() as int)[k] == line[k]);
        assert(line.subrange(0, set_open().len() as int)[k] == line[k]);
    }
}

/// The statements that clear every name a Space may have set.
pub open spec fn remove_lines() -> Seq<Seq<char>> {
    names_spec().map_values(|n: Seq<char>| remove_spec(n))
}

proof fn lemma_prefix_of(lit: Seq<char>, rest: Seq<char>)
    ensures
        lit.len() <= (lit + rest).len(),
        (lit + rest).subrange(0, lit.len() as int) == lit,
{
    assert((lit + rest).subrange(0, lit.len() as int) =~= lit);
}

/// Only the pairs' own statements set a property: the look lines, the lines that clear the
/// names, and the accent rule read as no `setProperty` call.
proof fn lemma_other_lines_set_nothing(space: Space)
    ensures
        forall|i: int| 0 <= i < look_lines_spec(space).len() ==> read_set(#[trigger] look_lines_spec(space)[i]) is None,
        forall|i: int| 0 <= i < names_spec().len()
            ==> read_set(#[trigger] remove_lines()[i]) is None,
        read_set(accent_rule_spec(rule_spec(space))) is None,
{
    reveal_strlit("document.documentElement.style.setProperty(");
    reveal_strlit("document.documentElement.dataset.motion = ");
    reveal_strlit("document.documentElement.dataset.theme = ");
    reveal_strlit("delete document.documentElement.dataset.theme;");
    reveal_strlit("document.documentElement.style.removeProperty(");
    let look = look_lines_spec(space);
    let motion = "document.documentElement.dataset.motion = "@;
    lemma_prefix_of(motion, json_string(space.motion@) + ";"@);
    assert(look[0] == motion + (json_string(space.motion@) + ";"@));
    lemma_not_set(look[0], motion, 25);
    match attribute_spec(space.theme) {
        Some(theme) => {
            let lit = "document.documentElement.dataset.theme = "@;
            lemma_prefix_of(lit, json_string(theme) + ";"@);
            assert(look[1] == lit + (json_string(theme) + ";"@));
            lemma_not_set(look[1], lit, 25);
        },
        None => {
            let lit = "delete document.documentElement.dataset.theme;"@;
            assert(lit.subrange(0, lit.len() as int) =~= lit);
            lemma_not_set(look[1], lit, 1);
        },
    }
    let removes = remove_lines();
    let lit = "document.documentElement.style.removeProperty("@;
    assert forall|i: int| 0 <= i < names_spec().len() implies read_set(#[trigger] removes[i]) is None by {
        let n = names_spec()[i];
        lemma_prefix_of(lit, json_string("--"@ + n) + ");"@);
        assert(removes[i] == lit + (json_string("--"@ + n) + ");"@));
        lemma_not_set(removes[i], lit, 31);
    }
    let head = rule_head();
    reveal_strlit("(function () {\n  var put = function () {\n    var node = document.getElementById(\"mailo-frame\");\n    if (!node) {\n      node = document.createElement(\"style\");\n      node.id = \"mailo-frame\";\n      document.documentElement.appendChild(node);\n    }\n    node.textContent = ");
    lemma_prefix_of(head, json_string(rule_spec(space)) + rule_tail());
    assert(accent_rule_spec(rule_spec(space)) == head + (json_string(rule_spec(space)) + rule_tail()));
    lemma_not_set(accent_rule_spec(rule_spec(space)), head, 0);
}

/// Both scripts set exactly the Space's pairs: read as `setProperty` calls, the statements of
/// the head's script give [`frame_pairs`] in order and nothing else, and so do a switch's,
/// indented in its function. No other statement of either sets a property.
pub proof fn law_both_scripts_set_exactly_the_frame_pairs(space: Space)
    ensures
        set_calls(lines_spec(space), seq![]) == frame_pairs_spec(space),
        set_calls(indented(lines_spec(space)), "  "@) == frame_pairs_spec(space),
{
    lemma_other_lines_set_nothing(space);
    let look = look_lines_spec(space);
    let removes = remove_lines();
    let sets = frame_pairs_spec(space).map_values(|p: (Seq<char>, Seq<char>)| set_spec(p.0, p.1));
    let rule = seq![accent_rule_spec(rule_spec(space))];
    assert forall|i: int| 0 <= i < look.len() implies read_indented(#[trigger] look[i], seq![]) is None by {
        lemma_unindented(look[i]);
    }
    assert forall|i: int| 0 <= i < removes.len() implies read_indented(#[trigger] removes[i], seq![]) is None by {
        lemma_unindented(removes[i]);
    }
    assert forall|i: int| 0 <= i < rule.len() implies read_indented(#[trigger] rule[i], seq![]) is None by {
        lemma_unindented(rule[i]);
    }
    lemma_set_calls_none(look, seq![]);
    lemma_set_calls_none(removes, seq![]);
    lemma_set_calls_none(rule, seq![]);
    lemma_set_calls_of_sets(frame_pairs_spec(space));
    assert(lines_spec(space) == look + (removes + sets + rule));
    lemma_set_calls_concat(removes, sets, seq![]);
    lemma_set_calls_concat(removes + sets, rule, seq![]);
    lemma_set_calls_concat(look, removes + sets + rule, seq![]);
    assert(set_calls(lines_spec(space), seq![]) =~= frame_pairs_spec(space));
    lemma_indented_calls(lines_spec(space));
}

/// Postmark writes no accent and clears the system rule: its pairs are its palettes' alone, and
/// the accent rule it writes is the empty one. A hint under System writes both frames' accents
/// and the rule that picks between them.
pub proof fn law_postmark_writes_no_accent(space: Space)
    ensures
        space.card_accent == CardAccent::Postmark ==> {
            &&& frame_pairs_spec(space) == match dark_of_spec(space.theme) {
                Some(dark) => palette_pairs(space, dark, ""@),
                None => palette_pairs(space, false, "-l"@) + palette_pairs(space, true, "-d"@),
            }
            &&& rule_spec(space) == ""@
        },
        (space.card_accent == CardAccent::Hint && space.theme == Theme::System) ==> {
            &&& frame_pairs_spec(space) == palette_pairs(space, false, "-l"@)
                + palette_pairs(space, true, "-d"@) + accent_pairs(space, false, "-l"@)
                + accent_pairs(space, true, "-d"@)
            &&& rule_spec(space) == system_accent_spec()
        },
{
    if space.card_accent == CardAccent::Postmark {
        match dark_of_spec(space.theme) {
            Some(dark) => {
                assert(frame_pairs_spec(space) =~= palette_pairs(space, dark, ""@));
            },
            None => {
                assert(frame_pairs_spec(space) =~= palette_pairs(space, false, "-l"@) + palette_pairs(space, true, "-d"@));
            },
        }
    }
    if space.card_accent == CardAccent::Hint && space.theme == Theme::System {
        assert(frame_pairs_spec(space) =~= palette_pairs(space, false, "-l"@)
            + palette_pairs(space, true, "-d"@) + accent_pairs(space, false, "-l"@)
            + accent_pairs(space, true, "-d"@));
    }
}

/// The statement that sets custom property `name` to `value`.
pub fn set(name: &str, value: &str) -> (r: String)
    ensures
        r@ == set_spec(name@, value@),
{
    let mut s = String::from_str("document.documentElement.style.setProperty(");
    s.append(js(name).as_str());
    s.append(", ");
    s.append(js(value).as_str());
    s.append(");");
    s
}

/// Grain as a CSS opacity: the stored 0–100 times 0.20 in the light and 0.16 in the dark.
pub fn grain_opacity(grain: u8, dark: bool) -> (r: String)
    ensures
        r@ == grain_spec(grain, dark),
{
    let thousandths: u64 = grain as u64 * if dark { 16 } else { 20 };
    let whole = thousandths / 10000;
    let frac = thousandths % 10000;
    if frac == 0 {
        return string_of(dec_chars(whole).as_slice());
    }
    let mut digits = padded_chars(frac, 4);
    while digits.len() > 0 && digits[digits.len() - 1] == '0'
        invariant
            trim_zeros(digits@) == trim_zeros(dec_padded(frac as nat, 4)),
        decreases digits.len(),
    {
        digits.pop();
    }
    let mut out = dec_chars(whole);
    out.push('.');
    let mut k: usize = 0;
    let ghost head = out@;
    while k < digits.len()
        invariant
            k <= digits.len(),
            out@ == head + digits@.subrange(0, k as int),
        decreases digits.len() - k,
    {
        out.push(digits[k]);
        k = k + 1;
        assert(digits@.subrange(0, k as int) =~= digits@.subrange(0, k - 1).push(digits@[k - 1]));
    }
    assert(digits@.subrange(0, digits.len() as int) =~= digits@);
    assert(trim_zeros(digits@) == digits@);
    proof {
        reveal_strlit(".");
    }
    assert(head =~= dec(whole as nat) + "."@);
    string_of(out.as_slice())
}

/// `n` in decimal, zero-padded to `width` digits.
fn padded_chars(n: u64, width: u64) -> (r: Vec<char>)
    ensures
        r@ == dec_padded(n as nat, width as nat),
    decreases width,
{
    let d = dec_chars(n);
    if d.len() as u64 >= width {
        d
    } else {
        let mut v = vec!['0'];
        let rest = padded_chars(n, width - 1);
        let mut k: usize = 0;
        while k < rest.len()
            invariant
                k <= rest.len(),
                v@ == seq!['0'] + rest@.subrange(0, k as int),
            decreases rest.len() - k,
        {
            v.push(rest[k]);
            k = k + 1;
            assert(rest@.subrange(0, k as int) =~= rest@.subrange(0, k - 1).push(rest@[k - 1]));
        }
        assert(rest@.subrange(0, rest.len() as int) =~= rest@);
        v
    }
}

/// `--{name}{suffix}`.
fn prop_name(name: &str, suffix: &str) -> (r: String)
    ensures
        r@ == prop(name@, suffix@),
{
    cat3("--", name, suffix)
}

/// The nine pairs one palette writes, onto `pairs`.
pub fn push_palette(pairs: &mut Vec<(String, String)>, space: &Space, dark: bool, suffix: &str)
    ensures
        pairs_view(final(pairs)@) == pairs_view(old(pairs)@) + palette_pairs(*space, dark, suffix@),
{
    let palette = if dark { &space.dark } else { &space.light };
    let solid = if palette.stops.len() > 0 { palette.stops[0].clone() } else { String::new() };
    let line = if dark { String::from_str("rgba(255,255,255,.09)") } else { String::from_str("rgba(0,0,0,.08)") };
    let ghost start = pairs@;
    pairs.push((prop_name("f-ink", suffix), palette.ink.clone()));
    pairs.push((prop_name("f-ink-soft", suffix), palette.soft.clone()));
    pairs.push((prop_name("f-ink-faint", suffix), palette.faint.clone()));
    pairs.push((prop_name("f-pill", suffix), palette.pill.clone()));
    pairs.push((prop_name("f-hover", suffix), palette.hover.clone()));
    pairs.push((prop_name("f-line", suffix), line));
    pairs.push((prop_name("f-solid", suffix), solid));
    pairs.push((prop_name("f-grad", suffix), palette.gradient.clone()));
    pairs.push((prop_name("f-grain", suffix), grain_opacity(space.grain, dark)));
    assert(pairs_view(pairs@) =~= pairs_view(start) + palette_pairs(*space, dark, suffix@));
}

/// The three accent pairs one frame writes, onto `pairs`.
pub fn push_accent(pairs: &mut Vec<(String, String)>, space: &Space, dark: bool, suffix: &str)
    ensures
        pairs_view(final(pairs)@) == pairs_view(old(pairs)@) + accent_pairs(*space, dark, suffix@),
{
    let palette = if dark { &space.dark } else { &space.light };
    let prefix = if suffix.is_empty() { "" } else { "f-" };
    let ghost start = pairs@;
    pairs.push((prop_name(cat(prefix, "accent").as_str(), suffix), palette.accent.clone()));
    pairs.push((prop_name(cat(prefix, "accent-soft").as_str(), suffix), palette.accent_soft.clone()));
    pairs.push((prop_name(cat(prefix, "accent-ink").as_str(), suffix), palette.accent_ink.clone()));
    assert(pairs_view(pairs@) =~= pairs_view(start) + accent_pairs(*space, dark, suffix@));
}

/// The custom properties `space` sets on `<html>`, as `("--name", value)`, in the order they
/// are written. An explicit theme writes the unsuffixed tokens; System writes an `-l` and a
/// `-d` copy of each. The card's accent is written only for [`CardAccent::Hint`].
pub fn frame_pairs(space: &Space) -> (r: Vec<(String, String)>)
    ensures
        pairs_view(r@) == frame_pairs_spec(*space),
{
    let mut pairs: Vec<(String, String)> = Vec::new();
    let hint = match space.card_accent { CardAccent::Hint => true, CardAccent::Postmark => false };
    assert(pairs_view(pairs@) =~= Seq::<(Seq<char>, Seq<char>)>::empty());
    match dark_of(space.theme) {
        Some(dark) => {
            push_palette(&mut pairs, space, dark, "");
            if hint {
                push_accent(&mut pairs, space, dark, "");
            }
        },
        None => {
            push_palette(&mut pairs, space, false, "-l");
            push_palette(&mut pairs, space, true, "-d");
            if hint {
                push_accent(&mut pairs, space, false, "-l");
                push_accent(&mut pairs, space, true, "-d");
            }
        },
    }
    assert(pairs_view(pairs@) =~= frame_pairs_spec(*space));
    pairs
}

/// `data-motion` and `data-theme`. System deletes the theme attribute rather than setting it:
/// its absence is what lets `prefers-color-scheme` decide.
pub fn look_lines(space: &Space) -> (r: Vec<String>)
    ensures
        views(r@) == look_lines_spec(*space),
{
    let mut lines: Vec<String> = Vec::new();
    lines.push(cat3("document.documentElement.dataset.motion = ", js(space.motion.as_str()).as_str(), ";"));
    let theme = match space.theme {
        Theme::Light => cat3("document.documentElement.dataset.theme = ", js("light").as_str(), ";"),
        Theme::Dark => cat3("document.documentElement.dataset.theme = ", js("dark").as_str(), ";"),
        Theme::System => String::from_str("delete document.documentElement.dataset.theme;"),
    };
    lines.push(theme);
    assert(views(lines@) =~= look_lines_spec(*space));
    lines
}

/// The script that puts `rule` in the page's own `<style id="mailo-frame">`, after the
/// stylesheet; an empty rule clears a previous Space's.
pub fn accent_rule(rule: &str) -> (r: String)
    ensures
        r@ == accent_rule_spec(rule@),
{
    cat3(
        "(function () {\n  var put = function () {\n    var node = document.getElementById(\"mailo-frame\");\n    if (!node) {\n      node = document.createElement(\"style\");\n      node.id = \"mailo-frame\";\n      document.documentElement.appendChild(node);\n    }\n    node.textContent = ",
        js(rule).as_str(),
        ";\n  };\n  if (document.readyState === \"loading\") { document.addEventListener(\"DOMContentLoaded\", put); } else { put(); }\n})();",
    )
}

/// The statements that paint `space`'s tokens, after clearing any earlier Space's.
pub fn token_lines(space: &Space) -> (r: Vec<String>)
    ensures
        views(r@) == token_lines_spec(*space),
{
    let names = names();
    let mut lines: Vec<String> = Vec::new();
    let mut i: usize = 0;
    while i < names.len()
        invariant
            i <= names.len(),
            names@.map_values(|s: &str| s@) == names_spec(),
            views(lines@) == names_spec().subrange(0, i as int).map_values(|n: Seq<char>| remove_spec(n)),
        decreases names.len() - i,
    {
        let quoted = js(cat("--", names[i]).as_str());
        let line = cat3("document.documentElement.style.removeProperty(", quoted.as_str(), ");");
        let ghost before = lines@;
        lines.push(line);
        assert(names_spec()[i as int] == names@[i as int]@);
        proof {
            lemma_views_push(before, line);
            lemma_map_prefix(names_spec(), i as int, |n: Seq<char>| remove_spec(n));
        }
        assert(views(lines@) =~= names_spec().subrange(0, i + 1).map_values(|n: Seq<char>| remove_spec(n)));
        i = i + 1;
    }
    assert(names_spec().subrange(0, names.len() as int) =~= names_spec());
    let ghost removed = views(lines@);
    let pairs = frame_pairs(space);
    let mut j: usize = 0;
    while j < pairs.len()
        invariant
            j <= pairs.len(),
            views(lines@) == removed + pairs_view(pairs@).subrange(0, j as int).map_values(|p: (Seq<char>, Seq<char>)| set_spec(p.0, p.1)),
        decreases pairs.len() - j,
    {
        let line = set(pairs[j].0.as_str(), pairs[j].1.as_str());
        let ghost before = lines@;
        lines.push(line);
        proof {
            lemma_views_push(before, line);
            lemma_map_prefix(pairs_view(pairs@), j as int, |p: (Seq<char>, Seq<char>)| set_spec(p.0, p.1));
            assert(pairs_view(pairs@)[j as int] == (pairs@[j as int].0@, pairs@[j as int].1@));
        }
        assert(views(lines@) =~= removed + pairs_view(pairs@).subrange(0, j + 1).map_values(|p: (Seq<char>, Seq<char>)| set_spec(p.0, p.1)));
        j = j + 1;
    }
    assert(pairs_view(pairs@).subrange(0, pairs.len() as int) =~= pairs_view(pairs@));
    let system_hint = match (space.theme, space.card_accent) {
        (Theme::System, CardAccent::Hint) => true,
        _ => false,
    };
    let rule = if system_hint {
        ":root:not([data-theme]){--accent:var(--f-accent-l);--accent-soft:var(--f-accent-soft-l);--accent-ink:var(--f-accent-ink-l)}@media (prefers-color-scheme: dark){:root:not([data-theme]){--accent:var(--f-accent-d);--accent-soft:var(--f-accent-soft-d);--accent-ink:var(--f-accent-ink-d)}}"
    } else {
        ""
    };
    lines.push(accent_rule(rule));
    assert(views(lines@) =~= token_lines_spec(*space));
    lines
}

/// Every statement either script runs, look then tokens.
fn all_lines(space: &Space) -> (r: Vec<String>)
    ensures
        views(r@) == lines_spec(*space),
{
    let mut lines = look_lines(space);
    let tokens = token_lines(space);
    let ghost look = views(lines@);
    let mut i: usize = 0;
    while i < tokens.len()
        invariant
            i <= tokens.len(),
            views(lines@) == look + views(tokens@).subrange(0, i as int),
        decreases tokens.len() - i,
    {
        let line = tokens[i].clone();
        let ghost before = lines@;
        lines.push(line);
        proof {
            lemma_views_push(before, line);
            assert(views(tokens@)[i as int] == tokens@[i as int]@);
            assert(views(tokens@).subrange(0, i + 1) =~= views(tokens@).subrange(0, i as int).push(line@));
        }
        assert(views(lines@) =~= look + views(tokens@).subrange(0, i + 1));
        i = i + 1;
    }
    assert(views(tokens@).subrange(0, tokens.len() as int) =~= views(tokens@));
    lines
}

/// The script the head runs before the first frame, and the command menu and the editor's
/// theme segment run again: the look and the tokens, with no fade.
pub fn appearance_script(space: &Space) -> (r: String)
    ensures
        r@ == appearance_script_spec(*space),
{
    let lines = all_lines(space);
    join_strings(&lines, "\n")
}

/// The script a switch or a live edit evaluates. [`Fade::Cross`] freezes the gradient on
/// screen onto the front layer, changes the tokens, and fades the other layer in;
/// [`Fade::Straight`] leaves the front layer reading the token.
pub fn paint_script(space: &Space, fade: Fade) -> (r: String)
    ensures
        r@ == paint_script_spec(*space, fade),
{
    let lines = all_lines(space);
    let mut body: Vec<String> = Vec::new();
    let mut i: usize = 0;
    while i < lines.len()
        invariant
            i <= lines.len(),
            views(body@) == indented(views(lines@).subrange(0, i as int)),
        decreases lines.len() - i,
    {
        let line = cat("  ", lines[i].as_str());
        let ghost before = body@;
        body.push(line);
        proof {
            lemma_views_push(before, line);
            assert(views(lines@)[i as int] == lines@[i as int]@);
            lemma_map_prefix(views(lines@), i as int, |l: Seq<char>| "  "@ + l);
        }
        assert(views(body@) =~= indented(views(lines@).subrange(0, i + 1)));
        i = i + 1;
    }
    assert(views(lines@).subrange(0, lines.len() as int) =~= views(lines@));
    let before = match fade {
        Fade::Cross => "  if (layers.length === 2) {\n    layers[front].style.background = getComputedStyle(layers[front]).backgroundImage;\n  }",
        Fade::Straight => "  if (layers.length === 2) {\n    layers[front].style.background = \"\";\n  }",
    };
    let after = match fade {
        Fade::Cross => "  if (layers.length === 2) {\n    var next = 1 - front;\n    layers[next].style.background = \"\";\n    layers[next].style.transition = \"none\";\n    layers[next].style.opacity = \"0\";\n    void layers[next].offsetWidth;\n    layers[next].style.transition = \"\";\n    layers[next].style.opacity = \"1\";\n    layers[front].style.opacity = \"0\";\n    app.dataset.front = String(next);\n  }",
        Fade::Straight => "",
    };
    let mut s = String::from_str("(function () {\n  var app = document.querySelector(\".app\");\n  var layers = app ? app.querySelectorAll(\".layer\") : [];\n  var front = app && app.dataset.front === \"1\" ? 1 : 0;\n");
    s.append(before);
    s.append("\n");
    s.append(join_strings(&body, "\n").as_str());
    s.append("\n");
    s.append(after);
    s.append("\n})();");
    s
}

} // verus!
