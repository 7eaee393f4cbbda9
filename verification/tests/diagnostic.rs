use renzora_authoring::diagnostic::{
    body_runs, diagnostic_runs, gutter_split, line_runs, severity_runs, ticked, Hue, Tone,
};

fn colors(line: &str) -> Vec<Hue> {
    line_runs(line, Tone::Error).into_iter().map(|(_, c)| c).collect()
}

#[test]
fn the_severity_word_is_coloured_by_its_own_word_not_the_block() {
    assert_eq!(colors("error: boom")[0], Hue::CloseRed);
    assert_eq!(colors("warning: hmm")[0], Hue::WarnAmber);
    assert_eq!(colors("note: by the way")[0], Hue::Accent);
}

/// `error` with a code attached is still the severity, and a line that only happens to contain
/// a colon is not.
#[test]
fn severity_tolerates_a_code_and_rejects_a_bare_colon() {
    assert_eq!(colors("error[E0425]: boom")[0], Hue::CloseRed);
    assert!(severity_runs("resfult: f32 = a;").is_none());
}

/// A `|` inside the source must not be read as the gutter.
#[test]
fn a_pipe_in_the_source_is_not_a_gutter() {
    assert_eq!(gutter_split("47 │     resfult = a;"), Some("47 │".len()));
    assert_eq!(gutter_split("   │"), Some("   │".len()));
    assert_eq!(gutter_split("    let m = a | b;"), None);
}

#[test]
fn carets_take_the_blocks_tone() {
    assert_eq!(colors("        ^^^^^^^ unknown identifier"), vec![Hue::CloseRed]);
    assert_eq!(line_runs("   ^^^ nope", Tone::Warn)[0].1, Hue::WarnAmber);
}

#[test]
fn backticked_names_are_lifted_out_of_prose() {
    let runs = line_runs("error: no definition for `resfult`", Tone::Error);
    assert!(runs.iter().any(|(s, c)| s == "`resfult`" && *c == Hue::Accent));
}

fn texts(runs: &[(String, Hue)]) -> Vec<(&str, Hue)> {
    runs.iter().map(|(s, h)| (s.as_str(), *h)).collect()
}

#[test]
fn a_header_splits_into_word_colon_and_prose() {
    let runs = severity_runs("error[E0425]: no `x` here").unwrap();
    assert_eq!(
        texts(&runs),
        vec![
            ("error[E0425]", Hue::CloseRed),
            (":", Hue::Placeholder),
            (" no ", Hue::TextPrimary),
            ("`x`", Hue::Accent),
            (" here", Hue::TextPrimary),
        ]
    );
    assert!(severity_runs("no colon at all").is_none());
    assert!(severity_runs("help: try this").is_some());
}

#[test]
fn the_locator_splits_after_its_arrow() {
    let runs = line_runs("  ┌─ wgsl:3:5", Tone::Error);
    assert_eq!(texts(&runs), vec![("  ┌─", Hue::Placeholder), (" wgsl:3:5", Hue::TextMuted)]);
    let runs = line_runs("  --> src/lib.rs:1:1", Tone::Error);
    assert_eq!(texts(&runs), vec![("  -->", Hue::Placeholder), (" src/lib.rs:1:1", Hue::TextMuted)]);
}

#[test]
fn a_gutter_line_keeps_its_source_whole() {
    let runs = line_runs("47 │     resfult = a;", Tone::Error);
    assert_eq!(texts(&runs), vec![("47 │", Hue::LineNumber), ("     resfult = a;", Hue::Source)]);
    let runs = line_runs("   │       ^^^ here", Tone::Warn);
    assert_eq!(texts(&runs), vec![("   │", Hue::LineNumber), ("       ^^^ here", Hue::WarnAmber)]);
}

#[test]
fn a_footer_is_muted_with_its_names_lifted() {
    let runs = line_runs("   = note: see `f`", Tone::Error);
    assert_eq!(
        texts(&runs),
        vec![
            ("   =", Hue::Placeholder),
            (" note: see ", Hue::TextMuted),
            ("`f`", Hue::Accent),
            ("", Hue::TextMuted),
        ]
    );
}

#[test]
fn blank_and_source_bodies() {
    assert_eq!(texts(&body_runs("   ", Tone::Error)), vec![("   ", Hue::TextMuted)]);
    assert_eq!(texts(&body_runs("  ~~~", Tone::Error)), vec![("  ~~~", Hue::CloseRed)]);
    assert_eq!(texts(&body_runs("let a = 1;", Tone::Error)), vec![("let a = 1;", Hue::Source)]);
}

#[test]
fn ticked_alternates_prose_and_names() {
    assert_eq!(
        texts(&ticked("a `b` c `d", Hue::TextMuted)),
        vec![("a ", Hue::TextMuted), ("`b`", Hue::Accent), (" c ", Hue::TextMuted), ("`d", Hue::TextMuted)]
    );
    assert_eq!(texts(&ticked("", Hue::TextPrimary)), vec![("", Hue::TextPrimary)]);
}

#[test]
fn a_block_joins_its_lines_and_drops_empty_runs() {
    let runs = diagnostic_runs("error: boom\n  ┌─ wgsl:1:1\n", Tone::Error);
    assert_eq!(
        texts(&runs),
        vec![
            ("error", Hue::CloseRed),
            (":", Hue::Placeholder),
            (" boom", Hue::TextPrimary),
            ("\n", Hue::TextPrimary),
            ("  ┌─", Hue::Placeholder),
            (" wgsl:1:1", Hue::TextMuted),
        ]
    );
}

fn joined(runs: &[(String, Hue)]) -> String {
    runs.iter().map(|(s, _)| s.as_str()).collect()
}

#[test]
fn runs_give_the_line_back() {
    for line in [
        "error[E0425]: no definition for `resfult`",
        "  ┌─ wgsl:12:9",
        "12 │     resfult = a;",
        "   │     ^^^^^^^ unknown identifier",
        "   = note: `a` is declared here",
        "just some text",
        "",
    ] {
        assert_eq!(joined(&line_runs(line, Tone::Error)), line);
    }
    // An unmatched backtick in prose stays as it is: nothing is added.
    assert_eq!(joined(&line_runs("error: dangling `x", Tone::Error)), "error: dangling `x");
    assert_eq!(joined(&line_runs("   = note: `a` and `b", Tone::Error)), "   = note: `a` and `b");
}

#[test]
fn a_block_shows_its_text_unchanged() {
    let text = "error: no `x\r\n  ┌─ wgsl:1:1\n1 │ let a = `b`;\n   = help: try `y`";
    let expected = "error: no `x\n  ┌─ wgsl:1:1\n1 │ let a = `b`;\n   = help: try `y`";
    assert_eq!(joined(&diagnostic_runs(text, Tone::Warn)), expected);
    assert!(diagnostic_runs(text, Tone::Warn).iter().all(|(s, _)| !s.is_empty()));
}
