use mozsearch_render::analysis::{AnalysisSource, Jump, Location, NestingRange, WithLocation};
use mozsearch_render::render::format_code;
use mozsearch_render::tokens::{tokenize_plain, Token, TokenKind};

fn chars(s: &str) -> Vec<char> {
    s.chars().collect()
}

fn source(
    syms: &[&str],
    pretty: &str,
    no_crossref: bool,
    type_pretty: Option<&str>,
    nest: (u32, u32),
) -> AnalysisSource {
    AnalysisSource {
        sym: syms.iter().map(|s| s.to_string()).collect(),
        pretty: pretty.to_string(),
        syntax: Vec::new(),
        no_crossref,
        type_pretty: type_pretty.map(|t| t.to_string()),
        type_sym: None,
        nesting_range: NestingRange { start_lineno: nest.0, end_lineno: nest.1 },
    }
}

#[test]
fn line_count_matches_newlines() {
    let text = chars("ab\ncd\nef");
    let tokens = tokenize_plain(&text);
    let (lines, _, _) = format_code(&Vec::new(), "f.txt", &text, &tokens, &Vec::new(), false);
    assert_eq!(lines.len(), 3);

    let text2 = chars("ab\ncd\n");
    let tokens2 = tokenize_plain(&text2);
    let (lines2, _, _) = format_code(&Vec::new(), "f.txt", &text2, &tokens2, &Vec::new(), false);
    assert_eq!(lines2.len(), 2);

    let text3 = chars("");
    let tokens3 = tokenize_plain(&text3);
    let (lines3, _, _) = format_code(&Vec::new(), "f.txt", &text3, &tokens3, &Vec::new(), false);
    assert_eq!(lines3.len(), 0);
}

#[test]
fn empty_analysis_yields_empty_tables() {
    let text = chars("let x = 1;\n");
    let tokens = tokenize_plain(&text);
    let (_, occ, syms) = format_code(&Vec::new(), "f.rs", &text, &tokens, &Vec::new(), false);
    assert_eq!(occ, "[]");
    assert_eq!(syms, "{}");
    let (_, occ_d, syms_d) = format_code(&Vec::new(), "f.rs", &text, &tokens, &Vec::new(), true);
    assert_eq!(occ_d, "[]");
    assert_eq!(syms_d, "{}");
}

#[test]
fn entity_escaping_and_cr_placeholder() {
    let text = chars("a&b<c\rd\n");
    let tokens = tokenize_plain(&text);
    let (lines, _, _) = format_code(&Vec::new(), "f.txt", &text, &tokens, &Vec::new(), false);
    assert_eq!(lines.len(), 1);
    assert_eq!(lines[0].line, "a&amp;b&lt;c\u{21A9}d");
}

#[test]
fn no_crossref_type_info_recorded_once() {
    // "s1" occurs twice with type info; the symbol-info table holds it once.
    let text = chars("s1 s1\n");
    let tokens = vec![
        Token { kind: TokenKind::Identifier(None), start: 0, end: 2 },
        Token { kind: TokenKind::PlainText, start: 2, end: 3 },
        Token { kind: TokenKind::Identifier(None), start: 3, end: 5 },
        Token { kind: TokenKind::Newline, start: 5, end: 6 },
    ];
    let analysis = vec![
        WithLocation {
            loc: Location { lineno: 1, col_start: 0 },
            data: vec![source(&["s1"], "s1", true, Some("Foo"), (0, 0))],
        },
        WithLocation {
            loc: Location { lineno: 1, col_start: 3 },
            data: vec![source(&["s1"], "s1", true, Some("Foo"), (0, 0))],
        },
    ];
    let (lines, occ, syms) = format_code(&Vec::new(), "f.rs", &text, &tokens, &analysis, false);
    assert_eq!(syms, "{\"s1\":{\"type\":\"Foo\"}}");
    // no_crossref symbols produce no occurrence entries, but do get
    // highlighted via data-symbols.
    assert_eq!(occ, "[]");
    assert!(lines[0].line.contains("data-symbols=\"s1\""));
    // The empty nesting range never opens a container.
    assert!(lines[0].sym_starts_nest.is_none());
    assert_eq!(lines[0].pop_nest_count, 0);
}

#[test]
fn nesting_opens_and_closes_balance() {
    let text = chars("a\nb\nc\nd\n");
    let tokens = vec![
        Token { kind: TokenKind::Identifier(None), start: 0, end: 1 },
        Token { kind: TokenKind::Newline, start: 1, end: 2 },
        Token { kind: TokenKind::PlainText, start: 2, end: 3 },
        Token { kind: TokenKind::Newline, start: 3, end: 4 },
        Token { kind: TokenKind::PlainText, start: 4, end: 5 },
        Token { kind: TokenKind::Newline, start: 5, end: 6 },
        Token { kind: TokenKind::PlainText, start: 6, end: 7 },
        Token { kind: TokenKind::Newline, start: 7, end: 8 },
    ];
    let analysis = vec![WithLocation {
        loc: Location { lineno: 1, col_start: 0 },
        data: vec![source(&["sym_a"], "a", false, None, (1, 4))],
    }];
    let (lines, _, _) = format_code(&Vec::new(), "f.rs", &text, &tokens, &analysis, false);
    assert_eq!(lines.len(), 4);
    assert_eq!(lines[0].sym_starts_nest.as_deref(), Some("sym_a"));
    // The scope whose end line is 4 closes after line 3 so the sticky header
    // never covers its own closing line.
    assert_eq!(lines[0].pop_nest_count, 0);
    assert_eq!(lines[1].pop_nest_count, 0);
    assert_eq!(lines[2].pop_nest_count, 1);
    assert_eq!(lines[3].pop_nest_count, 0);
    let opens = lines.iter().filter(|l| l.sym_starts_nest.is_some()).count();
    let closes: u32 = lines.iter().map(|l| l.pop_nest_count).sum();
    assert_eq!(opens as u32, closes);
}

#[test]
fn menu_jumps_deduplicate_and_skip_self() {
    let text = chars("f\n");
    let tokens = vec![
        Token { kind: TokenKind::Identifier(None), start: 0, end: 1 },
        Token { kind: TokenKind::Newline, start: 1, end: 2 },
    ];
    let analysis = vec![WithLocation {
        loc: Location { lineno: 1, col_start: 0 },
        data: vec![source(&["sym_f"], "f", false, None, (0, 0))],
    }];
    let jumps = vec![Jump {
        sym: "sym_f".to_string(),
        path: "other.rs".to_string(),
        lineno: 10,
        pretty: "fn f".to_string(),
    }];
    let (lines, occ, _) = format_code(&jumps, "f.rs", &text, &tokens, &analysis, false);
    assert_eq!(
        occ,
        "[[[{\"sym\":\"sym_f\",\"pretty\":\"fn f\"}],[{\"sym\":\"sym_f\",\"pretty\":\"f\"}]]]"
    );
    assert!(lines[0].line.contains("data-i=\"0\""));

    // A jump that targets the current path and line is suppressed.
    let self_jumps = vec![Jump {
        sym: "sym_f".to_string(),
        path: "f.rs".to_string(),
        lineno: 1,
        pretty: "fn f".to_string(),
    }];
    let (_, occ2, _) = format_code(&self_jumps, "f.rs", &text, &tokens, &analysis, false);
    assert_eq!(occ2, "[[[],[{\"sym\":\"sym_f\",\"pretty\":\"f\"}]]]");
}
