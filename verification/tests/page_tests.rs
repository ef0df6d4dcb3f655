use mozsearch_render::blame::{resolve_blame_chain, BlameChain, BlameRecord, WalkEvent};
use mozsearch_render::diff::{format_diff, reconstruct_diff, split_lines, strip_to_first_hunk};
use mozsearch_render::filepage::{append_coverage_cell, format_file_data, format_path};
use mozsearch_render::numfmt::{log10_floor, parse_u32};
use mozsearch_render::render::format_code;
use mozsearch_render::text::chars_string;
use mozsearch_render::tokens::{tokenize_plain, Token, TokenKind};
use mozsearch_render::commit::{entry_to_blob_gate, format_commit, CommitInfo};

fn rec(rev: &str, path: &str, lineno: &str) -> BlameRecord {
    BlameRecord { rev: rev.to_string(), path: path.to_string(), lineno: lineno.to_string() }
}

fn cov_cell(cov: Option<&Vec<i32>>, i: usize) -> String {
    let mut out: Vec<char> = Vec::new();
    append_coverage_cell(&mut out, cov, i);
    chars_string(&out)
}

#[test]
fn coverage_buckets_and_labels() {
    let cov = vec![5, 1500, 0, -1, -4];
    let c5 = cov_cell(Some(&cov), 0);
    assert!(c5.contains("cov-log10-0"));
    assert!(c5.contains("aria-label=\"hit 5\""));
    assert!(c5.contains("data-coverage=\"5\""));
    let c1500 = cov_cell(Some(&cov), 1);
    assert!(c1500.contains("cov-log10-3"));
    assert!(c1500.contains("aria-label=\"hit 1k\""));
    assert!(c1500.contains("data-coverage=\"1500\""));
    assert!(cov_cell(Some(&cov), 2).contains("aria-label=\"miss\""));
    assert!(cov_cell(Some(&cov), 3).contains("cov-uncovered cov-known"));
    assert!(cov_cell(Some(&cov), 4).contains("missing data"));
    // A short array resolves to the no-data sentinel, never an error.
    assert!(cov_cell(Some(&cov), 99).contains("missing data"));
    assert!(cov_cell(None, 0).contains("cov-no-data"));
    assert_eq!(log10_floor(5), 0);
    assert_eq!(log10_floor(1500), 3);
    assert_eq!(log10_floor(999), 2);
    assert_eq!(log10_floor(1000), 3);
}

#[test]
fn blame_walk_respects_hop_budget() {
    // Seven ignorable hops answered: the walk takes five, then appends the
    // empty truncation slot and stops.
    let base = rec("r0", "%", "7");
    let mut events = Vec::new();
    for k in 1..8 {
        events.push(WalkEvent::Found(
            rec(&format!("r{}", k), "%", "7"),
            "file.rs".to_string(),
        ));
    }
    let chain = resolve_blame_chain(&base, "file.rs", &events);
    assert_eq!(chain.revs, "r0,r1,r2,r3,r4,r5,");
    assert_eq!(chain.filespecs, "%,%,%,%,%,%,");
    assert_eq!(chain.linenos, "7,7,7,7,7,7,");
}

#[test]
fn blame_walk_stops_clean_and_tracks_renames() {
    let base = rec("r0", "old.rs", "3");
    let events = vec![
        WalkEvent::Found(rec("r1", "%", "2"), "old.rs".to_string()),
        WalkEvent::Found(rec("r2", "moved.rs", "1"), "old.rs".to_string()),
        WalkEvent::NotIgnorable,
    ];
    let chain = resolve_blame_chain(&base, "f.rs", &events);
    // Hop one keeps the same path; hop two names the path it moved from.
    assert_eq!(chain.revs, "r0,r1,r2");
    assert_eq!(chain.filespecs, "old.rs,%,moved.rs");
    assert_eq!(chain.linenos, "3,2,1");
    assert_eq!(chain.base_rev, "r0");
}

#[test]
fn banding_flips_on_chain_change() {
    let text: Vec<char> = "a\nb\nc\n".chars().collect();
    let tokens = tokenize_plain(&text);
    let (lines, occ, syms) = format_code(&Vec::new(), "f.rs", &text, &tokens, &Vec::new(), false);
    let mk = |rev: &str| BlameChain {
        revs: rev.to_string(),
        filespecs: "%".to_string(),
        linenos: "1".to_string(),
        base_rev: rev.to_string(),
    };
    let chains = vec![mk("aaa"), mk("aaa"), mk("bbb")];
    let html = format_file_data(&lines, &occ, &syms, Some(&chains), None).unwrap();
    assert!(html.contains("blame-strip c1\" data-blame=\"aaa#%#1\" role=\"button\" aria-label=\"new hash 1\""));
    assert!(html.contains("aria-label=\"same hash 1\""));
    assert!(html.contains("blame-strip c2\" data-blame=\"bbb#%#1\" role=\"button\" aria-label=\"new hash 2\""));
    // A misaligned blame array is rejected before any output.
    let short = vec![mk("aaa")];
    assert!(format_file_data(&lines, &occ, &syms, Some(&short), None).is_err());
}

#[test]
fn split_lines_drops_trailing_empty() {
    let v = split_lines("a\nb\n");
    assert_eq!(v, vec!["a".to_string(), "b".to_string()]);
    let v2 = split_lines("a\nb");
    assert_eq!(v2, vec!["a".to_string(), "b".to_string()]);
    let v3 = split_lines("");
    assert!(v3.is_empty());
    let v4 = split_lines("\n\n");
    assert_eq!(v4, vec!["".to_string(), "".to_string()]);
}

#[test]
fn pure_addition_diff_numbers_sequentially() {
    let body = vec!["+fn main() {".to_string(), "+}".to_string()];
    let blames: Vec<Option<Vec<BlameRecord>>> = vec![None];
    let rec = reconstruct_diff(&body, 1, &blames).unwrap();
    assert_eq!(rec.rows.len(), 2);
    assert_eq!(rec.rows[0].lno, 1);
    assert_eq!(rec.rows[1].lno, 2);
    assert!(rec.rows.iter().all(|r| r.lno != -1));
    let text: String = rec.new_text.iter().collect();
    assert_eq!(text, "fn main() {\n}\n");
}

#[test]
fn deletion_pulls_blame_and_marks_row() {
    let body = vec![
        " context".to_string(),
        "-gone".to_string(),
        "+fresh".to_string(),
    ];
    let blames = vec![Some(vec![rec("r1", "%", "1"), rec("r2", "%", "2")])];
    let out = reconstruct_diff(&body, 1, &blames).unwrap();
    assert_eq!(out.rows[0].lno, 1);
    assert_eq!(out.rows[1].lno, -1);
    assert_eq!(out.rows[2].lno, 2);
    // Attribution comes only from a parent with a deletion marker: the
    // context row carries none, though its cursor still advanced past r1.
    assert!(out.rows[0].blame.is_none());
    assert!(out.rows[2].blame.is_none());
    assert_eq!(out.rows[1].blame.as_ref().unwrap().rev, "r2");
    let text: String = out.new_text.iter().collect();
    assert_eq!(text, "context\nfresh\n");
    // Rendering falls back to the escaped raw content for the removed line.
    let tokens = tokenize_plain(&out.new_text);
    let (flines, _, _) = format_code(&Vec::new(), "f.rs", &out.new_text, &tokens, &Vec::new(), false);
    let html = format_diff(&out.rows, &flines);
    assert!(html.contains("minus-line"));
    assert!(html.contains("plus-line"));
    assert!(html.contains("id=\"line--1\""));
    assert!(html.contains("data-blame=\"r2#%#2\""));
    // A deletion whose parent lacks blame data is a hard error.
    let none: Vec<Option<Vec<BlameRecord>>> = vec![None];
    assert_eq!(
        reconstruct_diff(&body, 1, &none).unwrap_err(),
        "expected blame for '-' line, none found"
    );
}

#[test]
fn hunk_header_strip() {
    let lines = vec![
        "diff --git".to_string(),
        "@@ -1 +1 @@".to_string(),
        " a".to_string(),
        "+b".to_string(),
    ];
    let body = strip_to_first_hunk(&lines);
    assert_eq!(body, vec![" a".to_string(), "+b".to_string()]);
    let no_header = vec![" a".to_string()];
    assert_eq!(strip_to_first_hunk(&no_header), no_header);
}

#[test]
fn parse_u32_rejects_junk() {
    assert_eq!(parse_u32(&"123".chars().collect()), Some(123));
    assert_eq!(parse_u32(&"0".chars().collect()), Some(0));
    assert_eq!(parse_u32(&"".chars().collect()), None);
    assert_eq!(parse_u32(&"12a".chars().collect()), None);
    assert_eq!(parse_u32(&"4294967295".chars().collect()), Some(u32::MAX));
    assert_eq!(parse_u32(&"4294967296".chars().collect()), None);
}

#[test]
fn commit_page_lists_changes() {
    let info = CommitInfo {
        id: "abc123".to_string(),
        message: "Fix <thing>\n\nLonger body & notes".to_string(),
        parents: vec!["p1".to_string()],
        hg_id: Some("hg9".to_string()),
        github_url: None,
        author_name: "Ann".to_string(),
        author_email: "ann@example.com".to_string(),
        committer_name: "Bob".to_string(),
        committer_email: "bob@example.com".to_string(),
        time_secs: 1_600_000_000,
        tz_offset_minutes: 120,
    };
    let rawdiff = ":100644 100644 aaaa bbbb M\tsrc/lib.rs\n";
    let html = format_commit("tree", Some("https://hg.example"), &info, rawdiff).unwrap();
    assert!(html.contains("<h3>Fix &lt;thing></h3>"));
    assert!(html.contains("Longer body &amp; notes"));
    assert!(html.contains("<tr><td>parent</td><td><a href=\"/tree/commit/p1\">p1</a></td></tr>"));
    assert!(html.contains("https://hg.example/rev/hg9"));
    assert!(html.contains("Ann &lt;ann@example.com>"));
    assert!(html.contains("13 Sep 2020"));
    assert!(html.contains("<li>M <a href=\"/tree/diff/abc123/src/lib.rs\">src/lib.rs</a>"));
    // A summary line without its tab-separated fields is the typed failure.
    assert_eq!(
        format_commit("tree", None, &info, "garbage").unwrap_err(),
        "Invalid diff output 3"
    );
}

#[test]
fn vcs_panel_contents() {
    let sections = format_path("tree", "dir/f.rs", Some("https://hg.example"), None, true);
    assert_eq!(sections.len(), 1);
    assert_eq!(sections[0].name, "Revision control");
    assert_eq!(sections[0].items.len(), 4);
    assert_eq!(sections[0].items[0].link, "/tree/source/dir/f.rs");
    assert_eq!(sections[0].items[1].link, "https://hg.example/log/tip/dir/f.rs");
    assert_eq!(sections[0].items[2].link, "https://hg.example/raw-file/tip/dir/f.rs");
    assert_eq!(sections[0].items[3].title, "Blame");
}

#[test]
fn tree_entry_gate() {
    assert!(entry_to_blob_gate(true, 0o100644).is_ok());
    assert_eq!(entry_to_blob_gate(false, 0).unwrap_err(), "Invalid path; expected file");
    assert_eq!(entry_to_blob_gate(true, 120000).unwrap_err(), "Path is to a symlink");
}

#[test]
fn newline_gap_is_escaped() {
    // An identifier with no inline style and no matched analysis emits
    // nothing eagerly; its text still reaches the flushed line escaped.
    let text: Vec<char> = "a&<\n".chars().collect();
    let tokens = vec![
        Token { kind: TokenKind::Identifier(None), start: 0, end: 3 },
        Token { kind: TokenKind::Newline, start: 3, end: 4 },
    ];
    let (lines, _, _) = format_code(&Vec::new(), "f.rs", &text, &tokens, &Vec::new(), false);
    assert_eq!(lines.len(), 1);
    assert_eq!(lines[0].line, "a&amp;&lt;");
}

#[test]
fn commit_time_outside_rfc2822_range_is_blank() {
    // Year 10000: chrono's RFC 2822 formatter refuses it, so the time cell
    // stays empty instead of aborting the render.
    let info = CommitInfo {
        id: "abc".to_string(),
        message: "m".to_string(),
        parents: Vec::new(),
        hg_id: None,
        github_url: None,
        author_name: "A".to_string(),
        author_email: "a@example.com".to_string(),
        committer_name: "B".to_string(),
        committer_email: "b@example.com".to_string(),
        time_secs: 253_402_300_800,
        tz_offset_minutes: 0,
    };
    let html = format_commit("tree", None, &info, "").unwrap();
    assert!(html.contains("<tr><td>commit time</td><td></td></tr>"));
}
