//! Assembles the file page body: per line a four-cell row (coverage strip,
//! blame strip, line number, rendered source), wrapped in sticky nesting
//! containers, followed by the two inline JSON tables. Blame rows carry a
//! binary color band that flips whenever the resolved chain changes, and a
//! small display id assigned to each leading revision on first sighting.

use vstd::prelude::*;
use vstd::string::StringExecFns;
use crate::blame::BlameChain;
use crate::numfmt::{dec_len, push_dec, spec_dec};
use crate::render::FormattedLine;
use crate::text::{append_all, append_str, chars_string, str_chars};

verus! {

/// The coverage strip attributes for one known coverage value: the sentinels
/// `-4` (no data), `-3`/`-2` (interpolated miss/hit), `-1` (uncovered), `0`
/// (known miss), and for a positive count the log-ten bucket plus a label
/// that abbreviates counts of a thousand and more with a `k` suffix.
pub open spec fn cov_cell(x: int) -> Seq<char> {
    if x == -3 {
        " class=\"cov-strip cov-miss cov-interpolated\" role=\"button\" aria-label=\"uncovered\""@
    } else if x == -2 {
        " class=\"cov-strip cov-hit cov-interpolated\" role=\"button\" aria-label=\"uncovered\""@
    } else if x == -1 {
        " class=\"cov-strip cov-uncovered cov-known\" role=\"button\" aria-label=\"uncovered\""@
    } else if x == 0 {
        " class=\"cov-strip cov-miss cov-known\" role=\"button\" aria-label=\"miss\" data-coverage=\"0\""@
    } else if x < 0 {
        " class=\"cov-strip cov-uncovered cov-unknown\" role=\"button\" aria-label=\"missing data\""@
    } else {
        " class=\"cov-strip cov-hit cov-known cov-log10-"@ + spec_dec(dec_len(x) - 1)
            + "\" role=\"button\" aria-label=\"hit "@ + spec_dec(
            if x < 1000 {
                x
            } else {
                x / 1000
            },
        ) + (if x < 1000 {
            Seq::<char>::empty()
        } else {
            "k"@
        }) + "\" data-coverage=\""@ + spec_dec(x) + "\""@
    }
}

pub open spec fn opt_cov_view(cov: Option<&Vec<i32>>) -> Option<Seq<i32>> {
    match cov {
        Some(c) => Some(c@),
        None => None,
    }
}

/// The coverage cell of one line: without coverage data a fixed no-data
/// strip; with data, the line's value, or the `-4` sentinel past the array's
/// end (a short array is tolerated, never an error).
pub open spec fn coverage_cell_spec(cov: Option<Seq<i32>>, i: int) -> Seq<char> {
    match cov {
        None => " class=\"cov-strip cov-no-data\""@,
        Some(c) => cov_cell(
            if 0 <= i < c.len() {
                c[i] as int
            } else {
                -4
            },
        ),
    }
}

/// Appends the coverage cell for line index `i`.
pub fn append_coverage_cell(out: &mut Vec<char>, cov: Option<&Vec<i32>>, i: usize)
    ensures
        final(out)@ == old(out)@ + coverage_cell_spec(opt_cov_view(cov), i as int),
{
    match cov {
        None => {
            append_str(out, " class=\"cov-strip cov-no-data\"");
        },
        Some(c) => {
            let x: i32 = if i < c.len() {
                c[i]
            } else {
                -4
            };
            if x == -3 {
                append_str(
                    out,
                    " class=\"cov-strip cov-miss cov-interpolated\" role=\"button\" aria-label=\"uncovered\"",
                );
            } else if x == -2 {
                append_str(
                    out,
                    " class=\"cov-strip cov-hit cov-interpolated\" role=\"button\" aria-label=\"uncovered\"",
                );
            } else if x == -1 {
                append_str(
                    out,
                    " class=\"cov-strip cov-uncovered cov-known\" role=\"button\" aria-label=\"uncovered\"",
                );
            } else if x == 0 {
                append_str(
                    out,
                    " class=\"cov-strip cov-miss cov-known\" role=\"button\" aria-label=\"miss\" data-coverage=\"0\"",
                );
            } else if x < 0 {
                // -4, and defensively any other negative value, is shown as
                // missing data.
                append_str(
                    out,
                    " class=\"cov-strip cov-uncovered cov-unknown\" role=\"button\" aria-label=\"missing data\"",
                );
            } else {
                let xu = x as u32;
                let bucket = crate::numfmt::log10_floor(xu);
                append_str(out, " class=\"cov-strip cov-hit cov-known cov-log10-");
                push_dec(out, bucket as u64);
                append_str(out, "\" role=\"button\" aria-label=\"hit ");
                if x < 1000 {
                    push_dec(out, xu as u64);
                } else {
                    push_dec(out, (xu / 1000) as u64);
                    append_str(out, "k");
                }
                append_str(out, "\" data-coverage=\"");
                push_dec(out, xu as u64);
                append_str(out, "\"");
                proof {
                    assert(out@ =~= old(out)@ + coverage_cell_spec(opt_cov_view(cov), i as int));
                }
            }
        },
    }
}

/// The blame strip attributes of one attributed line: band class, the full
/// chain in `data-blame`, and the screen-reader label with the display id.
pub open spec fn blame_cell(
    revs: Seq<char>,
    filespecs: Seq<char>,
    linenos: Seq<char>,
    same: bool,
    color: bool,
    id: int,
) -> Seq<char> {
    " class=\"blame-strip c"@ + (if color {
        "1"@
    } else {
        "2"@
    }) + "\" data-blame=\""@ + revs + "#"@ + filespecs + "#"@ + linenos
        + "\" role=\"button\" aria-label=\""@ + (if same {
        "same"@
    } else {
        "new"@
    }) + " hash "@ + spec_dec(id) + "\" aria-expanded=\"false\""@
}

fn append_blame_cell(
    out: &mut Vec<char>,
    chain: &BlameChain,
    same: bool,
    color: bool,
    id: u64,
)
    ensures
        final(out)@ == old(out)@ + blame_cell(
            chain.revs@,
            chain.filespecs@,
            chain.linenos@,
            same,
            color,
            id as int,
        ),
{
    append_str(out, " class=\"blame-strip c");
    if color {
        append_str(out, "1");
    } else {
        append_str(out, "2");
    }
    append_str(out, "\" data-blame=\"");
    append_str(out, chain.revs.as_str());
    append_str(out, "#");
    append_str(out, chain.filespecs.as_str());
    append_str(out, "#");
    append_str(out, chain.linenos.as_str());
    append_str(out, "\" role=\"button\" aria-label=\"");
    if same {
        append_str(out, "same");
    } else {
        append_str(out, "new");
    }
    append_str(out, " hash ");
    push_dec(out, id);
    append_str(out, "\" aria-expanded=\"false\"");
    proof {
        assert(out@ =~= old(out)@ + blame_cell(
            chain.revs@,
            chain.filespecs@,
            chain.linenos@,
            same,
            color,
            id as int,
        ));
    }
}

/// The sticky-container opener of a line that starts a nesting scope.
pub open spec fn row_opener(line: FormattedLine, depth: int) -> Seq<char> {
    match line.sym_starts_nest {
        Some(sym) => "<div class=\"nesting-container nesting-depth-"@ + spec_dec(depth)
            + "\" data-nesting-sym=\""@ + sym@ + "\">\n"@,
        None => Seq::<char>::empty(),
    }
}

/// The row element's opening tag.
pub open spec fn row_div(lineno: int, line: FormattedLine) -> Seq<char> {
    "<div role=\"row\" id=\"line-"@ + spec_dec(lineno) + "\" class=\"source-line-with-number"@
        + (if line.sym_starts_nest is Some {
        " nesting-sticky-line"@
    } else {
        Seq::<char>::empty()
    }) + "\">\n"@
}

/// The coverage and blame cells.
pub open spec fn row_strips(cov: Seq<char>, blame: Seq<char>) -> Seq<char> {
    "<div role=\"cell\"><div"@ + cov + "></div></div>\n"@ + "<div role=\"cell\"><div"@ + blame
        + "></div></div>\n"@
}

/// The line-number cell, the source cell and the row's closing tag.
pub open spec fn row_source(lineno: int, line: FormattedLine) -> Seq<char> {
    "<div role=\"cell\" class=\"line-number\" data-line-number=\""@ + spec_dec(lineno)
        + "\"></div>\n"@ + "<code role=\"cell\" class=\"source-line\">"@ + line.line@
        + "\n</code>\n"@ + "</div>\n"@
}

/// One four-cell source row, preceded by a nesting container opener when the
/// line starts a sticky scope.
pub open spec fn row_html(
    lineno: int,
    cov: Seq<char>,
    blame: Seq<char>,
    line: FormattedLine,
    depth: int,
) -> Seq<char> {
    row_opener(line, depth) + row_div(lineno, line) + row_strips(cov, blame) + row_source(
        lineno,
        line,
    )
}

fn append_row(out: &mut Vec<char>, lineno: u64, cov: &Vec<char>, blame: &Vec<char>, line:
    &FormattedLine, depth: u64)
    ensures
        final(out)@ == old(out)@ + row_html(lineno as int, cov@, blame@, *line, depth as int),
{
    match &line.sym_starts_nest {
        Some(sym) => {
            append_str(out, "<div class=\"nesting-container nesting-depth-");
            push_dec(out, depth);
            append_str(out, "\" data-nesting-sym=\"");
            append_str(out, sym.as_str());
            append_str(out, "\">\n");
        },
        None => {},
    }
    proof {
        assert(out@ =~= old(out)@ + row_opener(*line, depth as int));
    }
    let ghost p1 = out@;
    append_str(out, "<div role=\"row\" id=\"line-");
    push_dec(out, lineno);
    append_str(out, "\" class=\"source-line-with-number");
    if line.sym_starts_nest.is_some() {
        append_str(out, " nesting-sticky-line");
    }
    append_str(out, "\">\n");
    proof {
        assert(out@ =~= p1 + row_div(lineno as int, *line));
    }
    let ghost p2 = out@;
    append_str(out, "<div role=\"cell\"><div");
    append_all(out, cov);
    append_str(out, "></div></div>\n");
    append_str(out, "<div role=\"cell\"><div");
    append_all(out, blame);
    append_str(out, "></div></div>\n");
    proof {
        assert(out@ =~= p2 + row_strips(cov@, blame@));
    }
    let ghost p3 = out@;
    append_str(out, "<div role=\"cell\" class=\"line-number\" data-line-number=\"");
    push_dec(out, lineno);
    append_str(out, "\"></div>\n");
    append_str(out, "<code role=\"cell\" class=\"source-line\">");
    append_str(out, line.line.as_str());
    append_str(out, "\n</code>\n");
    append_str(out, "</div>\n");
    proof {
        assert(out@ =~= p3 + row_source(lineno as int, *line));
        assert(out@ =~= old(out)@ + row_html(lineno as int, cov@, blame@, *line, depth as int));
    }
}

/// `n` closing container tags.
pub open spec fn closers(n: int) -> Seq<char>
    decreases n,
{
    if n <= 0 {
        Seq::empty()
    } else {
        closers(n - 1) + "</div>\n"@
    }
}

/// The first display id recorded for a revision, if any.
pub open spec fn id_lookup(ids: Seq<(Seq<char>, int)>, key: Seq<char>) -> Option<int>
    decreases ids.len(),
{
    if ids.len() == 0 {
        None
    } else if ids[0].0 == key {
        Some(ids[0].1)
    } else {
        id_lookup(ids.drop_first(), key)
    }
}

/// The running state of the page fold: accumulated HTML, the banding state
/// (previous chain and band), the nesting container depth, the revision
/// display-id table, and — for stating the banding law — the per-row record
/// of (chain, band, same-label).
#[verifier::ext_equal]
pub ghost struct PageFold {
    pub html: Seq<char>,
    pub last_revs: Option<Seq<char>>,
    pub last_color: bool,
    pub depth: int,
    pub ids: Seq<(Seq<char>, int)>,
    pub next_id: int,
    pub bands: Seq<(Seq<char>, bool, bool)>,
}

pub open spec fn page_init() -> PageFold {
    PageFold {
        html: Seq::empty(),
        last_revs: None,
        last_color: false,
        depth: 0,
        ids: Seq::empty(),
        next_id: 1,
        bands: Seq::empty(),
    }
}

/// One line of the page: blame banding and display ids when blame is
/// present, the coverage cell, the row itself, and the clamped container
/// closers (the depth never drops below zero).
pub open spec fn page_step(
    st: PageFold,
    line: FormattedLine,
    chain: Option<BlameChain>,
    cov: Option<Seq<i32>>,
    i: int,
) -> PageFold {
    let covs = coverage_cell_spec(cov, i);
    let (blame, st1) = match chain {
        Some(c) => {
            let same = st.last_revs == Some(c.revs@);
            let color = if same {
                st.last_color
            } else {
                !st.last_color
            };
            let (id, ids2, next2) = match id_lookup(st.ids, c.base_rev@) {
                Some(id) => (id, st.ids, st.next_id),
                None => (st.next_id, st.ids.push((c.base_rev@, st.next_id)), st.next_id + 1),
            };
            (
                blame_cell(c.revs@, c.filespecs@, c.linenos@, same, color, id),
                PageFold {
                    last_revs: Some(c.revs@),
                    last_color: color,
                    ids: ids2,
                    next_id: next2,
                    bands: st.bands.push((c.revs@, color, same)),
                    ..st
                },
            )
        },
        None => (" class=\"blame-strip\""@, st),
    };
    let depth_open = st1.depth + (if line.sym_starts_nest is Some {
        1int
    } else {
        0int
    });
    let closes = if line.pop_nest_count as int <= depth_open {
        line.pop_nest_count as int
    } else {
        depth_open
    };
    PageFold {
        html: st1.html + row_html(i + 1, covs, blame, line, st1.depth) + closers(closes),
        depth: depth_open - closes,
        ..st1
    }
}

pub open spec fn opt_chain(blame: Option<Seq<BlameChain>>, i: int) -> Option<BlameChain> {
    match blame {
        Some(b) => if 0 <= i < b.len() {
            Some(b[i])
        } else {
            None
        },
        None => None,
    }
}

/// The fold of `page_step` over the first `i` lines.
pub open spec fn page_fold(
    lines: Seq<FormattedLine>,
    blame: Option<Seq<BlameChain>>,
    cov: Option<Seq<i32>>,
    i: int,
) -> PageFold
    decreases i,
{
    if i <= 0 {
        page_init()
    } else {
        page_step(
            page_fold(lines, blame, cov, i - 1),
            lines[i - 1],
            opt_chain(blame, i - 1),
            cov,
            i - 1,
        )
    }
}

pub open spec fn opt_blame_view(blame: Option<&Vec<BlameChain>>) -> Option<Seq<BlameChain>> {
    match blame {
        Some(b) => Some(b@),
        None => None,
    }
}

/// The complete page body.
pub open spec fn file_html(
    lines: Seq<FormattedLine>,
    blame: Option<Seq<BlameChain>>,
    cov: Option<Seq<i32>>,
    analysis_json: Seq<char>,
    sym_json: Seq<char>,
) -> Seq<char> {
    "<div id=\"file\" class=\"file\" role=\"table\">\n"@ + page_fold(
        lines,
        blame,
        cov,
        lines.len() as int,
    ).html + "</div>\n"@ + "<script>var ANALYSIS_DATA = "@ + analysis_json
        + "; var SYM_INFO = "@ + sym_json + ";</script>\n"@
}

/// Adjacent lines with the same chain keep the band and are labelled as the
/// same; a changed chain always flips the band and is labelled new. The first
/// attributed line starts with the flipped initial band and a new label.
pub proof fn lemma_color_banding(
    lines: Seq<FormattedLine>,
    blame: Seq<BlameChain>,
    cov: Option<Seq<i32>>,
    i: int,
)
    requires
        0 <= i <= lines.len(),
        blame.len() == lines.len(),
    ensures
        ({
            let f = page_fold(lines, Some(blame), cov, i);
            &&& f.bands.len() == i
            &&& (i > 0 ==> f.last_revs == Some(f.bands.last().0) && f.last_color
                == f.bands.last().1)
            &&& (i == 0 ==> f.last_revs is None && f.last_color == false)
            &&& forall|k: int|
                1 <= k < i ==> ((#[trigger] f.bands[k]).2 <==> f.bands[k].0 == f.bands[k - 1].0)
                    && (f.bands[k].1 == (if f.bands[k].2 {
                    f.bands[k - 1].1
                } else {
                    !f.bands[k - 1].1
                }))
        }),
    decreases i,
{
    if i > 0 {
        lemma_color_banding(lines, blame, cov, i - 1);
        let f0 = page_fold(lines, Some(blame), cov, i - 1);
        let f = page_fold(lines, Some(blame), cov, i);
        assert(f.bands.drop_last() =~= f0.bands);
    }
}

/// Looks a revision up in the display-id table.
fn id_find(ids: &Vec<(String, u64)>, key: &String) -> (r: Option<u64>)
    ensures
        ({
            let iv = ids@.map_values(|p: (String, u64)| (p.0@, p.1 as int));
            match r {
                Some(v) => id_lookup(iv, key@) == Some(v as int),
                None => id_lookup(iv, key@) is None,
            }
        }),
{
    proof {
        assert(ids@.map_values(|p: (String, u64)| (p.0@, p.1 as int)).skip(0) =~= ids@.map_values(
            |p: (String, u64)| (p.0@, p.1 as int),
        ));
    }
    let ghost iv = ids@.map_values(|p: (String, u64)| (p.0@, p.1 as int));
    let mut i: usize = 0;
    while i < ids.len()
        invariant
            i <= ids@.len(),
            iv == ids@.map_values(|p: (String, u64)| (p.0@, p.1 as int)),
            id_lookup(iv, key@) == id_lookup(iv.skip(i as int), key@),
        decreases ids.len() - i,
    {
        if ids[i].0 == *key {
            proof {
                assert(iv.skip(i as int)[0] == iv[i as int]);
            }
            return Some(ids[i].1);
        }
        i += 1;
        proof {
            assert(iv.skip(i - 1).drop_first() =~= iv.skip(i as int));
            assert(iv.skip(i - 1)[0] == iv[i - 1]);
        }
    }
    proof {
        assert(iv.skip(i as int).len() == 0);
    }
    None
}

pub open spec fn ids_view(ids: Seq<(String, u64)>) -> Seq<(Seq<char>, int)> {
    ids.map_values(|p: (String, u64)| (p.0@, p.1 as int))
}

pub open spec fn opt_chain_ref_view(chain: Option<&BlameChain>) -> Option<BlameChain> {
    match chain {
        Some(c) => Some(*c),
        None => None,
    }
}

/// Processes one line of the page: coverage cell, blame cell with banding
/// and display-id assignment, the row itself, and the clamped closers.
#[verifier::rlimit(100)]
#[verifier::spinoff_prover]
fn page_line(
    html: &mut Vec<char>,
    last_revs: &mut Option<String>,
    last_color: &mut bool,
    depth: &mut usize,
    ids: &mut Vec<(String, u64)>,
    next_id: &mut u64,
    Ghost(bands): Ghost<Seq<(Seq<char>, bool, bool)>>,
    line: &FormattedLine,
    chain: Option<&BlameChain>,
    coverage: Option<&Vec<i32>>,
    i: usize,
)
    requires
        *old(depth) <= i,
        old(ids)@.len() <= i,
        *old(next_id) as int <= old(ids)@.len() + 1,
        i < 0x8000_0000,
    ensures
        ({
            let st0 = PageFold {
                html: old(html)@,
                last_revs: crate::render::opt_str_view(*old(last_revs)),
                last_color: *old(last_color),
                depth: *old(depth) as int,
                ids: ids_view(old(ids)@),
                next_id: *old(next_id) as int,
                bands: bands,
            };
            let st2 = page_step(
                st0,
                *line,
                opt_chain_ref_view(chain),
                opt_cov_view(coverage),
                i as int,
            );
            &&& final(html)@ == st2.html
            &&& crate::render::opt_str_view(*final(last_revs)) == st2.last_revs
            &&& *final(last_color) == st2.last_color
            &&& *final(depth) as int == st2.depth
            &&& ids_view(final(ids)@) == st2.ids
            &&& *final(next_id) as int == st2.next_id
            &&& *final(depth) <= i + 1
            &&& final(ids)@.len() <= i + 1
            &&& *final(next_id) as int <= final(ids)@.len() + 1
        }),
{
    let mut cov_cell_buf: Vec<char> = Vec::new();
    append_coverage_cell(&mut cov_cell_buf, coverage, i);
    let mut blame_buf: Vec<char> = Vec::new();
    match chain {
        Some(chain) => {
            let same = match &*last_revs {
                Some(lr) => crate::text::chars_eq(
                    &str_chars(lr.as_str()),
                    &str_chars(chain.revs.as_str()),
                ),
                None => false,
            };
            let color = if same {
                *last_color
            } else {
                !*last_color
            };
            let id: u64 = match id_find(ids, &chain.base_rev) {
                Some(v) => v,
                None => {
                    let v = *next_id;
                    let ghost pre_ids = ids_view(ids@);
                    ids.push((chain.base_rev.clone(), v));
                    *next_id = v + 1;
                    proof {
                        assert(ids_view(ids@) =~= pre_ids.push((chain.base_rev@, v as int)));
                    }
                    v
                },
            };
            append_blame_cell(&mut blame_buf, chain, same, color, id);
            *last_revs = Some(chain.revs.clone());
            *last_color = color;
        },
        None => {
            append_str(&mut blame_buf, " class=\"blame-strip\"");
        },
    }
    let depth_open = if line.sym_starts_nest.is_some() {
        *depth + 1
    } else {
        *depth
    };
    append_row(html, (i + 1) as u64, &cov_cell_buf, &blame_buf, line, *depth as u64);
    let closes: usize = if (line.pop_nest_count as usize) <= depth_open {
        line.pop_nest_count as usize
    } else {
        depth_open
    };
    let ghost hmid = html@;
    let mut c: usize = 0;
    while c < closes
        invariant
            c <= closes,
            html@ == hmid + closers(c as int),
        decreases closes - c,
    {
        append_str(html, "</div>\n");
        c += 1;
    }
    *depth = depth_open - closes;
}

/// Renders the file page body: one row per rendered line, interleaved with
/// the line's blame chain and coverage cell, wrapped in the file container
/// and followed by the inline JSON tables. A blame array that is not
/// index-aligned with the lines is rejected rather than read out of bounds.
#[verifier::rlimit(100)]
#[verifier::spinoff_prover]
pub fn format_file_data(
    lines: &Vec<FormattedLine>,
    analysis_json: &str,
    sym_json: &str,
    blame: Option<&Vec<BlameChain>>,
    coverage: Option<&Vec<i32>>,
) -> (r: Result<String, &'static str>)
    requires
        lines@.len() < 0x8000_0000,
    ensures
        ({
            match blame {
                Some(b) if b@.len() != lines@.len() => r matches Err(e) && e@
                    == "blame data misaligned with rendered lines"@,
                _ => r matches Ok(s) && s@ == file_html(
                    lines@,
                    opt_blame_view(blame),
                    opt_cov_view(coverage),
                    analysis_json@,
                    sym_json@,
                ),
            }
        }),
{
    match blame {
        Some(b) if b.len() != lines.len() => {
            return Err("blame data misaligned with rendered lines");
        },
        _ => {},
    }
    let ghost bv = opt_blame_view(blame);
    let ghost cv = opt_cov_view(coverage);
    let mut html: Vec<char> = Vec::new();
    append_str(&mut html, "<div id=\"file\" class=\"file\" role=\"table\">\n");
    let ghost mid = html@;
    let ghost hpre = html@;
    let mut body: Vec<char> = Vec::new();
    let mut last_revs: Option<String> = None;
    let mut last_color: bool = false;
    let mut depth: usize = 0;
    let mut ids: Vec<(String, u64)> = Vec::new();
    let mut next_id: u64 = 1;
    proof {
        assert(ids_view(ids@) =~= page_init().ids);
    }
    let mut i: usize = 0;
    while i < lines.len()
        invariant
            i <= lines@.len(),
            lines@.len() < 0x8000_0000,
            bv == opt_blame_view(blame),
            cv == opt_cov_view(coverage),
            match blame {
                Some(b) => b@.len() == lines@.len(),
                None => true,
            },
            ({
                let f = page_fold(lines@, bv, cv, i as int);
                &&& body@ == f.html
                &&& crate::render::opt_str_view(last_revs) == f.last_revs
                &&& last_color == f.last_color
                &&& depth as int == f.depth
                &&& ids_view(ids@) == f.ids
                &&& next_id as int == f.next_id
            }),
            depth <= i,
            ids@.len() <= i,
            next_id as int <= ids@.len() + 1,
        decreases lines.len() - i,
    {
        let ghost f = page_fold(lines@, bv, cv, i as int);
        let chain: Option<&BlameChain> = match blame {
            Some(b) => Some(&b[i]),
            None => None,
        };
        proof {
            assert(opt_chain_ref_view(chain) == opt_chain(bv, i as int));
        }
        page_line(
            &mut body,
            &mut last_revs,
            &mut last_color,
            &mut depth,
            &mut ids,
            &mut next_id,
            Ghost(f.bands),
            &lines[i],
            chain,
            coverage,
            i,
        );
        i += 1;
        proof {
            let f2 = page_fold(lines@, bv, cv, i as int);
            assert(f2 == page_step(f, lines@[i - 1], opt_chain(bv, i - 1), cv, i - 1));
            assert(PageFold {
                html: f.html,
                last_revs: f.last_revs,
                last_color: f.last_color,
                depth: f.depth,
                ids: f.ids,
                next_id: f.next_id,
                bands: f.bands,
            } =~= f);
        }
    }
    append_all(&mut html, &body);
    append_str(&mut html, "</div>\n");
    append_str(&mut html, "<script>var ANALYSIS_DATA = ");
    append_str(&mut html, analysis_json);
    append_str(&mut html, "; var SYM_INFO = ");
    append_str(&mut html, sym_json);
    append_str(&mut html, ";</script>\n");
    proof {
        assert(html@ =~= file_html(lines@, bv, cv, analysis_json@, sym_json@));
    }
    Ok(chars_string(&html))
}

/// One entry of a navigation panel handed back to the page assembler.
pub struct PanelItem {
    pub title: String,
    pub link: String,
    pub update_link_lineno: String,
    pub accel_key: Option<char>,
    pub copyable: bool,
}

/// A titled group of panel items.
pub struct PanelSection {
    pub name: String,
    pub items: Vec<PanelItem>,
}

/// Builds the revision-control panel for a plain file view: the permanent
/// link, the log/raw links when a Mercurial mirror exists, and the blame
/// hint when blame data is configured.
pub fn format_path(
    tree_name: &str,
    path: &str,
    hg_root: Option<&str>,
    hg_rev: Option<&str>,
    has_git_blame: bool,
) -> (r: Vec<PanelSection>)
    ensures
        r@.len() == 1,
        r@[0].items@.len() as int == 1 + (if hg_root is Some {
            2int
        } else {
            0int
        }) + (if has_git_blame {
            1int
        } else {
            0int
        }),
        r@[0].name@ == "Revision control"@,
        r@[0].items@[0].title@ == "Go to latest version"@,
        r@[0].items@[0].link@ == "/"@ + tree_name@ + "/source/"@ + path@,
        hg_root matches Some(root) ==> r@[0].items@[1].link@ == root@ + "/log/"@ + (match hg_rev {
            Some(v) => v@,
            None => "tip"@,
        }) + "/"@ + path@,
        hg_root matches Some(root) ==> r@[0].items@[2].link@ == root@ + "/raw-file/"@ + (
        match hg_rev {
            Some(v) => v@,
            None => "tip"@,
        }) + "/"@ + path@,
{
    let rev: &str = match hg_rev {
        Some(v) => v,
        None => "tip",
    };
    let mut items: Vec<PanelItem> = Vec::new();
    let mut latest: Vec<char> = Vec::new();
    append_str(&mut latest, "/");
    append_str(&mut latest, tree_name);
    append_str(&mut latest, "/source/");
    append_str(&mut latest, path);
    items.push(
        PanelItem {
            title: String::from_str("Go to latest version"),
            link: chars_string(&latest),
            update_link_lineno: String::from_str("#{}"),
            accel_key: None,
            copyable: true,
        },
    );
    match hg_root {
        Some(root) => {
            let mut log: Vec<char> = Vec::new();
            append_str(&mut log, root);
            append_str(&mut log, "/log/");
            append_str(&mut log, rev);
            append_str(&mut log, "/");
            append_str(&mut log, path);
            items.push(
                PanelItem {
                    title: String::from_str("Log"),
                    link: chars_string(&log),
                    update_link_lineno: String::from_str(""),
                    accel_key: Some('L'),
                    copyable: true,
                },
            );
            let mut raw: Vec<char> = Vec::new();
            append_str(&mut raw, root);
            append_str(&mut raw, "/raw-file/");
            append_str(&mut raw, rev);
            append_str(&mut raw, "/");
            append_str(&mut raw, path);
            items.push(
                PanelItem {
                    title: String::from_str("Raw"),
                    link: chars_string(&raw),
                    update_link_lineno: String::from_str(""),
                    accel_key: Some('R'),
                    copyable: true,
                },
            );
        },
        None => {},
    }
    if has_git_blame {
        items.push(
            PanelItem {
                title: String::from_str("Blame"),
                link: String::from_str(
                    "javascript:alert('Hover over the gray bar on the left to see blame information.')",
                ),
                update_link_lineno: String::from_str(""),
                accel_key: None,
                copyable: false,
            },
        );
    }
    let mut sections: Vec<PanelSection> = Vec::new();
    sections.push(PanelSection { name: String::from_str("Revision control"), items });
    sections
}

} // verus!
