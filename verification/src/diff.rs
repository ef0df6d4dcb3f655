//! The diff blame reconstructor: given a header-stripped, possibly
//! multi-parent diff body and each parent's attribution array, re-derive the
//! post-change text and a per-line origin and attribution record, then render
//! the rows around the re-rendered text.

use vstd::prelude::*;
use crate::blame::BlameRecord;
use crate::numfmt::{push_dec, push_dec_i64, spec_dec, spec_dec_i64};
use crate::render::FormattedLine;
use crate::text::{
    append_all, append_escaped_all, append_range, append_str, chars_string, esc_seq, str_chars,
};
use crate::tokens::{lemma_next_newline, next_newline};

verus! {

/// The newline-separated segments of `s` starting at `i`.
pub open spec fn split_segments(s: Seq<char>, i: int) -> Seq<Seq<char>>
    decreases s.len() - i,
    via split_segments_dec
{
    if i < 0 || i > s.len() {
        Seq::empty()
    } else {
        let j = next_newline(s, i);
        if j >= s.len() {
            seq![s.subrange(i, s.len() as int)]
        } else {
            seq![s.subrange(i, j)] + split_segments(s, j + 1)
        }
    }
}

#[via_fn]
proof fn split_segments_dec(s: Seq<char>, i: int) {
    if 0 <= i <= s.len() {
        lemma_next_newline(s, i);
    }
}

/// What splitting on newlines yields: every segment, except that one trailing
/// empty segment (from a terminating newline) is dropped.
pub open spec fn split_lines_spec(s: Seq<char>) -> Seq<Seq<char>> {
    let segs = split_segments(s, 0);
    if segs.len() > 0 && segs.last().len() == 0 {
        segs.drop_last()
    } else {
        segs
    }
}

/// Splits text into lines on newline characters; a trailing empty line from a
/// terminating newline is dropped.
pub fn split_lines(s: &str) -> (r: Vec<String>)
    ensures
        r@.map_values(|l: String| l@) == split_lines_spec(s@),
{
    let text = str_chars(s);
    let mut segs: Vec<String> = Vec::new();
    let mut i: usize = 0;
    let mut done = false;
    proof {
        lemma_next_newline(text@, 0);
    }
    while !done
        invariant
            0 <= i <= text@.len(),
            text@ == s@,
            !done ==> split_segments(text@, 0) == segs@.map_values(|l: String| l@)
                + split_segments(text@, i as int),
            done ==> split_segments(text@, 0) == segs@.map_values(|l: String| l@),
        decreases text@.len() - i, (if done {
            0int
        } else {
            1int
        }),
    {
        let ghost start = i as int;
        let ghost pre = segs@.map_values(|l: String| l@);
        let mut j: usize = i;
        while j < text.len() && text[j] != '\n'
            invariant
                start <= j <= text@.len(),
                next_newline(text@, start) == next_newline(text@, j as int),
            decreases text.len() - j,
        {
            j += 1;
        }
        proof {
            lemma_next_newline(text@, j as int);
            assert(next_newline(text@, j as int) == j as int);
        }
        let mut seg: Vec<char> = Vec::new();
        append_range(&mut seg, &text, i, j);
        segs.push(chars_string(&seg));
        proof {
            assert(seg@ =~= text@.subrange(start, j as int));
            assert(segs@.map_values(|l: String| l@) =~= pre.push(text@.subrange(start, j as int)));
        }
        if j < text.len() {
            i = j + 1;
            proof {
                assert(split_segments(text@, start) == seq![text@.subrange(start, j as int)]
                    + split_segments(text@, i as int));
                assert(pre + split_segments(text@, start) =~= segs@.map_values(|l: String| l@)
                    + split_segments(text@, i as int));
            }
        } else {
            i = j;
            done = true;
            proof {
                assert(split_segments(text@, start) =~= seq![
                    text@.subrange(start, text@.len() as int),
                ]);
                assert(pre + split_segments(text@, start) =~= segs@.map_values(|l: String| l@));
            }
        }
    }
    let is_trailing_empty = segs.len() > 0 && segs[segs.len() - 1].as_str().is_empty();
    if is_trailing_empty {
        let ghost pre = segs@.map_values(|l: String| l@);
        segs.pop();
        proof {
            assert(segs@.map_values(|l: String| l@) =~= pre.drop_last());
        }
    }
    segs
}

/// The first hunk-header line that still has content after it.
pub open spec fn first_hunk(lines: Seq<String>, i: int) -> Option<int>
    decreases lines.len() - i,
{
    if i < 0 || i >= lines.len() {
        None
    } else if lines[i]@.len() > 0 && lines[i]@[0] == '@' && i + 1 < lines.len() {
        Some(i)
    } else {
        first_hunk(lines, i + 1)
    }
}

/// Drops everything up to and including the first hunk header; a body with
/// no header (or a header as its very last line) stands unchanged.
pub fn strip_to_first_hunk(lines: &Vec<String>) -> (r: Vec<String>)
    ensures
        r@.map_values(|l: String| l@) == (match first_hunk(lines@, 0) {
            Some(i) => lines@.skip(i + 1).map_values(|l: String| l@),
            None => lines@.map_values(|l: String| l@),
        }),
{
    let mut i: usize = 0;
    let mut found: Option<usize> = None;
    while i < lines.len() && found.is_none()
        invariant
            i <= lines@.len(),
            found is None ==> first_hunk(lines@, 0) == first_hunk(lines@, i as int),
            match found {
                Some(f) => first_hunk(lines@, 0) == Some(f as int) && f < lines@.len(),
                None => true,
            },
        decreases lines.len() - i, (if found is None {
            1int
        } else {
            0int
        }),
    {
        let line = &lines[i];
        let lc = str_chars(line.as_str());
        if lc.len() > 0 && lc[0] == '@' && i + 1 < lines.len() {
            found = Some(i);
        } else {
            i += 1;
        }
    }
    match found {
        Some(f) => {
            let mut r: Vec<String> = Vec::new();
            let mut k: usize = f + 1;
            proof {
                assert(r@.map_values(|l: String| l@) =~= lines@.subrange(
                    f + 1,
                    k as int,
                ).map_values(|l: String| l@));
            }
            while k < lines.len()
                invariant
                    f + 1 <= k <= lines@.len(),
                    r@.map_values(|l: String| l@) == lines@.subrange(
                        f + 1,
                        k as int,
                    ).map_values(|l: String| l@),
                decreases lines.len() - k,
            {
                let ghost pre = r@.map_values(|l: String| l@);
                r.push(lines[k].clone());
                k += 1;
                proof {
                    assert(r@.last() == lines@[k - 1]);
                    assert(r@.drop_last().map_values(|l: String| l@) =~= pre);
                    assert(r@.map_values(|l: String| l@) =~= pre.push(lines@[k - 1]@));
                    assert(lines@.subrange(f + 1, k as int) =~= lines@.subrange(
                        f + 1,
                        k - 1,
                    ).push(lines@[k - 1]));
                    assert(lines@.subrange(f + 1, k as int).map_values(|l: String| l@)
                        =~= lines@.subrange(f + 1, k - 1).map_values(|l: String| l@).push(
                        lines@[k - 1]@,
                    ));
                    assert(r@.map_values(|l: String| l@) =~= lines@.subrange(
                        f + 1,
                        k as int,
                    ).map_values(|l: String| l@));
                }
            }
            proof {
                assert(lines@.subrange(f + 1, lines@.len() as int) =~= lines@.skip(f + 1));
            }
            r
        },
        None => {
            let mut r: Vec<String> = Vec::new();
            let mut k: usize = 0;
            proof {
                assert(r@.map_values(|l: String| l@) =~= lines@.subrange(0, 0).map_values(
                    |l: String| l@,
                ));
            }
            while k < lines.len()
                invariant
                    k <= lines@.len(),
                    r@.map_values(|l: String| l@) == lines@.subrange(0, k as int).map_values(
                        |l: String| l@,
                    ),
                decreases lines.len() - k,
            {
                let ghost pre = r@.map_values(|l: String| l@);
                r.push(lines[k].clone());
                k += 1;
                proof {
                    assert(r@.last() == lines@[k - 1]);
                    assert(r@.drop_last().map_values(|l: String| l@) =~= pre);
                    assert(r@.map_values(|l: String| l@) =~= pre.push(lines@[k - 1]@));
                    assert(lines@.subrange(0, k as int) =~= lines@.subrange(0, k - 1).push(
                        lines@[k - 1],
                    ));
                    assert(lines@.subrange(0, k as int).map_values(|l: String| l@)
                        =~= lines@.subrange(0, k - 1).map_values(|l: String| l@).push(
                        lines@[k - 1]@,
                    ));
                    assert(r@.map_values(|l: String| l@) =~= lines@.subrange(
                        0,
                        k as int,
                    ).map_values(|l: String| l@));
                }
            }
            proof {
                assert(lines@.subrange(0, lines@.len() as int) =~= lines@);
            }
            r
        },
    }
}

/// One reconstructed output row: the new line number (or `-1` for a removed
/// line), the selected attribution, the per-parent origin markers and the
/// raw content.
#[derive(Debug)]
pub struct DiffRow {
    pub lno: i64,
    pub blame: Option<BlameRecord>,
    pub origin: String,
    pub content: String,
}

/// A record reduced to its text fields.
pub open spec fn brec_view(r: BlameRecord) -> (Seq<char>, Seq<char>, Seq<char>) {
    (r.rev@, r.path@, r.lineno@)
}

pub open spec fn opt_brec_view(r: Option<BlameRecord>) -> Option<(Seq<char>, Seq<char>, Seq<char>)> {
    match r {
        Some(b) => Some(brec_view(b)),
        None => None,
    }
}

#[verifier::ext_equal]
pub ghost struct RowV {
    pub lno: int,
    pub blame: Option<(Seq<char>, Seq<char>, Seq<char>)>,
    pub origin: Seq<char>,
    pub content: Seq<char>,
}

pub open spec fn row_view(r: DiffRow) -> RowV {
    RowV { lno: r.lno as int, blame: opt_brec_view(r.blame), origin: r.origin@, content: r.content@ }
}

/// The reconstructor's state: one attribution cursor per parent (1-based),
/// the next new line number, the rows, and the reassembled text.
#[verifier::ext_equal]
pub ghost struct RecSt {
    pub olds: Seq<int>,
    pub new_lineno: int,
    pub rows: Seq<RowV>,
    pub text: Seq<char>,
}

pub open spec fn rec_init(np: int) -> RecSt {
    RecSt { olds: Seq::new(np as nat, |p: int| 1), new_lineno: 1, rows: Seq::empty(), text: Seq::empty() }
}

pub open spec fn blames_view(blames: Seq<Option<Vec<BlameRecord>>>) -> Seq<
    Option<Seq<BlameRecord>>,
> {
    blames.map_values(
        |o: Option<Vec<BlameRecord>>|
            match o {
                Some(v) => Some(v@),
                None => None,
            },
    )
}

/// A line is absent from parent `p` when some parent shows a deletion and
/// this parent's marker is a deletion too, or no parent shows a deletion and
/// this parent's marker is not an addition.
pub open spec fn includes_line(origin: Seq<char>, has_minus: bool, p: int) -> bool {
    (has_minus && origin[p] == '-') || (!has_minus && origin[p] != '+')
}

/// Pulls one attribution entry from every parent that includes this line.
/// The row's attribution comes from the first parent whose marker is a
/// deletion; a line with no deletion marker anywhere gets none. A parent
/// that should supply an entry but cannot is a hard error.
pub open spec fn pull_fold(
    olds: Seq<int>,
    origin: Seq<char>,
    has_minus: bool,
    blames: Seq<Option<Seq<BlameRecord>>>,
    p: int,
    cur: Option<(Seq<char>, Seq<char>, Seq<char>)>,
) -> Result<(Seq<int>, Option<(Seq<char>, Seq<char>, Seq<char>)>), Seq<char>>
    decreases olds.len() - p,
{
    if p < 0 || p >= olds.len() {
        Ok((olds, cur))
    } else if includes_line(origin, has_minus, p) {
        match blames[p] {
            None => Err("expected blame for '-' line, none found"@),
            Some(bl) => {
                if 0 <= olds[p] - 1 < bl.len() {
                    pull_fold(
                        olds.update(p, olds[p] + 1),
                        origin,
                        has_minus,
                        blames,
                        p + 1,
                        if has_minus && cur is None {
                            Some(brec_view(bl[olds[p] - 1]))
                        } else {
                            cur
                        },
                    )
                } else {
                    Err("blame array shorter than diff"@)
                }
            },
        }
    } else {
        pull_fold(olds, origin, has_minus, blames, p + 1, cur)
    }
}

/// One content line of the diff body: blank lines and `\\ No newline` marker
/// lines are skipped; otherwise the origin prefix decides which parents
/// include the line, surviving lines join the new text with the next line
/// number, and removed lines carry the `-1` sentinel.
pub open spec fn rec_line(
    st: RecSt,
    line: Seq<char>,
    np: int,
    blames: Seq<Option<Seq<BlameRecord>>>,
) -> Result<RecSt, Seq<char>> {
    if line.len() == 0 || line[0] == '\\' {
        Ok(st)
    } else if line.len() < np {
        Err("malformed diff line"@)
    } else {
        let origin = line.take(np);
        let content = line.skip(np);
        let has_minus = exists|p: int| 0 <= p < np && origin[p] == '-';
        match pull_fold(st.olds, origin, has_minus, blames, 0, None) {
            Err(e) => Err(e),
            Ok((olds2, cur)) => {
                if !has_minus {
                    Ok(
                        RecSt {
                            olds: olds2,
                            new_lineno: st.new_lineno + 1,
                            rows: st.rows.push(
                                RowV { lno: st.new_lineno, blame: cur, origin, content },
                            ),
                            text: st.text + content + seq!['\n'],
                        },
                    )
                } else {
                    Ok(
                        RecSt {
                            olds: olds2,
                            new_lineno: st.new_lineno,
                            rows: st.rows.push(RowV { lno: -1, blame: cur, origin, content }),
                            text: st.text,
                        },
                    )
                }
            },
        }
    }
}

/// An error stops the fold: every longer fold keeps it.
pub proof fn lemma_rec_fold_err(
    lines: Seq<String>,
    np: int,
    blames: Seq<Option<Seq<BlameRecord>>>,
    i: int,
    j: int,
)
    requires
        0 <= i <= j,
        rec_fold(lines, np, blames, i) is Err,
    ensures
        rec_fold(lines, np, blames, j) == rec_fold(lines, np, blames, i),
    decreases j - i,
{
    if i < j {
        lemma_rec_fold_err(lines, np, blames, i, j - 1);
    }
}

/// The fold of `rec_line` over the first `i` diff body lines.
pub open spec fn rec_fold(
    lines: Seq<String>,
    np: int,
    blames: Seq<Option<Seq<BlameRecord>>>,
    i: int,
) -> Result<RecSt, Seq<char>>
    decreases i,
{
    if i <= 0 {
        Ok(rec_init(np))
    } else {
        match rec_fold(lines, np, blames, i - 1) {
            Err(e) => Err(e),
            Ok(st) => rec_line(st, lines[i - 1]@, np, blames),
        }
    }
}

/// No line of the body carries a deletion marker in its origin columns.
pub open spec fn no_deletions(lines: Seq<String>, np: int) -> bool {
    forall|k: int, p: int|
        0 <= k < lines.len() && 0 <= p < np && p < lines[k]@.len() ==> #[trigger] lines[k]@[p]
            != '-'
}

/// In a diff with no deletion markers, reconstruction numbers every row
/// sequentially from one, with no `-1` sentinels.
pub proof fn lemma_pure_addition_rows(
    lines: Seq<String>,
    np: int,
    blames: Seq<Option<Seq<BlameRecord>>>,
    i: int,
)
    requires
        0 <= i <= lines.len(),
        np >= 0,
        no_deletions(lines, np),
        rec_fold(lines, np, blames, i) is Ok,
    ensures
        ({
            let st = rec_fold(lines, np, blames, i)->Ok_0;
            &&& st.new_lineno == st.rows.len() + 1
            &&& forall|j: int| 0 <= j < st.rows.len() ==> (#[trigger] st.rows[j]).lno == j + 1
        }),
    decreases i,
{
    if i > 0 {
        assert(rec_fold(lines, np, blames, i - 1) is Ok);
        lemma_pure_addition_rows(lines, np, blames, i - 1);
        let st = rec_fold(lines, np, blames, i - 1)->Ok_0;
        let line = lines[i - 1]@;
        if !(line.len() == 0 || line[0] == '\\') && line.len() >= np {
            let origin = line.take(np);
            assert(forall|p: int| 0 <= p < np ==> origin[p] != '-');
        }
    }
}

/// The reconstructed output: the rows and the reassembled post-change text.
#[derive(Debug)]
pub struct Reconstruction {
    pub rows: Vec<DiffRow>,
    pub new_text: Vec<char>,
}

/// Reconstructs the post-change text and per-line attribution from a
/// header-stripped diff body. `blames` carries one optional attribution
/// array per parent, index-aligned with that parent's version of the file; a
/// missing or short array where a line needs attribution is a hard error, as
/// is a content line shorter than the origin prefix.
#[verifier::rlimit(100)]
#[verifier::spinoff_prover]
pub fn reconstruct_diff(
    lines: &Vec<String>,
    num_parents: usize,
    blames: &Vec<Option<Vec<BlameRecord>>>,
) -> (r: Result<Reconstruction, &'static str>)
    requires
        blames@.len() == num_parents,
        lines@.len() < 0x8000_0000,
        num_parents < 0x8000_0000,
    ensures
        ({
            let f = rec_fold(lines@, num_parents as int, blames_view(blames@), lines@.len() as int);
            match r {
                Ok(rec) => f matches Ok(st) && rec.rows@.map_values(|x: DiffRow| row_view(x))
                    == st.rows && rec.new_text@ == st.text,
                Err(e) => f matches Err(m) && m == e@,
            }
        }),
{
    let ghost bv = blames_view(blames@);
    let mut olds: Vec<usize> = Vec::new();
    let mut p0: usize = 0;
    while p0 < num_parents
        invariant
            p0 <= num_parents,
            olds@.len() == p0,
            forall|q: int| 0 <= q < p0 ==> olds@[q] == 1,
        decreases num_parents - p0,
    {
        olds.push(1);
        p0 += 1;
    }
    let mut rows: Vec<DiffRow> = Vec::new();
    let mut new_text: Vec<char> = Vec::new();
    let mut new_lineno: i64 = 1;
    proof {
        assert(olds@.map_values(|v: usize| v as int) =~= rec_init(num_parents as int).olds);
        assert(rows@.map_values(|x: DiffRow| row_view(x)) =~= rec_init(num_parents as int).rows);
    }
    let mut i: usize = 0;
    while i < lines.len()
        invariant
            i <= lines@.len(),
            lines@.len() < 0x8000_0000,
            num_parents < 0x8000_0000,
            blames@.len() == num_parents,
            bv == blames_view(blames@),
            olds@.len() == num_parents,
            ({
                let f = rec_fold(lines@, num_parents as int, bv, i as int);
                &&& f is Ok
                &&& olds@.map_values(|v: usize| v as int) == f->Ok_0.olds
                &&& rows@.map_values(|x: DiffRow| row_view(x)) == f->Ok_0.rows
                &&& new_text@ == f->Ok_0.text
                &&& new_lineno as int == f->Ok_0.new_lineno
            }),
            new_lineno as int <= 1 + i,
            forall|q: int| 0 <= q < num_parents ==> 1 <= #[trigger] olds@[q] <= 1 + i,
        decreases lines.len() - i,
    {
        let ghost st = rec_fold(lines@, num_parents as int, bv, i as int)->Ok_0;
        let line = str_chars(lines[i].as_str());
        if line.len() == 0 || line[0] == '\\' {
        } else if line.len() < num_parents {
            proof {
                assert(line@ == lines@[i as int]@);
                assert(rec_fold(lines@, num_parents as int, bv, i + 1) matches Err(m) && m
                    == "malformed diff line"@);
                lemma_rec_fold_err(lines@, num_parents as int, bv, i + 1, lines@.len() as int);
            }
            return Err("malformed diff line");
        } else {
            let ghost origin_s = line@.take(num_parents as int);
            let mut has_minus = false;
            let mut q: usize = 0;
            while q < num_parents
                invariant
                    q <= num_parents,
                    num_parents <= line@.len(),
                    origin_s == line@.take(num_parents as int),
                    has_minus == exists|t: int| 0 <= t < q && origin_s[t] == '-',
                decreases num_parents - q,
            {
                if line[q] == '-' {
                    has_minus = true;
                }
                q += 1;
                proof {
                    assert(origin_s[q - 1] == line@[q - 1]);
                }
            }
            let ghost hm = exists|t: int| 0 <= t < num_parents && origin_s[t] == '-';
            proof {
                assert(has_minus == hm);
            }
            let mut cur: Option<BlameRecord> = None;
            let mut p: usize = 0;
            let ghost olds0 = olds@.map_values(|v: usize| v as int);
            while p < num_parents
                invariant
                    p <= num_parents,
                    num_parents <= line@.len(),
                    blames@.len() == num_parents,
                    bv == blames_view(blames@),
                    olds@.len() == num_parents,
                    origin_s == line@.take(num_parents as int),
                    hm == exists|t: int| 0 <= t < num_parents && origin_s[t] == '-',
                    has_minus == hm,
                    line@ == lines@[i as int]@,
                    !(line@.len() == 0 || line@[0] == '\\'),
                    rec_fold(lines@, num_parents as int, bv, i as int) matches Ok(st2) && st2.olds
                        == olds0,
                    i < lines@.len(),
                    lines@.len() < 0x8000_0000,
                    forall|q2: int|
                        0 <= q2 < num_parents ==> 1 <= #[trigger] olds@[q2] && (q2 < p ==> olds@[q2]
                            <= 2 + i) && (q2 >= p ==> olds@[q2] <= 1 + i),
                    pull_fold(olds0, origin_s, hm, bv, 0, None) == pull_fold(
                        olds@.map_values(|v: usize| v as int),
                        origin_s,
                        hm,
                        bv,
                        p as int,
                        opt_brec_view(cur),
                    ),
                decreases num_parents - p,
            {
                let ghost olds_pre = olds@.map_values(|v: usize| v as int);
                let ghost cur_pre = opt_brec_view(cur);
                let pulls = (has_minus && line[p] == '-') || (!has_minus && line[p] != '+');
                proof {
                    assert(origin_s[p as int] == line@[p as int]);
                    assert(pulls == includes_line(origin_s, hm, p as int));
                }
                if pulls {
                    match &blames[p] {
                        None => {
                            proof {
                                assert(bv[p as int] is None);
                                assert(pull_fold(
                                    olds@.map_values(|v: usize| v as int),
                                    origin_s,
                                    hm,
                                    bv,
                                    p as int,
                                    opt_brec_view(cur),
                                ) matches Err(m) && m
                                    == "expected blame for '-' line, none found"@);
                                assert(pull_fold(olds0, origin_s, hm, bv, 0, None) matches Err(m)
                                    && m == "expected blame for '-' line, none found"@);
                                assert(line@ == lines@[i as int]@);
                                assert(rec_fold(lines@, num_parents as int, bv, i + 1) matches Err(
                                    m,
                                ) && m == "expected blame for '-' line, none found"@);
                                lemma_rec_fold_err(
                                    lines@,
                                    num_parents as int,
                                    bv,
                                    i + 1,
                                    lines@.len() as int,
                                );
                            }
                            return Err("expected blame for '-' line, none found");
                        },
                        Some(bl) => {
                            let idx = olds[p] - 1;
                            proof {
                                assert(bv[p as int] == Some(bl@));
                            }
                            if idx < bl.len() {
                                if has_minus && cur.is_none() {
                                    cur = Some(bl[idx].clone_record());
                                }
                                let v = olds[p];
                                olds[p] = v + 1;
                                proof {
                                    assert(olds@.map_values(|v: usize| v as int)
                                        =~= olds_pre.update(p as int, olds_pre[p as int] + 1));
                                    assert(opt_brec_view(cur) == (if hm && cur_pre is None {
                                        Some(brec_view(bl@[olds_pre[p as int] - 1]))
                                    } else {
                                        cur_pre
                                    }));
                                }
                            } else {
                                proof {
                                    assert(pull_fold(
                                        olds@.map_values(|v: usize| v as int),
                                        origin_s,
                                        hm,
                                        bv,
                                        p as int,
                                        opt_brec_view(cur),
                                    ) matches Err(m) && m == "blame array shorter than diff"@);
                                    assert(pull_fold(olds0, origin_s, hm, bv, 0, None) matches Err(
                                        m,
                                    ) && m == "blame array shorter than diff"@);
                                    assert(line@ == lines@[i as int]@);
                                    assert(rec_fold(lines@, num_parents as int, bv, i + 1) matches
                                        Err(m) && m == "blame array shorter than diff"@);
                                    lemma_rec_fold_err(
                                        lines@,
                                        num_parents as int,
                                        bv,
                                        i + 1,
                                        lines@.len() as int,
                                    );
                                }
                                return Err("blame array shorter than diff");
                            }
                        },
                    }
                }
                p += 1;
                proof {
                    assert(pull_fold(olds_pre, origin_s, hm, bv, p - 1, cur_pre) == pull_fold(
                        olds@.map_values(|v: usize| v as int),
                        origin_s,
                        hm,
                        bv,
                        p as int,
                        opt_brec_view(cur),
                    ));
                }
            }
            let mut origin_buf: Vec<char> = Vec::new();
            append_range(&mut origin_buf, &line, 0, num_parents);
            let mut content_buf: Vec<char> = Vec::new();
            append_range(&mut content_buf, &line, num_parents, line.len());
            proof {
                assert(origin_buf@ =~= origin_s);
                assert(content_buf@ =~= line@.skip(num_parents as int));
            }
            let lno: i64 = if !has_minus {
                let n = new_lineno;
                append_all(&mut new_text, &content_buf);
                new_text.push('\n');
                new_lineno = new_lineno + 1;
                n
            } else {
                -1
            };
            let ghost pre_rows = rows@.map_values(|x: DiffRow| row_view(x));
            let ghost cur_v = opt_brec_view(cur);
            rows.push(
                DiffRow {
                    lno,
                    blame: cur,
                    origin: chars_string(&origin_buf),
                    content: chars_string(&content_buf),
                },
            );
            proof {
                assert(rows@.map_values(|x: DiffRow| row_view(x)) =~= pre_rows.push(
                    RowV {
                        lno: lno as int,
                        blame: cur_v,
                        origin: origin_s,
                        content: line@.skip(num_parents as int),
                    },
                ));
            }
        }
        i += 1;
        proof {
            let f2 = rec_fold(lines@, num_parents as int, bv, i as int);
            assert(f2 == rec_line(st, lines@[i - 1]@, num_parents as int, bv));
            assert(line@ == lines@[i - 1]@);
        }
    }
    Ok(Reconstruction { rows, new_text })
}

impl BlameRecord {
    /// A field-for-field copy.
    pub fn clone_record(&self) -> (r: BlameRecord)
        ensures
            brec_view(r) == brec_view(*self),
    {
        BlameRecord {
            rev: self.rev.clone(),
            path: self.path.clone(),
            lineno: self.lineno.clone(),
        }
    }
}

/// The diff-mode blame strip: a single-hop attribution with color banding.
pub open spec fn diff_blame_cell(
    rev: Seq<char>,
    path: Seq<char>,
    lineno: Seq<char>,
    color: bool,
) -> Seq<char> {
    " class=\"blame-strip c"@ + (if color {
        "1"@
    } else {
        "2"@
    }) + "\" data-blame=\""@ + rev + "#"@ + path + "#"@ + lineno
        + "\" role=\"button\" aria-label=\"blame\" aria-expanded=\"false\""@
}

pub open spec fn has_char(s: Seq<char>, c: char) -> bool {
    exists|k: int| 0 <= k < s.len() && s[k] == c
}

/// The extra class of a diff row: removed, added, or context.
pub open spec fn diff_row_class(origin: Seq<char>) -> Seq<char> {
    if has_char(origin, '-') {
        " minus-line"@
    } else if has_char(origin, '+') {
        " plus-line"@
    } else {
        Seq::<char>::empty()
    }
}

/// The opening of one diff row and its two attribution cells.
pub open spec fn drh_head(row: DiffRow, blame: Seq<char>) -> Seq<char> {
    "<div role=\"row\" id=\"line-"@ + spec_dec_i64(row.lno as int)
        + "\" class=\"source-line-with-number\">\n"@
        + "<div role=\"cell\" class=\"blame-container\"><div"@ + blame + "></div></div>\n"@
        + "<div role=\"cell\" class=\"blame-container\"><div"@ + blame + "></div></div>\n"@
}

/// The number cell, the source cell and the row's close.
pub open spec fn drh_tail(row: DiffRow, content: Seq<char>) -> Seq<char> {
    "<div role=\"cell\" class=\"line-number\" data-line-number=\""@ + (if row.lno > 0 {
        spec_dec(row.lno as int)
    } else {
        Seq::<char>::empty()
    }) + "\"></div>\n"@ + "<code role=\"cell\" class=\"source-line"@ + diff_row_class(
        row.origin@,
    ) + "\">"@ + row.origin@ + " "@ + content + "\n</code>\n"@ + "</div>\n"@
}

/// One diff output row.
pub open spec fn diff_row_html(row: DiffRow, blame: Seq<char>, content: Seq<char>) -> Seq<char> {
    drh_head(row, blame) + drh_tail(row, content)
}

/// The row fold's state: accumulated HTML and the single-hop banding state.
#[verifier::ext_equal]
pub ghost struct DFold {
    pub html: Seq<char>,
    pub last_rev: Seq<char>,
    pub last_color: bool,
}

pub open spec fn dfold_init() -> DFold {
    DFold { html: Seq::empty(), last_rev: Seq::empty(), last_color: false }
}

/// One row: resolve the blame strip and band, pick the re-rendered line when
/// the row survived into the new text, else the escaped raw content.
pub open spec fn dstep(st: DFold, row: DiffRow, formatted: Seq<FormattedLine>) -> DFold {
    let (blame, st1) = match row.blame {
        Some(b) => {
            let color = if st.last_rev == b.rev@ {
                st.last_color
            } else {
                !st.last_color
            };
            (
                diff_blame_cell(b.rev@, b.path@, b.lineno@, color),
                DFold { last_rev: b.rev@, last_color: color, ..st },
            )
        },
        None => (" class=\"blame-strip\""@, st),
    };
    let content = if row.lno > 0 && row.lno <= formatted.len() {
        formatted[row.lno - 1].line@
    } else {
        esc_seq(row.content@)
    };
    DFold { html: st1.html + diff_row_html(row, blame, content), ..st1 }
}

pub open spec fn dfold(rows: Seq<DiffRow>, formatted: Seq<FormattedLine>, i: int) -> DFold
    decreases i,
{
    if i <= 0 {
        dfold_init()
    } else {
        dstep(dfold(rows, formatted, i - 1), rows[i - 1], formatted)
    }
}

/// The diff page body.
pub open spec fn diff_html(rows: Seq<DiffRow>, formatted: Seq<FormattedLine>) -> Seq<char> {
    "<div id=\"file\" class=\"file\" role=\"table\">\n"@ + dfold(
        rows,
        formatted,
        rows.len() as int,
    ).html + "</div>\n"@
}

fn contains_char(v: &Vec<char>, c: char) -> (r: bool)
    ensures
        r == has_char(v@, c),
{
    let mut k: usize = 0;
    while k < v.len()
        invariant
            k <= v@.len(),
            forall|t: int| 0 <= t < k ==> v@[t] != c,
        decreases v.len() - k,
    {
        if v[k] == c {
            return true;
        }
        k += 1;
    }
    false
}

#[verifier::rlimit(100)]
#[verifier::spinoff_prover]
fn append_diff_row(
    out: &mut Vec<char>,
    last_rev: &mut Vec<char>,
    last_color: &mut bool,
    row: &DiffRow,
    formatted: &Vec<FormattedLine>,
)
    requires
        row.lno > i64::MIN,
        formatted@.len() < 0x8000_0000,
    ensures
        ({
            let st0 = DFold {
                html: old(out)@,
                last_rev: old(last_rev)@,
                last_color: *old(last_color),
            };
            let st2 = dstep(st0, *row, formatted@);
            &&& final(out)@ == st2.html
            &&& final(last_rev)@ == st2.last_rev
            &&& *final(last_color) == st2.last_color
        }),
{
    let mut blame: Vec<char> = Vec::new();
    match &row.blame {
        Some(b) => {
            let rc = str_chars(b.rev.as_str());
            let same = crate::text::chars_eq(last_rev, &rc);
            let color = if same {
                *last_color
            } else {
                !*last_color
            };
            append_str(&mut blame, " class=\"blame-strip c");
            if color {
                append_str(&mut blame, "1");
            } else {
                append_str(&mut blame, "2");
            }
            append_str(&mut blame, "\" data-blame=\"");
            append_str(&mut blame, b.rev.as_str());
            append_str(&mut blame, "#");
            append_str(&mut blame, b.path.as_str());
            append_str(&mut blame, "#");
            append_str(&mut blame, b.lineno.as_str());
            append_str(&mut blame, "\" role=\"button\" aria-label=\"blame\" aria-expanded=\"false\"");
            *last_rev = rc;
            *last_color = color;
            proof {
                assert(blame@ =~= diff_blame_cell(b.rev@, b.path@, b.lineno@, color));
            }
        },
        None => {
            append_str(&mut blame, " class=\"blame-strip\"");
        },
    }
    append_str(out, "<div role=\"row\" id=\"line-");
    push_dec_i64(out, row.lno);
    append_str(out, "\" class=\"source-line-with-number\">\n");
    append_str(out, "<div role=\"cell\" class=\"blame-container\"><div");
    append_all(out, &blame);
    append_str(out, "></div></div>\n");
    append_str(out, "<div role=\"cell\" class=\"blame-container\"><div");
    append_all(out, &blame);
    append_str(out, "></div></div>\n");
    proof {
        assert(out@ =~= old(out)@ + drh_head(*row, blame@));
    }
    let ghost p2 = out@;
    append_str(out, "<div role=\"cell\" class=\"line-number\" data-line-number=\"");
    if row.lno > 0 {
        push_dec(out, row.lno as u64);
    }
    append_str(out, "\"></div>\n");
    let ghost p3 = out@;
    append_str(out, "<code role=\"cell\" class=\"source-line");
    let oc = str_chars(row.origin.as_str());
    if contains_char(&oc, '-') {
        append_str(out, " minus-line");
    } else if contains_char(&oc, '+') {
        append_str(out, " plus-line");
    }
    append_str(out, "\">");
    append_str(out, row.origin.as_str());
    append_str(out, " ");
    if row.lno > 0 && row.lno <= formatted.len() as i64 {
        append_str(out, formatted[(row.lno - 1) as usize].line.as_str());
    } else {
        let cc = str_chars(row.content.as_str());
        append_escaped_all(out, &cc);
    }
    append_str(out, "\n</code>\n");
    append_str(out, "</div>\n");
    proof {
        let content = if row.lno > 0 && row.lno <= formatted@.len() {
            formatted@[row.lno - 1].line@
        } else {
            esc_seq(row.content@)
        };
        assert(out@ =~= p2 + drh_tail(*row, content));
        assert(out@ =~= old(out)@ + diff_row_html(*row, blame@, content));
    }
}

/// Renders a reconstructed diff: one row per diff body line, each with its
/// single-hop banded attribution, the re-rendered source where the line
/// survives, and the escaped raw content where it does not.
pub fn format_diff(rows: &Vec<DiffRow>, formatted: &Vec<FormattedLine>) -> (r: String)
    requires
        formatted@.len() < 0x8000_0000,
        forall|k: int| 0 <= k < rows@.len() ==> (#[trigger] rows@[k]).lno > i64::MIN,
    ensures
        r@ == diff_html(rows@, formatted@),
{
    let mut out: Vec<char> = Vec::new();
    append_str(&mut out, "<div id=\"file\" class=\"file\" role=\"table\">\n");
    let ghost mid = out@;
    let mut last_rev: Vec<char> = Vec::new();
    let mut last_color = false;
    let mut i: usize = 0;
    while i < rows.len()
        invariant
            i <= rows@.len(),
            formatted@.len() < 0x8000_0000,
            forall|k: int| 0 <= k < rows@.len() ==> (#[trigger] rows@[k]).lno > i64::MIN,
            ({
                let f = dfold(rows@, formatted@, i as int);
                &&& out@ == mid + f.html
                &&& last_rev@ == f.last_rev
                &&& last_color == f.last_color
            }),
        decreases rows.len() - i,
    {
        let ghost f = dfold(rows@, formatted@, i as int);
        let ghost sub = DFold { html: out@, last_rev: last_rev@, last_color };
        append_diff_row(&mut out, &mut last_rev, &mut last_color, &rows[i], formatted);
        i += 1;
        proof {
            let f2 = dfold(rows@, formatted@, i as int);
            assert(f2 == dstep(f, rows@[i - 1], formatted@));
            assert(out@ =~= mid + f2.html);
        }
    }
    append_str(&mut out, "</div>\n");
    proof {
        assert(out@ =~= diff_html(rows@, formatted@));
    }
    chars_string(&out)
}

} // verus!
