//! The alignment and fusion engine: one pass over the token stream that
//! merges the analysis cursor, the nesting tracker and the cross-reference
//! emitter into per-line HTML plus the two JSON side tables.
//!
//! The whole pass is mirrored by a spec-level step function (`rstep`) folded
//! over the token stream; `format_code` returns exactly that fold's outcome.
//!
//! The auto-linking pass that the surrounding project runs over comment,
//! plain-text and string content is an external collaborator and is not
//! called here: rendered comments carry their text escaped, but without
//! injected links.

use vstd::prelude::*;
use crate::analysis::{
    all_syms_str, analysis_valid, joined_syms, jump_find, jump_lookup, spec_syntax_kind,
    srcs_total, AnalysisSource, Jump, WithLocation,
};
use crate::analysis::{lemma_srcs_take_le, lemma_srcs_total_mono, lemma_srcs_total_take_step};
use crate::json::{
    join_sep, occ_json, occ_table_json, sym_json, sym_row_view, sym_table_json, MenuJump, OccEntry,
    OccEntryV, OccItem, SymInfo, SymInfoV,
};
use crate::numfmt::{push_dec, spec_dec};
use crate::text::{
    append_all, append_escaped, append_escaped_all, append_str, chars_eq_str, chars_string,
    crfix, crfix_seq, esc_seq, lemma_esc_seq_empty, str_chars,
};
use crate::tokens::{lemma_tokens_len, tokens_wf, Token, TokenKind};

verus! {

/// One rendered source line plus the nesting metadata the page assembler
/// needs: the symbol that opens a sticky container here, if any, and how many
/// containers close after this line.
#[derive(Debug)]
pub struct FormattedLine {
    pub line: String,
    pub sym_starts_nest: Option<String>,
    pub pop_nest_count: u32,
}

#[verifier::ext_equal]
pub ghost struct LineV {
    pub line: Seq<char>,
    pub nest: Option<Seq<char>>,
    pub pop: int,
}

pub open spec fn opt_str_view(o: Option<String>) -> Option<Seq<char>> {
    match o {
        Some(s) => Some(s@),
        None => None,
    }
}

pub open spec fn fline_view(l: FormattedLine) -> LineV {
    LineV { line: l.line@, nest: opt_str_view(l.sym_starts_nest), pop: l.pop_nest_count as int }
}

/// One deduplicated menu jump at spec level: dedup key, symbol, label.
#[verifier::ext_equal]
pub ghost struct MJ {
    pub key: Seq<char>,
    pub sym: Seq<char>,
    pub pretty: Seq<char>,
}

/// The full state of the fusion pass.
#[verifier::ext_equal]
pub ghost struct RModel {
    /// The current line's accumulated HTML (before the carriage-return fix).
    pub out: Seq<char>,
    /// The flushed lines.
    pub lines: Seq<LineV>,
    /// The first text position not yet emitted.
    pub last: int,
    /// The text position where the current line starts.
    pub line_start: int,
    /// The 1-based current line.
    pub cur_line: int,
    /// The analysis cursor.
    pub cur_datum: int,
    /// The nesting stack: (start line, end line) of each live range.
    pub stack: Seq<(int, int)>,
    /// The canonical symbol that opens a nesting container on this line.
    pub starts_nest: Option<Seq<char>>,
    /// The occurrence table.
    pub occ: Seq<OccEntryV>,
    /// The symbol-info table, in first-sighting order.
    pub syms: Seq<(Seq<char>, SymInfoV)>,
    /// Total nesting pushes so far.
    pub pushes: int,
    /// Total nesting pops so far (the sum of flushed pop counts).
    pub pops: int,
}

pub open spec fn rinit() -> RModel {
    RModel {
        out: Seq::empty(),
        lines: Seq::empty(),
        last: 0,
        line_start: 0,
        cur_line: 1,
        cur_datum: 0,
        stack: Seq::empty(),
        starts_nest: None,
        occ: Seq::empty(),
        syms: Seq::empty(),
        pushes: 0,
        pops: 0,
    }
}

/// Advances the analysis cursor past every record positioned before
/// (`line`, `col`).
pub open spec fn adv_datum(analysis: Seq<WithLocation>, cd: int, line: int, col: int) -> int
    decreases analysis.len() - cd,
{
    if 0 <= cd < analysis.len() && ((analysis[cd].loc.lineno as int) < line || (
    (analysis[cd].loc.lineno as int) == line && (analysis[cd].loc.col_start as int) < col)) {
        adv_datum(analysis, cd + 1, line, col)
    } else {
        cd
    }
}

pub proof fn lemma_adv_datum(analysis: Seq<WithLocation>, cd: int, line: int, col: int)
    requires
        0 <= cd <= analysis.len(),
    ensures
        cd <= adv_datum(analysis, cd, line, col) <= analysis.len(),
    decreases analysis.len() - cd,
{
    if 0 <= cd < analysis.len() && ((analysis[cd].loc.lineno as int) < line || (
    (analysis[cd].loc.lineno as int) == line && (analysis[cd].loc.col_start as int) < col)) {
        lemma_adv_datum(analysis, cd + 1, line, col);
    }
}

/// Whether a source pushes onto the nesting stack at the current line: it
/// must have a real range that starts at or after this line, differ from the
/// current top's start, and span at least two more lines. An empty,
/// top-matching or too-short range never pushes.
pub open spec fn nests(a: AnalysisSource, cur_line: int, stack: Seq<(int, int)>) -> bool {
    &&& a.nesting_range.start_lineno != 0
    &&& a.nesting_range.start_lineno as int >= cur_line
    &&& (stack.len() == 0 || a.nesting_range.start_lineno as int != stack.last().0)
    &&& a.nesting_range.end_lineno as int > cur_line + 1
}

/// A source whose nesting range is empty never pushes onto the stack.
pub proof fn lemma_empty_range_never_nests(a: AnalysisSource, cur_line: int, stack: Seq<(int, int)>)
    requires
        a.nesting_range.start_lineno == 0,
    ensures
        !nests(a, cur_line, stack),
{
}

#[verifier::ext_equal]
pub ghost struct NestR {
    pub stack: Seq<(int, int)>,
    pub starts: Option<Seq<char>>,
    pub pushes: int,
}

/// Folds the nesting rule over one position's sources, in order. The first
/// push on a line records the opening symbol; later pushes on the same line
/// keep the first symbol.
pub open spec fn nest_fold(d: Seq<AnalysisSource>, cur_line: int, st: NestR) -> NestR
    decreases d.len(),
{
    if d.len() == 0 {
        st
    } else {
        let a = d[0];
        let st1 = if nests(a, cur_line, st.stack) {
            NestR {
                stack: st.stack.push(
                    (a.nesting_range.start_lineno as int, a.nesting_range.end_lineno as int),
                ),
                starts: if st.starts is None {
                    Some(a.sym@[0]@)
                } else {
                    st.starts
                },
                pushes: st.pushes + 1,
            }
        } else {
            st
        };
        nest_fold(d.drop_first(), cur_line, st1)
    }
}

pub proof fn lemma_nest_fold_pushes(d: Seq<AnalysisSource>, cur_line: int, st: NestR)
    ensures
        st.pushes <= nest_fold(d, cur_line, st).pushes <= st.pushes + d.len(),
        nest_fold(d, cur_line, st).stack.len() - st.stack.len() == nest_fold(
            d,
            cur_line,
            st,
        ).pushes - st.pushes,
    decreases d.len(),
{
    if d.len() > 0 {
        let a = d[0];
        let st1 = if nests(a, cur_line, st.stack) {
            NestR {
                stack: st.stack.push(
                    (a.nesting_range.start_lineno as int, a.nesting_range.end_lineno as int),
                ),
                starts: if st.starts is None {
                    Some(a.sym@[0]@)
                } else {
                    st.starts
                },
                pushes: st.pushes + 1,
            }
        } else {
            st
        };
        lemma_nest_fold_pushes(d.drop_first(), cur_line, st1);
    }
}

pub open spec fn has_key(tab: Seq<(Seq<char>, SymInfoV)>, k: Seq<char>) -> bool {
    exists|i: int| 0 <= i < tab.len() && (#[trigger] tab[i]).0 == k
}

pub open spec fn keys_unique(tab: Seq<(Seq<char>, SymInfoV)>) -> bool {
    forall|i: int, j: int|
        0 <= i < j < tab.len() ==> (#[trigger] tab[i]).0 != (#[trigger] tab[j]).0
}

/// Records type information for `no_crossref` sources, keyed by the
/// canonical symbol, first sighting wins.
pub open spec fn syminfo_fold(
    d: Seq<AnalysisSource>,
    tab: Seq<(Seq<char>, SymInfoV)>,
) -> Seq<(Seq<char>, SymInfoV)>
    decreases d.len(),
{
    if d.len() == 0 {
        tab
    } else {
        let a = d[0];
        let tab1 = if a.no_crossref && a.type_pretty is Some && a.sym@.len() >= 1 && !has_key(
            tab,
            a.sym@[0]@,
        ) {
            tab.push(
                (
                    a.sym@[0]@,
                    SymInfoV {
                        syntax: spec_syntax_kind(a),
                        type_pretty: a.type_pretty->0@,
                        type_sym: opt_str_view(a.type_sym),
                    },
                ),
            )
        } else {
            tab
        };
        syminfo_fold(d.drop_first(), tab1)
    }
}

/// First sighting wins, so the table's keys stay unique.
pub proof fn lemma_syminfo_fold_unique(d: Seq<AnalysisSource>, tab: Seq<(Seq<char>, SymInfoV)>)
    requires
        keys_unique(tab),
    ensures
        keys_unique(syminfo_fold(d, tab)),
    decreases d.len(),
{
    if d.len() > 0 {
        let a = d[0];
        let tab1 = if a.no_crossref && a.type_pretty is Some && a.sym@.len() >= 1 && !has_key(
            tab,
            a.sym@[0]@,
        ) {
            tab.push(
                (
                    a.sym@[0]@,
                    SymInfoV {
                        syntax: spec_syntax_kind(a),
                        type_pretty: a.type_pretty->0@,
                        type_sym: opt_str_view(a.type_sym),
                    },
                ),
            )
        } else {
            tab
        };
        assert(keys_unique(tab1));
        lemma_syminfo_fold_unique(d.drop_first(), tab1);
    }
}

/// The dedup key of a jump target.
pub open spec fn jump_key(j: Jump) -> Seq<char> {
    j.path@ + ":"@ + spec_dec(j.lineno as int)
}

pub open spec fn mj_has_key(mjs: Seq<MJ>, k: Seq<char>) -> bool {
    exists|i: int| 0 <= i < mjs.len() && (#[trigger] mjs[i]).key == k
}

/// Folds the menu-jump rule over one source's symbols: a symbol found in the
/// jump table contributes a jump unless it targets the current position or a
/// jump with the same target is already listed.
pub open spec fn menu_syms_fold(
    syms: Seq<Seq<char>>,
    jumps: Seq<Jump>,
    path: Seq<char>,
    cur_line: int,
    acc: Seq<MJ>,
) -> Seq<MJ>
    decreases syms.len(),
{
    if syms.len() == 0 {
        acc
    } else {
        let acc1 = match jump_find(jumps, syms[0]) {
            None => acc,
            Some(j) => {
                if j.path@ == path && j.lineno as int == cur_line {
                    acc
                } else if mj_has_key(acc, jump_key(j)) {
                    acc
                } else {
                    acc.push(MJ { key: jump_key(j), sym: syms[0], pretty: j.pretty@ })
                }
            },
        };
        menu_syms_fold(syms.drop_first(), jumps, path, cur_line, acc1)
    }
}

/// Folds the menu-jump rule over all crossref-eligible sources.
pub open spec fn menu_fold(
    d: Seq<AnalysisSource>,
    jumps: Seq<Jump>,
    path: Seq<char>,
    cur_line: int,
    acc: Seq<MJ>,
) -> Seq<MJ>
    decreases d.len(),
{
    if d.len() == 0 {
        acc
    } else {
        let acc1 = if d[0].no_crossref {
            acc
        } else {
            menu_syms_fold(d[0].sym@.map_values(|s: String| s@), jumps, path, cur_line, acc)
        };
        menu_fold(d.drop_first(), jumps, path, cur_line, acc1)
    }
}

/// The `{joined-symbols, pretty}` items of the crossref-eligible sources.
pub open spec fn items_of(d: Seq<AnalysisSource>) -> Seq<(Seq<char>, Seq<char>)>
    decreases d.len(),
{
    if d.len() == 0 {
        Seq::empty()
    } else {
        items_of(d.drop_last()) + (if d.last().no_crossref {
            Seq::<(Seq<char>, Seq<char>)>::empty()
        } else {
            seq![(joined_syms(d.last()), d.last().pretty@)]
        })
    }
}

/// The style classes contributed by one syntax tag.
pub open spec fn cls_of_tag(t: Seq<char>) -> Seq<Seq<char>> {
    if t == "type"@ {
        seq!["syn_type"@]
    } else if t == "def"@ || t == "decl"@ || t == "idl"@ {
        seq!["syn_def"@]
    } else {
        Seq::empty()
    }
}

pub open spec fn cls_of_tags(ts: Seq<String>) -> Seq<Seq<char>>
    decreases ts.len(),
{
    if ts.len() == 0 {
        Seq::empty()
    } else {
        cls_of_tags(ts.drop_last()) + cls_of_tag(ts.last()@)
    }
}

/// All style classes of a matched datum, in source and tag order.
pub open spec fn classes_of(d: Seq<AnalysisSource>) -> Seq<Seq<char>>
    decreases d.len(),
{
    if d.len() == 0 {
        Seq::empty()
    } else {
        classes_of(d.drop_last()) + cls_of_tags(d.last().syntax@)
    }
}

/// The style attribute of a token: datum-driven classes for a bare
/// identifier, the token's own inline style when it has one, fixed classes
/// for the literal kinds, nothing otherwise.
pub open spec fn style_of(kind: TokenKind, datum: Option<Seq<AnalysisSource>>) -> Seq<char> {
    match kind {
        TokenKind::Identifier(inline) => match inline {
            Some(s) => s@,
            None => match datum {
                Some(d) => {
                    let cls = classes_of(d);
                    if cls.len() > 0 {
                        "class=\""@ + join_sep(cls, " "@) + "\" "@
                    } else {
                        Seq::empty()
                    }
                },
                None => Seq::empty(),
            },
        },
        TokenKind::StringLiteral => "class=\"syn_string\" "@,
        TokenKind::Comment => "class=\"syn_comment\" "@,
        TokenKind::TagName => "class=\"syn_tag\" "@,
        TokenKind::TagAttrName => "class=\"syn_tag\" "@,
        TokenKind::EndTagName => "class=\"syn_tag\" "@,
        TokenKind::RegularExpressionLiteral => "class=\"syn_regex\" "@,
        _ => Seq::empty(),
    }
}

/// Everything one matched datum changes: nesting stack, opening marker,
/// symbol-info table, occurrence table, and the data attributes emitted on
/// the token's span.
#[verifier::ext_equal]
pub ghost struct DatumOut {
    pub stack: Seq<(int, int)>,
    pub starts: Option<Seq<char>>,
    pub pushes: int,
    pub syms_tab: Seq<(Seq<char>, SymInfoV)>,
    pub occ: Seq<OccEntryV>,
    pub data: Seq<char>,
}

pub open spec fn process_datum_spec(
    d: Seq<AnalysisSource>,
    cur_line: int,
    stack: Seq<(int, int)>,
    starts: Option<Seq<char>>,
    pushes: int,
    syms_tab: Seq<(Seq<char>, SymInfoV)>,
    occ: Seq<OccEntryV>,
    jumps: Seq<Jump>,
    path: Seq<char>,
) -> DatumOut {
    let nr = nest_fold(d, cur_line, NestR { stack, starts, pushes });
    let tab = syminfo_fold(d, syms_tab);
    let sstr = all_syms_str(d);
    let mjs = menu_fold(d, jumps, path, cur_line, Seq::empty());
    let its = items_of(d);
    if its.len() > 0 {
        DatumOut {
            stack: nr.stack,
            starts: nr.starts,
            pushes: nr.pushes,
            syms_tab: tab,
            occ: occ.push(
                OccEntryV { jumps: mjs.map_values(|m: MJ| (m.sym, m.pretty)), items: its },
            ),
            data: "data-symbols=\""@ + sstr + "\" data-i=\""@ + spec_dec(occ.len() as int)
                + "\" "@,
        }
    } else {
        DatumOut {
            stack: nr.stack,
            starts: nr.starts,
            pushes: nr.pushes,
            syms_tab: tab,
            occ: occ,
            data: "data-symbols=\""@ + sstr + "\" "@,
        }
    }
}

/// The lowest stack index that still has to stay: everything from the
/// topmost entry whose range reaches past the next line on down is kept.
pub open spec fn keep_idx(stack: Seq<(int, int)>, cur_line: int) -> int
    decreases stack.len(),
{
    if stack.len() == 0 {
        0int
    } else if stack.last().1 - 1 > cur_line {
        stack.len() as int
    } else {
        keep_idx(stack.drop_last(), cur_line)
    }
}

pub proof fn lemma_keep_idx(stack: Seq<(int, int)>, cur_line: int)
    ensures
        0 <= keep_idx(stack, cur_line) <= stack.len(),
    decreases stack.len(),
{
    if stack.len() > 0 && !(stack.last().1 - 1 > cur_line) {
        lemma_keep_idx(stack.drop_last(), cur_line);
    }
}

/// Whether a datum at (`line`, `col`) matches the cursor position exactly.
pub open spec fn datum_matches(
    analysis: Seq<WithLocation>,
    cd: int,
    line: int,
    col: int,
) -> bool {
    0 <= cd < analysis.len() && analysis[cd].loc.lineno as int == line
        && analysis[cd].loc.col_start as int == col
}

/// One step of the fusion pass over one token.
pub open spec fn rstep(
    st: RModel,
    tok: Token,
    text: Seq<char>,
    analysis: Seq<WithLocation>,
    jumps: Seq<Jump>,
    path: Seq<char>,
) -> RModel {
    if tok.kind is Newline {
        let out2 = st.out + esc_seq(text.subrange(st.last, tok.start as int));
        let keep = keep_idx(st.stack, st.cur_line);
        let pop = st.stack.len() - keep;
        RModel {
            out: Seq::empty(),
            lines: st.lines.push(
                LineV { line: crfix_seq(out2), nest: st.starts_nest, pop: pop as int },
            ),
            last: tok.end as int,
            line_start: tok.end as int,
            cur_line: st.cur_line + 1,
            stack: st.stack.take(keep),
            starts_nest: None,
            pops: st.pops + pop,
            ..st
        }
    } else {
        let col = tok.start - st.line_start;
        let cd1 = adv_datum(analysis, st.cur_datum, st.cur_line, col);
        let matched = datum_matches(analysis, cd1, st.cur_line, col);
        let cd2 = if matched {
            cd1 + 1
        } else {
            cd1
        };
        let takes_datum = tok.kind matches TokenKind::Identifier(None) || tok.kind
            is StringLiteral;
        let st1 = if matched && takes_datum {
            let o = process_datum_spec(
                analysis[cd1].data@,
                st.cur_line,
                st.stack,
                st.starts_nest,
                st.pushes,
                st.syms,
                st.occ,
                jumps,
                path,
            );
            RModel {
                stack: o.stack,
                starts_nest: o.starts,
                pushes: o.pushes,
                syms: o.syms_tab,
                occ: o.occ,
                cur_datum: cd2,
                ..st
            }
        } else {
            RModel { cur_datum: cd2, ..st }
        };
        let data = if matched && takes_datum {
            process_datum_spec(
                analysis[cd1].data@,
                st.cur_line,
                st.stack,
                st.starts_nest,
                st.pushes,
                st.syms,
                st.occ,
                jumps,
                path,
            ).data
        } else {
            Seq::empty()
        };
        let style = style_of(
            tok.kind,
            if matched {
                Some(analysis[cd1].data@)
            } else {
                None
            },
        );
        if tok.kind is Punctuation || tok.kind is PlainText {
            RModel {
                out: st1.out + esc_seq(text.subrange(st.last, tok.end as int)),
                last: tok.end as int,
                ..st1
            }
        } else if style.len() > 0 || data.len() > 0 {
            RModel {
                out: st1.out + esc_seq(text.subrange(st.last, tok.start as int)) + "<span "@
                    + style + data + ">"@ + esc_seq(
                    text.subrange(tok.start as int, tok.end as int),
                ) + "</span>"@,
                last: tok.end as int,
                ..st1
            }
        } else {
            st1
        }
    }
}

/// With no analysis data a token is styled only by its own kind — a bare
/// identifier gets no span at all — and no data attributes, occurrence
/// entries, symbol info or nesting changes can arise: rendering with an
/// empty analysis list leaves every identifier to its inline style.
pub proof fn lemma_empty_analysis_step(
    st: RModel,
    tok: Token,
    text: Seq<char>,
    jumps: Seq<Jump>,
    path: Seq<char>,
)
    requires
        !(tok.kind is Newline),
    ensures
        ({
            let st2 = rstep(st, tok, text, Seq::<WithLocation>::empty(), jumps, path);
            let style = style_of(tok.kind, None);
            &&& st2.occ == st.occ
            &&& st2.syms == st.syms
            &&& st2.stack == st.stack
            &&& st2.starts_nest == st.starts_nest
            &&& st2.pushes == st.pushes
            &&& st2.pops == st.pops
            &&& st2.lines == st.lines
            &&& st2.cur_datum == st.cur_datum
            &&& st2.out == (if tok.kind is Punctuation || tok.kind is PlainText {
                st.out + esc_seq(text.subrange(st.last, tok.end as int))
            } else if style.len() > 0 {
                st.out + esc_seq(text.subrange(st.last, tok.start as int)) + "<span "@ + style
                    + ">"@ + esc_seq(text.subrange(tok.start as int, tok.end as int))
                    + "</span>"@
            } else {
                st.out
            })
        }),
{
    assert(adv_datum(Seq::<WithLocation>::empty(), st.cur_datum, st.cur_line, tok.start
        - st.line_start) == st.cur_datum);
    assert(!datum_matches(
        Seq::<WithLocation>::empty(),
        st.cur_datum,
        st.cur_line,
        tok.start - st.line_start,
    ));
}

/// A source whose nesting range is empty contributes nothing to the nesting
/// fold: removing it leaves the stack, the opening marker and the push count
/// of every line unchanged.
pub proof fn lemma_nest_fold_skips_empty_range(
    d: Seq<AnalysisSource>,
    cur_line: int,
    st: NestR,
    k: int,
)
    requires
        0 <= k < d.len(),
        d[k].nesting_range.start_lineno == 0,
    ensures
        nest_fold(d, cur_line, st) == nest_fold(d.remove(k), cur_line, st),
    decreases d.len(),
{
    if k == 0 {
        assert(!nests(d[0], cur_line, st.stack));
        assert(d.remove(0) =~= d.drop_first());
    } else {
        let a = d[0];
        let st1 = if nests(a, cur_line, st.stack) {
            NestR {
                stack: st.stack.push(
                    (a.nesting_range.start_lineno as int, a.nesting_range.end_lineno as int),
                ),
                starts: if st.starts is None {
                    Some(a.sym@[0]@)
                } else {
                    st.starts
                },
                pushes: st.pushes + 1,
            }
        } else {
            st
        };
        assert(d.remove(k)[0] == d[0]);
        assert(d.remove(k).drop_first() =~= d.drop_first().remove(k - 1));
        assert(d.drop_first()[k - 1] == d[k]);
        lemma_nest_fold_skips_empty_range(d.drop_first(), cur_line, st1, k - 1);
    }
}

/// The first recorded binding of a key.
pub open spec fn tab_lookup(tab: Seq<(Seq<char>, SymInfoV)>, k: Seq<char>) -> Option<SymInfoV>
    decreases tab.len(),
{
    if tab.len() == 0 {
        None
    } else if tab[0].0 == k {
        Some(tab[0].1)
    } else {
        tab_lookup(tab.drop_first(), k)
    }
}

proof fn lemma_tab_lookup_push(tab: Seq<(Seq<char>, SymInfoV)>, x: (Seq<char>, SymInfoV), k: Seq<
    char,
>)
    requires
        has_key(tab, k),
    ensures
        tab_lookup(tab.push(x), k) == tab_lookup(tab, k),
    decreases tab.len(),
{
    assert(tab.len() > 0);
    assert(tab.push(x)[0] == tab[0]);
    if tab[0].0 != k {
        let w = choose|i: int| 0 <= i < tab.len() && (#[trigger] tab[i]).0 == k;
        assert(tab.drop_first()[w - 1].0 == k);
        assert(tab.push(x).drop_first() =~= tab.drop_first().push(x));
        lemma_tab_lookup_push(tab.drop_first(), x, k);
    }
}

/// Once a key is in the table it stays.
pub proof fn lemma_syminfo_fold_grows(
    d: Seq<AnalysisSource>,
    tab: Seq<(Seq<char>, SymInfoV)>,
    k: Seq<char>,
)
    requires
        has_key(tab, k),
    ensures
        has_key(syminfo_fold(d, tab), k),
    decreases d.len(),
{
    if d.len() > 0 {
        let a = d[0];
        let tab1 = if a.no_crossref && a.type_pretty is Some && a.sym@.len() >= 1 && !has_key(
            tab,
            a.sym@[0]@,
        ) {
            tab.push(
                (
                    a.sym@[0]@,
                    SymInfoV {
                        syntax: spec_syntax_kind(a),
                        type_pretty: a.type_pretty->0@,
                        type_sym: opt_str_view(a.type_sym),
                    },
                ),
            )
        } else {
            tab
        };
        let w = choose|i: int| 0 <= i < tab.len() && (#[trigger] tab[i]).0 == k;
        assert(tab1[w].0 == k);
        lemma_syminfo_fold_grows(d.drop_first(), tab1, k);
    }
}

/// The first sighting of a symbol binds it for good: folding further sources
/// never changes an existing binding, so a recurring `no_crossref` symbol's
/// type info lands in the table exactly once.
pub proof fn lemma_syminfo_fold_first_binding(
    d: Seq<AnalysisSource>,
    tab: Seq<(Seq<char>, SymInfoV)>,
    k: Seq<char>,
)
    requires
        has_key(tab, k),
    ensures
        tab_lookup(syminfo_fold(d, tab), k) == tab_lookup(tab, k),
    decreases d.len(),
{
    if d.len() > 0 {
        let a = d[0];
        let tab1 = if a.no_crossref && a.type_pretty is Some && a.sym@.len() >= 1 && !has_key(
            tab,
            a.sym@[0]@,
        ) {
            tab.push(
                (
                    a.sym@[0]@,
                    SymInfoV {
                        syntax: spec_syntax_kind(a),
                        type_pretty: a.type_pretty->0@,
                        type_sym: opt_str_view(a.type_sym),
                    },
                ),
            )
        } else {
            tab
        };
        if tab1 != tab {
            lemma_tab_lookup_push(
                tab,
                (
                    a.sym@[0]@,
                    SymInfoV {
                        syntax: spec_syntax_kind(a),
                        type_pretty: a.type_pretty->0@,
                        type_sym: opt_str_view(a.type_sym),
                    },
                ),
                k,
            );
            let w = choose|i: int| 0 <= i < tab.len() && (#[trigger] tab[i]).0 == k;
            assert(tab1[w].0 == k);
        }
        lemma_syminfo_fold_first_binding(d.drop_first(), tab1, k);
    }
}

/// A matched source that qualifies for the symbol-info table — marked
/// `no_crossref`, carrying type info — leaves its canonical symbol present
/// after the fold.
pub proof fn lemma_syminfo_fold_adds(
    d: Seq<AnalysisSource>,
    tab: Seq<(Seq<char>, SymInfoV)>,
    j: int,
)
    requires
        0 <= j < d.len(),
        d[j].no_crossref,
        d[j].type_pretty is Some,
        d[j].sym@.len() >= 1,
    ensures
        has_key(syminfo_fold(d, tab), d[j].sym@[0]@),
    decreases d.len(),
{
    let a = d[0];
    let tab1 = if a.no_crossref && a.type_pretty is Some && a.sym@.len() >= 1 && !has_key(
        tab,
        a.sym@[0]@,
    ) {
        tab.push(
            (
                a.sym@[0]@,
                SymInfoV {
                    syntax: spec_syntax_kind(a),
                    type_pretty: a.type_pretty->0@,
                    type_sym: opt_str_view(a.type_sym),
                },
            ),
        )
    } else {
        tab
    };
    if j == 0 {
        if has_key(tab, a.sym@[0]@) {
            lemma_syminfo_fold_grows(d.drop_first(), tab1, a.sym@[0]@);
        } else {
            assert(tab1.last().0 == a.sym@[0]@);
            lemma_syminfo_fold_grows(d.drop_first(), tab1, a.sym@[0]@);
        }
    } else {
        assert(d.drop_first()[j - 1] == d[j]);
        lemma_syminfo_fold_adds(d.drop_first(), tab1, j - 1);
    }
}

/// The fold of `rstep` over the first `i` tokens.
pub open spec fn rfold_to(
    text: Seq<char>,
    tokens: Seq<Token>,
    analysis: Seq<WithLocation>,
    jumps: Seq<Jump>,
    path: Seq<char>,
    i: int,
) -> RModel
    decreases i,
{
    if i <= 0 {
        rinit()
    } else {
        rstep(rfold_to(text, tokens, analysis, jumps, path, i - 1), tokens[i - 1], text, analysis,
            jumps, path)
    }
}

/// The end of the pass: what remains after the last token is escaped, and a
/// trailing non-empty line closes the entire remaining stack.
pub open spec fn rfinish(st: RModel, text: Seq<char>) -> RModel {
    let out2 = st.out + esc_seq(text.subrange(st.last, text.len() as int));
    if out2.len() > 0 {
        RModel {
            out: out2,
            lines: st.lines.push(
                LineV {
                    line: crfix_seq(out2),
                    nest: st.starts_nest,
                    pop: st.stack.len() as int,
                },
            ),
            stack: Seq::empty(),
            starts_nest: None,
            pops: st.pops + st.stack.len(),
            ..st
        }
    } else {
        RModel { out: out2, ..st }
    }
}

/// The complete model of one render.
pub open spec fn render_model(
    text: Seq<char>,
    tokens: Seq<Token>,
    analysis: Seq<WithLocation>,
    jumps: Seq<Jump>,
    path: Seq<char>,
) -> RModel {
    rfinish(rfold_to(text, tokens, analysis, jumps, path, tokens.len() as int), text)
}

pub open spec fn stack_view(s: Seq<(u32, u32)>) -> Seq<(int, int)> {
    s.map_values(|p: (u32, u32)| (p.0 as int, p.1 as int))
}

pub open spec fn mj_view(m: MenuJump) -> MJ {
    MJ { key: m.key@, sym: m.sym@, pretty: m.pretty@ }
}

pub open spec fn symtab_view(tab: Seq<(String, SymInfo)>) -> Seq<(Seq<char>, SymInfoV)> {
    tab.map_values(|row: (String, SymInfo)| sym_row_view(row))
}

pub open spec fn occ_view(occ: Seq<OccEntry>) -> Seq<OccEntryV> {
    occ.map_values(|e: OccEntry| e@)
}

/// Appends the comma-joined symbol list of one source.
fn append_joined_syms(out: &mut Vec<char>, a: &AnalysisSource)
    ensures
        final(out)@ == old(out)@ + joined_syms(*a),
{
    let ghost elems = a.sym@.map_values(|s: String| s@);
    let mut i: usize = 0;
    while i < a.sym.len()
        invariant
            i <= a.sym@.len(),
            elems == a.sym@.map_values(|s: String| s@),
            out@ == old(out)@ + join_sep(elems.take(i as int), ","@),
        decreases a.sym.len() - i,
    {
        if i > 0 {
            append_str(out, ",");
        }
        append_str(out, a.sym[i].as_str());
        i += 1;
        proof {
            crate::json::lemma_join_sep_step(elems, ","@, i - 1);
        }
    }
    proof {
        assert(elems.take(elems.len() as int) =~= elems);
    }
}

/// Builds the comma-joined symbols of all sources.
fn all_syms_exec(d: &Vec<AnalysisSource>) -> (r: Vec<char>)
    ensures
        r@ == all_syms_str(d@),
{
    let ghost elems = d@.map_values(|a: AnalysisSource| joined_syms(a));
    let mut out: Vec<char> = Vec::new();
    let mut i: usize = 0;
    while i < d.len()
        invariant
            i <= d@.len(),
            elems == d@.map_values(|a: AnalysisSource| joined_syms(a)),
            out@ == join_sep(elems.take(i as int), ","@),
        decreases d.len() - i,
    {
        if i > 0 {
            append_str(&mut out, ",");
        }
        append_joined_syms(&mut out, &d[i]);
        i += 1;
        proof {
            crate::json::lemma_join_sep_step(elems, ","@, i - 1);
        }
    }
    proof {
        assert(elems.take(elems.len() as int) =~= elems);
    }
    out
}

/// Whether the symbol-info table already holds a key.
fn symtab_contains(tab: &Vec<(String, SymInfo)>, k: &String) -> (r: bool)
    ensures
        r == has_key(symtab_view(tab@), k@),
{
    let mut i: usize = 0;
    while i < tab.len()
        invariant
            i <= tab@.len(),
            forall|j: int| 0 <= j < i ==> (#[trigger] symtab_view(tab@)[j]).0 != k@,
        decreases tab.len() - i,
    {
        if tab[i].0 == *k {
            proof {
                assert((symtab_view(tab@)[i as int]).0 == k@);
            }
            return true;
        }
        i += 1;
    }
    false
}

/// Whether a menu jump with this dedup key is already listed.
fn mj_contains(mjs: &Vec<MenuJump>, k: &String) -> (r: bool)
    ensures
        r == mj_has_key(mjs@.map_values(|m: MenuJump| mj_view(m)), k@),
{
    let mut i: usize = 0;
    while i < mjs.len()
        invariant
            i <= mjs@.len(),
            forall|j: int| 0 <= j < i ==> mj_view(#[trigger] mjs@[j]).key != k@,
        decreases mjs.len() - i,
    {
        if mjs[i].key == *k {
            proof {
                assert((mjs@.map_values(|m: MenuJump| mj_view(m))[i as int]).key == k@);
            }
            return true;
        }
        i += 1;
    }
    false
}

fn str_eq(a: &str, b: &str) -> (r: bool)
    ensures
        r == (a@ == b@),
{
    let av = str_chars(a);
    chars_eq_str(&av, b)
}

/// The style classes of one matched datum, gathered in order.
fn classes_exec(d: &Vec<AnalysisSource>) -> (r: Vec<Vec<char>>)
    ensures
        r@.map_values(|c: Vec<char>| c@) == classes_of(d@),
{
    let mut clss: Vec<Vec<char>> = Vec::new();
    let mut i: usize = 0;
    while i < d.len()
        invariant
            i <= d@.len(),
            clss@.map_values(|c: Vec<char>| c@) == classes_of(d@.take(i as int)),
        decreases d.len() - i,
    {
        let a = &d[i];
        let mut j: usize = 0;
        while j < a.syntax.len()
            invariant
                j <= d@[i as int].syntax@.len(),
                i < d@.len(),
                *a == d@[i as int],
                clss@.map_values(|c: Vec<char>| c@) == classes_of(d@.take(i as int)) + cls_of_tags(
                    d@[i as int].syntax@.take(j as int),
                ),
            decreases a.syntax.len() - j,
        {
            let tag = &a.syntax[j];
            let ghost pre = clss@.map_values(|c: Vec<char>| c@);
            let ghost tv = d@[i as int].syntax@[j as int]@;
            if str_eq(tag.as_str(), "type") {
                clss.push(str_chars("syn_type"));
                proof {
                    assert(cls_of_tag(tv) =~= seq!["syn_type"@]);
                    assert(clss@.map_values(|c: Vec<char>| c@) =~= pre + cls_of_tag(tv));
                }
            } else if str_eq(tag.as_str(), "def") || str_eq(tag.as_str(), "decl") || str_eq(
                tag.as_str(),
                "idl",
            ) {
                clss.push(str_chars("syn_def"));
                proof {
                    assert(cls_of_tag(tv) =~= seq!["syn_def"@]);
                    assert(clss@.map_values(|c: Vec<char>| c@) =~= pre + cls_of_tag(tv));
                }
            } else {
                proof {
                    assert(cls_of_tag(tv) =~= Seq::<Seq<char>>::empty());
                    assert(clss@.map_values(|c: Vec<char>| c@) =~= pre + cls_of_tag(tv));
                }
            }
            j += 1;
            proof {
                let ts = d@[i as int].syntax@.take(j as int);
                assert(ts.drop_last() =~= d@[i as int].syntax@.take(j - 1));
                assert(ts.last() == d@[i as int].syntax@[j - 1]);
                assert(cls_of_tags(ts) == cls_of_tags(d@[i as int].syntax@.take(j - 1))
                    + cls_of_tag(tv));
                assert(clss@.map_values(|c: Vec<char>| c@) =~= classes_of(d@.take(i as int))
                    + cls_of_tags(d@[i as int].syntax@.take(j as int)));
            }
        }
        i += 1;
        proof {
            let sy = d@[i - 1].syntax@;
            assert(sy.take(sy.len() as int) =~= sy);
            let t = d@.take(i as int);
            assert(t.drop_last() =~= d@.take(i - 1));
            assert(t.last() == d@[i - 1]);
        }
    }
    proof {
        assert(d@.take(d@.len() as int) =~= d@);
    }
    clss
}

/// The style attribute of a token.
fn style_of_exec(kind: &TokenKind, datum: Option<&Vec<AnalysisSource>>) -> (r: Vec<char>)
    ensures
        r@ == style_of(
            *kind,
            match datum {
                Some(d) => Some(d@),
                None => None,
            },
        ),
{
    match kind {
        TokenKind::Identifier(inline) => match inline {
            Some(s) => str_chars(s.as_str()),
            None => match datum {
                Some(d) => {
                    let clss = classes_exec(d);
                    let ghost cls = classes_of(d@);
                    if clss.len() > 0 {
                        let mut out: Vec<char> = Vec::new();
                        append_str(&mut out, "class=\"");
                        let ghost mid = out@;
                        let mut i: usize = 0;
                        while i < clss.len()
                            invariant
                                i <= clss@.len(),
                                clss@.map_values(|c: Vec<char>| c@) == cls,
                                out@ == mid + join_sep(cls.take(i as int), " "@),
                            decreases clss.len() - i,
                        {
                            if i > 0 {
                                append_str(&mut out, " ");
                            }
                            append_all(&mut out, &clss[i]);
                            i += 1;
                            proof {
                                crate::json::lemma_join_sep_step(cls, " "@, i - 1);
                            }
                        }
                        append_str(&mut out, "\" ");
                        proof {
                            assert(cls.take(cls.len() as int) =~= cls);
                            assert(out@ =~= style_of(*kind, Some(d@)));
                        }
                        out
                    } else {
                        Vec::new()
                    }
                },
                None => Vec::new(),
            },
        },
        TokenKind::StringLiteral => str_chars("class=\"syn_string\" "),
        TokenKind::Comment => str_chars("class=\"syn_comment\" "),
        TokenKind::TagName => str_chars("class=\"syn_tag\" "),
        TokenKind::TagAttrName => str_chars("class=\"syn_tag\" "),
        TokenKind::EndTagName => str_chars("class=\"syn_tag\" "),
        TokenKind::RegularExpressionLiteral => str_chars("class=\"syn_regex\" "),
        _ => Vec::new(),
    }
}

/// Applies one matched datum: folds the nesting rule, records symbol info,
/// builds the highlight symbol list, deduplicates menu jumps, and appends an
/// occurrence entry when the datum yields items. Returns the data attributes
/// for the token's span.
#[verifier::rlimit(60)]
fn process_datum(
    d: &Vec<AnalysisSource>,
    cur_line: u32,
    stack: &mut Vec<(u32, u32)>,
    starts: &mut Option<String>,
    Ghost(pushes): Ghost<int>,
    symtab: &mut Vec<(String, SymInfo)>,
    occ: &mut Vec<OccEntry>,
    jumps: &Vec<Jump>,
    path: &str,
) -> (data: Vec<char>)
    requires
        cur_line < 0xFFFF_FFFF,
        forall|j: int| 0 <= j < d@.len() ==> (#[trigger] d@[j]).sym@.len() >= 1,
    ensures
        ({
            let o = process_datum_spec(
                d@,
                cur_line as int,
                stack_view(old(stack)@),
                opt_str_view(*old(starts)),
                pushes,
                symtab_view(old(symtab)@),
                occ_view(old(occ)@),
                jumps@,
                path@,
            );
            &&& stack_view(final(stack)@) == o.stack
            &&& opt_str_view(*final(starts)) == o.starts
            &&& symtab_view(final(symtab)@) == o.syms_tab
            &&& occ_view(final(occ)@) == o.occ
            &&& data@ == o.data
        }),
{
    let ghost st0 = NestR {
        stack: stack_view(old(stack)@),
        starts: opt_str_view(*old(starts)),
        pushes: pushes,
    };
    let ghost pd = process_datum_spec(
        d@,
        cur_line as int,
        st0.stack,
        st0.starts,
        pushes,
        symtab_view(old(symtab)@),
        occ_view(old(occ)@),
        jumps@,
        path@,
    );
    // Nesting rule over the sources, in order.
    proof {
        assert(d@.skip(0) =~= d@);
    }
    let ghost mut pcur: int = pushes;
    let mut i: usize = 0;
    while i < d.len()
        invariant
            i <= d@.len(),
            cur_line < 0xFFFF_FFFF,
            forall|j: int| 0 <= j < d@.len() ==> (#[trigger] d@[j]).sym@.len() >= 1,
            nest_fold(
                d@.skip(i as int),
                cur_line as int,
                NestR { stack: stack_view(stack@), starts: opt_str_view(*starts), pushes: pcur },
            ) == nest_fold(d@, cur_line as int, st0),
        decreases d.len() - i,
    {
        let a = &d[i];
        let ghost suf = d@.skip(i as int);
        let ghost st_pre = NestR {
            stack: stack_view(stack@),
            starts: opt_str_view(*starts),
            pushes: pcur,
        };
        let top_differs = if stack.len() == 0 {
            true
        } else {
            a.nesting_range.start_lineno != stack[stack.len() - 1].0
        };
        proof {
            if stack@.len() > 0 {
                assert(st_pre.stack.last() == (
                    stack@.last().0 as int,
                    stack@.last().1 as int,
                ));
            }
        }
        let push_it = a.nesting_range.start_lineno != 0 && a.nesting_range.start_lineno >= cur_line
            && top_differs && a.nesting_range.end_lineno > cur_line + 1;
        proof {
            assert(suf[0] == d@[i as int]);
            assert(push_it == nests(suf[0], cur_line as int, st_pre.stack));
        }
        if push_it {
            if starts.is_none() {
                *starts = Some(a.sym[0].clone());
            }
            stack.push((a.nesting_range.start_lineno, a.nesting_range.end_lineno));
            proof {
                pcur = pcur + 1;
            }
        }
        i += 1;
        proof {
            let st_post = NestR {
                stack: stack_view(stack@),
                starts: opt_str_view(*starts),
                pushes: pcur,
            };
            if nests(suf[0], cur_line as int, st_pre.stack) {
                assert(st_post.stack =~= st_pre.stack.push(
                    (
                        suf[0].nesting_range.start_lineno as int,
                        suf[0].nesting_range.end_lineno as int,
                    ),
                ));
                assert(st_post =~= NestR {
                    stack: st_pre.stack.push(
                        (
                            suf[0].nesting_range.start_lineno as int,
                            suf[0].nesting_range.end_lineno as int,
                        ),
                    ),
                    starts: if st_pre.starts is None {
                        Some(suf[0].sym@[0]@)
                    } else {
                        st_pre.starts
                    },
                    pushes: st_pre.pushes + 1,
                });
            } else {
                assert(st_post =~= st_pre);
            }
            assert(suf.drop_first() =~= d@.skip(i as int));
            assert(nest_fold(suf, cur_line as int, st_pre) == nest_fold(
                d@.skip(i as int),
                cur_line as int,
                st_post,
            ));
        }
    }
    proof {
        assert(d@.skip(d@.len() as int) =~= Seq::<AnalysisSource>::empty());
    }
    // Symbol-info pass-through for no_crossref sources with type data.
    proof {
        assert(d@.skip(0) =~= d@);
    }
    let mut i2: usize = 0;
    while i2 < d.len()
        invariant
            i2 <= d@.len(),
            forall|j: int| 0 <= j < d@.len() ==> (#[trigger] d@[j]).sym@.len() >= 1,
            syminfo_fold(d@.skip(i2 as int), symtab_view(symtab@)) == syminfo_fold(
                d@,
                symtab_view(old(symtab)@),
            ),
        decreases d.len() - i2,
    {
        let a = &d[i2];
        let ghost suf = d@.skip(i2 as int);
        let ghost pre_tab = symtab_view(symtab@);
        if a.no_crossref {
            if let Some(tp) = &a.type_pretty {
                if a.sym.len() >= 1 && !symtab_contains(symtab, &a.sym[0]) {
                    let syn = match a.get_syntax_kind() {
                        Some(s) => Some(s.clone()),
                        None => None,
                    };
                    let tsym = match &a.type_sym {
                        Some(s) => Some(s.clone()),
                        None => None,
                    };
                    symtab.push(
                        (
                            a.sym[0].clone(),
                            SymInfo { syntax: syn, type_pretty: tp.clone(), type_sym: tsym },
                        ),
                    );
                    proof {
                        assert(symtab_view(symtab@) =~= pre_tab.push(
                            (
                                d@[i2 as int].sym@[0]@,
                                SymInfoV {
                                    syntax: spec_syntax_kind(d@[i2 as int]),
                                    type_pretty: d@[i2 as int].type_pretty->0@,
                                    type_sym: opt_str_view(d@[i2 as int].type_sym),
                                },
                            ),
                        ));
                    }
                }
            }
        }
        i2 += 1;
        proof {
            assert(suf.drop_first() =~= d@.skip(i2 as int));
            assert(suf[0] == d@[i2 - 1]);
        }
    }
    proof {
        assert(d@.skip(d@.len() as int) =~= Seq::<AnalysisSource>::empty());
    }
    // The highlight symbol list covers every source, crossref or not.
    let sstr = all_syms_exec(d);
    // Menu jumps, deduplicated by target path and line, first target wins.
    proof {
        assert(d@.skip(0) =~= d@);
    }
    let mut mjs: Vec<MenuJump> = Vec::new();
    proof {
        assert(mjs@.map_values(|m: MenuJump| mj_view(m)) =~= Seq::<MJ>::empty());
    }
    let mut i3: usize = 0;
    while i3 < d.len()
        invariant
            i3 <= d@.len(),
            menu_fold(
                d@.skip(i3 as int),
                jumps@,
                path@,
                cur_line as int,
                mjs@.map_values(|m: MenuJump| mj_view(m)),
            ) == menu_fold(d@, jumps@, path@, cur_line as int, Seq::<MJ>::empty()),
        decreases d.len() - i3,
    {
        let a = &d[i3];
        let ghost suf = d@.skip(i3 as int);
        if !a.no_crossref {
            let ghost symseq = d@[i3 as int].sym@.map_values(|s: String| s@);
            let ghost target = menu_syms_fold(
                symseq,
                jumps@,
                path@,
                cur_line as int,
                mjs@.map_values(|m: MenuJump| mj_view(m)),
            );
            proof {
                assert(symseq.skip(0) =~= symseq);
            }
            let mut j: usize = 0;
            while j < a.sym.len()
                invariant
                    j <= d@[i3 as int].sym@.len(),
                    i3 < d@.len(),
                    *a == d@[i3 as int],
                    symseq == d@[i3 as int].sym@.map_values(|s: String| s@),
                    menu_syms_fold(
                        symseq.skip(j as int),
                        jumps@,
                        path@,
                        cur_line as int,
                        mjs@.map_values(|m: MenuJump| mj_view(m)),
                    ) == target,
                decreases a.sym.len() - j,
            {
                let ghost ssuf = symseq.skip(j as int);
                let ghost pre_mjs = mjs@.map_values(|m: MenuJump| mj_view(m));
                match jump_lookup(jumps, &a.sym[j]) {
                    None => {},
                    Some(jm) => {
                        if str_eq(jm.path.as_str(), path) && jm.lineno == (cur_line as u64) {
                        } else {
                            let mut kb: Vec<char> = Vec::new();
                            append_str(&mut kb, jm.path.as_str());
                            append_str(&mut kb, ":");
                            push_dec(&mut kb, jm.lineno);
                            let key = chars_string(&kb);
                            proof {
                                assert(key@ == jump_key(*jm));
                            }
                            if !mj_contains(&mjs, &key) {
                                mjs.push(
                                    MenuJump {
                                        key,
                                        sym: a.sym[j].clone(),
                                        pretty: jm.pretty.clone(),
                                    },
                                );
                                proof {
                                    assert(mjs@.map_values(|m: MenuJump| mj_view(m)) =~= pre_mjs
                                        .push(
                                        MJ {
                                            key: jump_key(*jm),
                                            sym: symseq[j as int],
                                            pretty: jm.pretty@,
                                        },
                                    ));
                                }
                            }
                        }
                    },
                }
                j += 1;
                proof {
                    assert(ssuf.drop_first() =~= symseq.skip(j as int));
                    assert(ssuf[0] == symseq[j - 1]);
                }
            }
            proof {
                assert(symseq.skip(symseq.len() as int) =~= Seq::<Seq<char>>::empty());
            }
        }
        i3 += 1;
        proof {
            assert(suf.drop_first() =~= d@.skip(i3 as int));
            assert(suf[0] == d@[i3 - 1]);
        }
    }
    proof {
        assert(d@.skip(d@.len() as int) =~= Seq::<AnalysisSource>::empty());
    }
    // The `{joined-symbols, pretty}` items of the crossref-eligible sources.
    let mut items: Vec<OccItem> = Vec::new();
    let mut i4: usize = 0;
    while i4 < d.len()
        invariant
            i4 <= d@.len(),
            items@.map_values(|it: OccItem| (it.sym@, it.pretty@)) == items_of(d@.take(i4 as int)),
        decreases d.len() - i4,
    {
        let a = &d[i4];
        let ghost pre_items = items@.map_values(|it: OccItem| (it.sym@, it.pretty@));
        if !a.no_crossref {
            let mut jb: Vec<char> = Vec::new();
            append_joined_syms(&mut jb, a);
            items.push(OccItem { sym: chars_string(&jb), pretty: a.pretty.clone() });
        }
        i4 += 1;
        proof {
            let t = d@.take(i4 as int);
            assert(t.drop_last() =~= d@.take(i4 - 1));
            assert(t.last() == d@[i4 - 1]);
            assert(items@.map_values(|it: OccItem| (it.sym@, it.pretty@)) =~= items_of(
                d@.take(i4 as int),
            ));
        }
    }
    proof {
        assert(d@.take(d@.len() as int) =~= d@);
    }
    // Assemble the data attributes; an entry joins the occurrence table only
    // when there are items.
    let mut data: Vec<char> = Vec::new();
    append_str(&mut data, "data-symbols=\"");
    append_all(&mut data, &sstr);
    if items.len() > 0 {
        append_str(&mut data, "\" data-i=\"");
        push_dec(&mut data, occ.len() as u64);
        append_str(&mut data, "\" ");
        let ghost pre_occ = occ_view(occ@);
        let ghost mjs_pairs = mjs@.map_values(|j: MenuJump| (j.sym@, j.pretty@));
        let ghost items_pairs = items@.map_values(|it: OccItem| (it.sym@, it.pretty@));
        proof {
            assert(mjs_pairs =~= mjs@.map_values(|m: MenuJump| mj_view(m)).map_values(
                |m: MJ| (m.sym, m.pretty),
            ));
        }
        occ.push(OccEntry { jumps: mjs, items });
        proof {
            assert(occ@.last()@ =~= OccEntryV { jumps: mjs_pairs, items: items_pairs });
            assert(occ_view(occ@) =~= pre_occ.push(
                OccEntryV {
                    jumps: menu_fold(
                        d@,
                        jumps@,
                        path@,
                        cur_line as int,
                        Seq::<MJ>::empty(),
                    ).map_values(|m: MJ| (m.sym, m.pretty)),
                    items: items_of(d@),
                },
            ));
            assert(data@ =~= pd.data);
        }
    } else {
        append_str(&mut data, "\" ");
        proof {
            assert(data@ =~= pd.data);
        }
    }
    data
}

/// The number of newline tokens in a stream.
pub open spec fn nl_count(toks: Seq<Token>) -> int
    decreases toks.len(),
{
    if toks.len() == 0 {
        0
    } else {
        nl_count(toks.drop_last()) + if toks.last().kind is Newline {
            1int
        } else {
            0int
        }
    }
}

/// Where the line after the last newline token starts: that token's end, or
/// zero when no newline exists.
pub open spec fn nl_end(toks: Seq<Token>) -> int
    decreases toks.len(),
{
    if toks.len() == 0 {
        0
    } else if toks.last().kind is Newline {
        toks.last().end as int
    } else {
        nl_end(toks.drop_last())
    }
}

pub proof fn lemma_nl_count_le(toks: Seq<Token>)
    ensures
        0 <= nl_count(toks) <= toks.len(),
    decreases toks.len(),
{
    if toks.len() > 0 {
        lemma_nl_count_le(toks.drop_last());
    }
}

/// The total of all close counts over the rendered lines.
pub open spec fn sum_pops(lines: Seq<LineV>) -> int
    decreases lines.len(),
{
    if lines.len() == 0 {
        0
    } else {
        sum_pops(lines.drop_last()) + lines.last().pop
    }
}

/// Every nesting range in the analysis ends at or before `maxline`.
pub open spec fn nesting_bounded(analysis: Seq<WithLocation>, maxline: int) -> bool {
    forall|i: int, j: int|
        0 <= i < analysis.len() && 0 <= j < (#[trigger] analysis[i]).data@.len()
            ==> (#[trigger] analysis[i].data@[j]).nesting_range.end_lineno as int <= maxline
}

/// When something is kept, the highest kept entry's range reaches past the
/// next line.
pub proof fn lemma_keep_idx_top(stack: Seq<(int, int)>, cur_line: int)
    ensures
        keep_idx(stack, cur_line) > 0 ==> stack[keep_idx(stack, cur_line) - 1].1 - 1 > cur_line,
    decreases stack.len(),
{
    if stack.len() > 0 && !(stack.last().1 - 1 > cur_line) {
        lemma_keep_idx_top(stack.drop_last(), cur_line);
        lemma_keep_idx(stack.drop_last(), cur_line);
    }
}

/// A fold over sources whose ranges all end by the next line pushes nothing.
pub proof fn lemma_nest_fold_none(d: Seq<AnalysisSource>, cur_line: int, st: NestR)
    requires
        forall|j: int|
            0 <= j < d.len() ==> (#[trigger] d[j]).nesting_range.end_lineno as int <= cur_line + 1,
    ensures
        nest_fold(d, cur_line, st) == st,
    decreases d.len(),
{
    if d.len() > 0 {
        assert(d[0].nesting_range.end_lineno as int <= cur_line + 1);
        assert(!nests(d[0], cur_line, st.stack));
        assert(forall|j: int|
            0 <= j < d.drop_first().len() ==> (#[trigger] d.drop_first()[j]) == d[j + 1]);
        lemma_nest_fold_none(d.drop_first(), cur_line, st);
    }
}

/// The fold keeps two facts about the stack: every entry's end stays within
/// the bound `maxline`, and a non-empty stack's top reaches past this line.
pub proof fn lemma_nest_fold_entries(d: Seq<AnalysisSource>, cur_line: int, st: NestR, maxline: int)
    requires
        forall|j: int|
            0 <= j < d.len() ==> (#[trigger] d[j]).nesting_range.end_lineno as int <= maxline,
        forall|k: int| 0 <= k < st.stack.len() ==> (#[trigger] st.stack[k]).1 <= maxline,
        st.stack.len() > 0 ==> st.stack.last().1 - 1 >= cur_line,
    ensures
        forall|k: int|
            0 <= k < nest_fold(d, cur_line, st).stack.len() ==> (#[trigger] nest_fold(
                d,
                cur_line,
                st,
            ).stack[k]).1 <= maxline,
        nest_fold(d, cur_line, st).stack.len() > 0 ==> nest_fold(
            d,
            cur_line,
            st,
        ).stack.last().1 - 1 >= cur_line,
    decreases d.len(),
{
    if d.len() > 0 {
        let a = d[0];
        let st1 = if nests(a, cur_line, st.stack) {
            NestR {
                stack: st.stack.push(
                    (a.nesting_range.start_lineno as int, a.nesting_range.end_lineno as int),
                ),
                starts: if st.starts is None {
                    Some(a.sym@[0]@)
                } else {
                    st.starts
                },
                pushes: st.pushes + 1,
            }
        } else {
            st
        };
        assert(forall|j: int|
            0 <= j < d.drop_first().len() ==> (#[trigger] d.drop_first()[j]) == d[j + 1]);
        lemma_nest_fold_entries(d.drop_first(), cur_line, st1, maxline);
    }
}

/// Moves the analysis cursor past every record before (`line`, `col`).
fn advance_cursor(analysis: &Vec<WithLocation>, cd: usize, line: u32, col: u32) -> (r: usize)
    requires
        cd <= analysis@.len(),
    ensures
        r as int == adv_datum(analysis@, cd as int, line as int, col as int),
        cd <= r <= analysis@.len(),
{
    let mut c = cd;
    while c < analysis.len() && (analysis[c].loc.lineno < line || (analysis[c].loc.lineno == line
        && analysis[c].loc.col_start < col))
        invariant
            cd <= c <= analysis@.len(),
            adv_datum(analysis@, cd as int, line as int, col as int) == adv_datum(
                analysis@,
                c as int,
                line as int,
                col as int,
            ),
        decreases analysis.len() - c,
    {
        c += 1;
    }
    c
}


/// What the finish step yields: the line count rule, the nesting balance,
/// and — when a trailing line exists or all ranges end within the text — a
/// fully closed stack.
pub proof fn lemma_render_finish(mfin: RModel, text: Seq<char>, tokens: Seq<Token>, bounded: bool)
    requires
        0 <= mfin.line_start <= mfin.last <= text.len(),
        mfin.out.len() == 0 ==> mfin.last == mfin.line_start,
        mfin.line_start == text.len() ==> mfin.out.len() == 0,
        mfin.lines.len() == nl_count(tokens),
        mfin.line_start == nl_end(tokens),
        mfin.pops == sum_pops(mfin.lines),
        mfin.pushes - mfin.pops == mfin.stack.len(),
        mfin.pops >= 0,
        bounded && !(nl_end(tokens) < text.len()) ==> mfin.stack.len() == 0,
    ensures
        ({
            let fin = rfinish(mfin, text);
            &&& fin.lines.len() == nl_count(tokens) + (if nl_end(tokens) < text.len() {
                1int
            } else {
                0int
            })
            &&& sum_pops(fin.lines) == fin.pops
            &&& 0 <= fin.pops <= fin.pushes
            &&& fin.pushes - fin.pops == fin.stack.len()
            &&& ((nl_end(tokens) < text.len() || bounded) ==> fin.pops == fin.pushes)
            &&& fin.occ == mfin.occ
            &&& fin.syms == mfin.syms
            &&& (nl_end(tokens) < text.len() ==> fin.lines == mfin.lines.push(
                LineV {
                    line: crfix_seq(
                        mfin.out + esc_seq(text.subrange(mfin.last, text.len() as int)),
                    ),
                    nest: mfin.starts_nest,
                    pop: mfin.stack.len() as int,
                },
            ))
            &&& (!(nl_end(tokens) < text.len()) ==> fin.lines == mfin.lines)
        }),
{
    let tail = text.subrange(mfin.last, text.len() as int);
    lemma_esc_seq_empty(tail);
    let out2 = mfin.out + esc_seq(tail);
    if nl_end(tokens) < text.len() {
        if out2.len() == 0 {
            assert(mfin.out.len() == 0 && esc_seq(tail).len() == 0);
            assert(mfin.last == mfin.line_start);
            assert(tail.len() == 0);
            assert(mfin.line_start == text.len());
            assert(false);
        }
        let fin = rfinish(mfin, text);
        assert(fin.lines.last().pop == mfin.stack.len() as int);
        assert(fin.lines.drop_last() =~= mfin.lines);
    } else {
        assert(mfin.line_start == text.len());
        assert(mfin.out.len() == 0);
        assert(mfin.last == mfin.line_start);
        assert(tail.len() == 0);
        assert(esc_seq(tail).len() == 0);
        assert(out2.len() == 0);
    }
}

/// Renders source text into HTML lines wrapped in `FormattedLine` values plus
/// the two JSON side tables (occurrence table, symbol-info table), fusing the
/// token stream with the analysis records, the nesting tracker and the jump
/// table in one pass. The caller supplies the token stream and chooses plain
/// or diffable JSON; line numbers and blame belong to the caller.
///
/// The result is exactly the spec-level `render_model` of the inputs. In
/// addition: the number of lines equals the number of newline tokens, plus
/// one more exactly when text follows the last newline; close counts balance
/// opens (fully, when a trailing line exists or every nesting range ends
/// within the text); and an empty analysis list yields `[]` and `{}` tables.
/// The running facts of the fusion pass, proved by induction over the token
/// stream: cursor and offset bounds, the line-count and line-start laws, the
/// nesting balance, unique symbol-info keys, and emptiness of the tables when
/// there is no analysis.
#[verifier::rlimit(100)]
#[verifier::spinoff_prover]
pub proof fn lemma_rfold_props(
    text: Seq<char>,
    tokens: Seq<Token>,
    analysis: Seq<WithLocation>,
    jumps: Seq<Jump>,
    path: Seq<char>,
    i: int,
)
    requires
        0 <= i <= tokens.len(),
        tokens_wf(tokens, text.len() as int),
        analysis_valid(analysis),
        text.len() < 0x8000_0000,
        srcs_total(analysis) < 0x8000_0000,
    ensures
        ({
            let m = rfold_to(text, tokens, analysis, jumps, path, i);
            &&& 0 <= m.line_start <= m.last <= text.len()
            &&& (i < tokens.len() ==> m.last <= tokens[i].start)
            &&& (m.out.len() == 0 ==> m.last == m.line_start)
            &&& (m.line_start == text.len() ==> m.out.len() == 0)
            &&& m.cur_line == m.lines.len() + 1
            &&& m.lines.len() == nl_count(tokens.take(i))
            &&& m.line_start == nl_end(tokens.take(i))
            &&& m.pops == sum_pops(m.lines)
            &&& m.pops >= 0
            &&& m.pushes - m.pops == m.stack.len()
            &&& 0 <= m.cur_datum <= analysis.len()
            &&& m.pushes <= srcs_total(analysis.take(m.cur_datum))
            &&& keys_unique(m.syms)
            &&& (analysis.len() == 0 ==> m.occ == Seq::<OccEntryV>::empty() && m.syms == Seq::<
                (Seq<char>, SymInfoV),
            >::empty())
            &&& (nesting_bounded(analysis, nl_count(tokens) + 1) ==> ((forall|k: int|
                0 <= k < m.stack.len() ==> (#[trigger] m.stack[k]).1 <= nl_count(tokens) + 1) && (
            m.stack.len() > 0 ==> m.stack.last().1 - 1 >= m.cur_line)))
        }),
    decreases i,
{
    let bound = nl_count(tokens) + 1;
    if i == 0 {
        assert(tokens.take(0) =~= Seq::<Token>::empty());
        assert(analysis.take(0) =~= Seq::<WithLocation>::empty());
    } else {
        lemma_rfold_props(text, tokens, analysis, jumps, path, i - 1);
        let m = rfold_to(text, tokens, analysis, jumps, path, i - 1);
        let tok = tokens[i - 1];
        let m2 = rfold_to(text, tokens, analysis, jumps, path, i);
        assert(m2 == rstep(m, tok, text, analysis, jumps, path));
        assert(m.last <= tok.start && tok.start < tok.end <= text.len());
        let tpre = tokens.take(i);
        assert(tpre.drop_last() =~= tokens.take(i - 1));
        assert(tpre.last() == tok);
        if i < tokens.len() {
            assert(tok.end <= tokens[i].start);
        }
        if tok.kind is Newline {
            let keep = keep_idx(m.stack, m.cur_line);
            lemma_keep_idx(m.stack, m.cur_line);
            let pop = m.stack.len() - keep;
            assert(m2.lines.drop_last() =~= m.lines);
            assert(sum_pops(m2.lines) == sum_pops(m.lines) + pop);
            assert(m2.stack.len() == keep);
            if nesting_bounded(analysis, bound) {
                lemma_keep_idx_top(m.stack, m.cur_line);
                if keep > 0 {
                    assert(m2.stack.last() == m.stack[keep - 1]);
                }
                assert(forall|k: int|
                    0 <= k < m2.stack.len() ==> (#[trigger] m2.stack[k]).1 <= bound);
            }
        } else {
            lemma_adv_datum(analysis, m.cur_datum, m.cur_line, tok.start - m.line_start);
            let cd1 = adv_datum(analysis, m.cur_datum, m.cur_line, tok.start - m.line_start);
            let matched = datum_matches(analysis, cd1, m.cur_line, tok.start - m.line_start);
            lemma_srcs_take_le(analysis, m.cur_datum, cd1);
            if matched {
                lemma_srcs_total_take_step(analysis, cd1);
            }
            let takes = tok.kind matches TokenKind::Identifier(None) || tok.kind
                is StringLiteral;
            if matched && takes {
                let d = analysis[cd1].data@;
                let st0 = NestR { stack: m.stack, starts: m.starts_nest, pushes: m.pushes };
                lemma_nest_fold_pushes(d, m.cur_line, st0);
                lemma_syminfo_fold_unique(d, m.syms);
                if nesting_bounded(analysis, bound) {
                    assert(forall|j: int|
                        0 <= j < d.len() ==> (#[trigger] d[j]).nesting_range.end_lineno as int
                            <= bound);
                    lemma_nest_fold_entries(d, m.cur_line, st0, bound);
                }
            }
            if m.line_start == text.len() {
                assert(false);
            }
            if tok.kind is Punctuation || tok.kind is PlainText {
                lemma_esc_seq_empty(text.subrange(m.last, tok.end as int));
            } else {
                reveal_strlit("<span ");
            }
        }
    }
}

/// Renders source text into HTML lines wrapped in `FormattedLine` values plus
/// the two JSON side tables (occurrence table, symbol-info table), fusing the
/// token stream with the analysis records, the nesting tracker and the jump
/// table in one pass. The caller supplies the token stream and chooses plain
/// or diffable JSON; line numbers and blame belong to the caller.
///
/// The result is exactly the spec-level `render_model` of the inputs. In
/// addition: the number of lines equals the number of newline tokens, plus
/// one more exactly when text follows the last newline; close counts balance
/// opens (fully, when a trailing line exists or every nesting range ends
/// within the text); and an empty analysis list yields `[]` and `{}` tables.
#[verifier::rlimit(100)]
#[verifier::spinoff_prover]
pub fn format_code(
    jumps: &Vec<Jump>,
    path: &str,
    text: &Vec<char>,
    tokens: &Vec<Token>,
    analysis: &Vec<WithLocation>,
    diffable: bool,
) -> (r: (Vec<FormattedLine>, String, String))
    requires
        text@.len() < 0x8000_0000,
        srcs_total(analysis@) < 0x8000_0000,
        tokens_wf(tokens@, text@.len() as int),
        analysis_valid(analysis@),
    ensures
        ({
            let m = render_model(text@, tokens@, analysis@, jumps@, path@);
            &&& r.0@.map_values(|l: FormattedLine| fline_view(l)) == m.lines
            &&& r.1@ == occ_json(m.occ, diffable)
            &&& r.2@ == sym_json(m.syms, diffable)
            &&& r.0@.len() == nl_count(tokens@) + (if nl_end(tokens@) < text@.len() {
                1int
            } else {
                0int
            })
            &&& sum_pops(m.lines) == m.pops
            &&& 0 <= m.pops <= m.pushes
            &&& m.pushes - m.pops == m.stack.len()
            &&& ((nl_end(tokens@) < text@.len() || nesting_bounded(
                analysis@,
                nl_count(tokens@) + 1,
            )) ==> m.pops == m.pushes)
            &&& keys_unique(m.syms)
            &&& (analysis@.len() == 0 ==> r.1@ == "[]"@ && r.2@ == "{}"@)
        }),
{
    let ghost tk = tokens@;
    let ghost bound = nl_count(tk) + 1;
    let mut out: Vec<char> = Vec::new();
    let mut lines: Vec<FormattedLine> = Vec::new();
    let mut last: usize = 0;
    let mut line_start: usize = 0;
    let mut cur_line: u32 = 1;
    let mut cur_datum: usize = 0;
    let mut stack: Vec<(u32, u32)> = Vec::new();
    let mut starts_nest: Option<String> = None;
    let mut occ: Vec<OccEntry> = Vec::new();
    let mut symtab: Vec<(String, SymInfo)> = Vec::new();
    let ghost mut pushes: int = 0;
    let ghost mut pops: int = 0;
    proof {
        assert(rfold_to(text@, tk, analysis@, jumps@, path@, 0) == rinit());
        assert(lines@.map_values(|l: FormattedLine| fline_view(l)) =~= rinit().lines);
        assert(stack_view(stack@) =~= rinit().stack);
        assert(occ_view(occ@) =~= rinit().occ);
        assert(symtab_view(symtab@) =~= rinit().syms);
        lemma_tokens_len(tk, text@.len() as int);
    }
    let mut i: usize = 0;
    while i < tokens.len()
        invariant
            text@.len() < 0x8000_0000,
            srcs_total(analysis@) < 0x8000_0000,
            tokens_wf(tk, text@.len() as int),
            analysis_valid(analysis@),
            tk == tokens@,
            tk.len() <= text@.len(),
            i <= tk.len(),
            ({
                let m = rfold_to(text@, tk, analysis@, jumps@, path@, i as int);
                &&& out@ == m.out
                &&& lines@.map_values(|l: FormattedLine| fline_view(l)) == m.lines
                &&& last as int == m.last
                &&& line_start as int == m.line_start
                &&& cur_line as int == m.cur_line
                &&& cur_datum as int == m.cur_datum
                &&& stack_view(stack@) == m.stack
                &&& opt_str_view(starts_nest) == m.starts_nest
                &&& occ_view(occ@) == m.occ
                &&& symtab_view(symtab@) == m.syms
                &&& pushes == m.pushes
                &&& pops == m.pops
            }),
        decreases tokens.len() - i,
    {
        let ghost m = rfold_to(text@, tk, analysis@, jumps@, path@, i as int);
        let tok = &tokens[i];
        proof {
            lemma_rfold_props(text@, tk, analysis@, jumps@, path@, i as int);
            assert(tk[i as int] == *tok);
            lemma_nl_count_le(tk.take(i as int));
            assert(tk.take(i as int).len() == i as int);
            assert(cur_line as int <= i + 1);
            lemma_srcs_total_mono(analysis@, cur_datum as int);
        }
        let is_nl = matches!(&tok.kind, TokenKind::Newline);
        if is_nl {
            // The gap before the newline is escaped like every other
            // emission, then the line flushes with its pop count under the
            // keep rule.
            append_escaped(&mut out, text, last, tok.start);
            let mut keep: usize = stack.len();
            proof {
                assert(stack_view(stack@).take(stack@.len() as int) =~= stack_view(stack@));
            }
            let mut scanning = true;
            while scanning && keep > 0
                invariant
                    keep <= stack@.len(),
                    cur_line as int == m.cur_line,
                    stack_view(stack@) == m.stack,
                    scanning ==> keep_idx(stack_view(stack@), cur_line as int) == keep_idx(
                        stack_view(stack@).take(keep as int),
                        cur_line as int,
                    ),
                    !scanning ==> keep_idx(stack_view(stack@), cur_line as int) == keep as int,
                    cur_line < 0xFFFF_FFFFu32,
                decreases keep, (if scanning {
                    1int
                } else {
                    0int
                }),
            {
                if stack[keep - 1].1 > cur_line + 1 {
                    scanning = false;
                    proof {
                        let sv = stack_view(stack@).take(keep as int);
                        assert(sv.last() == (
                            stack@[keep - 1].0 as int,
                            stack@[keep - 1].1 as int,
                        ));
                        assert(keep_idx(sv, cur_line as int) == keep as int);
                    }
                } else {
                    proof {
                        let sv = stack_view(stack@).take(keep as int);
                        assert(sv.last() == (
                            stack@[keep - 1].0 as int,
                            stack@[keep - 1].1 as int,
                        ));
                        assert(sv.drop_last() =~= stack_view(stack@).take(keep - 1));
                    }
                    keep -= 1;
                }
            }
            proof {
                if scanning {
                    assert(stack_view(stack@).take(0) =~= Seq::<(int, int)>::empty());
                }
                assert(keep_idx(stack_view(stack@), cur_line as int) == keep as int);
            }
            let pop = stack.len() - keep;
            stack.truncate(keep);
            let fixed = crfix(&out);
            let ghost pre_lines = lines@.map_values(|l: FormattedLine| fline_view(l));
            lines.push(
                FormattedLine {
                    line: chars_string(&fixed),
                    sym_starts_nest: starts_nest,
                    pop_nest_count: pop as u32,
                },
            );
            starts_nest = None;
            out = Vec::new();
            cur_line = cur_line + 1;
            line_start = tok.end;
            last = tok.end;
            i += 1;
            proof {
                pops = pops + pop;
                let m2 = rfold_to(text@, tk, analysis@, jumps@, path@, i as int);
                assert(m2 == rstep(m, tk[i - 1], text@, analysis@, jumps@, path@));
                assert(stack_view(stack@) =~= m.stack.take(keep as int));
                assert(lines@.map_values(|l: FormattedLine| fline_view(l)) =~= pre_lines.push(
                    LineV {
                        line: crfix_seq(
                            m.out + esc_seq(text@.subrange(m.last, tk[i - 1].start as int)),
                        ),
                        nest: m.starts_nest,
                        pop: pop as int,
                    },
                ));
                assert(lines@.map_values(|l: FormattedLine| fline_view(l)) == m2.lines);
            }
        } else {
            let col = (tok.start - line_start) as u32;
            let cd1 = advance_cursor(analysis, cur_datum, cur_line, col);
            let matched = cd1 < analysis.len() && analysis[cd1].loc.lineno == cur_line
                && analysis[cd1].loc.col_start == col;
            proof {
                assert(matched == datum_matches(
                    analysis@,
                    cd1 as int,
                    cur_line as int,
                    col as int,
                ));
            }
            let takes = match &tok.kind {
                TokenKind::Identifier(inline) => inline.is_none(),
                TokenKind::StringLiteral => true,
                _ => false,
            };
            let mut data: Vec<char> = Vec::new();
            if matched && takes {
                data = process_datum(
                    &analysis[cd1].data,
                    cur_line,
                    &mut stack,
                    &mut starts_nest,
                    Ghost(pushes),
                    &mut symtab,
                    &mut occ,
                    jumps,
                    path,
                );
                proof {
                    let d = analysis@[cd1 as int].data@;
                    pushes = nest_fold(
                        d,
                        cur_line as int,
                        NestR { stack: m.stack, starts: m.starts_nest, pushes: m.pushes },
                    ).pushes;
                }
            }
            let cd2 = if matched {
                cd1 + 1
            } else {
                cd1
            };
            cur_datum = cd2;
            let style = style_of_exec(
                &tok.kind,
                if matched {
                    Some(&analysis[cd1].data)
                } else {
                    None
                },
            );
            let emit_plain = matches!(&tok.kind, TokenKind::Punctuation | TokenKind::PlainText);
            if emit_plain {
                append_escaped(&mut out, text, last, tok.end);
                last = tok.end;
            } else if style.len() > 0 || data.len() > 0 {
                append_escaped(&mut out, text, last, tok.start);
                append_str(&mut out, "<span ");
                append_all(&mut out, &style);
                append_all(&mut out, &data);
                append_str(&mut out, ">");
                append_escaped(&mut out, text, tok.start, tok.end);
                append_str(&mut out, "</span>");
                last = tok.end;
            }
            i += 1;
            proof {
                let m2 = rfold_to(text@, tk, analysis@, jumps@, path@, i as int);
                assert(m2 == rstep(m, tk[i - 1], text@, analysis@, jumps@, path@));
                assert(out@ == m2.out);
                assert(stack_view(stack@) == m2.stack);
                assert(occ_view(occ@) == m2.occ);
                assert(symtab_view(symtab@) == m2.syms);
                assert(lines@.map_values(|l: FormattedLine| fline_view(l)) == m2.lines);
            }
        }
    }
    // Whatever remains after the last token is the final, unterminated line;
    // when it is non-empty it closes the entire remaining stack.
    let ghost mfin = rfold_to(text@, tk, analysis@, jumps@, path@, tk.len() as int);
    proof {
        assert(tk.take(tk.len() as int) =~= tk);
        lemma_rfold_props(text@, tk, analysis@, jumps@, path@, tk.len() as int);
        lemma_render_finish(mfin, text@, tk, nesting_bounded(analysis@, bound));
        lemma_srcs_total_mono(analysis@, cur_datum as int);
    }
    append_escaped(&mut out, text, last, text.len());
    proof {
        lemma_esc_seq_empty(text@.subrange(mfin.last, text@.len() as int));
        if nl_end(tk) < text@.len() {
            assert(out@.len() > 0);
        } else {
            assert(out@.len() == 0);
        }
    }
    if out.len() > 0 {
        let pop = stack.len();
        let fixed = crfix(&out);
        let ghost pre_lines = lines@.map_values(|l: FormattedLine| fline_view(l));
        lines.push(
            FormattedLine {
                line: chars_string(&fixed),
                sym_starts_nest: starts_nest,
                pop_nest_count: pop as u32,
            },
        );
        proof {
            pops = pops + pop;
            assert(lines@.map_values(|l: FormattedLine| fline_view(l)) =~= pre_lines.push(
                LineV { line: crfix_seq(out@), nest: mfin.starts_nest, pop: pop as int },
            ));
        }
    }
    let ghost m = render_model(text@, tk, analysis@, jumps@, path@);
    proof {
        assert(lines@.map_values(|l: FormattedLine| fline_view(l)) == m.lines);
    }
    let occ_j = occ_table_json(&occ, diffable);
    let sym_j = sym_table_json(&symtab, diffable);
    proof {
        if analysis@.len() == 0 {
            assert(occ_view(occ@) =~= Seq::<OccEntryV>::empty());
            assert(symtab_view(symtab@) =~= Seq::<(Seq<char>, SymInfoV)>::empty());
        }
    }
    (lines, chars_string(&occ_j), chars_string(&sym_j))
}

} // verus!
