//! Semantic analysis records and the jump table. Records are produced by a
//! prior indexing pipeline; they arrive ordered by position and are consumed
//! exactly once, left to right, by the renderer's cursor.

use vstd::prelude::*;
use crate::json::join_sep;

verus! {

/// The line span of an enclosing scope attached to a symbol definition;
/// zero in both fields means the symbol does not nest.
pub struct NestingRange {
    pub start_lineno: u32,
    pub end_lineno: u32,
}

/// A position inside the file: 1-based line, 0-based column.
pub struct Location {
    pub lineno: u32,
    pub col_start: u32,
}

/// One semantic record for a token occurrence.
pub struct AnalysisSource {
    /// Symbol ids, the first being canonical; never empty.
    pub sym: Vec<String>,
    /// Human-readable label.
    pub pretty: String,
    /// Syntax tags such as `type`, `def`, `decl`, `idl`.
    pub syntax: Vec<String>,
    /// The symbol has no entry in the global cross-reference index.
    pub no_crossref: bool,
    /// Optional type description and type symbol.
    pub type_pretty: Option<String>,
    pub type_sym: Option<String>,
    pub nesting_range: NestingRange,
}

/// A list of analysis sources at one position.
pub struct WithLocation {
    pub loc: Location,
    pub data: Vec<AnalysisSource>,
}

/// One jump-table entry: where a symbol's definition lives.
pub struct Jump {
    pub sym: String,
    pub path: String,
    pub lineno: u64,
    pub pretty: String,
}

/// Every source carries at least one symbol id.
pub open spec fn source_valid(a: AnalysisSource) -> bool {
    a.sym@.len() >= 1
}

pub open spec fn analysis_valid(analysis: Seq<WithLocation>) -> bool {
    forall|i: int, j: int|
        0 <= i < analysis.len() && 0 <= j < (#[trigger] analysis[i]).data@.len()
            ==> source_valid(#[trigger] analysis[i].data@[j])
}

/// The total number of sources across all records.
pub open spec fn srcs_total(analysis: Seq<WithLocation>) -> int
    decreases analysis.len(),
{
    if analysis.len() == 0 {
        0
    } else {
        srcs_total(analysis.drop_last()) + analysis.last().data@.len()
    }
}

pub proof fn lemma_srcs_total_take_step(analysis: Seq<WithLocation>, i: int)
    requires
        0 <= i < analysis.len(),
    ensures
        srcs_total(analysis.take(i + 1)) == srcs_total(analysis.take(i)) + analysis[i].data@.len(),
{
    assert(analysis.take(i + 1).drop_last() =~= analysis.take(i));
    assert(analysis.take(i + 1).last() == analysis[i]);
}

pub proof fn lemma_srcs_total_mono(analysis: Seq<WithLocation>, i: int)
    requires
        0 <= i <= analysis.len(),
    ensures
        srcs_total(analysis.take(i)) <= srcs_total(analysis),
    decreases analysis.len() - i,
{
    if i < analysis.len() {
        lemma_srcs_total_take_step(analysis, i);
        lemma_srcs_total_mono(analysis, i + 1);
        assert(analysis.take(i + 1).drop_last() =~= analysis.take(i));
    } else {
        assert(analysis.take(i) =~= analysis);
    }
}

pub proof fn lemma_srcs_take_le(analysis: Seq<WithLocation>, a: int, b: int)
    requires
        0 <= a <= b <= analysis.len(),
    ensures
        srcs_total(analysis.take(a)) <= srcs_total(analysis.take(b)),
    decreases b - a,
{
    if a < b {
        lemma_srcs_take_le(analysis, a, b - 1);
        lemma_srcs_total_take_step(analysis, b - 1);
    }
}

/// The primary syntax kind of a source: its first syntax tag.
pub open spec fn spec_syntax_kind(a: AnalysisSource) -> Option<Seq<char>> {
    if a.syntax@.len() > 0 {
        Some(a.syntax@[0]@)
    } else {
        None
    }
}

impl AnalysisSource {
    /// The primary syntax kind, used for the symbol-info table.
    pub fn get_syntax_kind(&self) -> (r: Option<&String>)
        ensures
            match r {
                Some(s) => spec_syntax_kind(*self) == Some::<Seq<char>>(s@),
                None => spec_syntax_kind(*self) is None,
            },
    {
        if self.syntax.len() > 0 {
            Some(&self.syntax[0])
        } else {
            None
        }
    }
}

/// The comma-joined symbol list of one source.
pub open spec fn joined_syms(a: AnalysisSource) -> Seq<char> {
    join_sep(a.sym@.map_values(|s: String| s@), ","@)
}

/// The comma-joined symbols of all sources, crossref-eligible or not, used
/// for same-symbol highlighting.
pub open spec fn all_syms_str(d: Seq<AnalysisSource>) -> Seq<char> {
    join_sep(d.map_values(|a: AnalysisSource| joined_syms(a)), ","@)
}

/// The first jump-table entry for a symbol, if any.
pub open spec fn jump_find(jumps: Seq<Jump>, sym: Seq<char>) -> Option<Jump>
    decreases jumps.len(),
{
    if jumps.len() == 0 {
        None
    } else if jumps[0].sym@ == sym {
        Some(jumps[0])
    } else {
        jump_find(jumps.drop_first(), sym)
    }
}

/// Looks a symbol up in the jump table: the first entry wins.
pub fn jump_lookup<'a>(jumps: &'a Vec<Jump>, sym: &String) -> (r: Option<&'a Jump>)
    ensures
        match r {
            Some(j) => jump_find(jumps@, sym@) == Some(*j),
            None => jump_find(jumps@, sym@) is None,
        },
{
    proof {
        assert(jumps@.skip(0) =~= jumps@);
    }
    let mut i: usize = 0;
    while i < jumps.len()
        invariant
            i <= jumps@.len(),
            jump_find(jumps@, sym@) == jump_find(jumps@.skip(i as int), sym@),
        decreases jumps.len() - i,
    {
        if jumps[i].sym == *sym {
            proof {
                assert(jumps@.skip(i as int)[0] == jumps@[i as int]);
            }
            return Some(&jumps[i]);
        }
        i += 1;
        proof {
            assert(jumps@.skip(i - 1).drop_first() =~= jumps@.skip(i as int));
            assert(jumps@.skip(i - 1)[0] == jumps@[i - 1]);
        }
    }
    proof {
        assert(jumps@.skip(i as int).len() == 0);
    }
    None
}

} // verus!
