//! The blame interleaver's chain walk: from a line's direct attribution,
//! hop backwards through revisions an external policy deems ignorable, bounded
//! by a fixed hop budget. The external predicate and lookup are the caller's;
//! the walk consumes their answers as events, so every decision here is
//! verified for every possible answer.

use vstd::prelude::*;
use crate::numfmt::spec_parse_u32;
use crate::text::{append_all, append_str, chars_string, str_chars};

verus! {

/// One line's attribution: revision, path (`%` marks "unchanged"), and the
/// line number as the blame store spells it.
#[derive(Clone, Debug)]
pub struct BlameRecord {
    pub rev: String,
    pub path: String,
    pub lineno: String,
}

pub open spec fn unchanged_path(r: BlameRecord) -> bool {
    r.path@ == "%"@
}

impl BlameRecord {
    /// Whether the record marks its path as unchanged.
    pub fn is_path_unchanged(&self) -> (r: bool)
        ensures
            r == unchanged_path(*self),
    {
        crate::text::chars_eq_str(&str_chars(self.path.as_str()), "%")
    }
}

/// The caller's answer for one potential hop: the current revision is not
/// ignorable, or it is and the previous-attribution lookup failed, or it is
/// and the lookup resolved a previous record plus the path it resolved.
pub enum WalkEvent {
    NotIgnorable,
    LookupFailed,
    Found(BlameRecord, String),
}

/// The hop budget: how many ignorable revisions a walk may skip.
pub open spec fn spec_hop_budget() -> int {
    5
}

/// The walk's full state.
#[verifier::ext_equal]
pub ghost struct WalkM {
    pub revs: Seq<char>,
    pub filespecs: Seq<char>,
    pub linenos: Seq<char>,
    pub base_rev: Seq<char>,
    pub cur_rev: Seq<char>,
    pub cur_path: Seq<char>,
    pub cur_lineno: Option<u32>,
    pub budget: int,
    pub hops: int,
    pub done: bool,
    pub truncated: bool,
}

/// Where a walk starts: the base record's own fields, with the render path
/// substituted when the record marks its path unchanged.
pub open spec fn walk_init(rec: BlameRecord, path: Seq<char>) -> WalkM {
    WalkM {
        revs: rec.rev@,
        filespecs: rec.path@,
        linenos: rec.lineno@,
        base_rev: rec.rev@,
        cur_rev: rec.rev@,
        cur_path: if unchanged_path(rec) {
            path
        } else {
            rec.path@
        },
        cur_lineno: spec_parse_u32(rec.lineno@),
        budget: spec_hop_budget(),
        hops: 0,
        done: false,
        truncated: false,
    }
}

/// The filespec emitted for one hop: `%` when the file did not move on net
/// (either the lookup reports it unchanged and resolves the same path, or it
/// moved and moved back), else the path it now has.
pub open spec fn hop_filespec(prev: BlameRecord, resolved: Seq<char>, cur_path: Seq<char>) -> Seq<
    char,
> {
    if unchanged_path(prev) {
        if resolved == cur_path {
            "%"@
        } else {
            resolved
        }
    } else {
        if prev.path@ == cur_path {
            "%"@
        } else {
            prev.path@
        }
    }
}

/// One step of the walk on one event. A walk whose current line number did
/// not parse, or that already stopped, stays stopped. A non-ignorable
/// revision stops it cleanly; an exhausted budget appends the empty
/// truncation slots; a failed lookup stops with the partial chain; a found
/// record becomes one more hop.
pub open spec fn walk_step(st: WalkM, ev: WalkEvent) -> WalkM {
    if st.done || st.cur_lineno is None {
        WalkM { done: true, ..st }
    } else {
        match ev {
            WalkEvent::NotIgnorable => WalkM { done: true, ..st },
            WalkEvent::LookupFailed => {
                if st.budget == 0 {
                    WalkM {
                        revs: st.revs + ","@,
                        filespecs: st.filespecs + ","@,
                        linenos: st.linenos + ","@,
                        done: true,
                        truncated: true,
                        ..st
                    }
                } else {
                    WalkM { done: true, ..st }
                }
            },
            WalkEvent::Found(prev, resolved) => {
                if st.budget == 0 {
                    WalkM {
                        revs: st.revs + ","@,
                        filespecs: st.filespecs + ","@,
                        linenos: st.linenos + ","@,
                        done: true,
                        truncated: true,
                        ..st
                    }
                } else {
                    WalkM {
                        revs: st.revs + ","@ + prev.rev@,
                        filespecs: st.filespecs + ","@ + hop_filespec(
                            prev,
                            resolved@,
                            st.cur_path,
                        ),
                        linenos: st.linenos + ","@ + prev.lineno@,
                        cur_rev: prev.rev@,
                        cur_path: if unchanged_path(prev) {
                            resolved@
                        } else {
                            prev.path@
                        },
                        cur_lineno: spec_parse_u32(prev.lineno@),
                        budget: st.budget - 1,
                        hops: st.hops + 1,
                        ..st
                    }
                }
            },
        }
    }
}

/// The walk over a whole sequence of answers.
pub open spec fn walk_run(st: WalkM, evs: Seq<WalkEvent>) -> WalkM
    decreases evs.len(),
{
    if evs.len() == 0 {
        st
    } else {
        walk_run(walk_step(st, evs[0]), evs.drop_first())
    }
}

/// The walk never exceeds its hop budget, and a truncated walk has stopped
/// with the budget exhausted and one trailing empty slot on each of the
/// three comma-joined lists: no sequence of answers can drive it past the
/// bound or into an unbounded loop.
pub proof fn lemma_walk_budget(st: WalkM, evs: Seq<WalkEvent>)
    requires
        st.hops >= 0,
        st.budget >= 0,
        st.hops + st.budget == spec_hop_budget(),
        st.truncated ==> st.done && st.budget == 0,
        st.truncated ==> st.revs.len() > 0 && st.revs.last() == ',' && st.filespecs.len() > 0
            && st.filespecs.last() == ',' && st.linenos.len() > 0 && st.linenos.last() == ',',
    ensures
        ({
            let w = walk_run(st, evs);
            &&& 0 <= w.hops <= spec_hop_budget()
            &&& w.hops + w.budget == spec_hop_budget()
            &&& (w.truncated ==> w.done && w.budget == 0)
            &&& (w.truncated ==> w.revs.len() > 0 && w.revs.last() == ',' && w.filespecs.len()
                > 0 && w.filespecs.last() == ',' && w.linenos.len() > 0 && w.linenos.last()
                == ',')
        }),
    decreases evs.len(),
{
    if evs.len() > 0 {
        let st1 = walk_step(st, evs[0]);
        if st1.truncated && !st.truncated {
            reveal_strlit(",");
            assert((st.revs + ","@).last() == ',');
            assert((st.filespecs + ","@).last() == ',');
            assert((st.linenos + ","@).last() == ',');
        }
        lemma_walk_budget(st1, evs.drop_first());
    }
}

/// A stopped walk stays exactly as it is, whatever answers still come: the
/// walk can never loop or grow silently after its stop.
pub proof fn lemma_walk_done_stable(st: WalkM, evs: Seq<WalkEvent>)
    requires
        st.done,
    ensures
        walk_run(st, evs) == st,
    decreases evs.len(),
{
    if evs.len() > 0 {
        assert(walk_step(st, evs[0]) =~= st);
        lemma_walk_done_stable(st, evs.drop_first());
    }
}

/// The chain a walk resolves: comma-joined revisions, filespecs and line
/// numbers, plus the leading revision for display-id assignment.
pub struct BlameChain {
    pub revs: String,
    pub filespecs: String,
    pub linenos: String,
    pub base_rev: String,
}

pub open spec fn chain_of(w: WalkM) -> (Seq<char>, Seq<char>, Seq<char>, Seq<char>) {
    (w.revs, w.filespecs, w.linenos, w.base_rev)
}

pub open spec fn chain_view(c: BlameChain) -> (Seq<char>, Seq<char>, Seq<char>, Seq<char>) {
    (c.revs@, c.filespecs@, c.linenos@, c.base_rev@)
}

/// Runs the walk over the caller's answers, in order: a `NotIgnorable` or
/// `LookupFailed` answer stops it, a `Found` answer adds a hop, and the
/// budget rule above caps the chain. Extra answers after the stop are
/// ignored; a chain whose answers run out stops with what it has.
pub fn resolve_blame_chain(rec: &BlameRecord, path: &str, events: &Vec<WalkEvent>) -> (c:
    BlameChain)
    ensures
        chain_view(c) == chain_of(walk_run(walk_init(*rec, path@), events@)),
{
    let mut revs = str_chars(rec.rev.as_str());
    let mut filespecs = str_chars(rec.path.as_str());
    let mut linenos = str_chars(rec.lineno.as_str());
    let base_rev = rec.rev.clone();
    let mut cur_rev = rec.rev.clone();
    let mut cur_path = if rec.is_path_unchanged() {
        let mut p = String::new();
        p.append(path);
        p
    } else {
        rec.path.clone()
    };
    let mut cur_lineno = crate::numfmt::parse_u32(&str_chars(rec.lineno.as_str()));
    let mut budget: u8 = 5;
    let ghost mut hops: int = 0;
    let mut done = false;
    let mut truncated = false;
    proof {
        let w0 = walk_init(*rec, path@);
        assert(revs@ == w0.revs && filespecs@ == w0.filespecs && linenos@ == w0.linenos);
    }
    let mut i: usize = 0;
    while i < events.len()
        invariant
            i <= events@.len(),
            ({
                let w = walk_run(walk_init(*rec, path@), events@.take(i as int));
                &&& revs@ == w.revs
                &&& filespecs@ == w.filespecs
                &&& linenos@ == w.linenos
                &&& base_rev@ == w.base_rev
                &&& cur_rev@ == w.cur_rev
                &&& cur_path@ == w.cur_path
                &&& cur_lineno == w.cur_lineno
                &&& budget as int == w.budget
                &&& hops == w.hops
                &&& done == w.done
                &&& truncated == w.truncated
            }),
        decreases events.len() - i,
    {
        let ghost w = walk_run(walk_init(*rec, path@), events@.take(i as int));
        let ev = &events[i];
        if done || cur_lineno.is_none() {
            done = true;
        } else {
            match ev {
                WalkEvent::NotIgnorable => {
                    done = true;
                },
                WalkEvent::LookupFailed => {
                    if budget == 0 {
                        append_str(&mut revs, ",");
                        append_str(&mut filespecs, ",");
                        append_str(&mut linenos, ",");
                        done = true;
                        truncated = true;
                    } else {
                        done = true;
                    }
                },
                WalkEvent::Found(prev, resolved) => {
                    if budget == 0 {
                        append_str(&mut revs, ",");
                        append_str(&mut filespecs, ",");
                        append_str(&mut linenos, ",");
                        done = true;
                        truncated = true;
                    } else {
                        append_str(&mut revs, ",");
                        append_str(&mut revs, prev.rev.as_str());
                        append_str(&mut filespecs, ",");
                        let prev_unchanged = prev.is_path_unchanged();
                        if prev_unchanged {
                            if str_eq_strings(resolved, &cur_path) {
                                append_str(&mut filespecs, "%");
                            } else {
                                append_str(&mut filespecs, resolved.as_str());
                            }
                        } else {
                            if str_eq_strings(&prev.path, &cur_path) {
                                append_str(&mut filespecs, "%");
                            } else {
                                append_str(&mut filespecs, prev.path.as_str());
                            }
                        }
                        append_str(&mut linenos, ",");
                        append_str(&mut linenos, prev.lineno.as_str());
                        cur_rev = prev.rev.clone();
                        cur_path = if prev_unchanged {
                            resolved.clone()
                        } else {
                            prev.path.clone()
                        };
                        cur_lineno = crate::numfmt::parse_u32(&str_chars(prev.lineno.as_str()));
                        budget = budget - 1;
                        proof {
                            hops = hops + 1;
                        }
                    }
                },
            }
        }
        i += 1;
        proof {
            let t = events@.take(i as int);
            assert(t.drop_last() =~= events@.take(i - 1));
            assert(t.last() == events@[i - 1]);
            assert(t =~= events@.take(i - 1).push(events@[i - 1]));
            lemma_walk_run_snoc(walk_init(*rec, path@), events@.take(i - 1), events@[i - 1]);
            let w2 = walk_run(walk_init(*rec, path@), events@.take(i as int));
            assert(w2 == walk_step(w, events@[i - 1]));
            assert(revs@ == w2.revs);
            assert(filespecs@ == w2.filespecs);
            assert(linenos@ == w2.linenos);
            assert(cur_rev@ == w2.cur_rev);
            assert(cur_path@ == w2.cur_path);
            assert(cur_lineno == w2.cur_lineno);
            assert(budget as int == w2.budget);
            assert(hops == w2.hops);
            assert(done == w2.done && truncated == w2.truncated);
        }
    }
    proof {
        assert(events@.take(events@.len() as int) =~= events@);
    }
    BlameChain {
        revs: chars_string(&revs),
        filespecs: chars_string(&filespecs),
        linenos: chars_string(&linenos),
        base_rev,
    }
}

/// Appending one more answer runs one more step.
pub proof fn lemma_walk_run_snoc(st: WalkM, evs: Seq<WalkEvent>, ev: WalkEvent)
    ensures
        walk_run(st, evs.push(ev)) == walk_step(walk_run(st, evs), ev),
    decreases evs.len(),
{
    let p = evs.push(ev);
    assert(p.len() == evs.len() + 1);
    if evs.len() == 0 {
        assert(p.drop_first() =~= Seq::<WalkEvent>::empty());
        assert(p[0] == ev);
        assert(walk_run(st, p) == walk_run(walk_step(st, ev), p.drop_first()));
        assert(walk_run(walk_step(st, ev), p.drop_first()) == walk_step(st, ev));
        assert(walk_run(st, evs) == st);
    } else {
        assert(p.drop_first() =~= evs.drop_first().push(ev));
        assert(p[0] == evs[0]);
        lemma_walk_run_snoc(walk_step(st, evs[0]), evs.drop_first(), ev);
        assert(walk_run(st, p) == walk_run(walk_step(st, p[0]), p.drop_first()));
        assert(walk_run(walk_step(st, p[0]), p.drop_first()) == walk_step(
            walk_run(walk_step(st, evs[0]), evs.drop_first()),
            ev,
        ));
        assert(walk_run(st, evs) == walk_run(walk_step(st, evs[0]), evs.drop_first()));
    }
}

fn str_eq_strings(a: &String, b: &String) -> (r: bool)
    ensures
        r == (a@ == b@),
{
    crate::text::chars_eq(&str_chars(a.as_str()), &str_chars(b.as_str()))
}

} // verus!
