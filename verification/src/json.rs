//! The two JSON side tables that accompany a rendered file: the positional
//! occurrence table and the deduplicated symbol-info table.
//!
//! Both are emitted by the library itself so that the byte form is exact and
//! deterministic (entries in first-sighting order, object keys in a fixed
//! order), which keeps repeated renders byte-for-byte comparable.

use vstd::prelude::*;
use crate::text::{append_all, append_str, str_chars};

verus! {

/// One context-menu navigation target offered for an identifier occurrence.
/// The key (`target-path:target-line`) deduplicates targets; only the symbol
/// and label are emitted.
pub struct MenuJump {
    pub key: String,
    pub sym: String,
    pub pretty: String,
}

/// One `{joined-symbols, pretty}` row of an occurrence entry.
pub struct OccItem {
    pub sym: String,
    pub pretty: String,
}

/// One occurrence-table entry: the deduplicated menu jumps and the ordered
/// item list for one identifier occurrence.
pub struct OccEntry {
    pub jumps: Vec<MenuJump>,
    pub items: Vec<OccItem>,
}

/// Type information recorded for a symbol that the global cross-reference
/// index cannot resolve.
pub struct SymInfo {
    pub syntax: Option<String>,
    pub type_pretty: String,
    pub type_sym: Option<String>,
}

pub ghost struct OccEntryV {
    pub jumps: Seq<(Seq<char>, Seq<char>)>,
    pub items: Seq<(Seq<char>, Seq<char>)>,
}

pub ghost struct SymInfoV {
    pub syntax: Option<Seq<char>>,
    pub type_pretty: Seq<char>,
    pub type_sym: Option<Seq<char>>,
}

impl View for OccEntry {
    type V = OccEntryV;

    open spec fn view(&self) -> OccEntryV {
        OccEntryV {
            jumps: self.jumps@.map_values(|j: MenuJump| (j.sym@, j.pretty@)),
            items: self.items@.map_values(|it: OccItem| (it.sym@, it.pretty@)),
        }
    }
}

impl View for SymInfo {
    type V = SymInfoV;

    open spec fn view(&self) -> SymInfoV {
        SymInfoV {
            syntax: match self.syntax {
                Some(ref s) => Some(s@),
                None => None,
            },
            type_pretty: self.type_pretty@,
            type_sym: match self.type_sym {
                Some(ref s) => Some(s@),
                None => None,
            },
        }
    }
}

/// The JSON escape of one character inside a string literal.
pub open spec fn jesc_char(c: char) -> Seq<char> {
    if c == '"' {
        seq!['\\', '"']
    } else if c == '\\' {
        seq!['\\', '\\']
    } else if c == '\n' {
        seq!['\\', 'n']
    } else if c == '\r' {
        seq!['\\', 'r']
    } else if c == '\t' {
        seq!['\\', 't']
    } else if (c as int) < 32 {
        seq!['\\', 'u', '0', '0', hex_char((c as int) / 16), hex_char((c as int) % 16)]
    } else {
        seq![c]
    }
}

pub open spec fn hex_char(d: int) -> char {
    if d < 10 {
        crate::numfmt::digit_char(d)
    } else if d == 10 {
        'a'
    } else if d == 11 {
        'b'
    } else if d == 12 {
        'c'
    } else if d == 13 {
        'd'
    } else if d == 14 {
        'e'
    } else {
        'f'
    }
}

pub open spec fn jesc_seq(s: Seq<char>) -> Seq<char>
    decreases s.len(),
{
    if s.len() == 0 {
        Seq::empty()
    } else {
        jesc_seq(s.drop_last()) + jesc_char(s.last())
    }
}

/// A JSON string literal: the escaped text between double quotes.
pub open spec fn jstr(s: Seq<char>) -> Seq<char> {
    seq!['"'] + jesc_seq(s) + seq!['"']
}

/// Elements joined by a separator, in order.
pub open spec fn join_sep(elems: Seq<Seq<char>>, sep: Seq<char>) -> Seq<char>
    decreases elems.len(),
{
    if elems.len() == 0 {
        Seq::empty()
    } else if elems.len() == 1 {
        elems[0]
    } else {
        join_sep(elems.drop_last(), sep) + sep + elems.last()
    }
}

/// A `{"sym":...,"pretty":...}` object.
pub open spec fn json_pair_obj(p: (Seq<char>, Seq<char>)) -> Seq<char> {
    "{\"sym\":"@ + jstr(p.0) + ",\"pretty\":"@ + jstr(p.1) + "}"@
}

pub open spec fn json_pair_array(ps: Seq<(Seq<char>, Seq<char>)>) -> Seq<char> {
    "["@ + join_sep(ps.map_values(|p: (Seq<char>, Seq<char>)| json_pair_obj(p)), ","@) + "]"@
}

/// One occurrence entry: a two-element array of the menu jumps and the items.
pub open spec fn json_occ_entry(e: OccEntryV) -> Seq<char> {
    "["@ + json_pair_array(e.jumps) + ","@ + json_pair_array(e.items) + "]"@
}

/// The occurrence table. An empty table is `[]` in either mode; a diffable
/// render puts each entry on a line of its own.
pub open spec fn occ_json(occ: Seq<OccEntryV>, diffable: bool) -> Seq<char> {
    if occ.len() == 0 {
        "[]"@
    } else if diffable {
        "[\n"@ + join_sep(occ.map_values(|e: OccEntryV| json_occ_entry(e)), ",\n"@) + "\n]"@
    } else {
        "["@ + join_sep(occ.map_values(|e: OccEntryV| json_occ_entry(e)), ","@) + "]"@
    }
}

/// One symbol-info object; the optional fields appear only when present.
pub open spec fn json_sym_info(si: SymInfoV) -> Seq<char> {
    "{"@ + (match si.syntax {
        Some(s) => "\"syntax\":"@ + jstr(s) + ","@,
        None => Seq::<char>::empty(),
    }) + "\"type\":"@ + jstr(si.type_pretty) + (match si.type_sym {
        Some(s) => ",\"typesym\":"@ + jstr(s),
        None => Seq::<char>::empty(),
    }) + "}"@
}

pub open spec fn json_sym_row(row: (Seq<char>, SymInfoV)) -> Seq<char> {
    jstr(row.0) + ":"@ + json_sym_info(row.1)
}

/// The symbol-info table. An empty table is `{}` in either mode; a diffable
/// render puts each symbol on a line of its own.
pub open spec fn sym_json(tab: Seq<(Seq<char>, SymInfoV)>, diffable: bool) -> Seq<char> {
    if tab.len() == 0 {
        "{}"@
    } else if diffable {
        "{\n"@ + join_sep(tab.map_values(|r: (Seq<char>, SymInfoV)| json_sym_row(r)), ",\n"@)
            + "\n}"@
    } else {
        "{"@ + join_sep(tab.map_values(|r: (Seq<char>, SymInfoV)| json_sym_row(r)), ","@) + "}"@
    }
}

fn hex_of(d: u32) -> (c: char)
    requires
        d < 16,
    ensures
        c == hex_char(d as int),
{
    if d < 10 {
        if d == 0 {
            '0'
        } else if d == 1 {
            '1'
        } else if d == 2 {
            '2'
        } else if d == 3 {
            '3'
        } else if d == 4 {
            '4'
        } else if d == 5 {
            '5'
        } else if d == 6 {
            '6'
        } else if d == 7 {
            '7'
        } else if d == 8 {
            '8'
        } else {
            '9'
        }
    } else if d == 10 {
        'a'
    } else if d == 11 {
        'b'
    } else if d == 12 {
        'c'
    } else if d == 13 {
        'd'
    } else if d == 14 {
        'e'
    } else {
        'f'
    }
}

fn append_jesc_char(out: &mut Vec<char>, c: char)
    ensures
        final(out)@ == old(out)@ + jesc_char(c),
{
    if c == '"' {
        out.push('\\');
        out.push('"');
        proof {
            assert(out@ =~= old(out)@ + jesc_char(c));
        }
    } else if c == '\\' {
        out.push('\\');
        out.push('\\');
        proof {
            assert(out@ =~= old(out)@ + jesc_char(c));
        }
    } else if c == '\n' {
        out.push('\\');
        out.push('n');
        proof {
            assert(out@ =~= old(out)@ + jesc_char(c));
        }
    } else if c == '\r' {
        out.push('\\');
        out.push('r');
        proof {
            assert(out@ =~= old(out)@ + jesc_char(c));
        }
    } else if c == '\t' {
        out.push('\\');
        out.push('t');
        proof {
            assert(out@ =~= old(out)@ + jesc_char(c));
        }
    } else if (c as u32) < 32 {
        out.push('\\');
        out.push('u');
        out.push('0');
        out.push('0');
        out.push(hex_of((c as u32) / 16));
        out.push(hex_of((c as u32) % 16));
        proof {
            assert((c as u32) as int == c as int);
            assert(out@ =~= old(out)@ + jesc_char(c));
        }
    } else {
        out.push(c);
        proof {
            assert(out@ =~= old(out)@ + jesc_char(c));
        }
    }
}

/// Appends the JSON string literal for `s` to `out`.
pub fn append_jstr(out: &mut Vec<char>, s: &str)
    ensures
        final(out)@ == old(out)@ + jstr(s@),
{
    let cs = str_chars(s);
    out.push('"');
    let ghost mid = out@;
    let mut i: usize = 0;
    while i < cs.len()
        invariant
            i <= cs@.len(),
            out@ == mid + jesc_seq(cs@.take(i as int)),
        decreases cs.len() - i,
    {
        append_jesc_char(out, cs[i]);
        i += 1;
        proof {
            let t = cs@.take(i as int);
            assert(t.len() == i as int);
            assert(t.drop_last() =~= cs@.take(i - 1));
            assert(t.last() == cs@[i - 1]);
            assert(out@ =~= mid + jesc_seq(cs@.take(i as int)));
        }
    }
    out.push('"');
    proof {
        assert(cs@.take(cs@.len() as int) =~= cs@);
        assert(out@ =~= old(out)@ + jstr(s@));
    }
}

fn append_pair_obj(out: &mut Vec<char>, sym: &str, pretty: &str)
    ensures
        final(out)@ == old(out)@ + json_pair_obj((sym@, pretty@)),
{
    append_str(out, "{\"sym\":");
    append_jstr(out, sym);
    append_str(out, ",\"pretty\":");
    append_jstr(out, pretty);
    append_str(out, "}");
    proof {
        assert(out@ =~= old(out)@ + json_pair_obj((sym@, pretty@)));
    }
}

pub proof fn lemma_join_sep_step(elems: Seq<Seq<char>>, sep: Seq<char>, i: int)
    requires
        0 <= i < elems.len(),
    ensures
        join_sep(elems.take(i + 1), sep) == if i == 0 {
            elems[0]
        } else {
            join_sep(elems.take(i), sep) + sep + elems[i]
        },
{
    let t = elems.take(i + 1);
    assert(t.drop_last() =~= elems.take(i));
    assert(t.last() == elems[i]);
    if i == 0 {
        assert(t.len() == 1);
        assert(t[0] == elems[0]);
    }
}

fn append_jumps_array(out: &mut Vec<char>, jumps: &Vec<MenuJump>)
    ensures
        final(out)@ == old(out)@ + json_pair_array(
            jumps@.map_values(|j: MenuJump| (j.sym@, j.pretty@)),
        ),
{
    let ghost ps = jumps@.map_values(|j: MenuJump| (j.sym@, j.pretty@));
    let ghost objs = ps.map_values(|p: (Seq<char>, Seq<char>)| json_pair_obj(p));
    append_str(out, "[");
    let ghost mid = out@;
    let mut i: usize = 0;
    while i < jumps.len()
        invariant
            i <= jumps@.len(),
            ps == jumps@.map_values(|j: MenuJump| (j.sym@, j.pretty@)),
            objs == ps.map_values(|p: (Seq<char>, Seq<char>)| json_pair_obj(p)),
            out@ == mid + join_sep(objs.take(i as int), ","@),
        decreases jumps.len() - i,
    {
        if i > 0 {
            append_str(out, ",");
        }
        append_pair_obj(out, &jumps[i].sym, &jumps[i].pretty);
        i += 1;
        proof {
            lemma_join_sep_step(objs, ","@, i - 1);
            assert(out@ =~= mid + join_sep(objs.take(i as int), ","@));
        }
    }
    append_str(out, "]");
    proof {
        assert(objs.take(objs.len() as int) =~= objs);
        assert(out@ =~= old(out)@ + json_pair_array(ps));
    }
}

fn append_items_array(out: &mut Vec<char>, items: &Vec<OccItem>)
    ensures
        final(out)@ == old(out)@ + json_pair_array(
            items@.map_values(|it: OccItem| (it.sym@, it.pretty@)),
        ),
{
    let ghost ps = items@.map_values(|it: OccItem| (it.sym@, it.pretty@));
    let ghost objs = ps.map_values(|p: (Seq<char>, Seq<char>)| json_pair_obj(p));
    append_str(out, "[");
    let ghost mid = out@;
    let mut i: usize = 0;
    while i < items.len()
        invariant
            i <= items@.len(),
            ps == items@.map_values(|it: OccItem| (it.sym@, it.pretty@)),
            objs == ps.map_values(|p: (Seq<char>, Seq<char>)| json_pair_obj(p)),
            out@ == mid + join_sep(objs.take(i as int), ","@),
        decreases items.len() - i,
    {
        if i > 0 {
            append_str(out, ",");
        }
        append_pair_obj(out, &items[i].sym, &items[i].pretty);
        i += 1;
        proof {
            lemma_join_sep_step(objs, ","@, i - 1);
            assert(out@ =~= mid + join_sep(objs.take(i as int), ","@));
        }
    }
    append_str(out, "]");
    proof {
        assert(objs.take(objs.len() as int) =~= objs);
        assert(out@ =~= old(out)@ + json_pair_array(ps));
    }
}

fn append_occ_entry(out: &mut Vec<char>, e: &OccEntry)
    ensures
        final(out)@ == old(out)@ + json_occ_entry(e@),
{
    append_str(out, "[");
    append_jumps_array(out, &e.jumps);
    append_str(out, ",");
    append_items_array(out, &e.items);
    append_str(out, "]");
    proof {
        assert(out@ =~= old(out)@ + json_occ_entry(e@));
    }
}

/// Serializes the occurrence table.
#[verifier::rlimit(30)]
pub fn occ_table_json(occ: &Vec<OccEntry>, diffable: bool) -> (r: Vec<char>)
    ensures
        r@ == occ_json(occ@.map_values(|e: OccEntry| e@), diffable),
{
    let ghost evs = occ@.map_values(|e: OccEntry| e@);
    let ghost objs = evs.map_values(|e: OccEntryV| json_occ_entry(e));
    let mut out: Vec<char> = Vec::new();
    if occ.len() == 0 {
        append_str(&mut out, "[]");
        return out;
    }
    if diffable {
        append_str(&mut out, "[\n");
    } else {
        append_str(&mut out, "[");
    }
    let ghost mid = out@;
    let ghost sep: Seq<char> = if diffable {
        ",\n"@
    } else {
        ","@
    };
    let mut i: usize = 0;
    while i < occ.len()
        invariant
            i <= occ@.len(),
            evs == occ@.map_values(|e: OccEntry| e@),
            objs == evs.map_values(|e: OccEntryV| json_occ_entry(e)),
            sep == if diffable {
                ",\n"@
            } else {
                ","@
            },
            out@ == mid + join_sep(objs.take(i as int), sep),
        decreases occ.len() - i,
    {
        if i > 0 {
            if diffable {
                append_str(&mut out, ",\n");
            } else {
                append_str(&mut out, ",");
            }
        }
        append_occ_entry(&mut out, &occ[i]);
        i += 1;
        proof {
            lemma_join_sep_step(objs, sep, i - 1);
            assert(out@ =~= mid + join_sep(objs.take(i as int), sep));
        }
    }
    if diffable {
        append_str(&mut out, "\n]");
    } else {
        append_str(&mut out, "]");
    }
    proof {
        assert(objs.take(objs.len() as int) =~= objs);
        assert(out@ =~= occ_json(evs, diffable));
    }
    out
}

fn append_sym_info(out: &mut Vec<char>, si: &SymInfo)
    ensures
        final(out)@ == old(out)@ + json_sym_info(si@),
{
    append_str(out, "{");
    match &si.syntax {
        Some(s) => {
            append_str(out, "\"syntax\":");
            append_jstr(out, s);
            append_str(out, ",");
        },
        None => {},
    }
    append_str(out, "\"type\":");
    append_jstr(out, &si.type_pretty);
    match &si.type_sym {
        Some(s) => {
            append_str(out, ",\"typesym\":");
            append_jstr(out, s);
        },
        None => {},
    }
    append_str(out, "}");
    proof {
        assert(out@ =~= old(out)@ + json_sym_info(si@));
    }
}

/// The view of one symbol-info table row.
pub open spec fn sym_row_view(row: (String, SymInfo)) -> (Seq<char>, SymInfoV) {
    (row.0@, row.1@)
}

/// Serializes the symbol-info table.
#[verifier::rlimit(30)]
pub fn sym_table_json(tab: &Vec<(String, SymInfo)>, diffable: bool) -> (r: Vec<char>)
    ensures
        r@ == sym_json(tab@.map_values(|row: (String, SymInfo)| sym_row_view(row)), diffable),
{
    let ghost rvs = tab@.map_values(|row: (String, SymInfo)| sym_row_view(row));
    let ghost objs = rvs.map_values(|r: (Seq<char>, SymInfoV)| json_sym_row(r));
    let mut out: Vec<char> = Vec::new();
    if tab.len() == 0 {
        append_str(&mut out, "{}");
        return out;
    }
    if diffable {
        append_str(&mut out, "{\n");
    } else {
        append_str(&mut out, "{");
    }
    let ghost mid = out@;
    let ghost sep: Seq<char> = if diffable {
        ",\n"@
    } else {
        ","@
    };
    let mut i: usize = 0;
    while i < tab.len()
        invariant
            i <= tab@.len(),
            rvs == tab@.map_values(|row: (String, SymInfo)| sym_row_view(row)),
            objs == rvs.map_values(|r: (Seq<char>, SymInfoV)| json_sym_row(r)),
            sep == if diffable {
                ",\n"@
            } else {
                ","@
            },
            out@ == mid + join_sep(objs.take(i as int), sep),
        decreases tab.len() - i,
    {
        if i > 0 {
            if diffable {
                append_str(&mut out, ",\n");
            } else {
                append_str(&mut out, ",");
            }
        }
        append_jstr(&mut out, &tab[i].0);
        append_str(&mut out, ":");
        append_sym_info(&mut out, &tab[i].1);
        i += 1;
        proof {
            lemma_join_sep_step(objs, sep, i - 1);
            assert(out@ =~= mid + join_sep(objs.take(i as int), sep));
        }
    }
    if diffable {
        append_str(&mut out, "\n}");
    } else {
        append_str(&mut out, "}");
    }
    proof {
        assert(objs.take(objs.len() as int) =~= objs);
        assert(out@ =~= sym_json(rvs, diffable));
    }
    out
}

} // verus!
