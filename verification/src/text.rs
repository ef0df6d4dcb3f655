//! Character-buffer utilities: conversions between `String` and `Vec<char>`,
//! HTML entity escaping and the carriage-return placeholder substitution that
//! keeps line-oriented HTML intact.

use vstd::prelude::*;

verus! {

/// Relies on std's `str::chars`: yields the characters of the string in order.
#[verifier::external_body]
pub fn str_chars(s: &str) -> (r: Vec<char>)
    ensures
        r@ == s@,
{
    s.chars().collect()
}

/// Relies on `String`'s `FromIterator<char>`: collects the characters into a
/// string holding exactly those characters in order.
#[verifier::external_body]
pub fn chars_string(v: &Vec<char>) -> (r: String)
    ensures
        r@ == v@,
{
    v.iter().collect()
}

/// Appends every character of `s` to `out`.
pub fn append_str(out: &mut Vec<char>, s: &str)
    ensures
        final(out)@ == old(out)@ + s@,
{
    let cs = str_chars(s);
    let mut i: usize = 0;
    while i < cs.len()
        invariant
            i <= cs.len(),
            cs@ == s@,
            out@ == old(out)@ + cs@.take(i as int),
        decreases cs.len() - i,
    {
        out.push(cs[i]);
        i += 1;
        proof {
            assert(cs@.take(i as int) =~= cs@.take(i - 1) + seq![cs@[i - 1]]);
        }
    }
    proof {
        assert(cs@.take(cs@.len() as int) =~= cs@);
    }
}

/// Appends the characters `src[from..to]` to `out`.
pub fn append_range(out: &mut Vec<char>, src: &Vec<char>, from: usize, to: usize)
    requires
        from <= to <= src@.len(),
    ensures
        final(out)@ == old(out)@ + src@.subrange(from as int, to as int),
{
    let mut i: usize = from;
    while i < to
        invariant
            from <= i <= to <= src@.len(),
            out@ == old(out)@ + src@.subrange(from as int, i as int),
        decreases to - i,
    {
        out.push(src[i]);
        i += 1;
        proof {
            assert(src@.subrange(from as int, i as int) =~= src@.subrange(
                from as int,
                i - 1,
            ) + seq![src@[i - 1]]);
        }
    }
}

/// Appends all of `src` to `out`.
pub fn append_all(out: &mut Vec<char>, src: &Vec<char>)
    ensures
        final(out)@ == old(out)@ + src@,
{
    append_range(out, src, 0, src.len());
    proof {
        assert(src@.subrange(0, src@.len() as int) =~= src@);
    }
}

/// The HTML entity escape of one character: `&` and `<` become entities, any
/// other character stands for itself.
pub open spec fn esc_char(c: char) -> Seq<char> {
    if c == '&' {
        "&amp;"@
    } else if c == '<' {
        "&lt;"@
    } else {
        seq![c]
    }
}

/// The HTML entity escape of a character sequence.
pub open spec fn esc_seq(s: Seq<char>) -> Seq<char>
    decreases s.len(),
{
    if s.len() == 0 {
        Seq::empty()
    } else {
        esc_seq(s.drop_last()) + esc_char(s.last())
    }
}

pub proof fn lemma_esc_seq_take_step(s: Seq<char>, i: int)
    requires
        0 <= i < s.len(),
    ensures
        esc_seq(s.take(i + 1)) == esc_seq(s.take(i)) + esc_char(s[i]),
{
    assert(s.take(i + 1).drop_last() =~= s.take(i));
    assert(s.take(i + 1).last() == s[i]);
}

/// An escaped sequence is empty exactly when its source is empty.
pub proof fn lemma_esc_seq_empty(s: Seq<char>)
    ensures
        esc_seq(s).len() == 0 <==> s.len() == 0,
    decreases s.len(),
{
    if s.len() > 0 {
        reveal_strlit("&amp;");
        reveal_strlit("&lt;");
        assert(esc_char(s.last()).len() > 0);
    }
}

/// Appends the entity escape of `src[from..to]` to `out`.
pub fn append_escaped(out: &mut Vec<char>, src: &Vec<char>, from: usize, to: usize)
    requires
        from <= to <= src@.len(),
    ensures
        final(out)@ == old(out)@ + esc_seq(src@.subrange(from as int, to as int)),
{
    let mut i: usize = from;
    while i < to
        invariant
            from <= i <= to <= src@.len(),
            out@ == old(out)@ + esc_seq(src@.subrange(from as int, i as int)),
        decreases to - i,
    {
        let c = src[i];
        if c == '&' {
            append_str(out, "&amp;");
        } else if c == '<' {
            append_str(out, "&lt;");
        } else {
            out.push(c);
        }
        i += 1;
        proof {
            let sub = src@.subrange(from as int, i as int);
            assert(sub.drop_last() =~= src@.subrange(from as int, i - 1));
            assert(sub.last() == src@[i - 1]);
        }
    }
}

/// Appends the entity escape of every character of `src` to `out`.
pub fn append_escaped_all(out: &mut Vec<char>, src: &Vec<char>)
    ensures
        final(out)@ == old(out)@ + esc_seq(src@),
{
    append_escaped(out, src, 0, src.len());
    proof {
        assert(src@.subrange(0, src@.len() as int) =~= src@);
    }
}

/// Carriage returns are replaced by a visible placeholder glyph so that they
/// cannot corrupt line-oriented HTML; every other character stands.
pub open spec fn crfix_char(c: char) -> char {
    if c == '\r' {
        '\u{21A9}'
    } else {
        c
    }
}

pub open spec fn crfix_seq(s: Seq<char>) -> Seq<char> {
    s.map_values(|c: char| crfix_char(c))
}

/// Replaces every carriage return in `src` by the placeholder glyph.
pub fn crfix(src: &Vec<char>) -> (r: Vec<char>)
    ensures
        r@ == crfix_seq(src@),
{
    let mut r: Vec<char> = Vec::new();
    let mut i: usize = 0;
    while i < src.len()
        invariant
            i <= src@.len(),
            r@ == crfix_seq(src@.take(i as int)),
        decreases src.len() - i,
    {
        let c = src[i];
        if c == '\r' {
            r.push('\u{21A9}');
        } else {
            r.push(c);
        }
        i += 1;
        proof {
            assert(crfix_seq(src@.take(i as int)) =~= crfix_seq(src@.take(i - 1)) + seq![
                crfix_char(src@[i - 1]),
            ]);
        }
    }
    proof {
        assert(src@.take(src@.len() as int) =~= src@);
    }
    r
}

/// Character-for-character equality of two buffers.
pub fn chars_eq(a: &Vec<char>, b: &Vec<char>) -> (r: bool)
    ensures
        r == (a@ == b@),
{
    if a.len() != b.len() {
        proof {
            assert(a@.len() != b@.len());
        }
        return false;
    }
    let mut i: usize = 0;
    while i < a.len()
        invariant
            a@.len() == b@.len(),
            i <= a@.len(),
            forall|j: int| 0 <= j < i ==> a@[j] == b@[j],
        decreases a.len() - i,
    {
        if a[i] != b[i] {
            return false;
        }
        i += 1;
    }
    proof {
        assert(a@ =~= b@);
    }
    true
}

/// Equality of a buffer and a string.
pub fn chars_eq_str(a: &Vec<char>, s: &str) -> (r: bool)
    ensures
        r == (a@ == s@),
{
    let b = str_chars(s);
    chars_eq(a, &b)
}

} // verus!
