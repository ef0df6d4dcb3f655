//! The commit page body: the commit header, the metadata table (parents,
//! mirror links, author, committer, commit time) and the list of changed
//! files parsed from the raw diff summary. Repository access, author-identity
//! normalization and the page skeleton belong to the caller; this module
//! works on the plain values they hand over.

use vstd::prelude::*;
use crate::diff::split_lines;
use crate::text::{append_all, append_range, append_str, chars_string, esc_seq, str_chars};
use crate::tokens::next_newline;
use crate::tokens::lemma_next_newline;

verus! {

/// What the RFC 2822 rendering of a timestamp is: a function of the epoch
/// seconds and the zone offset alone.
pub uninterp spec fn rfc2822_of(secs: int, offset_minutes: int) -> Seq<char>;

/// Whether chrono can render this timestamp at all: like the rendering
/// itself, a function of the arguments alone.
pub uninterp spec fn rfc2822_ok(secs: int, offset_minutes: int) -> bool;

/// Relies on chrono: `FixedOffset::east_opt`, `DateTime::from_timestamp`,
/// `with_timezone` and `to_rfc2822` turn epoch seconds plus a zone offset
/// into the RFC 2822 time string; out-of-range inputs yield nothing, and
/// both the outcome and the string depend on the two arguments alone. RFC
/// 2822 is defined only for years 0 through 9999 and chrono's formatter
/// aborts outside that range, so such timestamps yield nothing as well.
#[verifier::external_body]
fn rfc2822_time(secs: i64, tz_offset_minutes: i32) -> (r: Option<String>)
    ensures
        r matches Some(s) ==> rfc2822_ok(secs as int, tz_offset_minutes as int) && s@
            == rfc2822_of(secs as int, tz_offset_minutes as int),
        r is None ==> !rfc2822_ok(secs as int, tz_offset_minutes as int),
{
    let offset_secs = tz_offset_minutes.checked_mul(60)?;
    let tz = chrono::FixedOffset::east_opt(offset_secs)?;
    let t = chrono::DateTime::from_timestamp(secs, 0)?;
    let local = t.with_timezone(&tz);
    let year = chrono::Datelike::year(&local);
    if !(0..=9999).contains(&year) {
        return None;
    }
    Some(local.to_rfc2822())
}

/// One commit's plain facts, as the caller's repository layer resolved them:
/// identities already normalized, message already split and escaped upstream
/// of nothing — the header and remainder are escaped here.
pub struct CommitInfo {
    pub id: String,
    pub message: String,
    pub parents: Vec<String>,
    pub hg_id: Option<String>,
    pub github_url: Option<String>,
    pub author_name: String,
    pub author_email: String,
    pub committer_name: String,
    pub committer_email: String,
    pub time_secs: i64,
    pub tz_offset_minutes: i32,
}

/// The escaped first line of a commit message and the escaped rest.
pub open spec fn spec_commit_header(msg: Seq<char>) -> (Seq<char>, Seq<char>) {
    let j = next_newline(msg, 0);
    if j >= msg.len() {
        (esc_seq(msg), Seq::<char>::empty())
    } else {
        (esc_seq(msg.take(j)), esc_seq(msg.skip(j + 1)))
    }
}

/// Splits a commit message into its escaped summary line and escaped body.
pub fn commit_header(msg: &str) -> (r: (String, String))
    ensures
        r.0@ == spec_commit_header(msg@).0,
        r.1@ == spec_commit_header(msg@).1,
{
    let text = str_chars(msg);
    let mut j: usize = 0;
    while j < text.len() && text[j] != '\n'
        invariant
            j <= text@.len(),
            text@ == msg@,
            next_newline(text@, 0) == next_newline(text@, j as int),
        decreases text.len() - j,
    {
        j += 1;
    }
    proof {
        lemma_next_newline(text@, j as int);
        assert(next_newline(text@, j as int) == j as int);
    }
    let mut head: Vec<char> = Vec::new();
    crate::text::append_escaped(&mut head, &text, 0, j);
    let mut rest: Vec<char> = Vec::new();
    if j < text.len() {
        crate::text::append_escaped(&mut rest, &text, j + 1, text.len());
        proof {
            assert(text@.subrange(0, j as int) =~= text@.take(j as int));
            assert(text@.subrange(j + 1, text@.len() as int) =~= text@.skip(j + 1));
        }
    } else {
        proof {
            assert(text@.subrange(0, j as int) =~= text@);
        }
    }
    (chars_string(&head), chars_string(&rest))
}

/// A revision link: the hash, linked to its commit page in this tree.
pub open spec fn spec_rev_link(tree: Seq<char>, oid: Seq<char>) -> Seq<char> {
    "<a href=\"/"@ + tree + "/commit/"@ + oid + "\">"@ + oid + "</a>"@
}

fn append_rev_link(out: &mut Vec<char>, tree: &str, oid: &str)
    ensures
        final(out)@ == old(out)@ + spec_rev_link(tree@, oid@),
{
    append_str(out, "<a href=\"/");
    append_str(out, tree);
    append_str(out, "/commit/");
    append_str(out, oid);
    append_str(out, "\">");
    append_str(out, oid);
    append_str(out, "</a>");
    proof {
        assert(out@ =~= old(out)@ + spec_rev_link(tree@, oid@));
    }
}

/// An identity cell: `name &lt;email>`.
pub open spec fn spec_sig(name: Seq<char>, email: Seq<char>) -> Seq<char> {
    name + " &lt;"@ + email + ">"@
}

/// The position just past the `n`-th space, or nothing when fewer spaces
/// exist: where the payload of a raw diff line begins.
pub open spec fn skip_spaces(s: Seq<char>, i: int, n: int) -> Option<int>
    decreases n, s.len() - i,
{
    if n <= 0 {
        Some(i)
    } else if i < 0 || i >= s.len() {
        None
    } else if s[i] == ' ' {
        skip_spaces(s, i + 1, n - 1)
    } else {
        skip_spaces(s, i + 1, n)
    }
}

/// The index of the first occurrence of `c` at or after `i`, or the length.
pub open spec fn find_char(s: Seq<char>, i: int, c: char) -> int
    decreases s.len() - i,
{
    if i < 0 || i >= s.len() {
        s.len() as int
    } else if s[i] == c {
        i
    } else {
        find_char(s, i + 1, c)
    }
}

pub proof fn lemma_find_char(s: Seq<char>, i: int, c: char)
    requires
        0 <= i <= s.len(),
    ensures
        i <= find_char(s, i, c) <= s.len(),
    decreases s.len() - i,
{
    if i < s.len() && s[i] != c {
        lemma_find_char(s, i + 1, c);
    }
}

fn find_char_exec(s: &Vec<char>, from: usize, c: char) -> (r: usize)
    requires
        from <= s@.len(),
    ensures
        r as int == find_char(s@, from as int, c),
        from <= r <= s@.len(),
{
    let mut j = from;
    while j < s.len() && s[j] != c
        invariant
            from <= j <= s@.len(),
            find_char(s@, from as int, c) == find_char(s@, j as int, c),
        decreases s.len() - j,
    {
        j += 1;
    }
    j
}

/// One changed-file row of a commit: `<li>{status} <a ...>{path}</a>`, read
/// from one raw diff summary line. The status and path stand after the
/// origin markers and `2 * (parents + 1)` space-separated columns; a line
/// without them cannot be read.
pub open spec fn spec_change_row(
    line: Seq<char>,
    np: int,
    tree: Seq<char>,
    id: Seq<char>,
) -> Option<Seq<char>> {
    if line.len() < np {
        None
    } else {
        let suffix = line.skip(np);
        match skip_spaces(suffix, 0, 2 * (np + 1)) {
            None => None,
            Some(start) => {
                let data = suffix.skip(start);
                let t1 = find_char(data, 0, '\t');
                if t1 >= data.len() {
                    None
                } else {
                    let fi0 = data.take(t1);
                    let t2 = find_char(data, t1 + 1, '\t');
                    let fi1 = data.subrange(t1 + 1, t2);
                    Some(
                        "<li>"@ + fi0 + " <a href=\"/"@ + tree + "/diff/"@ + id + "/"@ + fi1
                            + "\">"@ + fi1 + "</a>\n"@,
                    )
                }
            },
        }
    }
}

fn append_change_row(out: &mut Vec<char>, line: &String, np: usize, tree: &str, id: &str) -> (ok:
    bool)
    requires
        np < 0x8000_0000,
    ensures
        ({
            match spec_change_row(line@, np as int, tree@, id@) {
                Some(row) => ok && final(out)@ == old(out)@ + row,
                None => !ok && final(out)@ == old(out)@,
            }
        }),
{
    let lc = str_chars(line.as_str());
    if lc.len() < np {
        return false;
    }
    let ghost suffix = lc@.skip(np as int);
    let mut pos: usize = np;
    let mut need: u64 = 2 * ((np as u64) + 1);
    proof {
        assert(suffix.skip(0) =~= suffix);
    }
    while need > 0 && pos < lc.len()
        invariant
            np <= pos <= lc@.len(),
            suffix == lc@.skip(np as int),
            skip_spaces(suffix, 0, 2 * (np + 1)) == skip_spaces(
                suffix,
                pos - np,
                need as int,
            ),
        decreases need, lc.len() - pos,
    {
        proof {
            assert(suffix[pos - np] == lc@[pos as int]);
        }
        if lc[pos] == ' ' {
            need -= 1;
        }
        pos += 1;
    }
    if need > 0 {
        proof {
            assert(skip_spaces(suffix, pos - np, need as int) is None);
        }
        return false;
    }
    proof {
        assert(skip_spaces(suffix, 0, 2 * (np + 1)) == Some(pos - np));
    }
    let ghost data = suffix.skip(pos - np);
    proof {
        assert(data =~= lc@.skip(pos as int));
    }
    let t1 = find_char_exec(&lc, pos, '\t');
    proof {
        lemma_skip_find_one(lc@, pos as int, pos as int, '\t');
        assert(find_char(data, 0, '\t') == find_char(lc@.skip(pos as int), 0, '\t'));
        assert(find_char(data, 0, '\t') == t1 - pos);
        lemma_find_char(data, 0, '\t');
    }
    if t1 >= lc.len() {
        proof {
            assert(find_char(data, 0, '\t') >= data.len());
        }
        return false;
    }
    let t2 = find_char_exec(&lc, t1 + 1, '\t');
    proof {
        lemma_skip_find_one(lc@, pos as int, t1 + 1, '\t');
        assert(find_char(data, t1 - pos + 1, '\t') == find_char(
            lc@.skip(pos as int),
            t1 + 1 - pos,
            '\t',
        ));
        assert(find_char(data, t1 - pos + 1, '\t') == t2 - pos);
        assert(data.take(t1 - pos) =~= lc@.subrange(pos as int, t1 as int));
        assert(data.subrange(t1 - pos + 1, t2 - pos) =~= lc@.subrange(t1 + 1, t2 as int));
    }
    append_str(out, "<li>");
    append_range(out, &lc, pos, t1);
    append_str(out, " <a href=\"/");
    append_str(out, tree);
    append_str(out, "/diff/");
    append_str(out, id);
    append_str(out, "/");
    append_range(out, &lc, t1 + 1, t2);
    append_str(out, "\">");
    append_range(out, &lc, t1 + 1, t2);
    append_str(out, "</a>\n");
    proof {
        assert(out@ =~= old(out)@ + spec_change_row(line@, np as int, tree@, id@)->0);
    }
    true
}

/// The commit time cell: the RFC 2822 rendering, or empty for a timestamp
/// outside chrono's range.
pub open spec fn spec_commit_time(secs: int, offset_minutes: int) -> Seq<char> {
    if rfc2822_ok(secs, offset_minutes) {
        rfc2822_of(secs, offset_minutes)
    } else {
        Seq::<char>::empty()
    }
}

/// The parent rows of the metadata table.
pub open spec fn spec_parent_rows(tree: Seq<char>, parents: Seq<Seq<char>>) -> Seq<char>
    decreases parents.len(),
{
    if parents.len() == 0 {
        Seq::empty()
    } else {
        spec_parent_rows(tree, parents.drop_last()) + "<tr><td>parent</td><td>"@ + spec_rev_link(
            tree,
            parents.last(),
        ) + "</td></tr>\n"@
    }
}

/// The changed-file list built from the raw diff summary lines; a line that
/// cannot be read stops the render.
pub open spec fn spec_changes(
    lines: Seq<Seq<char>>,
    np: int,
    tree: Seq<char>,
    id: Seq<char>,
    i: int,
) -> Result<Seq<char>, Seq<char>>
    decreases i,
{
    if i <= 0 {
        Ok(Seq::<char>::empty())
    } else {
        match spec_changes(lines, np, tree, id, i - 1) {
            Err(e) => Err(e),
            Ok(acc) => {
                if lines[i - 1].len() == 0 {
                    Ok(acc)
                } else {
                    match spec_change_row(lines[i - 1], np, tree, id) {
                        None => Err("Invalid diff output 3"@),
                        Some(row) => Ok(acc + row),
                    }
                }
            },
        }
    }
}

/// The header block and the opening of the metadata table.
pub open spec fn cih_head(tree: Seq<char>, info: CommitInfo) -> Seq<char> {
    "<h3>"@ + spec_commit_header(info.message@).0 + "</h3>\n"@ + "<pre><code>"@
        + spec_commit_header(info.message@).1 + "</code></pre>\n"@ + "<table>\n"@
        + "<tr><td>commit</td><td>"@ + spec_rev_link(tree, info.id@) + "</td></tr>\n"@
}

/// The mirror-link rows: the Mercurial revision when both the id and the
/// mirror root are known, and the GitHub link when one is configured.
pub open spec fn cih_links(hg_root: Option<Seq<char>>, info: CommitInfo) -> Seq<char> {
    (match info.hg_id {
        Some(h) => match hg_root {
            Some(root) => "<tr><td>hg</td><td><a href=\""@ + root + "/rev/"@ + h@ + "\">"@ + h@
                + "</a></td></tr>\n"@,
            None => Seq::<char>::empty(),
        },
        None => Seq::<char>::empty(),
    }) + (match info.github_url {
        Some(g) => "<tr><td>git</td><td><a href=\""@ + g@ + "/commit/"@ + info.id@ + "\">"@
            + info.id@ + "</a></td></tr>\n"@,
        None => Seq::<char>::empty(),
    })
}

/// The identity and time rows, and the table's close.
pub open spec fn cih_people(info: CommitInfo) -> Seq<char> {
    "<tr><td>author</td><td>"@ + spec_sig(info.author_name@, info.author_email@)
        + "</td></tr>\n"@ + "<tr><td>committer</td><td>"@ + spec_sig(
        info.committer_name@,
        info.committer_email@,
    ) + "</td></tr>\n"@ + "<tr><td>commit time</td><td>"@ + spec_commit_time(
        info.time_secs as int,
        info.tz_offset_minutes as int,
    ) + "</td></tr>\n"@ + "</table>\n"@
}

/// The full commit page body for one commit's facts plus its change list.
pub open spec fn commit_info_html(
    tree: Seq<char>,
    hg_root: Option<Seq<char>>,
    info: CommitInfo,
    changes: Seq<char>,
) -> Seq<char> {
    cih_head(tree, info) + spec_parent_rows(tree, info.parents@.map_values(|p: String| p@))
        + cih_links(hg_root, info) + cih_people(info) + "<ul>\n"@ + changes + "</ul>\n"@
}

/// Renders the commit info section: header, metadata table, changed files.
/// The change list comes from the raw diff summary; an unreadable summary
/// line is the typed failure the original surfaced.
#[verifier::rlimit(100)]
#[verifier::spinoff_prover]
pub fn generate_commit_info(
    tree_name: &str,
    hg_root: Option<&str>,
    info: &CommitInfo,
    rawdiff: &str,
) -> (r: Result<String, &'static str>)
    requires
        info.parents@.len() < 0x8000_0000,
    ensures
        ({
            let lines = crate::diff::split_lines_spec(rawdiff@);
            let hr = match hg_root {
                Some(h) => Some(h@),
                None => None,
            };
            match spec_changes(
                lines,
                info.parents@.len() as int,
                tree_name@,
                info.id@,
                lines.len() as int,
            ) {
                Err(e) => r matches Err(m) && m@ == e,
                Ok(ch) => r matches Ok(s) && s@ == commit_info_html(tree_name@, hr, *info, ch),
            }
        }),
{
    let ghost lines_s = crate::diff::split_lines_spec(rawdiff@);
    let np = info.parents.len();
    // The change list first, since an unreadable line aborts the render
    // before any output.
    let lines = split_lines(rawdiff);
    let mut changes: Vec<char> = Vec::new();
    let mut i: usize = 0;
    while i < lines.len()
        invariant
            i <= lines@.len(),
            np == info.parents@.len(),
            np < 0x8000_0000,
            lines_s == crate::diff::split_lines_spec(rawdiff@),
            lines@.map_values(|l: String| l@) == lines_s,
            spec_changes(lines_s, np as int, tree_name@, info.id@, i as int) matches Ok(acc)
                && changes@ == acc,
        decreases lines.len() - i,
    {
        let ghost pre = changes@;
        let line = &lines[i];
        if !line.as_str().is_empty() {
            let ok = append_change_row(&mut changes, line, np, tree_name, &info.id);
            if !ok {
                proof {
                    assert(spec_changes(lines_s, np as int, tree_name@, info.id@, i + 1)
                        matches Err(m) && m == "Invalid diff output 3"@);
                    lemma_changes_err(
                        lines_s,
                        np as int,
                        tree_name@,
                        info.id@,
                        i + 1,
                        lines_s.len() as int,
                    );
                    assert(spec_changes(
                        lines_s,
                        np as int,
                        tree_name@,
                        info.id@,
                        lines_s.len() as int,
                    ) == Err::<Seq<char>, Seq<char>>("Invalid diff output 3"@));
                }
                return Err("Invalid diff output 3");
            }
        }
        i += 1;
        proof {
            assert(lines@[i - 1]@ == lines_s[i - 1]);
        }
    }
    let mut out: Vec<char> = Vec::new();
    append_commit_head(&mut out, tree_name, info);
    append_parent_rows(&mut out, tree_name, info);
    append_commit_links(&mut out, hg_root, info);
    append_commit_people(&mut out, info);
    append_str(&mut out, "<ul>\n");
    append_all(&mut out, &changes);
    append_str(&mut out, "</ul>\n");
    proof {
        let hr = match hg_root {
            Some(h) => Some::<Seq<char>>(h@),
            None => None,
        };
        assert(out@ =~= commit_info_html(tree_name@, hr, *info, changes@));
    }
    Ok(chars_string(&out))
}


fn append_commit_head(out: &mut Vec<char>, tree_name: &str, info: &CommitInfo)
    ensures
        final(out)@ == old(out)@ + cih_head(tree_name@, *info),
{
    let (header, remainder) = commit_header(info.message.as_str());
    append_str(out, "<h3>");
    append_str(out, header.as_str());
    append_str(out, "</h3>\n");
    append_str(out, "<pre><code>");
    append_str(out, remainder.as_str());
    append_str(out, "</code></pre>\n");
    append_str(out, "<table>\n");
    append_str(out, "<tr><td>commit</td><td>");
    append_rev_link(out, tree_name, info.id.as_str());
    append_str(out, "</td></tr>\n");
    proof {
        assert(out@ =~= old(out)@ + cih_head(tree_name@, *info));
    }
}

fn append_parent_rows(out: &mut Vec<char>, tree_name: &str, info: &CommitInfo)
    ensures
        final(out)@ == old(out)@ + spec_parent_rows(
            tree_name@,
            info.parents@.map_values(|p: String| p@),
        ),
{
    let ghost p_elems = info.parents@.map_values(|p: String| p@);
    let ghost mid = out@;
    let mut k: usize = 0;
    while k < info.parents.len()
        invariant
            k <= info.parents@.len(),
            p_elems == info.parents@.map_values(|p: String| p@),
            out@ == mid + spec_parent_rows(tree_name@, p_elems.take(k as int)),
        decreases info.parents.len() - k,
    {
        append_str(out, "<tr><td>parent</td><td>");
        append_rev_link(out, tree_name, info.parents[k].as_str());
        append_str(out, "</td></tr>\n");
        k += 1;
        proof {
            assert(p_elems.take(k as int).drop_last() =~= p_elems.take(k - 1));
            assert(p_elems.take(k as int).last() == p_elems[k - 1]);
            assert(out@ =~= mid + spec_parent_rows(tree_name@, p_elems.take(k as int)));
        }
    }
    proof {
        assert(p_elems.take(p_elems.len() as int) =~= p_elems);
    }
}

fn append_commit_links(out: &mut Vec<char>, hg_root: Option<&str>, info: &CommitInfo)
    ensures
        final(out)@ == old(out)@ + cih_links(
            match hg_root {
                Some(h) => Some(h@),
                None => None,
            },
            *info,
        ),
{
    match &info.hg_id {
        Some(h) => {
            match hg_root {
                Some(root) => {
                    append_str(out, "<tr><td>hg</td><td><a href=\"");
                    append_str(out, root);
                    append_str(out, "/rev/");
                    append_str(out, h.as_str());
                    append_str(out, "\">");
                    append_str(out, h.as_str());
                    append_str(out, "</a></td></tr>\n");
                },
                None => {},
            }
        },
        None => {},
    }
    match &info.github_url {
        Some(g) => {
            append_str(out, "<tr><td>git</td><td><a href=\"");
            append_str(out, g.as_str());
            append_str(out, "/commit/");
            append_str(out, info.id.as_str());
            append_str(out, "\">");
            append_str(out, info.id.as_str());
            append_str(out, "</a></td></tr>\n");
        },
        None => {},
    }
    proof {
        let hr = match hg_root {
            Some(h) => Some::<Seq<char>>(h@),
            None => None,
        };
        assert(out@ =~= old(out)@ + cih_links(hr, *info));
    }
}

fn append_commit_people(out: &mut Vec<char>, info: &CommitInfo)
    ensures
        final(out)@ == old(out)@ + cih_people(*info),
{
    append_str(out, "<tr><td>author</td><td>");
    append_str(out, info.author_name.as_str());
    append_str(out, " &lt;");
    append_str(out, info.author_email.as_str());
    append_str(out, ">");
    append_str(out, "</td></tr>\n");
    append_str(out, "<tr><td>committer</td><td>");
    append_str(out, info.committer_name.as_str());
    append_str(out, " &lt;");
    append_str(out, info.committer_email.as_str());
    append_str(out, ">");
    append_str(out, "</td></tr>\n");
    append_str(out, "<tr><td>commit time</td><td>");
    match rfc2822_time(info.time_secs, info.tz_offset_minutes) {
        Some(t) => {
            append_str(out, t.as_str());
        },
        None => {},
    }
    append_str(out, "</td></tr>\n");
    append_str(out, "</table>\n");
    proof {
        assert(out@ =~= old(out)@ + cih_people(*info));
    }
}

/// An unreadable change line stops the fold for good.
pub proof fn lemma_changes_err(
    lines: Seq<Seq<char>>,
    np: int,
    tree: Seq<char>,
    id: Seq<char>,
    i: int,
    j: int,
)
    requires
        0 <= i <= j,
        spec_changes(lines, np, tree, id, i) is Err,
    ensures
        spec_changes(lines, np, tree, id, j) == spec_changes(lines, np, tree, id, i),
    decreases j - i,
{
    if i < j {
        lemma_changes_err(lines, np, tree, id, i, j - 1);
    }
}

/// Renders one commit's page body: the commit info section over the plain
/// facts the repository layer resolved and the raw diff summary it fetched.
pub fn format_commit(
    tree_name: &str,
    hg_root: Option<&str>,
    info: &CommitInfo,
    rawdiff: &str,
) -> (r: Result<String, &'static str>)
    requires
        info.parents@.len() < 0x8000_0000,
    ensures
        ({
            let lines = crate::diff::split_lines_spec(rawdiff@);
            let hr = match hg_root {
                Some(h) => Some(h@),
                None => None,
            };
            match spec_changes(
                lines,
                info.parents@.len() as int,
                tree_name@,
                info.id@,
                lines.len() as int,
            ) {
                Err(e) => r matches Err(m) && m@ == e,
                Ok(ch) => r matches Ok(s) && s@ == commit_info_html(tree_name@, hr, *info, ch),
            }
        }),
{
    generate_commit_info(tree_name, hg_root, info, rawdiff)
}

/// The checks that guard reading a tree entry as file content: only a blob
/// that is not a symbolic link may be rendered. The entry's kind and file
/// mode come from the caller's repository layer.
pub fn entry_to_blob_gate(is_blob: bool, filemode: u64) -> (r: Result<(), &'static str>)
    ensures
        !is_blob ==> (r matches Err(e) && e@ == "Invalid path; expected file"@),
        is_blob && filemode == 120000 ==> (r matches Err(e) && e@ == "Path is to a symlink"@),
        is_blob && filemode != 120000 ==> r is Ok,
{
    if !is_blob {
        Err("Invalid path; expected file")
    } else if filemode == 120000 {
        Err("Path is to a symlink")
    } else {
        Ok(())
    }
}

/// A find on the tail of a skipped prefix is the find on the original,
/// shifted.
pub proof fn lemma_skip_find(s: Seq<char>, base: int, c: char)
    requires
        0 <= base <= s.len(),
    ensures
        forall|k: int|
            base <= k <= s.len() ==> #[trigger] find_char(s.skip(base), k - base, c) + base
                == find_char(s, k, c),
    decreases s.len() - base,
{
    assert forall|k: int| base <= k <= s.len() implies #[trigger] find_char(
        s.skip(base),
        k - base,
        c,
    ) + base == find_char(s, k, c) by {
        lemma_skip_find_one(s, base, k, c);
    }
}

pub proof fn lemma_skip_find_one(s: Seq<char>, base: int, k: int, c: char)
    requires
        0 <= base <= k <= s.len(),
    ensures
        find_char(s.skip(base), k - base, c) + base == find_char(s, k, c),
    decreases s.len() - k,
{
    if k < s.len() {
        assert(s.skip(base)[k - base] == s[k]);
        if s[k] != c {
            lemma_skip_find_one(s, base, k + 1, c);
        }
    }
}

} // verus!
